use vstd::prelude::*;

verus! {

/// The Unicode `White_Space` property.
pub open spec fn is_white_space(c: char) -> bool {
    let u = c as u32;
    ||| 0x9 <= u <= 0xd
    ||| u == 0x20
    ||| u == 0x85
    ||| u == 0xa0
    ||| u == 0x1680
    ||| 0x2000 <= u <= 0x200a
    ||| u == 0x2028
    ||| u == 0x2029
    ||| u == 0x202f
    ||| u == 0x205f
    ||| u == 0x3000
}

/// A line that is empty once surrounding white space is trimmed.
pub open spec fn is_blank(line: Seq<char>) -> bool {
    forall|i: int| 0 <= i < line.len() ==> is_white_space(#[trigger] line[i])
}

/// The pieces of `s` between line feeds, in order; a text of `k` line
/// feeds has `k + 1` pieces, some of them possibly empty.
pub open spec fn split_lines(s: Seq<char>) -> Seq<Seq<char>>
    decreases s.len(),
{
    if s.len() == 0 {
        seq![Seq::empty()]
    } else {
        let prev = split_lines(s.drop_last());
        if s.last() == '\n' {
            prev.push(Seq::empty())
        } else {
            prev.update(prev.len() - 1, prev.last().push(s.last()))
        }
    }
}

/// The lines of `ls` that are not blank, in order.
pub open spec fn non_blank(ls: Seq<Seq<char>>) -> Seq<Seq<char>>
    decreases ls.len(),
{
    if ls.len() == 0 {
        seq![]
    } else {
        let prev = non_blank(ls.drop_last());
        if is_blank(ls.last()) {
            prev
        } else {
            prev.push(ls.last())
        }
    }
}

/// The lines of a body that carry content.
pub open spec fn content_lines_of(body: Seq<char>) -> Seq<Seq<char>> {
    non_blank(split_lines(body))
}

proof fn lemma_split_lines_nonempty(s: Seq<char>)
    ensures
        split_lines(s).len() >= 1,
    decreases s.len(),
{
    if s.len() > 0 {
        lemma_split_lines_nonempty(s.drop_last());
    }
}

/// A text made only of line feeds and white space has no line with content.
pub proof fn lemma_blank_body_has_no_content_lines(body: Seq<char>)
    requires
        forall|i: int| 0 <= i < body.len() ==> body[i] == '\n' || is_white_space(#[trigger] body[i]),
    ensures
        content_lines_of(body).len() == 0,
{
    lemma_split_lines_all_blank(body);
    lemma_non_blank_of_blank(split_lines(body));
}

proof fn lemma_split_lines_all_blank(s: Seq<char>)
    requires
        forall|i: int| 0 <= i < s.len() ==> s[i] == '\n' || is_white_space(#[trigger] s[i]),
    ensures
        forall|j: int| 0 <= j < split_lines(s).len() ==> is_blank(#[trigger] split_lines(s)[j]),
    decreases s.len(),
{
    if s.len() > 0 {
        let t = s.drop_last();
        assert forall|i: int| 0 <= i < t.len() implies t[i] == '\n' || is_white_space(#[trigger] t[i]) by {
            assert(t[i] == s[i]);
        }
        lemma_split_lines_all_blank(t);
        lemma_split_lines_nonempty(t);
        let prev = split_lines(t);
        if s.last() != '\n' {
            let l = prev.last().push(s.last());
            assert(is_white_space(s[s.len() - 1]));
            assert forall|k: int| 0 <= k < l.len() implies is_white_space(#[trigger] l[k]) by {
                if k < l.len() - 1 {
                    assert(is_blank(prev[prev.len() - 1]));
                }
            }
        }
    }
}

proof fn lemma_non_blank_of_blank(ls: Seq<Seq<char>>)
    requires
        forall|j: int| 0 <= j < ls.len() ==> is_blank(#[trigger] ls[j]),
    ensures
        non_blank(ls).len() == 0,
    decreases ls.len(),
{
    if ls.len() > 0 {
        let t = ls.drop_last();
        assert forall|j: int| 0 <= j < t.len() implies is_blank(#[trigger] t[j]) by {
            assert(t[j] == ls[j]);
        }
        lemma_non_blank_of_blank(t);
        assert(is_blank(ls[ls.len() - 1]));
    }
}

/// Relies on `char::is_whitespace`: true exactly for the characters with
/// the Unicode `White_Space` property.
#[verifier::external_body]
fn is_whitespace(c: char) -> (r: bool)
    ensures
        r == is_white_space(c),
{
    c.is_whitespace()
}

/// Relies on `str::chars`: the characters of the text, in order.
#[verifier::external_body]
fn chars_of(s: &str) -> (r: Vec<char>)
    ensures
        r@ == s@,
{
    s.chars().collect()
}

/// Relies on `String`'s `FromIterator<&char>`: the characters, in order.
#[verifier::external_body]
fn string_of(v: &Vec<char>) -> (r: String)
    ensures
        r@ == v@,
{
    v.iter().collect()
}

/// Splits `body` on line feeds and keeps, in order, each line that is not
/// blank, untrimmed.
pub fn content_lines(body: &str) -> (r: Vec<String>)
    ensures
        r@.len() == content_lines_of(body@).len(),
        forall|i: int| 0 <= i < r@.len() ==> #[trigger] r@[i]@ == content_lines_of(body@)[i],
{
    let chars = chars_of(body);
    let mut out: Vec<String> = Vec::new();
    let mut cur: Vec<char> = Vec::new();
    let mut cur_blank = true;
    let ghost mut done: Seq<Seq<char>> = Seq::empty();
    let mut i: usize = 0;
    while i < chars.len()
        invariant
            0 <= i <= chars@.len(),
            chars@ == body@,
            split_lines(chars@.take(i as int)) == done.push(cur@),
            cur_blank == is_blank(cur@),
            out@.len() == non_blank(done).len(),
            forall|j: int| 0 <= j < out@.len() ==> #[trigger] out@[j]@ == non_blank(done)[j],
        decreases chars@.len() - i,
    {
        let c = chars[i];
        assert(chars@.take(i + 1).drop_last() =~= chars@.take(i as int));
        if c == '\n' {
            proof {
                assert(done.push(cur@).drop_last() =~= done);
            }
            if !cur_blank {
                let line = string_of(&cur);
                out.push(line);
            }
            proof {
                done = done.push(cur@);
            }
            cur = Vec::new();
            cur_blank = true;
            assert(split_lines(chars@.take(i + 1)) =~= done.push(cur@));
        } else {
            let w = is_whitespace(c);
            let ghost old_cur = cur@;
            cur.push(c);
            cur_blank = cur_blank && w;
            assert(cur@ =~= old_cur.push(c));
            assert(split_lines(chars@.take(i + 1)) =~= done.push(cur@));
            assert(cur_blank == is_blank(cur@)) by {
                if cur_blank {
                    assert forall|k: int| 0 <= k < cur@.len() implies is_white_space(#[trigger] cur@[k]) by {
                        if k < old_cur.len() {
                            assert(cur@[k] == old_cur[k]);
                        }
                    }
                } else if !w {
                    assert(!is_white_space(cur@[cur@.len() - 1]));
                } else {
                    let k = choose|k: int| 0 <= k < old_cur.len() && !is_white_space(#[trigger] old_cur[k]);
                    assert(cur@[k] == old_cur[k]);
                }
            }
        }
        i = i + 1;
    }
    assert(chars@.take(chars@.len() as int) =~= chars@);
    let ghost lines = done.push(cur@);
    assert(lines.drop_last() =~= done);
    if !cur_blank {
        let line = string_of(&cur);
        out.push(line);
    }
    out
}

} // verus!
