use vstd::prelude::*;
use vstd::string::StringExecFns;

use mailparse::{MailAddr, MailHeader, MailHeaderMap, MailParseError, ParsedMail};

verus! {

/// A file carried by an email: an inline image or an attachment.
pub struct File {
    /// The part's body with its transfer encoding undone.
    pub data: Vec<u8>,
    /// The part's `Content-ID` header (images only).
    pub id: Option<String>,
    /// The `name` parameter of the part's content type.
    pub name: String,
}

/// What the decomposer keeps of one email.
pub struct ParsedEmail {
    /// The last `text/plain` part met in depth-first order, decoded.
    pub body: String,
    /// The parts that are neither text, image nor multipart, in order.
    pub files: Vec<File>,
    /// The sender's one address.
    pub from: String,
    /// The `image/*` parts, in order.
    pub images: Vec<File>,
    pub message_id: Option<String>,
    pub subject: String,
}

/// One node of an email's content tree, with what the decomposer reads of it.
pub struct MimePart {
    /// The declared content type, such as `text/plain`.
    pub mimetype: String,
    /// The content type's `name` parameter.
    pub name: Option<String>,
    /// The `Content-ID` header.
    pub content_id: Option<String>,
    /// The body decoded to text, or what the decoder reported.
    pub body: Result<String, String>,
    /// The body with its transfer encoding undone, or what the decoder
    /// reported.
    pub raw: Result<Vec<u8>, String>,
    /// The sub-parts of a `multipart/*` node.
    pub subparts: Vec<MimePart>,
}

/// One entry of an address header.
pub enum Address {
    /// One mailbox, by its address.
    Single(String),
    /// A named group of mailboxes.
    Group,
}

/// Why an email could not be decomposed.
#[derive(Debug)]
pub enum EmailError {
    /// The bytes are not a MIME message.
    Malformed,
    /// `From` is absent or is not exactly one mailbox, or `Subject` is absent.
    HeaderError,
    /// A body that the result needs could not be decoded; the decoder's
    /// report.
    BodyDecodeError(String),
    /// An image or attachment has no `name` parameter.
    MissingNameError,
    /// The content tree is nested deeper than the decomposer follows.
    NestingTooDeep,
}

/// A file, as values.
pub ghost struct FileModel {
    pub data: Seq<u8>,
    pub id: Option<Seq<char>>,
    pub name: Seq<char>,
}

/// What has been collected of the leaves visited so far.
pub ghost struct Collected {
    pub body: Seq<char>,
    pub images: Seq<FileModel>,
    pub files: Seq<FileModel>,
}

pub open spec fn opt_view(s: Option<String>) -> Option<Seq<char>> {
    match s {
        Some(v) => Some(v@),
        None => None,
    }
}

impl File {
    pub open spec fn model(self) -> FileModel {
        FileModel { data: self.data@, id: opt_view(self.id), name: self.name@ }
    }
}

impl ParsedEmail {
    pub open spec fn collected(&self) -> Collected {
        Collected {
            body: self.body@,
            images: self.images@.map_values(|f: File| f.model()),
            files: self.files@.map_values(|f: File| f.model()),
        }
    }
}

pub open spec fn has_prefix(s: Seq<char>, prefix: Seq<char>) -> bool {
    prefix.len() <= s.len() && s.subrange(0, prefix.len() as int) == prefix
}

pub open spec fn is_multipart(mimetype: Seq<char>) -> bool {
    has_prefix(mimetype, "multipart/"@)
}

pub open spec fn is_text(mimetype: Seq<char>) -> bool {
    has_prefix(mimetype, "text/"@)
}

pub open spec fn is_image(mimetype: Seq<char>) -> bool {
    has_prefix(mimetype, "image/"@)
}

/// The leaves of the tree under `p`, in depth-first pre-order.
pub open spec fn leaves(p: MimePart) -> Seq<MimePart>
    decreases p, 0nat,
{
    if is_multipart(p.mimetype@) {
        leaves_from(p.subparts@, 0)
    } else {
        seq![p]
    }
}

/// The leaves under `ps[i]`, `ps[i + 1]`, ..., in order.
pub open spec fn leaves_from(ps: Seq<MimePart>, i: int) -> Seq<MimePart>
    decreases ps, ps.len() - i,
{
    if 0 <= i < ps.len() {
        leaves(ps[i]) + leaves_from(ps, i + 1)
    } else {
        seq![]
    }
}

/// The file that a named leaf with a decoded body becomes.
pub open spec fn file_of(p: MimePart, with_id: bool) -> FileModel {
    FileModel {
        data: p.raw->Ok_0@,
        id: if with_id { opt_view(p.content_id) } else { None },
        name: p.name->Some_0@,
    }
}

/// What visiting one leaf does to what was collected.
pub open spec fn visit(c: Collected, p: MimePart) -> Result<Collected, EmailError> {
    let m = p.mimetype@;
    if is_text(m) {
        if m == "text/plain"@ {
            match p.body {
                Ok(b) => Ok(Collected { body: b@, ..c }),
                Err(msg) => Err(EmailError::BodyDecodeError(msg)),
            }
        } else {
            Ok(c)
        }
    } else if p.name is None {
        Err(EmailError::MissingNameError)
    } else if p.raw is Err {
        Err(EmailError::BodyDecodeError(p.raw->Err_0))
    } else if is_image(m) {
        Ok(Collected { images: c.images.push(file_of(p, true)), ..c })
    } else {
        Ok(Collected { files: c.files.push(file_of(p, false)), ..c })
    }
}

/// Visits `ls` in order from `c`, stopping at the first failure.
pub open spec fn visit_all(c: Collected, ls: Seq<MimePart>) -> Result<Collected, EmailError>
    decreases ls.len(),
{
    if ls.len() == 0 {
        Ok(c)
    } else {
        match visit_all(c, ls.drop_last()) {
            Ok(c2) => visit(c2, ls.last()),
            Err(e) => Err(e),
        }
    }
}

proof fn lemma_visit_all_append(c: Collected, a: Seq<MimePart>, b: Seq<MimePart>)
    ensures
        visit_all(c, a + b) == match visit_all(c, a) {
            Ok(c2) => visit_all(c2, b),
            Err(e) => Err(e),
        },
    decreases b.len(),
{
    if b.len() == 0 {
        assert(a + b =~= a);
    } else {
        lemma_visit_all_append(c, a, b.drop_last());
        assert((a + b).drop_last() =~= a + b.drop_last());
    }
}

/// The sender's address, where `from` is exactly one mailbox.
pub open spec fn single_sender(from: Seq<Address>) -> Option<Seq<char>> {
    if from.len() == 1 && from[0] is Single {
        Some(from[0]->Single_0@)
    } else {
        None
    }
}

pub open spec fn nothing_collected() -> Collected {
    Collected { body: seq![], images: seq![], files: seq![] }
}

/// What decomposing a message gives: `HeaderError` unless `from` is
/// exactly one mailbox and `subject` is present; else the result of
/// visiting the leaves of `root`, with those headers.
pub open spec fn decomposes(
    root: MimePart,
    from: Seq<Address>,
    subject: Option<Seq<char>>,
    message_id: Option<Seq<char>>,
    r: Result<ParsedEmail, EmailError>,
) -> bool {
    if single_sender(from) is None || subject is None {
        r == Err::<ParsedEmail, EmailError>(EmailError::HeaderError)
    } else {
        match visit_all(nothing_collected(), leaves(root)) {
            Ok(c) => r matches Ok(e) && e.collected() == c && e.from@ == single_sender(from)->Some_0
                && e.subject@ == subject->Some_0 && opt_view(e.message_id) == message_id,
            Err(err) => r == Err::<ParsedEmail, EmailError>(err),
        }
    }
}

/// Relies on `str::starts_with` with a `&str` pattern: whether `prefix`
/// is a prefix of `s`.
#[verifier::external_body]
fn starts_with(s: &str, prefix: &str) -> (r: bool)
    ensures
        r == has_prefix(s@, prefix@),
{
    s.starts_with(prefix)
}

fn copy_opt(s: &Option<String>) -> (r: Option<String>)
    ensures
        opt_view(r) == opt_view(*s),
{
    match s {
        Some(v) => Some(v.clone()),
        None => None,
    }
}

/// Classifies one leaf part into `acc`.
fn visit_leaf(p: &MimePart, acc: &mut ParsedEmail) -> (r: Result<(), EmailError>)
    ensures
        visit(old(acc).collected(), *p) == match r {
            Ok(_) => Ok(final(acc).collected()),
            Err(e) => Err(e),
        },
        final(acc).from == old(acc).from,
        final(acc).subject == old(acc).subject,
        final(acc).message_id == old(acc).message_id,
{
    let ghost c = old(acc).collected();
    if starts_with(p.mimetype.as_str(), "text/") {
        if p.mimetype == String::from_str("text/plain") {
            match &p.body {
                Ok(b) => {
                    acc.body = b.clone();
                    assert(acc.collected() == Collected { body: b@, ..c });
                    Ok(())
                },
                Err(msg) => Err(EmailError::BodyDecodeError(msg.clone())),
            }
        } else {
            Ok(())
        }
    } else {
        match (&p.name, &p.raw) {
            (None, _) => Err(EmailError::MissingNameError),
            (Some(_), Err(msg)) => Err(EmailError::BodyDecodeError(msg.clone())),
            (Some(name), Ok(raw)) => {
                let image = starts_with(p.mimetype.as_str(), "image/");
                let data = raw.clone();
                assert(data@ =~= raw@);
                let file = File {
                    data,
                    id: if image { copy_opt(&p.content_id) } else { None },
                    name: name.clone(),
                };
                if image {
                    acc.images.push(file);
                    assert(acc.images@.map_values(|f: File| f.model()) =~= c.images.push(file_of(*p, true)));
                } else {
                    acc.files.push(file);
                    assert(acc.files@.map_values(|f: File| f.model()) =~= c.files.push(file_of(*p, false)));
                }
                Ok(())
            },
        }
    }
}

/// Visits the tree under `p` depth-first, in pre-order, into `acc`.
fn walk(p: &MimePart, acc: &mut ParsedEmail) -> (r: Result<(), EmailError>)
    ensures
        visit_all(old(acc).collected(), leaves(*p)) == match r {
            Ok(_) => Ok(final(acc).collected()),
            Err(e) => Err(e),
        },
        final(acc).from == old(acc).from,
        final(acc).subject == old(acc).subject,
        final(acc).message_id == old(acc).message_id,
    decreases p,
{
    let ghost c0 = old(acc).collected();
    if starts_with(p.mimetype.as_str(), "multipart/") {
        let ghost ps = p.subparts@;
        let mut i: usize = 0;
        assert(leaves(*p) == leaves_from(ps, 0));
        while i < p.subparts.len()
            invariant
                0 <= i <= ps.len(),
                ps == p.subparts@,
                c0 == old(acc).collected(),
                visit_all(c0, leaves(*p)) == visit_all(acc.collected(), leaves_from(ps, i as int)),
                acc.from == old(acc).from,
                acc.subject == old(acc).subject,
                acc.message_id == old(acc).message_id,
            decreases ps.len() - i,
        {
            let ghost ci = acc.collected();
            proof {
                assert(leaves_from(ps, i as int) == leaves(ps[i as int]) + leaves_from(ps, i + 1));
                lemma_visit_all_append(ci, leaves(ps[i as int]), leaves_from(ps, i + 1));
            }
            let r = walk(&p.subparts[i], acc);
            match r {
                Err(e) => {
                    assert(visit_all(ci, leaves(ps[i as int])) == Err::<Collected, EmailError>(e));
                    assert(visit_all(c0, leaves(*p)) == Err::<Collected, EmailError>(e));
                    return Err(e);
                },
                Ok(_) => {},
            }
            i = i + 1;
        }
        assert(leaves_from(ps, i as int) =~= seq![]);
        Ok(())
    } else {
        let r = visit_leaf(p, acc);
        assert(leaves(*p) == seq![*p]);
        assert(seq![*p].drop_last() =~= seq![]);
        assert(visit_all(c0, seq![]) == Ok::<Collected, EmailError>(c0));
        assert(seq![*p].last() == *p);
        assert(visit_all(c0, seq![*p]) == visit(c0, *p));
        r
    }
}

/// Decomposes a message given its `From` entries, its `Subject` and
/// `Message-ID` headers and its content tree. Fails with `HeaderError`
/// unless `From` is exactly one mailbox and `Subject` is present; else
/// visits the leaves of `root` in depth-first pre-order: the last
/// `text/plain` part gives the body, other text is skipped, `image/*`
/// parts become images, and every other part becomes a file. The first
/// leaf that cannot be classified decides the error.
pub fn decompose(
    root: &MimePart,
    from: &Vec<Address>,
    subject: Option<String>,
    message_id: Option<String>,
) -> (r: Result<ParsedEmail, EmailError>)
    ensures
        decomposes(*root, from@, opt_view(subject), opt_view(message_id), r),
{
    if from.len() != 1 {
        return Err(EmailError::HeaderError);
    }
    let sender = match &from[0] {
        Address::Single(a) => a.clone(),
        Address::Group => {
            return Err(EmailError::HeaderError);
        },
    };
    let subject = match subject {
        Some(s) => s,
        None => {
            return Err(EmailError::HeaderError);
        },
    };
    let mut result = ParsedEmail {
        body: String::new(),
        files: Vec::new(),
        from: sender,
        images: Vec::new(),
        message_id,
        subject,
    };
    assert(result.images@.map_values(|f: File| f.model()) =~= seq![]);
    assert(result.files@.map_values(|f: File| f.model()) =~= seq![]);
    assert(result.collected() == nothing_collected());
    match walk(root, &mut result) {
        Ok(_) => Ok(result),
        Err(e) => Err(e),
    }
}

/// A leaf that visiting accepts: a text part whose body decodes where it
/// is `text/plain`, or any other part with a name and a decodable body.
pub open spec fn leaf_ok(p: MimePart) -> bool {
    if is_text(p.mimetype@) {
        p.mimetype@ == "text/plain"@ ==> p.body is Ok
    } else {
        p.name is Some && p.raw is Ok
    }
}

/// The images that the leaves `ls` give, in order.
pub open spec fn images_in(ls: Seq<MimePart>) -> Seq<FileModel>
    decreases ls.len(),
{
    if ls.len() == 0 {
        seq![]
    } else if !is_text(ls.last().mimetype@) && is_image(ls.last().mimetype@) {
        images_in(ls.drop_last()).push(file_of(ls.last(), true))
    } else {
        images_in(ls.drop_last())
    }
}

/// The files that the leaves `ls` give, in order.
pub open spec fn files_in(ls: Seq<MimePart>) -> Seq<FileModel>
    decreases ls.len(),
{
    if ls.len() == 0 {
        seq![]
    } else if !is_text(ls.last().mimetype@) && !is_image(ls.last().mimetype@) {
        files_in(ls.drop_last()).push(file_of(ls.last(), false))
    } else {
        files_in(ls.drop_last())
    }
}

/// The body after visiting `ls` from a body `b`: that of the last
/// `text/plain` leaf, or `b` where there is none.
pub open spec fn last_plain_body(b: Seq<char>, ls: Seq<MimePart>) -> Seq<char>
    decreases ls.len(),
{
    if ls.len() == 0 {
        b
    } else if ls.last().mimetype@ == "text/plain"@ {
        ls.last().body->Ok_0@
    } else {
        last_plain_body(b, ls.drop_last())
    }
}

proof fn lemma_plain_is_text()
    ensures
        is_text("text/plain"@),
        !is_multipart("text/plain"@),
{
    reveal_strlit("text/plain");
    reveal_strlit("text/");
    reveal_strlit("multipart/");
    assert("text/plain"@.subrange(0, 5) =~= "text/"@);
    assert("text/plain"@.subrange(0, 10) != "multipart/"@) by {
        assert("text/plain"@.subrange(0, 10)[0] != "multipart/"@[0]);
    }
}

/// Visiting leaves that are all accepted succeeds: the body is that of the
/// last `text/plain` leaf, and the images and files are appended in order.
pub proof fn lemma_visit_all_ok(c: Collected, ls: Seq<MimePart>)
    requires
        forall|j: int| 0 <= j < ls.len() ==> leaf_ok(#[trigger] ls[j]),
    ensures
        visit_all(c, ls) == Ok::<Collected, EmailError>(
            Collected {
                body: last_plain_body(c.body, ls),
                images: c.images + images_in(ls),
                files: c.files + files_in(ls),
            },
        ),
    decreases ls.len(),
{
    lemma_plain_is_text();
    if ls.len() == 0 {
        assert(c.images + seq![] =~= c.images);
        assert(c.files + seq![] =~= c.files);
    } else {
        let t = ls.drop_last();
        assert forall|j: int| 0 <= j < t.len() implies leaf_ok(#[trigger] t[j]) by {
            assert(t[j] == ls[j]);
        }
        lemma_visit_all_ok(c, t);
        assert(leaf_ok(ls[ls.len() - 1]));
        assert(c.images + images_in(t).push(file_of(ls.last(), true)) =~= (c.images + images_in(t)).push(file_of(ls.last(), true)));
        assert(c.files + files_in(t).push(file_of(ls.last(), false)) =~= (c.files + files_in(t)).push(file_of(ls.last(), false)));
    }
}

/// The number of leaves of `ls` that are not text.
pub open spec fn non_text_count(ls: Seq<MimePart>) -> nat
    decreases ls.len(),
{
    if ls.len() == 0 {
        0
    } else if is_text(ls.last().mimetype@) {
        non_text_count(ls.drop_last())
    } else {
        non_text_count(ls.drop_last()) + 1
    }
}

proof fn lemma_split_counts(ls: Seq<MimePart>)
    ensures
        images_in(ls).len() + files_in(ls).len() == non_text_count(ls),
    decreases ls.len(),
{
    if ls.len() > 0 {
        lemma_split_counts(ls.drop_last());
    }
}

/// Where `ls[t]` is the one text leaf, it is `text/plain`, and every other
/// leaf is not text: the body is that leaf's and every other leaf counts.
proof fn lemma_one_plain(b: Seq<char>, ls: Seq<MimePart>, t: int)
    requires
        0 <= t < ls.len(),
        ls[t].mimetype@ == "text/plain"@,
        forall|j: int| 0 <= j < ls.len() && j != t ==> !is_text(#[trigger] ls[j].mimetype@),
    ensures
        last_plain_body(b, ls) == ls[t].body->Ok_0@,
        non_text_count(ls) == ls.len() - 1,
    decreases ls.len(),
{
    lemma_plain_is_text();
    let d = ls.drop_last();
    if t == ls.len() - 1 {
        assert forall|j: int| 0 <= j < d.len() implies !is_text(#[trigger] d[j].mimetype@) by {
            assert(d[j] == ls[j]);
        }
        lemma_no_text(d);
    } else {
        assert forall|j: int| 0 <= j < d.len() && j != t implies !is_text(#[trigger] d[j].mimetype@) by {
            assert(d[j] == ls[j]);
        }
        assert(d[t] == ls[t]);
        lemma_one_plain(b, d, t);
        assert(!is_text(ls[ls.len() - 1].mimetype@));
    }
}

proof fn lemma_no_text(ls: Seq<MimePart>)
    requires
        forall|j: int| 0 <= j < ls.len() ==> !is_text(#[trigger] ls[j].mimetype@),
    ensures
        non_text_count(ls) == ls.len(),
    decreases ls.len(),
{
    if ls.len() > 0 {
        let d = ls.drop_last();
        assert forall|j: int| 0 <= j < d.len() implies !is_text(#[trigger] d[j].mimetype@) by {
            assert(d[j] == ls[j]);
        }
        lemma_no_text(d);
        assert(!is_text(ls[ls.len() - 1].mimetype@));
    }
}

/// A message that is a single `text/plain` part with a decodable body, with
/// one sender and a subject, decomposes to that body, with no image and no
/// file.
pub proof fn lemma_single_plain_part(
    root: MimePart,
    from: Seq<Address>,
    subject: Option<Seq<char>>,
    message_id: Option<Seq<char>>,
    r: Result<ParsedEmail, EmailError>,
)
    requires
        decomposes(root, from, subject, message_id, r),
        single_sender(from) is Some,
        subject is Some,
        root.mimetype@ == "text/plain"@,
        root.body is Ok,
    ensures
        r matches Ok(e) && e.body@ == root.body->Ok_0@ && e.images@.len() == 0 && e.files@.len() == 0,
{
    lemma_plain_is_text();
    assert(leaves(root) == seq![root]);
    assert(seq![root].drop_last() =~= seq![]);
    assert(visit_all(nothing_collected(), seq![]) == Ok::<Collected, EmailError>(nothing_collected()));
    assert(seq![root].last() == root);
    let e = r->Ok_0;
    assert(e.images@.map_values(|f: File| f.model()).len() == 0);
    assert(e.files@.map_values(|f: File| f.model()).len() == 0);
}

/// A message whose leaves are one `text/plain` part with a decodable body
/// and `n` other parts that are not text, each with a name and a decodable
/// body, decomposes to that body and `n` files: the `image/*` parts become
/// images and the rest become files, each in order.
pub proof fn lemma_one_body_and_files(
    root: MimePart,
    from: Seq<Address>,
    subject: Option<Seq<char>>,
    message_id: Option<Seq<char>>,
    r: Result<ParsedEmail, EmailError>,
    t: int,
)
    requires
        decomposes(root, from, subject, message_id, r),
        single_sender(from) is Some,
        subject is Some,
        0 <= t < leaves(root).len(),
        leaves(root)[t].mimetype@ == "text/plain"@,
        leaves(root)[t].body is Ok,
        forall|j: int| 0 <= j < leaves(root).len() && j != t ==> {
            let p = #[trigger] leaves(root)[j];
            !is_text(p.mimetype@) && p.name is Some && p.raw is Ok
        },
    ensures
        r matches Ok(e) && e.body@ == leaves(root)[t].body->Ok_0@
            && e.images@.len() + e.files@.len() == leaves(root).len() - 1
            && e.collected().images == images_in(leaves(root))
            && e.collected().files == files_in(leaves(root)),
{
    let ls = leaves(root);
    lemma_plain_is_text();
    assert forall|j: int| 0 <= j < ls.len() implies leaf_ok(#[trigger] ls[j]) by {
        if j != t {
            let p = ls[j];
            assert(!is_text(p.mimetype@) && p.name is Some && p.raw is Ok);
        }
    }
    lemma_visit_all_ok(nothing_collected(), ls);
    assert(seq![] + images_in(ls) =~= images_in(ls));
    assert(seq![] + files_in(ls) =~= files_in(ls));
    lemma_one_plain(seq![], ls, t);
    lemma_split_counts(ls);
    let e = r->Ok_0;
    assert(e.images@.map_values(|f: File| f.model()).len() == e.images@.len());
    assert(e.files@.map_values(|f: File| f.model()).len() == e.files@.len());
}

/// A leaf that is not text and has no name fails the decomposition with
/// `MissingNameError`, once every leaf before it is accepted.
pub proof fn lemma_nameless_part(
    root: MimePart,
    from: Seq<Address>,
    subject: Option<Seq<char>>,
    message_id: Option<Seq<char>>,
    r: Result<ParsedEmail, EmailError>,
    k: int,
)
    requires
        decomposes(root, from, subject, message_id, r),
        single_sender(from) is Some,
        subject is Some,
        0 <= k < leaves(root).len(),
        !is_text(leaves(root)[k].mimetype@),
        leaves(root)[k].name is None,
        forall|j: int| 0 <= j < k ==> leaf_ok(#[trigger] leaves(root)[j]),
    ensures
        r == Err::<ParsedEmail, EmailError>(EmailError::MissingNameError),
{
    let ls = leaves(root);
    let c = nothing_collected();
    let head = ls.take(k);
    assert forall|j: int| 0 <= j < head.len() implies leaf_ok(#[trigger] head[j]) by {
        assert(head[j] == ls[j]);
    }
    lemma_visit_all_ok(c, head);
    let upto = ls.take(k + 1);
    assert(upto.drop_last() =~= head);
    assert(upto.last() == ls[k]);
    assert(visit_all(c, upto) == Err::<Collected, EmailError>(EmailError::MissingNameError));
    lemma_visit_all_append(c, upto, ls.skip(k + 1));
    assert(upto + ls.skip(k + 1) =~= ls);
}

/// How deep a content tree is followed; the parser itself stops at the
/// same depth.
pub const MAX_DEPTH: usize = 100;

#[verifier::external_type_specification]
#[verifier::external_body]
pub struct ExParsedMail<'a>(ParsedMail<'a>);

#[verifier::external_type_specification]
#[verifier::external_body]
pub struct ExMailHeader<'a>(MailHeader<'a>);

#[verifier::external_type_specification]
#[verifier::external_body]
pub struct ExMailParseError(MailParseError);

/// What the parser finds in one part of a message.
pub ghost struct PartModel {
    /// The declared content type.
    pub mimetype: Seq<char>,
    /// The content type's parameters, by lower-case name.
    pub params: spec_fn(Seq<char>) -> Option<Seq<char>>,
    /// The value of the first header of each name.
    pub headers: spec_fn(Seq<char>) -> Option<Seq<char>>,
    /// The `From` header: absent, unreadable as addresses, or its entries.
    pub from: Option<Option<Seq<Address>>>,
    /// The body decoded to text, or the decoder's report.
    pub body: Result<Seq<char>, Seq<char>>,
    /// The body with its transfer encoding undone, or the decoder's report.
    pub raw: Result<Seq<u8>, Seq<char>>,
    pub subparts: Seq<PartModel>,
}

/// What `mailparse::parse_mail` finds in the bytes: the top part of the
/// message, or nothing where it fails.
pub uninterp spec fn mail_of(data: Seq<u8>) -> Option<PartModel>;

/// What a part handed out by the parser holds.
pub uninterp spec fn part_of(p: ParsedMail<'_>) -> PartModel;

/// What `mailparse::addrparse_header` reads in a header: its entries, or
/// nothing where it fails.
pub uninterp spec fn addresses_of(h: MailHeader<'_>) -> Option<Seq<Address>>;

pub open spec fn result_view(r: Result<String, String>) -> Result<Seq<char>, Seq<char>> {
    match r {
        Ok(v) => Ok(v@),
        Err(e) => Err(e@),
    }
}

pub open spec fn raw_view(r: Result<Vec<u8>, String>) -> Result<Seq<u8>, Seq<char>> {
    match r {
        Ok(v) => Ok(v@),
        Err(e) => Err(e@),
    }
}

/// `part` holds what the parser found in `m`, and so do its sub-parts.
pub open spec fn holds_model(part: MimePart, m: PartModel) -> bool
    decreases part,
{
    &&& part.mimetype@ == m.mimetype
    &&& opt_view(part.name) == (m.params)("name"@)
    &&& opt_view(part.content_id) == (m.headers)("Content-ID"@)
    &&& result_view(part.body) == m.body
    &&& raw_view(part.raw) == m.raw
    &&& part.subparts@.len() == m.subparts.len()
    &&& forall|i: int|
        0 <= i < part.subparts@.len() ==> holds_model(#[trigger] part.subparts@[i], m.subparts[i])
}

/// No chain of sub-parts under `m` is longer than `depth`.
pub open spec fn fits_depth(m: PartModel, depth: nat) -> bool
    decreases m,
{
    m.subparts.len() > 0 ==> depth > 0 && forall|i: int|
        0 <= i < m.subparts.len() ==> fits_depth(#[trigger] m.subparts[i], (depth - 1) as nat)
}

/// The entries of a `From` header that the parser read; none where it is
/// absent.
pub open spec fn from_entries(from: Option<Option<Seq<Address>>>) -> Seq<Address> {
    match from {
        Some(Some(v)) => v,
        _ => seq![],
    }
}

/// Relies on `mailparse::parse_mail`: the message's headers and content tree.
#[verifier::external_body]
fn parse_message(data: &[u8]) -> (r: Result<ParsedMail<'_>, MailParseError>)
    ensures
        r is Ok <==> mail_of(data@) is Some,
        r matches Ok(m) ==> mail_of(data@) == Some(part_of(m)),
{
    mailparse::parse_mail(data)
}

/// Reads the part's declared content type (`ParsedContentType::mimetype`).
#[verifier::external_body]
fn mime_type(p: &ParsedMail) -> (r: String)
    ensures
        r@ == part_of(*p).mimetype,
{
    p.ctype.mimetype.clone()
}

/// Reads a parameter of the part's content type (`ParsedContentType::params`).
#[verifier::external_body]
fn content_type_param(p: &ParsedMail, key: &str) -> (r: Option<String>)
    ensures
        opt_view(r) == (part_of(*p).params)(key@),
{
    p.ctype.params.get(key).cloned()
}

/// Relies on `MailHeaderMap::get_first_value`: the first header of that name.
#[verifier::external_body]
fn header_value(p: &ParsedMail, key: &str) -> (r: Option<String>)
    ensures
        opt_view(r) == (part_of(*p).headers)(key@),
{
    p.headers.get_first_value(key)
}

/// Relies on `MailHeaderMap::get_first_header`: the first header of that name.
#[verifier::external_body]
fn first_header<'b>(p: &'b ParsedMail, key: &str) -> (r: Option<&'b MailHeader<'b>>)
    ensures
        key@ == "From"@ ==> match r {
            None => part_of(*p).from is None,
            Some(h) => part_of(*p).from == Some(addresses_of(*h)),
        },
{
    p.headers.get_first_header(key)
}

/// Relies on `mailparse::addrparse_header`: the entries of an address
/// header, each a mailbox or a group.
#[verifier::external_body]
fn addresses(h: &MailHeader) -> (r: Result<Vec<Address>, MailParseError>)
    ensures
        match r {
            Ok(v) => addresses_of(*h) == Some(v@),
            Err(_) => addresses_of(*h) is None,
        },
{
    let list = mailparse::addrparse_header(h)?;
    Ok(list.into_inner().into_iter().map(|a| match a {
        MailAddr::Single(info) => Address::Single(info.addr),
        MailAddr::Group(_) => Address::Group,
    }).collect())
}

/// Relies on `ParsedMail::get_body`: the body decoded to text, or the
/// decoder's error, as text.
#[verifier::external_body]
fn decoded_body(p: &ParsedMail) -> (r: Result<String, String>)
    ensures
        result_view(r) == part_of(*p).body,
{
    p.get_body().map_err(|e| e.to_string())
}

/// Relies on `ParsedMail::get_body_raw`: the body with its transfer
/// encoding undone, or the decoder's error, as text.
#[verifier::external_body]
fn raw_body(p: &ParsedMail) -> (r: Result<Vec<u8>, String>)
    ensures
        raw_view(r) == part_of(*p).raw,
{
    p.get_body_raw().map_err(|e| e.to_string())
}

/// Reads the part's sub-parts (`ParsedMail::subparts`).
#[verifier::external_body]
fn subparts_of<'a, 'b>(p: &'b ParsedMail<'a>) -> (r: &'b Vec<ParsedMail<'a>>)
    ensures
        r@.len() == part_of(*p).subparts.len(),
        forall|i: int| 0 <= i < r@.len() ==> part_of(#[trigger] r@[i]) == part_of(*p).subparts[i],
{
    &p.subparts
}

/// Reads what the decomposer needs of a parsed part and of the parts under
/// it, following at most `depth` levels of nesting.
fn to_part(p: &ParsedMail, depth: usize) -> (r: Result<MimePart, EmailError>)
    ensures
        r is Ok <==> fits_depth(part_of(*p), depth as nat),
        r matches Ok(part) ==> holds_model(part, part_of(*p)),
        r matches Err(e) ==> e == EmailError::NestingTooDeep,
    decreases depth,
{
    let ghost m = part_of(*p);
    let subs = subparts_of(p);
    let mut subparts: Vec<MimePart> = Vec::new();
    if subs.len() > 0 && depth == 0 {
        return Err(EmailError::NestingTooDeep);
    }
    let mut i: usize = 0;
    while i < subs.len()
        invariant
            m == part_of(*p),
            subs@.len() == m.subparts.len(),
            forall|j: int| 0 <= j < subs@.len() ==> part_of(#[trigger] subs@[j]) == m.subparts[j],
            subs@.len() > 0 ==> depth > 0,
            0 <= i <= subs@.len(),
            subparts@.len() == i,
            forall|j: int| 0 <= j < i ==> holds_model(#[trigger] subparts@[j], m.subparts[j]),
            forall|j: int| 0 <= j < i ==> fits_depth(#[trigger] m.subparts[j], (depth - 1) as nat),
        decreases subs@.len() - i,
    {
        let part = match to_part(&subs[i], depth - 1) {
            Ok(part) => part,
            Err(e) => {
                assert(!fits_depth(m.subparts[i as int], (depth - 1) as nat));
                return Err(e);
            },
        };
        subparts.push(part);
        i = i + 1;
    }
    let r = MimePart {
        mimetype: mime_type(p),
        name: content_type_param(p, "name"),
        content_id: header_value(p, "Content-ID"),
        body: decoded_body(p),
        raw: raw_body(p),
        subparts,
    };
    assert(holds_model(r, m));
    Ok(r)
}

/// Parses a raw message and decomposes it: `Malformed` where the parser
/// finds no message in the bytes; `NestingTooDeep` where its tree is
/// deeper than `MAX_DEPTH`; `HeaderError` where `From` is present but not
/// readable as addresses; else what `decompose` gives for the tree that
/// the parser found, with its `From` entries (none where `From` is absent),
/// `Subject` and `Message-ID` headers.
pub fn parse_email(data: &[u8]) -> (r: Result<ParsedEmail, EmailError>)
    ensures
        mail_of(data@) is None ==> r == Err::<ParsedEmail, EmailError>(EmailError::Malformed),
        mail_of(data@) matches Some(m) ==> if !fits_depth(m, MAX_DEPTH as nat) {
            r == Err::<ParsedEmail, EmailError>(EmailError::NestingTooDeep)
        } else if m.from == Some(None::<Seq<Address>>) {
            r == Err::<ParsedEmail, EmailError>(EmailError::HeaderError)
        } else {
            exists|root: MimePart|
                holds_model(root, m) && decomposes(
                    root,
                    from_entries(m.from),
                    (m.headers)("Subject"@),
                    (m.headers)("Message-ID"@),
                    r,
                )
        },
{
    let parsed = match parse_message(data) {
        Ok(m) => m,
        Err(_) => {
            return Err(EmailError::Malformed);
        },
    };
    let ghost m = part_of(parsed);
    let root = match to_part(&parsed, MAX_DEPTH) {
        Ok(root) => root,
        Err(e) => {
            return Err(e);
        },
    };
    let from = match first_header(&parsed, "From") {
        Some(h) => match addresses(h) {
            Ok(list) => list,
            Err(_) => {
                return Err(EmailError::HeaderError);
            },
        },
        None => Vec::new(),
    };
    assert(from@ == from_entries(m.from));
    let subject = header_value(&parsed, "Subject");
    let message_id = header_value(&parsed, "Message-ID");
    let r = decompose(&root, &from, subject, message_id);
    assert(decomposes(root, from_entries(m.from), (m.headers)("Subject"@), (m.headers)("Message-ID"@), r));
    r
}

} // verus!
