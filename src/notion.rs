use vstd::prelude::*;
use vstd::string::StringExecFns;

use crate::email::{opt_view, ParsedEmail};
use crate::lines::{content_lines, content_lines_of};

verus! {

/// A user of the remote workspace, as its directory lists them.
pub struct UserData {
    pub id: String,
    pub person: Option<UserEmail>,
}

pub struct UserEmail {
    pub email: String,
}

/// The directory's answer: every user of the workspace.
pub struct NotionApiUserResponse {
    pub results: Vec<UserData>,
}

/// One entry of a people property.
pub struct PersonData {
    pub id: String,
    pub data_type: String,
    pub person: UserEmail,
}

pub struct TextContent {
    pub content: String,
}

/// A tagged value of the remote schema: `data_type` names the one payload
/// that is present; the others are absent.
pub struct TypedData {
    pub data_type: String,
    pub database_id: Option<String>,
    pub people: Option<Vec<PersonData>>,
    pub text: Option<TextContent>,
    pub title: Option<Vec<TypedData>>,
}

pub struct Properties {
    pub name: TypedData,
    pub assign: TypedData,
}

pub struct ParagraphContent {
    pub text: Vec<TypedData>,
}

/// A paragraph block of the page's content.
pub struct BlockData {
    pub object: String,
    pub data_type: String,
    pub paragraph: ParagraphContent,
}

/// The request document that creates one task.
pub struct TaskData {
    pub parent: TypedData,
    pub properties: Properties,
    pub children: Vec<BlockData>,
}

/// The four tags of a typed value, and the placeholder tag, differ.
proof fn lemma_tags_distinct()
    ensures
        "database_id"@ != "people"@,
        "database_id"@ != "text"@,
        "database_id"@ != "title"@,
        "people"@ != "text"@,
        "people"@ != "title"@,
        "text"@ != "title"@,
        "none"@ != "database_id"@,
        "none"@ != "people"@,
        "none"@ != "title"@,
        "none"@ != "text"@,
{
    reveal_strlit("database_id");
    reveal_strlit("people");
    reveal_strlit("text");
    reveal_strlit("title");
    reveal_strlit("none");
    assert("database_id"@.len() == 11);
    assert("people"@.len() == 6);
    assert("text"@.len() == 4);
    assert("title"@.len() == 5);
    assert("none"@.len() == 4);
    assert("none"@[0] != "text"@[0]);
}

impl TypedData {
    /// Exactly one payload is present, and the tag names it.
    pub open spec fn well_tagged(&self) -> bool {
        let n = (if self.database_id is Some { 1int } else { 0 })
            + (if self.people is Some { 1int } else { 0 })
            + (if self.text is Some { 1int } else { 0 })
            + (if self.title is Some { 1int } else { 0 });
        &&& n == 1
        &&& self.database_id is Some <==> self.data_type@ == "database_id"@
        &&& self.people is Some <==> self.data_type@ == "people"@
        &&& self.text is Some <==> self.data_type@ == "text"@
        &&& self.title is Some <==> self.data_type@ == "title"@
    }

    /// A reference to the database `id`.
    pub open spec fn is_database(&self, id: Seq<char>) -> bool {
        &&& self.well_tagged()
        &&& self.database_id matches Some(d) && d@ == id
    }

    /// A run of plain text.
    pub open spec fn is_text(&self, content: Seq<char>) -> bool {
        &&& self.well_tagged()
        &&& self.text matches Some(t) && t.content@ == content
    }

    /// A people reference to exactly one person.
    pub open spec fn is_person(&self, id: Seq<char>, email: Seq<char>) -> bool {
        &&& self.well_tagged()
        &&& self.people matches Some(ps) && ps@.len() == 1 && ps@[0].id@ == id
            && ps@[0].data_type@ == "person"@ && ps@[0].person.email@ == email
    }

    /// A title made of one run of plain text.
    pub open spec fn is_title_text(&self, content: Seq<char>) -> bool {
        &&& self.well_tagged()
        &&& self.title matches Some(ts) && ts@.len() == 1 && ts@[0].is_text(content)
    }

    fn new() -> (r: Self)
        ensures
            r.data_type@ == "none"@,
            r.database_id is None,
            r.people is None,
            r.text is None,
            r.title is None,
    {
        TypedData {
            data_type: String::from_str("none"),
            database_id: None,
            people: None,
            text: None,
            title: None,
        }
    }

    pub fn database(id: String) -> (r: Self)
        ensures
            r.is_database(id@),
    {
        let mut data = TypedData::new();
        data.data_type = String::from_str("database_id");
        data.database_id = Some(id);
        proof {
            lemma_tags_distinct();
        }
        data
    }

    pub fn people(people: PersonData) -> (r: Self)
        ensures
            r.well_tagged(),
            r.people matches Some(ps) && ps@ == seq![people],
    {
        let mut data = TypedData::new();
        data.data_type = String::from_str("people");
        data.people = Some(vec![people]);
        proof {
            lemma_tags_distinct();
        }
        data
    }

    pub fn text(text: TextContent) -> (r: Self)
        ensures
            r.is_text(text.content@),
    {
        let mut data = TypedData::new();
        data.data_type = String::from_str("text");
        data.text = Some(text);
        proof {
            lemma_tags_distinct();
        }
        data
    }

    pub fn title(title: TypedData) -> (r: Self)
        ensures
            r.well_tagged(),
            r.title matches Some(ts) && ts@ == seq![title],
    {
        let mut data = TypedData::new();
        data.data_type = String::from_str("title");
        data.title = Some(vec![title]);
        proof {
            lemma_tags_distinct();
        }
        data
    }
}

impl BlockData {
    /// A paragraph block whose text is one run equal to `content`.
    pub open spec fn is_paragraph(&self, content: Seq<char>) -> bool {
        &&& self.object@ == "block"@
        &&& self.data_type@ == "paragraph"@
        &&& self.paragraph.text@.len() == 1
        &&& self.paragraph.text@[0].is_text(content)
    }

    pub fn new(text_content: String) -> (r: Self)
        ensures
            r.is_paragraph(text_content@),
    {
        BlockData {
            object: String::from_str("block"),
            data_type: String::from_str("paragraph"),
            paragraph: ParagraphContent {
                text: vec![TypedData::text(TextContent { content: text_content })],
            },
        }
    }
}

/// Whether `user` is linked to a person with exactly this email.
pub open spec fn user_has_email(user: UserData, email: Seq<char>) -> bool {
    user.person matches Some(p) && p.email@ == email
}

/// Looks up the first user linked to a person whose email is exactly
/// `email`; users with no linked person never match.
pub fn find_assignee(users: &Vec<UserData>, email: &String) -> (r: Option<String>)
    ensures
        r is None <==> forall|i: int| 0 <= i < users@.len() ==> !user_has_email(#[trigger] users@[i], email@),
        r matches Some(id) ==> exists|i: int|
            0 <= i < users@.len() && user_has_email(#[trigger] users@[i], email@)
            && id@ == users@[i].id@
            && forall|j: int| 0 <= j < i ==> !user_has_email(#[trigger] users@[j], email@),
{
    let mut i: usize = 0;
    while i < users.len()
        invariant
            0 <= i <= users@.len(),
            forall|j: int| 0 <= j < i ==> !user_has_email(#[trigger] users@[j], email@),
        decreases users@.len() - i,
    {
        let user = &users[i];
        match &user.person {
            Some(p) => {
                if p.email == *email {
                    let id = user.id.clone();
                    assert(user_has_email(users@[i as int], email@));
                    return Some(id);
                }
            },
            None => {},
        }
        i = i + 1;
    }
    None
}

impl TaskData {
    /// The document that creates a task titled `subject`, assigned to the
    /// user `assignee_id` whose email is `from`, in the database
    /// `database_id`, with one paragraph per line of `lines`.
    pub open spec fn is_task(
        &self,
        database_id: Seq<char>,
        subject: Seq<char>,
        assignee_id: Seq<char>,
        from: Seq<char>,
        lines: Seq<Seq<char>>,
    ) -> bool {
        &&& self.parent.is_database(database_id)
        &&& self.properties.name.is_title_text(subject)
        &&& self.properties.assign.is_person(assignee_id, from)
        &&& self.children@.len() == lines.len()
        &&& forall|i: int| 0 <= i < lines.len() ==> #[trigger] self.children@[i].is_paragraph(lines[i])
    }
}

/// Builds the request document for `email`, assigned to `assignee_id` and
/// filed in the database `database_id`: the subject is the title, the sender
/// is echoed beside the assignee, and each line of the body that is not
/// blank becomes one paragraph, in order.
pub fn build_task(email: &ParsedEmail, assignee_id: &String, database_id: &String) -> (r: TaskData)
    ensures
        r.is_task(database_id@, email.subject@, assignee_id@, email.from@, content_lines_of(email.body@)),
{
    let lines = content_lines(email.body.as_str());
    let mut children: Vec<BlockData> = Vec::new();
    let mut i: usize = 0;
    while i < lines.len()
        invariant
            0 <= i <= lines@.len(),
            lines@.len() == content_lines_of(email.body@).len(),
            forall|j: int| 0 <= j < lines@.len() ==> #[trigger] lines@[j]@ == content_lines_of(email.body@)[j],
            children@.len() == i,
            forall|j: int| 0 <= j < i ==> #[trigger] children@[j].is_paragraph(lines@[j]@),
        decreases lines@.len() - i,
    {
        let block = BlockData::new(lines[i].clone());
        children.push(block);
        i = i + 1;
    }
    let person = PersonData {
        id: assignee_id.clone(),
        data_type: String::from_str("person"),
        person: UserEmail { email: email.from.clone() },
    };
    let task = TaskData {
        parent: TypedData::database(database_id.clone()),
        properties: Properties {
            name: TypedData::title(TypedData::text(TextContent { content: email.subject.clone() })),
            assign: TypedData::people(person),
        },
        children,
    };
    assert forall|j: int| 0 <= j < content_lines_of(email.body@).len() implies
        #[trigger] task.children@[j].is_paragraph(content_lines_of(email.body@)[j]) by {
        assert(task.children@[j].is_paragraph(lines@[j]@));
    }
    task
}

/// Why no task could be made of an email.
pub enum TaskError {
    /// No user of the directory has the sender's email.
    AssigneeNotFound,
}

/// Resolves the sender of `email` against `users` and builds its task.
/// Fails exactly when no user has the sender's email.
pub fn prepare_task(email: &ParsedEmail, users: &Vec<UserData>, database_id: &String) -> (r: Result<TaskData, TaskError>)
    ensures
        r is Err <==> forall|i: int| 0 <= i < users@.len() ==> !user_has_email(#[trigger] users@[i], email.from@),
        r matches Ok(t) ==> exists|i: int|
            0 <= i < users@.len() && user_has_email(#[trigger] users@[i], email.from@)
            && (forall|j: int| 0 <= j < i ==> !user_has_email(#[trigger] users@[j], email.from@))
            && t.is_task(database_id@, email.subject@, users@[i].id@, email.from@, content_lines_of(email.body@)),
{
    match find_assignee(users, &email.from) {
        Some(id) => Ok(build_task(email, &id, database_id)),
        None => Err(TaskError::AssigneeNotFound),
    }
}

/// The two entries hold the same values.
pub open spec fn same_person(a: PersonData, b: PersonData) -> bool {
    a.id@ == b.id@ && a.data_type@ == b.data_type@ && a.person.email@ == b.person.email@
}

impl TypedData {
    /// The two values are the same tree of tags and payloads.
    pub open spec fn same(&self, o: &TypedData) -> bool
        decreases self,
    {
        &&& self.data_type@ == o.data_type@
        &&& opt_view(self.database_id) == opt_view(o.database_id)
        &&& match (self.people, o.people) {
            (None, None) => true,
            (Some(a), Some(b)) => a@.len() == b@.len() && forall|i: int|
                0 <= i < a@.len() ==> same_person(#[trigger] a@[i], b@[i]),
            _ => false,
        }
        &&& match (self.text, o.text) {
            (None, None) => true,
            (Some(a), Some(b)) => a.content@ == b.content@,
            _ => false,
        }
        &&& match (self.title, o.title) {
            (None, None) => true,
            (Some(a), Some(b)) => a@.len() == b@.len() && forall|i: int|
                0 <= i < a@.len() ==> (#[trigger] a@[i]).same(&b@[i]),
            _ => false,
        }
    }
}

impl BlockData {
    pub open spec fn same(&self, o: &BlockData) -> bool {
        &&& self.object@ == o.object@
        &&& self.data_type@ == o.data_type@
        &&& self.paragraph.text@.len() == o.paragraph.text@.len()
        &&& forall|i: int|
            0 <= i < self.paragraph.text@.len() ==> (#[trigger] self.paragraph.text@[i]).same(
                &o.paragraph.text@[i],
            )
    }
}

impl TaskData {
    /// The two documents are the same tree, and so serialize alike.
    pub open spec fn same(&self, o: &TaskData) -> bool {
        &&& self.parent.same(&o.parent)
        &&& self.properties.name.same(&o.properties.name)
        &&& self.properties.assign.same(&o.properties.assign)
        &&& self.children@.len() == o.children@.len()
        &&& forall|i: int| 0 <= i < self.children@.len() ==> (#[trigger] self.children@[i]).same(&o.children@[i])
    }
}

proof fn lemma_text_same(a: TypedData, b: TypedData, content: Seq<char>)
    requires
        a.is_text(content),
        b.is_text(content),
    ensures
        a.same(&b),
{
    lemma_tags_distinct();
}

/// Building is a function of its inputs alone: two documents for the same
/// database, subject, assignee, sender and lines are the same tree.
pub proof fn lemma_task_determined(
    a: TaskData,
    b: TaskData,
    database_id: Seq<char>,
    subject: Seq<char>,
    assignee_id: Seq<char>,
    from: Seq<char>,
    lines: Seq<Seq<char>>,
)
    requires
        a.is_task(database_id, subject, assignee_id, from, lines),
        b.is_task(database_id, subject, assignee_id, from, lines),
    ensures
        a.same(&b),
{
    lemma_tags_distinct();
    let ta = a.properties.name.title->Some_0;
    let tb = b.properties.name.title->Some_0;
    lemma_text_same(ta@[0], tb@[0], subject);
    assert(a.properties.name.same(&b.properties.name));
    let pa = a.properties.assign.people->Some_0;
    let pb = b.properties.assign.people->Some_0;
    assert(same_person(pa@[0], pb@[0]));
    assert(a.properties.assign.same(&b.properties.assign));
    assert(a.parent.same(&b.parent));
    assert forall|i: int| 0 <= i < a.children@.len() implies (#[trigger] a.children@[i]).same(&b.children@[i]) by {
        assert(a.children@[i].is_paragraph(lines[i]));
        assert(b.children@[i].is_paragraph(lines[i]));
        lemma_text_same(a.children@[i].paragraph.text@[0], b.children@[i].paragraph.text@[0], lines[i]);
    }
}

} // verus!
