use email_notion::email::ParsedEmail;
use email_notion::lines::content_lines;
use email_notion::notion::{
    build_task, find_assignee, prepare_task, BlockData, PersonData, TaskData, TaskError, TextContent,
    TypedData, UserData, UserEmail,
};

fn email(body: &str, subject: &str, from: &str) -> ParsedEmail {
    ParsedEmail {
        body: body.to_string(),
        files: Vec::new(),
        from: from.to_string(),
        images: Vec::new(),
        message_id: None,
        subject: subject.to_string(),
    }
}

fn user(id: &str, email: Option<&str>) -> UserData {
    UserData { id: id.to_string(), person: email.map(|e| UserEmail { email: e.to_string() }) }
}

fn paragraph_text(b: &BlockData) -> &str {
    assert_eq!(b.object, "block");
    assert_eq!(b.data_type, "paragraph");
    assert_eq!(b.paragraph.text.len(), 1);
    assert_eq!(b.paragraph.text[0].data_type, "text");
    b.paragraph.text[0].text.as_ref().unwrap().content.as_str()
}

fn paragraphs(t: &TaskData) -> Vec<String> {
    t.children.iter().map(|b| paragraph_text(b).to_string()).collect()
}

#[test]
fn content_lines_drop_empty_lines() {
    assert_eq!(content_lines("Line one\n\nLine two\n"), vec!["Line one", "Line two"]);
}

#[test]
fn content_lines_drop_blank_lines_and_keep_others_untrimmed() {
    assert_eq!(content_lines("  \n a \r\n\t\n\u{3000}\nb"), vec![" a \r", "b"]);
}

#[test]
fn content_lines_of_blank_body() {
    assert!(content_lines("").is_empty());
    assert!(content_lines("\n \n\t\r\n").is_empty());
}

#[test]
fn typed_constructors_set_one_payload() {
    let d = TypedData::database("db1".to_string());
    assert_eq!(d.data_type, "database_id");
    assert_eq!(d.database_id, Some("db1".to_string()));
    assert!(d.people.is_none() && d.text.is_none() && d.title.is_none());

    let t = TypedData::text(TextContent { content: "hi".to_string() });
    assert_eq!(t.data_type, "text");
    assert_eq!(t.text.as_ref().unwrap().content, "hi");
    assert!(t.people.is_none() && t.database_id.is_none() && t.title.is_none());

    let ti = TypedData::title(t);
    assert_eq!(ti.data_type, "title");
    assert_eq!(ti.title.as_ref().unwrap().len(), 1);
    assert!(ti.people.is_none() && ti.database_id.is_none() && ti.text.is_none());

    let p = TypedData::people(PersonData {
        id: "U1".to_string(),
        data_type: "person".to_string(),
        person: UserEmail { email: "a@x.com".to_string() },
    });
    assert_eq!(p.data_type, "people");
    let ps = p.people.as_ref().unwrap();
    assert_eq!(ps.len(), 1);
    assert_eq!(ps[0].id, "U1");
    assert!(p.text.is_none() && p.database_id.is_none() && p.title.is_none());
}

#[test]
fn block_wraps_one_text_run() {
    let b = BlockData::new("hello".to_string());
    assert_eq!(paragraph_text(&b), "hello");
}

#[test]
fn find_assignee_matches_exact_email() {
    let users = vec![user("U0", None), user("U1", Some("a@x.com")), user("U2", Some("a@x.com"))];
    assert_eq!(find_assignee(&users, &"a@x.com".to_string()), Some("U1".to_string()));
    assert_eq!(find_assignee(&users, &"A@x.com".to_string()), None);
    assert_eq!(find_assignee(&Vec::new(), &"a@x.com".to_string()), None);
}

#[test]
fn build_task_scenario() {
    let e = email("Line one\n\nLine two\n", "Fix bug", "a@x.com");
    let users = vec![user("U1", Some("a@x.com"))];
    let t = match prepare_task(&e, &users, &"DB".to_string()) {
        Ok(t) => t,
        Err(_) => panic!("assignee not found"),
    };
    assert_eq!(paragraphs(&t), vec!["Line one", "Line two"]);
    assert_eq!(t.parent.data_type, "database_id");
    assert_eq!(t.parent.database_id, Some("DB".to_string()));
    let name = &t.properties.name;
    assert_eq!(name.data_type, "title");
    let title = name.title.as_ref().unwrap();
    assert_eq!(title.len(), 1);
    assert_eq!(title[0].text.as_ref().unwrap().content, "Fix bug");
    let assign = &t.properties.assign;
    assert_eq!(assign.data_type, "people");
    let people = assign.people.as_ref().unwrap();
    assert_eq!(people.len(), 1);
    assert_eq!(people[0].id, "U1");
    assert_eq!(people[0].data_type, "person");
    assert_eq!(people[0].person.email, "a@x.com");
}

#[test]
fn prepare_task_without_assignee() {
    let e = email("x", "s", "z@x.com");
    let users = vec![user("U1", Some("a@x.com")), user("U2", None)];
    assert!(matches!(prepare_task(&e, &users, &"DB".to_string()), Err(TaskError::AssigneeNotFound)));
}

#[test]
fn blank_body_builds_no_blocks() {
    let e = email(" \n\n\t\n", "s", "a@x.com");
    let t = build_task(&e, &"U1".to_string(), &"DB".to_string());
    assert!(t.children.is_empty());
}

#[test]
fn block_count_is_content_line_count() {
    let e = email("a\nb\n\nc\n \nd", "s", "a@x.com");
    let t = build_task(&e, &"U1".to_string(), &"DB".to_string());
    assert_eq!(paragraphs(&t), vec!["a", "b", "c", "d"]);
}

#[test]
fn build_task_is_deterministic() {
    let e = email("one\ntwo", "Subj", "a@x.com");
    let a = build_task(&e, &"U1".to_string(), &"DB".to_string());
    let b = build_task(&e, &"U1".to_string(), &"DB".to_string());
    assert_eq!(paragraphs(&a), paragraphs(&b));
    assert_eq!(a.parent.database_id, b.parent.database_id);
    assert_eq!(
        a.properties.name.title.as_ref().unwrap()[0].text.as_ref().unwrap().content,
        b.properties.name.title.as_ref().unwrap()[0].text.as_ref().unwrap().content
    );
    assert_eq!(a.properties.assign.people.as_ref().unwrap()[0].id, b.properties.assign.people.as_ref().unwrap()[0].id);
}
