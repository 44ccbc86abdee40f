use email_notion::email::{decompose, parse_email, Address, EmailError, MimePart};

fn leaf(mimetype: &str, name: Option<&str>, body: Option<&str>, raw: Option<&[u8]>) -> MimePart {
    MimePart {
        mimetype: mimetype.to_string(),
        name: name.map(|n| n.to_string()),
        content_id: None,
        body: body.map(|b| b.to_string()).ok_or_else(|| "undecodable text".to_string()),
        raw: raw.map(|r| r.to_vec()).ok_or_else(|| "undecodable bytes".to_string()),
        subparts: Vec::new(),
    }
}

fn multipart(subparts: Vec<MimePart>) -> MimePart {
    MimePart {
        mimetype: "multipart/mixed".to_string(),
        name: None,
        content_id: None,
        body: Ok(String::new()),
        raw: Ok(Vec::new()),
        subparts,
    }
}

fn sender() -> Vec<Address> {
    vec![Address::Single("a@x.com".to_string())]
}

#[test]
fn single_plain_part_message() {
    let raw = b"From: a@x.com\nSubject: Fix bug\nMessage-ID: <m1@x.com>\n\nLine one\n\nLine two\n";
    let email = parse_email(raw).unwrap();
    assert_eq!(email.from, "a@x.com");
    assert_eq!(email.subject, "Fix bug");
    assert_eq!(email.message_id, Some("<m1@x.com>".to_string()));
    assert_eq!(email.body, "Line one\n\nLine two\n");
    assert!(email.images.is_empty());
    assert!(email.files.is_empty());
}

#[test]
fn multipart_message_with_image_and_attachment() {
    let raw = [
        "From: Alice <a@x.com>\n",
        "Subject: Report\n",
        "Content-Type: multipart/mixed; boundary=\"XX\"\n",
        "\n",
        "--XX\n",
        "Content-Type: text/plain\n",
        "\n",
        "Hello there\n",
        "--XX\n",
        "Content-Type: image/png; name=\"pic.png\"\n",
        "Content-ID: <pic1>\n",
        "Content-Transfer-Encoding: base64\n",
        "\n",
        "aGVsbG8=\n",
        "--XX\n",
        "Content-Type: application/pdf; name=\"doc.pdf\"\n",
        "\n",
        "PDFDATA\n",
        "--XX--\n",
    ]
    .concat();
    let email = parse_email(raw.as_bytes()).unwrap();
    assert_eq!(email.from, "a@x.com");
    assert_eq!(email.body, "Hello there");
    assert_eq!(email.images.len(), 1);
    assert_eq!(email.images[0].name, "pic.png");
    assert_eq!(email.images[0].id, Some("<pic1>".to_string()));
    assert_eq!(email.images[0].data, b"hello".to_vec());
    assert_eq!(email.files.len(), 1);
    assert_eq!(email.files[0].name, "doc.pdf");
    assert_eq!(email.files[0].id, None);
    assert_eq!(email.files[0].data, b"PDFDATA".to_vec());
}

#[test]
fn two_senders_fail_with_header_error() {
    let raw = b"From: a@x.com, b@x.com\nSubject: Fix bug\n\nbody\n";
    assert!(matches!(parse_email(raw), Err(EmailError::HeaderError)));
}

#[test]
fn missing_from_fails_with_header_error() {
    let raw = b"Subject: Fix bug\n\nbody\n";
    assert!(matches!(parse_email(raw), Err(EmailError::HeaderError)));
}

#[test]
fn missing_subject_fails_with_header_error() {
    let raw = b"From: a@x.com\n\nbody\n";
    assert!(matches!(parse_email(raw), Err(EmailError::HeaderError)));
}

#[test]
fn group_sender_fails_with_header_error() {
    let raw = b"From: team: a@x.com, b@x.com;\nSubject: Fix bug\n\nbody\n";
    assert!(matches!(parse_email(raw), Err(EmailError::HeaderError)));
}

#[test]
fn nameless_attachment_fails() {
    let raw = [
        "From: a@x.com\n",
        "Subject: s\n",
        "Content-Type: multipart/mixed; boundary=\"XX\"\n",
        "\n",
        "--XX\n",
        "Content-Type: text/plain\n",
        "\n",
        "Hi\n",
        "--XX\n",
        "Content-Type: application/octet-stream\n",
        "\n",
        "data\n",
        "--XX--\n",
    ]
    .concat();
    assert!(matches!(parse_email(raw.as_bytes()), Err(EmailError::MissingNameError)));
}

#[test]
fn html_part_is_skipped() {
    let raw = [
        "From: a@x.com\n",
        "Subject: s\n",
        "Content-Type: multipart/alternative; boundary=\"XX\"\n",
        "\n",
        "--XX\n",
        "Content-Type: text/plain\n",
        "\n",
        "plain\n",
        "--XX\n",
        "Content-Type: text/html\n",
        "\n",
        "<p>html</p>\n",
        "--XX--\n",
    ]
    .concat();
    let email = parse_email(raw.as_bytes()).unwrap();
    assert_eq!(email.body, "plain");
    assert!(email.images.is_empty());
    assert!(email.files.is_empty());
}

#[test]
fn decompose_plain_leaf() {
    let root = leaf("text/plain", None, Some("hello"), Some(b"hello"));
    let email = decompose(&root, &sender(), Some("s".to_string()), None).unwrap();
    assert_eq!(email.body, "hello");
    assert_eq!(email.from, "a@x.com");
    assert_eq!(email.subject, "s");
    assert_eq!(email.message_id, None);
    assert!(email.images.is_empty() && email.files.is_empty());
}

#[test]
fn decompose_last_plain_body_wins() {
    let root = multipart(vec![
        leaf("text/plain", None, Some("first"), None),
        multipart(vec![leaf("text/plain", None, Some("second"), None)]),
    ]);
    let email = decompose(&root, &sender(), Some("s".to_string()), None).unwrap();
    assert_eq!(email.body, "second");
}

#[test]
fn decompose_splits_images_and_files_in_order() {
    let mut img = leaf("image/jpeg", Some("a.jpg"), None, Some(b"A"));
    img.content_id = Some("<a>".to_string());
    let root = multipart(vec![
        leaf("application/zip", Some("z.zip"), None, Some(b"Z")),
        multipart(vec![leaf("text/plain", None, Some("body"), None), img]),
        leaf("image/gif", Some("b.gif"), None, Some(b"B")),
        leaf("audio/ogg", Some("c.ogg"), None, Some(b"C")),
    ]);
    let email = decompose(&root, &sender(), Some("s".to_string()), Some("<id>".to_string())).unwrap();
    assert_eq!(email.body, "body");
    assert_eq!(email.message_id, Some("<id>".to_string()));
    let images: Vec<&str> = email.images.iter().map(|f| f.name.as_str()).collect();
    assert_eq!(images, vec!["a.jpg", "b.gif"]);
    assert_eq!(email.images[0].id, Some("<a>".to_string()));
    assert_eq!(email.images[0].data, b"A".to_vec());
    assert_eq!(email.images[1].id, None);
    let files: Vec<&str> = email.files.iter().map(|f| f.name.as_str()).collect();
    assert_eq!(files, vec!["z.zip", "c.ogg"]);
    assert_eq!(email.files[1].data, b"C".to_vec());
}

#[test]
fn decompose_nameless_image_fails() {
    let root = multipart(vec![leaf("image/png", None, None, Some(b"P"))]);
    let r = decompose(&root, &sender(), Some("s".to_string()), None);
    assert!(matches!(r, Err(EmailError::MissingNameError)));
}

#[test]
fn decompose_undecodable_plain_body_fails() {
    let root = leaf("text/plain", None, None, None);
    let r = decompose(&root, &sender(), Some("s".to_string()), None);
    assert!(matches!(r, Err(EmailError::BodyDecodeError(_))));
}

#[test]
fn decompose_undecodable_attachment_fails() {
    let root = multipart(vec![leaf("application/pdf", Some("d.pdf"), None, None)]);
    let r = decompose(&root, &sender(), Some("s".to_string()), None);
    assert!(matches!(r, Err(EmailError::BodyDecodeError(_))));
}

#[test]
fn decompose_first_failure_decides() {
    let root = multipart(vec![
        leaf("application/pdf", Some("d.pdf"), None, None),
        leaf("application/pdf", None, None, Some(b"x")),
    ]);
    let r = decompose(&root, &sender(), Some("s".to_string()), None);
    assert!(matches!(r, Err(EmailError::BodyDecodeError(_))));
}

#[test]
fn decompose_header_errors() {
    let root = leaf("text/plain", None, Some("b"), None);
    let two = vec![Address::Single("a@x.com".to_string()), Address::Single("b@x.com".to_string())];
    assert!(matches!(decompose(&root, &two, Some("s".to_string()), None), Err(EmailError::HeaderError)));
    assert!(matches!(decompose(&root, &Vec::new(), Some("s".to_string()), None), Err(EmailError::HeaderError)));
    assert!(matches!(decompose(&root, &vec![Address::Group], Some("s".to_string()), None), Err(EmailError::HeaderError)));
    assert!(matches!(decompose(&root, &sender(), None, None), Err(EmailError::HeaderError)));
}

#[test]
fn decompose_other_text_is_not_a_file() {
    let root = multipart(vec![leaf("text/calendar", None, None, None)]);
    let email = decompose(&root, &sender(), Some("s".to_string()), None).unwrap();
    assert_eq!(email.body, "");
    assert!(email.images.is_empty() && email.files.is_empty());
}

#[test]
fn decode_failure_carries_the_decoder_report() {
    let root = multipart(vec![leaf("image/png", Some("p.png"), None, None)]);
    match decompose(&root, &sender(), Some("s".to_string()), None) {
        Err(EmailError::BodyDecodeError(msg)) => assert_eq!(msg, "undecodable bytes"),
        _ => panic!("expected a decode failure"),
    }
    let plain = leaf("text/plain", None, None, None);
    match decompose(&plain, &sender(), Some("s".to_string()), None) {
        Err(EmailError::BodyDecodeError(msg)) => assert_eq!(msg, "undecodable text"),
        _ => panic!("expected a decode failure"),
    }
}

#[test]
fn bad_base64_attachment_fails_with_decoder_report() {
    let raw = [
        "From: a@x.com\n",
        "Subject: s\n",
        "Content-Type: multipart/mixed; boundary=\"XX\"\n",
        "\n",
        "--XX\n",
        "Content-Type: application/pdf; name=\"d.pdf\"\n",
        "Content-Transfer-Encoding: base64\n",
        "\n",
        "!!!!not base64!!!!\n",
        "--XX--\n",
    ]
    .concat();
    match parse_email(raw.as_bytes()) {
        Err(EmailError::BodyDecodeError(msg)) => assert!(!msg.is_empty()),
        _ => panic!("expected a decode failure"),
    }
}
