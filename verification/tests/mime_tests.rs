use mail_forge::mime::{
    extract_attachments, extract_email_address, extract_email_data,
    extract_filename_from_content_disposition, get_first_header_value, MimeMessage, MimePart,
};

fn part(headers: Vec<(&str, &str)>, text: Option<&str>, raw: Option<&[u8]>) -> MimePart {
    MimePart {
        headers: headers
            .into_iter()
            .map(|(k, v)| (String::from(k), String::from(v)))
            .collect(),
        body_text: text.map(String::from),
        body_raw: raw.map(|b| b.to_vec()),
    }
}

#[test]
fn test_header_lookup_is_case_insensitive_first_wins() {
    let p = part(
        vec![("Subject", "first"), ("SUBJECT", "second"), ("From", "A <a@b>")],
        None,
        None,
    );
    assert_eq!(get_first_header_value(&p, "subject").unwrap(), "first");
    assert_eq!(get_first_header_value(&p, "FROM").unwrap(), "A <a@b>");
    assert!(get_first_header_value(&p, "Date").is_none());
}

#[test]
fn test_extract_email_address_variants() {
    assert_eq!(extract_email_address("Alice <alice@example.com>"), "alice@example.com");
    assert_eq!(extract_email_address("bob@example.com"), "bob@example.com");
    // An empty pair of brackets is no group; the next group wins.
    assert_eq!(extract_email_address("<>x<c@d>"), "c@d");
    assert_eq!(extract_email_address(""), "");
}

#[test]
fn test_extract_filename_from_content_disposition() {
    assert_eq!(
        extract_filename_from_content_disposition("attachment; filename=\"report.pdf\""),
        Some(String::from("report.pdf"))
    );
    assert_eq!(
        extract_filename_from_content_disposition("inline; filename=x.txt"),
        Some(String::from("x.txt"))
    );
    assert_eq!(extract_filename_from_content_disposition("attachment"), None);
    assert_eq!(
        extract_filename_from_content_disposition("attachment;filename=a b.txt"),
        Some(String::from("a b.txt"))
    );
}

#[test]
fn test_bodies_first_part_wins_and_slots_are_kept() {
    let msg = MimeMessage {
        parts: vec![
            part(vec![("Content-Type", "multipart/alternative; boundary=b")], None, None),
            part(vec![("Content-Type", "text/plain; charset=utf-8")], Some("plain one"), None),
            part(vec![("Content-Type", "TEXT/PLAIN")], Some("plain two"), None),
            part(vec![("Content-Type", "text/html")], Some("<p>html</p>"), None),
        ],
    };
    let d = extract_email_data(&msg).unwrap();
    assert_eq!(d.body_plain, "plain one");
    assert_eq!(d.body_html, "<p>html</p>");
}

#[test]
fn test_email_data_headers_and_addresses() {
    let msg = MimeMessage {
        parts: vec![part(
            vec![
                ("Subject", "hi"),
                ("From", "Alice <alice@example.com>"),
                ("To", "bob@example.com"),
                ("Date", "Sun, 02 Oct 2016 07:06:22 -0700"),
                ("Content-Type", "text/plain"),
            ],
            Some("body"),
            None,
        )],
    };
    let d = extract_email_data(&msg).unwrap();
    assert_eq!(d.subject, "hi");
    assert_eq!(d.from_raw, "Alice <alice@example.com>");
    assert_eq!(d.from_email, "alice@example.com");
    assert_eq!(d.to_raw, "bob@example.com");
    assert_eq!(d.to_email, "bob@example.com");
    assert_eq!(d.date, "Sun, 02 Oct 2016 07:06:22 -0700");
    assert_eq!(d.body_plain, "body");
    assert_eq!(d.body_html, "");
}

#[test]
fn test_missing_headers_are_empty() {
    let msg = MimeMessage { parts: vec![part(vec![], None, None)] };
    let d = extract_email_data(&msg).unwrap();
    assert_eq!(d.subject, "");
    assert_eq!(d.from_raw, "");
    assert_eq!(d.from_email, "");
    assert_eq!(d.body_plain, "");
}

#[test]
fn test_chosen_body_that_failed_to_decode_fails_extraction() {
    let msg = MimeMessage {
        parts: vec![part(vec![("Content-Type", "text/plain")], None, None)],
    };
    assert!(extract_email_data(&msg).is_none());
}

#[test]
fn test_attachments_are_collected_in_order_with_names() {
    let msg = MimeMessage {
        parts: vec![
            part(vec![("Content-Type", "multipart/mixed; boundary=b")], None, None),
            part(vec![("Content-Type", "text/plain")], Some("body"), Some(b"body")),
            part(
                vec![("Content-Disposition", "attachment; filename=\"a.bin\"")],
                None,
                Some(&[1, 2, 3]),
            ),
            part(
                vec![("Content-Disposition", "inline; filename=b.txt")],
                None,
                Some(b"bees"),
            ),
            part(vec![("Content-Disposition", "attachment")], None, Some(b"anon")),
        ],
    };
    let atts = extract_attachments(&msg).unwrap();
    assert_eq!(atts.len(), 3);
    assert_eq!(atts[0].0, "a.bin");
    assert_eq!(atts[0].1, vec![1, 2, 3]);
    assert_eq!(atts[1].0, "b.txt");
    assert_eq!(atts[1].1, b"bees".to_vec());
    assert_eq!(atts[2].0, "unnamed_attachment");
    assert_eq!(atts[2].1, b"anon".to_vec());
}

#[test]
fn test_dedicated_filename_header_wins() {
    let msg = MimeMessage {
        parts: vec![
            part(vec![], None, None),
            part(
                vec![
                    ("Content-Disposition", "attachment; filename=\"from-cd.bin\""),
                    ("filename", "from-header.bin"),
                ],
                None,
                Some(b"x"),
            ),
        ],
    };
    let atts = extract_attachments(&msg).unwrap();
    assert_eq!(atts[0].0, "from-header.bin");
}

#[test]
fn test_root_part_is_never_an_attachment() {
    let msg = MimeMessage {
        parts: vec![part(
            vec![("Content-Disposition", "attachment; filename=\"root.bin\"")],
            None,
            Some(b"x"),
        )],
    };
    assert!(extract_attachments(&msg).unwrap().is_empty());
}

#[test]
fn test_attachment_with_undecodable_body_fails_extraction() {
    let msg = MimeMessage {
        parts: vec![
            part(vec![], None, None),
            part(vec![("Content-Disposition", "attachment; filename=x")], None, None),
        ],
    };
    assert!(extract_attachments(&msg).is_none());
}
