use mail_forge::config::WebhookConfig;
use mail_forge::dispatch::{
    attachment_field_name, collision_candidate, is_success_status, prepare_dispatch,
    split_stem_ext, DispatchError,
};
use mail_forge::signer::AuthTriple;

fn raw_mail(lines: &[&str]) -> String {
    let mut s = String::new();
    for l in lines {
        s.push_str(l);
        s.push_str("\r\n");
    }
    s
}

fn webhook() -> WebhookConfig {
    WebhookConfig {
        url: String::from("https://hook.example/mail"),
        api_key: String::from("secret"),
    }
}

fn auth() -> AuthTriple {
    AuthTriple {
        timestamp: String::from("1700000000"),
        token: String::from("AAAAAAAAAAAAAAAAAAAAAAAAAAAAAAAA"),
        signature: String::from("00ff"),
    }
}

#[test]
fn test_split_stem_ext() {
    assert_eq!(split_stem_ext("report.pdf"), (String::from("report"), String::from(".pdf")));
    assert_eq!(
        split_stem_ext("archive.tar.gz"),
        (String::from("archive.tar"), String::from(".gz"))
    );
    assert_eq!(split_stem_ext("noext"), (String::from("noext"), String::from("")));
}

#[test]
fn test_collision_candidate_inserts_counter_before_extension() {
    assert_eq!(collision_candidate("report.pdf", 1), "report_1.pdf");
    assert_eq!(collision_candidate("report.pdf", 12), "report_12.pdf");
    assert_eq!(collision_candidate("noext", 3), "noext_3");
}

#[test]
fn test_attachment_field_names_count_from_one() {
    assert_eq!(attachment_field_name(0), "attachment-1");
    assert_eq!(attachment_field_name(1), "attachment-2");
    assert_eq!(attachment_field_name(9), "attachment-10");
}

#[test]
fn test_is_success_status() {
    assert!(is_success_status(200));
    assert!(is_success_status(204));
    assert!(is_success_status(299));
    assert!(!is_success_status(199));
    assert!(!is_success_status(300));
    assert!(!is_success_status(500));
}

// One message with one base64 attachment, end to end through the real
// MIME parser: the staged bytes must be identical to what was attached.
#[test]
fn test_round_trip_attachment_is_byte_identical() {
    let raw = raw_mail(&[
        "Subject: with attachment",
        "From: Alice <alice@example.com>",
        "To: served@served.tld",
        "Date: Sun, 02 Oct 2016 07:06:22 -0700",
        "Content-Type: multipart/mixed; boundary=\"xyz\"",
        "",
        "--xyz",
        "Content-Type: text/plain",
        "",
        "see attached",
        "--xyz",
        "Content-Type: application/octet-stream",
        "Content-Disposition: attachment; filename=\"hello.bin\"",
        "Content-Transfer-Encoding: base64",
        "",
        "SGVsbG8gYXR0YWNobWVudCE=",
        "--xyz--",
    ]);
    let plan = prepare_dispatch(&webhook(), &raw, &auth()).unwrap();
    assert_eq!(plan.url, "https://hook.example/mail");
    assert_eq!(plan.attachments.len(), 1);
    assert_eq!(plan.attachments[0].field_name, "attachment-1");
    assert_eq!(plan.attachments[0].file_name, "hello.bin");
    assert_eq!(plan.attachments[0].bytes, b"Hello attachment!".to_vec());
}

#[test]
fn test_text_fields_order_and_values() {
    let raw = raw_mail(&[
        "Subject: hi",
        "From: Alice <alice@example.com>",
        "To: Bob <bob@example.com>",
        "Date: D",
        "Content-Type: text/plain",
        "",
        "the body",
    ]);
    let plan = prepare_dispatch(&webhook(), &raw, &auth()).unwrap();
    let fields: Vec<(String, String)> = plan.text_fields;
    let expected = vec![
        ("timestamp", "1700000000"),
        ("token", "AAAAAAAAAAAAAAAAAAAAAAAAAAAAAAAA"),
        ("signature", "00ff"),
        ("From", "Alice <alice@example.com>"),
        ("Subject", "hi"),
        ("To", "Bob <bob@example.com>"),
        ("body-html", ""),
        ("body-plain", "the body\r\n"),
        ("date", "D"),
        ("from", "alice@example.com"),
        ("subject", "hi"),
        ("to", "bob@example.com"),
    ];
    assert_eq!(fields.len(), expected.len());
    for (got, want) in fields.iter().zip(expected.iter()) {
        assert_eq!(got.0, want.0);
        assert_eq!(got.1, want.1);
    }
}

#[test]
fn test_attachment_filename_is_sanitised() {
    let raw = raw_mail(&[
        "Content-Type: multipart/mixed; boundary=\"xyz\"",
        "",
        "--xyz",
        "Content-Disposition: attachment; filename=\"../../evil.bin\"",
        "",
        "data",
        "--xyz--",
    ]);
    let plan = prepare_dispatch(&webhook(), &raw, &auth()).unwrap();
    assert_eq!(plan.attachments.len(), 1);
    // Path separators are stripped; the dots and name remain.
    assert_eq!(plan.attachments[0].file_name, "....evil.bin");
}

#[test]
fn test_attachment_name_unsanitisable_is_an_error() {
    let raw = raw_mail(&[
        "Content-Type: multipart/mixed; boundary=\"xyz\"",
        "",
        "--xyz",
        "Content-Disposition: attachment; filename=\"///\"",
        "",
        "data",
        "--xyz--",
    ]);
    let r = prepare_dispatch(&webhook(), &raw, &auth());
    assert!(matches!(r, Err(DispatchError::InvalidFilename)));
}

#[test]
fn test_unparseable_message_is_a_parse_failure() {
    // A first header line starting with a space cannot be parsed.
    let raw = " overhanging continuation\r\n\r\nbody\r\n";
    let r = prepare_dispatch(&webhook(), raw, &auth());
    assert!(matches!(r, Err(DispatchError::ParseFailure)));
}

#[test]
fn test_undecodable_chosen_body_is_a_decode_failure() {
    let raw = raw_mail(&[
        "Subject: s",
        "Content-Type: text/plain",
        "Content-Transfer-Encoding: base64",
        "",
        "!!!!",
    ]);
    let r = prepare_dispatch(&webhook(), &raw, &auth());
    assert!(matches!(r, Err(DispatchError::BodyDecode)));
}

#[test]
fn test_message_without_attachments_has_none() {
    let raw = "Subject: s\r\n\r\nplain\r\n";
    let plan = prepare_dispatch(&webhook(), raw, &auth()).unwrap();
    assert!(plan.attachments.is_empty());
}
