use mail_forge::config::{ServerConfig, WebhookConfig};
use mail_forge::router::get_webhook_for_recipient;
use mail_forge::session::{
    data_feed_line, data_final_reply, greeting_line, process_command, size_exceeded_reply,
    DataPhase, DataStatus, SessionState, SmtpAction,
};

fn config() -> ServerConfig {
    ServerConfig {
        smtp_bind_address: String::from("127.0.0.1:2525"),
        hostname: String::from("mail.example"),
        max_size: 35882577,
        cert_path: String::from("cert.pem"),
        key_path: String::from("key.pem"),
    }
}

fn table() -> Vec<(String, WebhookConfig)> {
    vec![
        (
            String::from("known@served.tld"),
            WebhookConfig {
                url: String::from("https://hook.example/"),
                api_key: String::from("k"),
            },
        ),
        (
            String::from("*@served.tld"),
            WebhookConfig {
                url: String::from("https://hook.example/wild"),
                api_key: String::from("kw"),
            },
        ),
    ]
}

#[test]
fn test_greeting_line() {
    assert_eq!(
        greeting_line("mail.example"),
        "220 mail.example Mail Forge SMTP Server Ready\r\n"
    );
}

#[test]
fn test_scenario_a_basic_accept() {
    let cfg = config();
    let t = table();
    let mut s = SessionState::new();

    let (r, a) = process_command(&mut s, "EHLO client.example\r\n", &cfg, &t);
    assert_eq!(
        r,
        "250-mail.example Mail Forge ESMTP Server Ready\r\n250-STARTTLS\r\n250 SIZE 35882577\r\n"
    );
    assert_eq!(a, SmtpAction::Continue);
    assert_eq!(s.helo.as_deref(), Some("client.example"));

    let (r, a) = process_command(&mut s, "MAIL FROM:<a@x>\r\n", &cfg, &t);
    assert_eq!(r, "250 2.1.0 OK\r\n");
    assert_eq!(a, SmtpAction::Continue);
    assert_eq!(s.mail_from.as_deref(), Some("a@x"));

    let (r, a) = process_command(&mut s, "RCPT TO:<known@served.tld>\r\n", &cfg, &t);
    assert_eq!(r, "250 2.1.5 Recipient OK\r\n");
    assert_eq!(a, SmtpAction::Continue);
    assert_eq!(s.rcpt_to, vec![String::from("known@served.tld")]);

    let (r, a) = process_command(&mut s, "DATA\r\n", &cfg, &t);
    assert_eq!(r, "354 End data with <CR><LF>.<CR><LF>\r\n");
    assert_eq!(a, SmtpAction::BeginData);

    let mut phase = DataPhase::new();
    assert_eq!(data_feed_line(&mut phase, "Subject: hi\r\n", cfg.max_size), DataStatus::MoreNeeded);
    assert_eq!(data_feed_line(&mut phase, "\r\n", cfg.max_size), DataStatus::MoreNeeded);
    assert_eq!(data_feed_line(&mut phase, "body\r\n", cfg.max_size), DataStatus::MoreNeeded);
    assert_eq!(data_feed_line(&mut phase, ".\r\n", cfg.max_size), DataStatus::Done);
    assert_eq!(phase.data, "Subject: hi\r\n\r\nbody\r\n");

    assert_eq!(data_final_reply(true), "250 OK\r\n");

    let (r, a) = process_command(&mut s, "QUIT\r\n", &cfg, &t);
    assert_eq!(r, "221 Bye\r\n");
    assert_eq!(a, SmtpAction::Quit);
}

#[test]
fn test_scenario_b_unroutable_recipient() {
    let cfg = config();
    let t = table();
    let mut s = SessionState::new();
    process_command(&mut s, "EHLO c\r\n", &cfg, &t);
    process_command(&mut s, "MAIL FROM:<a@x>\r\n", &cfg, &t);
    let (r, a) = process_command(&mut s, "RCPT TO:<stranger@other>\r\n", &cfg, &t);
    assert_eq!(r, "550 5.7.1 Unable to relay\r\n");
    assert_eq!(a, SmtpAction::Continue);
    assert!(s.rcpt_to.is_empty());
}

#[test]
fn test_scenario_c_wildcard_recipient_accepted() {
    let cfg = config();
    let t = table();
    let mut s = SessionState::new();
    process_command(&mut s, "MAIL FROM:<a@x>\r\n", &cfg, &t);
    let (r, _) = process_command(&mut s, "RCPT TO:<anyone@served.tld>\r\n", &cfg, &t);
    assert_eq!(r, "250 2.1.5 Recipient OK\r\n");
    assert_eq!(s.rcpt_to, vec![String::from("anyone@served.tld")]);
}

#[test]
fn test_scenario_d_oversize_data() {
    // max_size = 100; a 200-byte body line exceeds the limit at once.
    let mut phase = DataPhase::new();
    let long_line = format!("{}\r\n", "x".repeat(198));
    assert_eq!(data_feed_line(&mut phase, &long_line, 100), DataStatus::TooLarge);
    assert_eq!(size_exceeded_reply(), "552 Message size exceeds maximum permitted\r\n");
    // The failing line is not accumulated.
    assert_eq!(phase.data, "");
    assert_eq!(phase.total, 0);
}

#[test]
fn test_data_terminator_counts_against_limit() {
    // body 6 bytes + terminator 3 bytes == 9.
    let mut phase = DataPhase::new();
    assert_eq!(data_feed_line(&mut phase, "abcd\r\n", 9), DataStatus::MoreNeeded);
    assert_eq!(data_feed_line(&mut phase, ".\r\n", 9), DataStatus::Done);

    let mut phase = DataPhase::new();
    assert_eq!(data_feed_line(&mut phase, "abcd\r\n", 8), DataStatus::MoreNeeded);
    assert_eq!(data_feed_line(&mut phase, ".\r\n", 8), DataStatus::TooLarge);
}

#[test]
fn test_data_lines_resembling_the_terminator_are_body() {
    // Only the exact line ".\r\n" ends the body; dots elsewhere are data.
    let mut phase = DataPhase::new();
    assert_eq!(data_feed_line(&mut phase, "..\r\n", 1000), DataStatus::MoreNeeded);
    assert_eq!(data_feed_line(&mut phase, ". \r\n", 1000), DataStatus::MoreNeeded);
    assert_eq!(data_feed_line(&mut phase, ".\r\n", 1000), DataStatus::Done);
    assert_eq!(phase.data, "..\r\n. \r\n");
    assert_eq!(phase.total, 11);
}

#[test]
fn test_scenario_e_starttls_upgrade_and_repeat() {
    let cfg = config();
    let t = table();
    let mut s = SessionState::new();

    let (r, a) = process_command(&mut s, "STARTTLS\r\n", &cfg, &t);
    assert_eq!(r, "220 Ready to start TLS\r\n");
    assert_eq!(a, SmtpAction::StartTls);
    assert!(s.tls_active);

    // EHLO over TLS returns the same capability banner.
    let (r, _) = process_command(&mut s, "EHLO client.example\r\n", &cfg, &t);
    assert_eq!(
        r,
        "250-mail.example Mail Forge ESMTP Server Ready\r\n250-STARTTLS\r\n250 SIZE 35882577\r\n"
    );

    // A second STARTTLS is refused and does not ask for another upgrade.
    let (r, a) = process_command(&mut s, "STARTTLS\r\n", &cfg, &t);
    assert_eq!(r, "503 TLS already active\r\n");
    assert_eq!(a, SmtpAction::Continue);
    assert!(s.tls_active);
}

#[test]
fn test_rset_clears_envelope_then_data_is_refused() {
    let cfg = config();
    let t = table();
    let mut s = SessionState::new();
    process_command(&mut s, "HELO c\r\n", &cfg, &t);
    process_command(&mut s, "MAIL FROM:<a@x>\r\n", &cfg, &t);
    process_command(&mut s, "RCPT TO:<known@served.tld>\r\n", &cfg, &t);

    let (r, a) = process_command(&mut s, "RSET\r\n", &cfg, &t);
    assert_eq!(r, "250 OK\r\n");
    assert_eq!(a, SmtpAction::Continue);
    assert!(s.helo.is_none());
    assert!(s.mail_from.is_none());
    assert!(s.rcpt_to.is_empty());

    let (r, a) = process_command(&mut s, "DATA\r\n", &cfg, &t);
    assert_eq!(r, "503 Bad sequence of commands\r\n");
    assert_eq!(a, SmtpAction::Continue);
}

#[test]
fn test_rset_keeps_tls_state() {
    let cfg = config();
    let t = table();
    let mut s = SessionState::new();
    process_command(&mut s, "STARTTLS\r\n", &cfg, &t);
    process_command(&mut s, "RSET\r\n", &cfg, &t);
    assert!(s.tls_active);
}

#[test]
fn test_rcpt_before_mail_is_bad_sequence() {
    let cfg = config();
    let t = table();
    let mut s = SessionState::new();
    let (r, _) = process_command(&mut s, "RCPT TO:<known@served.tld>\r\n", &cfg, &t);
    assert_eq!(r, "503 Bad sequence of commands\r\n");
    assert!(s.rcpt_to.is_empty());
}

#[test]
fn test_data_without_envelope_is_bad_sequence() {
    let cfg = config();
    let t = table();
    let mut s = SessionState::new();
    let (r, a) = process_command(&mut s, "DATA\r\n", &cfg, &t);
    assert_eq!(r, "503 Bad sequence of commands\r\n");
    assert_eq!(a, SmtpAction::Continue);
}

#[test]
fn test_empty_mail_address_is_rejected() {
    let cfg = config();
    let t = table();
    let mut s = SessionState::new();
    let (r, _) = process_command(&mut s, "MAIL FROM:<>\r\n", &cfg, &t);
    assert_eq!(r, "501 5.5.2 Syntax error: Empty email address\r\n");
    assert!(s.mail_from.is_none());

    process_command(&mut s, "MAIL FROM:<a@x>\r\n", &cfg, &t);
    let (r, _) = process_command(&mut s, "RCPT TO:<>\r\n", &cfg, &t);
    assert_eq!(r, "501 5.5.2 Syntax error: Empty recipient address\r\n");
}

#[test]
fn test_unknown_and_empty_commands() {
    let cfg = config();
    let t = table();
    let mut s = SessionState::new();
    let (r, _) = process_command(&mut s, "FROBNICATE\r\n", &cfg, &t);
    assert_eq!(r, "500 Syntax error, command unrecognized\r\n");
    let (r, _) = process_command(&mut s, "\r\n", &cfg, &t);
    assert_eq!(r, "500 Syntax error, command unrecognized\r\n");
    // MAIL without its FROM: prefix is unrecognized as well.
    let (r, _) = process_command(&mut s, "MAIL <a@x>\r\n", &cfg, &t);
    assert_eq!(r, "500 Syntax error, command unrecognized\r\n");
}

#[test]
fn test_verbs_and_prefixes_are_case_insensitive() {
    let cfg = config();
    let t = table();
    let mut s = SessionState::new();
    let (r, _) = process_command(&mut s, "mail from:<a@x>\r\n", &cfg, &t);
    assert_eq!(r, "250 2.1.0 OK\r\n");
    assert_eq!(s.mail_from.as_deref(), Some("a@x"));
    let (r, _) = process_command(&mut s, "rCpT tO:<known@served.tld>\r\n", &cfg, &t);
    assert_eq!(r, "250 2.1.5 Recipient OK\r\n");
}

#[test]
fn test_address_without_brackets_is_accepted() {
    let cfg = config();
    let t = table();
    let mut s = SessionState::new();
    let (r, _) = process_command(&mut s, "MAIL FROM: a@x \r\n", &cfg, &t);
    assert_eq!(r, "250 2.1.0 OK\r\n");
    assert_eq!(s.mail_from.as_deref(), Some("a@x"));
}

#[test]
fn test_noop_replies_ok() {
    let cfg = config();
    let t = table();
    let mut s = SessionState::new();
    let (r, a) = process_command(&mut s, "NOOP\r\n", &cfg, &t);
    assert_eq!(r, "250 OK\r\n");
    assert_eq!(a, SmtpAction::Continue);
}

#[test]
fn test_scenario_f_fanout_replies() {
    // One success among the recipients: 250; none: 554.
    assert_eq!(data_final_reply(true), "250 OK\r\n");
    assert_eq!(
        data_final_reply(false),
        "554 Failed to process email for all recipients.\r\n"
    );
}

#[test]
fn test_accepted_recipients_still_resolve_at_fanout() {
    // Every recipient that RCPT accepted resolves against the same table.
    let cfg = config();
    let t = table();
    let mut s = SessionState::new();
    process_command(&mut s, "MAIL FROM:<a@x>\r\n", &cfg, &t);
    process_command(&mut s, "RCPT TO:<known@served.tld>\r\n", &cfg, &t);
    process_command(&mut s, "RCPT TO:<second@served.tld>\r\n", &cfg, &t);
    for r in &s.rcpt_to {
        assert!(get_webhook_for_recipient(r, &t).is_some());
    }
}
