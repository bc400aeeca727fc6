//! The per-connection SMTP command engine.
//!
//! A session holds the envelope being built (HELO identity, sender,
//! accepted recipients) and whether the stream has been upgraded to TLS.
//! `process_command` consumes one command line and yields the reply to
//! write and the action the connection driver must take next; the DATA
//! phase is driven line by line through `data_feed_line`. Everything is
//! specified by the pure step function `spec_step`.

use vstd::prelude::*;
use vstd::string::StrSliceExecFns;
use vstd::string::StringExecFns;
use vstd::string::StringSliceAdditionalSpecFns;
use vstd::utf8::encode_utf8;
use crate::config::ServerConfig;
use crate::config::WebhookConfig;
use crate::router::get_webhook_for_recipient;
use crate::router::resolve_spec;
use crate::text::{
    dec_nat, find_c, find_char, seq_eq_ci, starts_with_ci, starts_with_ci_spec, str_eq,
    str_eq_ci, trim_spec, trim_str, u64_to_string,
};

verus! {

// ---------------------------------------------------------------------------
// Session state
// ---------------------------------------------------------------------------

/// The mutable state of one SMTP connection.
pub struct SessionState {
    /// Argument of the last successful HELO/EHLO, if any.
    pub helo: Option<String>,
    /// Sender mailbox accepted by MAIL FROM, angle brackets stripped.
    pub mail_from: Option<String>,
    /// Recipients accepted by RCPT TO, in order; duplicates permitted.
    pub rcpt_to: Vec<String>,
    /// Whether STARTTLS has upgraded (or is upgrading) the stream.
    pub tls_active: bool,
}

pub ghost struct SessionView {
    pub helo: Option<Seq<char>>,
    pub mail_from: Option<Seq<char>>,
    pub rcpt_to: Seq<Seq<char>>,
    pub tls_active: bool,
}

impl View for SessionState {
    type V = SessionView;

    open spec fn view(&self) -> SessionView {
        SessionView {
            helo: match self.helo {
                Some(h) => Some(h@),
                None => None,
            },
            mail_from: match self.mail_from {
                Some(m) => Some(m@),
                None => None,
            },
            rcpt_to: Seq::new(self.rcpt_to@.len(), |i: int| self.rcpt_to@[i]@),
            tls_active: self.tls_active,
        }
    }
}

/// The state of a fresh connection.
pub open spec fn initial_session() -> SessionView {
    SessionView { helo: None, mail_from: None, rcpt_to: Seq::empty(), tls_active: false }
}

/// DATA may begin: a sender and at least one recipient are on record.
pub open spec fn ready_for_data(s: SessionView) -> bool {
    s.mail_from is Some && s.rcpt_to.len() > 0
}

impl SessionState {
    pub fn new() -> (s: Self)
        ensures
            s@ == initial_session(),
    {
        let s = SessionState {
            helo: None,
            mail_from: None,
            rcpt_to: Vec::new(),
            tls_active: false,
        };
        proof {
            assert(s@.rcpt_to =~= initial_session().rcpt_to);
        }
        s
    }

    pub fn is_ready_for_data(&self) -> (r: bool)
        ensures
            r == ready_for_data(self@),
    {
        self.mail_from.is_some() && self.rcpt_to.len() > 0
    }
}

// ---------------------------------------------------------------------------
// Replies
// ---------------------------------------------------------------------------

pub open spec fn reply_greeting(host: Seq<char>) -> Seq<char> {
    "220 "@ + host + " Mail Forge SMTP Server Ready\r\n"@
}

pub open spec fn reply_helo(host: Seq<char>) -> Seq<char> {
    "250 "@ + host + " Mail Forge ESMTP Server Ready\r\n"@
}

pub open spec fn reply_ehlo(host: Seq<char>, max_size: nat) -> Seq<char> {
    "250-"@ + host + " Mail Forge ESMTP Server Ready\r\n250-STARTTLS\r\n250 SIZE "@
        + dec_nat(max_size) + "\r\n"@
}

pub open spec fn reply_unrecognized() -> Seq<char> {
    "500 Syntax error, command unrecognized\r\n"@
}

pub open spec fn reply_ok() -> Seq<char> {
    "250 OK\r\n"@
}

pub open spec fn reply_mail_ok() -> Seq<char> {
    "250 2.1.0 OK\r\n"@
}

pub open spec fn reply_rcpt_ok() -> Seq<char> {
    "250 2.1.5 Recipient OK\r\n"@
}

pub open spec fn reply_unable_to_relay() -> Seq<char> {
    "550 5.7.1 Unable to relay\r\n"@
}

pub open spec fn reply_empty_from() -> Seq<char> {
    "501 5.5.2 Syntax error: Empty email address\r\n"@
}

pub open spec fn reply_empty_rcpt() -> Seq<char> {
    "501 5.5.2 Syntax error: Empty recipient address\r\n"@
}

pub open spec fn reply_bad_sequence() -> Seq<char> {
    "503 Bad sequence of commands\r\n"@
}

pub open spec fn reply_data_prompt() -> Seq<char> {
    "354 End data with <CR><LF>.<CR><LF>\r\n"@
}

pub open spec fn reply_size_exceeded() -> Seq<char> {
    "552 Message size exceeds maximum permitted\r\n"@
}

pub open spec fn reply_all_failed() -> Seq<char> {
    "554 Failed to process email for all recipients.\r\n"@
}

pub open spec fn reply_tls_ready() -> Seq<char> {
    "220 Ready to start TLS\r\n"@
}

pub open spec fn reply_tls_already() -> Seq<char> {
    "503 TLS already active\r\n"@
}

pub open spec fn reply_bye() -> Seq<char> {
    "221 Bye\r\n"@
}

/// The banner written when a connection is accepted.
pub fn greeting_line(hostname: &str) -> (r: String)
    ensures
        r@ == reply_greeting(hostname@),
{
    let mut s = String::from_str("220 ");
    s.append(hostname);
    s.append(" Mail Forge SMTP Server Ready\r\n");
    proof {
        assert(s@ =~= reply_greeting(hostname@));
    }
    s
}

fn helo_line(hostname: &str) -> (r: String)
    ensures
        r@ == reply_helo(hostname@),
{
    let mut s = String::from_str("250 ");
    s.append(hostname);
    s.append(" Mail Forge ESMTP Server Ready\r\n");
    proof {
        assert(s@ =~= reply_helo(hostname@));
    }
    s
}

fn ehlo_line(hostname: &str, max_size: usize) -> (r: String)
    ensures
        r@ == reply_ehlo(hostname@, max_size as nat),
{
    let size = u64_to_string(max_size as u64);
    let mut s = String::from_str("250-");
    s.append(hostname);
    s.append(" Mail Forge ESMTP Server Ready\r\n250-STARTTLS\r\n250 SIZE ");
    s.append(size.as_str());
    s.append("\r\n");
    proof {
        assert(s@ =~= reply_ehlo(hostname@, max_size as nat));
    }
    s
}

// ---------------------------------------------------------------------------
// Command parsing
// ---------------------------------------------------------------------------

pub ghost enum SpecCommand {
    Empty,
    Helo { args: Seq<char> },
    Ehlo { args: Seq<char> },
    Rset,
    Noop,
    Data,
    Quit,
    StartTls,
    MailFrom { addr: Seq<char> },
    RcptTo { addr: Seq<char> },
    Unknown,
}

/// A single leading `<` and a single trailing `>` removed, if present.
pub open spec fn strip_angle(s: Seq<char>) -> Seq<char> {
    let a = if s.len() > 0 && s[0] == '<' {
        s.drop_first()
    } else {
        s
    };
    if a.len() > 0 && a.last() == '>' {
        a.drop_last()
    } else {
        a
    }
}

/// The mailbox in a MAIL FROM: / RCPT TO: argument: everything after the
/// first colon, trimmed, with one pair of angle brackets stripped.
pub open spec fn addr_of_args(args: Seq<char>) -> Seq<char> {
    let colon = find_c(args, ':');
    strip_angle(trim_spec(args.subrange(colon + 1, args.len() as int)))
}

/// Split one received line into a command: trim, split at the first
/// space into verb and arguments, and match the verb ASCII-case-
/// insensitively.
pub open spec fn parse_command(line: Seq<char>) -> SpecCommand {
    let t = trim_spec(line);
    let sp = find_c(t, ' ');
    let verb = if sp == -1 { t } else { t.subrange(0, sp) };
    let args = if sp == -1 { Seq::<char>::empty() } else { t.subrange(sp + 1, t.len() as int) };
    if verb.len() == 0 {
        SpecCommand::Empty
    } else if seq_eq_ci(verb, "HELO"@) {
        SpecCommand::Helo { args }
    } else if seq_eq_ci(verb, "EHLO"@) {
        SpecCommand::Ehlo { args }
    } else if seq_eq_ci(verb, "RSET"@) {
        SpecCommand::Rset
    } else if seq_eq_ci(verb, "NOOP"@) {
        SpecCommand::Noop
    } else if seq_eq_ci(verb, "DATA"@) {
        SpecCommand::Data
    } else if seq_eq_ci(verb, "QUIT"@) {
        SpecCommand::Quit
    } else if seq_eq_ci(verb, "STARTTLS"@) {
        SpecCommand::StartTls
    } else if seq_eq_ci(verb, "MAIL"@) && starts_with_ci_spec(args, "FROM:"@) {
        SpecCommand::MailFrom { addr: addr_of_args(args) }
    } else if seq_eq_ci(verb, "RCPT"@) && starts_with_ci_spec(args, "TO:"@) {
        SpecCommand::RcptTo { addr: addr_of_args(args) }
    } else {
        SpecCommand::Unknown
    }
}

// ---------------------------------------------------------------------------
// The step function
// ---------------------------------------------------------------------------

/// What the connection driver must do after a reply has been written.
#[derive(Clone, Copy, Debug, PartialEq, Eq, Structural)]
pub enum SmtpAction {
    /// Keep reading commands.
    Continue,
    /// Perform the TLS handshake, then keep reading commands.
    StartTls,
    /// Stream the message body until the dot terminator.
    BeginData,
    /// Close the connection.
    Quit,
}

pub ghost struct StepView {
    pub state: SessionView,
    pub reply: Seq<char>,
    pub action: SmtpAction,
}

/// The effect of one parsed command on the session.
pub open spec fn apply_command(
    s: SessionView,
    c: SpecCommand,
    host: Seq<char>,
    max_size: nat,
    table: Seq<(String, WebhookConfig)>,
) -> StepView {
    match c {
        SpecCommand::Empty => StepView {
            state: s,
            reply: reply_unrecognized(),
            action: SmtpAction::Continue,
        },
        SpecCommand::Unknown => StepView {
            state: s,
            reply: reply_unrecognized(),
            action: SmtpAction::Continue,
        },
        SpecCommand::Helo { args } => StepView {
            state: SessionView { helo: Some(args), ..s },
            reply: reply_helo(host),
            action: SmtpAction::Continue,
        },
        SpecCommand::Ehlo { args } => StepView {
            state: SessionView { helo: Some(args), ..s },
            reply: reply_ehlo(host, max_size),
            action: SmtpAction::Continue,
        },
        SpecCommand::Rset => StepView {
            state: SessionView {
                helo: None,
                mail_from: None,
                rcpt_to: Seq::empty(),
                tls_active: s.tls_active,
            },
            reply: reply_ok(),
            action: SmtpAction::Continue,
        },
        SpecCommand::Noop => StepView { state: s, reply: reply_ok(), action: SmtpAction::Continue },
        SpecCommand::Quit => StepView { state: s, reply: reply_bye(), action: SmtpAction::Quit },
        SpecCommand::Data => if ready_for_data(s) {
            StepView { state: s, reply: reply_data_prompt(), action: SmtpAction::BeginData }
        } else {
            StepView { state: s, reply: reply_bad_sequence(), action: SmtpAction::Continue }
        },
        SpecCommand::StartTls => if s.tls_active {
            StepView { state: s, reply: reply_tls_already(), action: SmtpAction::Continue }
        } else {
            StepView {
                state: SessionView { tls_active: true, ..s },
                reply: reply_tls_ready(),
                action: SmtpAction::StartTls,
            }
        },
        SpecCommand::MailFrom { addr } => if addr.len() == 0 {
            StepView { state: s, reply: reply_empty_from(), action: SmtpAction::Continue }
        } else {
            StepView {
                state: SessionView { mail_from: Some(addr), ..s },
                reply: reply_mail_ok(),
                action: SmtpAction::Continue,
            }
        },
        SpecCommand::RcptTo { addr } => if s.mail_from is None {
            StepView { state: s, reply: reply_bad_sequence(), action: SmtpAction::Continue }
        } else if addr.len() == 0 {
            StepView { state: s, reply: reply_empty_rcpt(), action: SmtpAction::Continue }
        } else if resolve_spec(addr, table) is Some {
            StepView {
                state: SessionView { rcpt_to: s.rcpt_to.push(addr), ..s },
                reply: reply_rcpt_ok(),
                action: SmtpAction::Continue,
            }
        } else {
            StepView { state: s, reply: reply_unable_to_relay(), action: SmtpAction::Continue }
        },
    }
}

/// The effect of one received line on the session.
pub open spec fn spec_step(
    s: SessionView,
    line: Seq<char>,
    host: Seq<char>,
    max_size: nat,
    table: Seq<(String, WebhookConfig)>,
) -> StepView {
    apply_command(s, parse_command(line), host, max_size, table)
}

// ---------------------------------------------------------------------------
// Executable command processing
// ---------------------------------------------------------------------------

fn strip_angle_str<'a>(s: &'a str) -> (r: &'a str)
    ensures
        r@ == strip_angle(s@),
{
    let len = s.unicode_len();
    let start: usize = if len > 0 && s.get_char(0) == '<' {
        1
    } else {
        0
    };
    let end: usize = if len - start > 0 && s.get_char(len - 1) == '>' {
        len - 1
    } else {
        len
    };
    proof {
        let a = if s@.len() > 0 && s@[0] == '<' { s@.drop_first() } else { s@ };
        assert(a =~= s@.subrange(start as int, s@.len() as int));
        if a.len() > 0 && a.last() == '>' {
            assert(a.drop_last() =~= s@.subrange(start as int, end as int));
        } else {
            assert(a =~= s@.subrange(start as int, end as int));
        }
    }
    s.substring_char(start, end)
}

fn addr_from_args<'a>(args: &'a str) -> (r: &'a str)
    ensures
        r@ == addr_of_args(args@),
{
    let len = args.unicode_len();
    let after = match find_char(args, ':') {
        Some(i) => args.substring_char(i + 1, len),
        None => {
            proof {
                assert(args@.subrange(0, args@.len() as int) =~= args@);
            }
            args
        },
    };
    strip_angle_str(trim_str(after))
}

/// Feed one command line to the session. Returns the reply to write and
/// the action the driver must take after writing it.
pub fn process_command(
    state: &mut SessionState,
    line: &str,
    config: &ServerConfig,
    table: &Vec<(String, WebhookConfig)>,
) -> (r: (String, SmtpAction))
    ensures
        ({
            let step = spec_step(
                old(state)@,
                line@,
                config.hostname@,
                config.max_size as nat,
                table@,
            );
            final(state)@ == step.state && r.0@ == step.reply && r.1 == step.action
        }),
{
    let trimmed = trim_str(line);
    let tlen = trimmed.unicode_len();
    let (verb, args): (&str, &str) = match find_char(trimmed, ' ') {
        Some(i) => (trimmed.substring_char(0, i), trimmed.substring_char(i + 1, tlen)),
        None => {
            proof {
                assert(trimmed@.subrange(0, trimmed@.len() as int) =~= trimmed@);
                reveal_strlit("");
                assert(""@ =~= Seq::<char>::empty());
            }
            (trimmed, "")
        },
    };
    if verb.unicode_len() == 0 {
        (unrecognized_line(), SmtpAction::Continue)
    } else if str_eq_ci(verb, "HELO") {
        state.helo = Some(String::from_str(args));
        proof {
            assert(final(state)@ =~= SessionView { helo: Some(args@), ..old(state)@ });
        }
        (helo_line(config.hostname.as_str()), SmtpAction::Continue)
    } else if str_eq_ci(verb, "EHLO") {
        state.helo = Some(String::from_str(args));
        proof {
            assert(final(state)@ =~= SessionView { helo: Some(args@), ..old(state)@ });
        }
        (ehlo_line(config.hostname.as_str(), config.max_size), SmtpAction::Continue)
    } else if str_eq_ci(verb, "RSET") {
        state.helo = None;
        state.mail_from = None;
        state.rcpt_to = Vec::new();
        proof {
            assert(final(state)@.rcpt_to =~= Seq::<Seq<char>>::empty());
        }
        (ok_line(), SmtpAction::Continue)
    } else if str_eq_ci(verb, "NOOP") {
        (ok_line(), SmtpAction::Continue)
    } else if str_eq_ci(verb, "DATA") {
        if state.is_ready_for_data() {
            (data_prompt_line(), SmtpAction::BeginData)
        } else {
            (bad_sequence_line(), SmtpAction::Continue)
        }
    } else if str_eq_ci(verb, "QUIT") {
        (bye_line(), SmtpAction::Quit)
    } else if str_eq_ci(verb, "STARTTLS") {
        if state.tls_active {
            (tls_already_line(), SmtpAction::Continue)
        } else {
            state.tls_active = true;
            proof {
                assert(final(state)@ =~= SessionView { tls_active: true, ..old(state)@ });
            }
            (tls_ready_line(), SmtpAction::StartTls)
        }
    } else if str_eq_ci(verb, "MAIL") && starts_with_ci(args, "FROM:") {
        let addr = addr_from_args(args);
        if addr.unicode_len() == 0 {
            (empty_from_line(), SmtpAction::Continue)
        } else {
            state.mail_from = Some(String::from_str(addr));
            proof {
                assert(final(state)@ =~= SessionView {
                    mail_from: Some(addr@),
                    ..old(state)@
                });
            }
            (mail_ok_line(), SmtpAction::Continue)
        }
    } else if str_eq_ci(verb, "RCPT") && starts_with_ci(args, "TO:") {
        if state.mail_from.is_none() {
            (bad_sequence_line(), SmtpAction::Continue)
        } else {
            let addr = addr_from_args(args);
            if addr.unicode_len() == 0 {
                (empty_rcpt_line(), SmtpAction::Continue)
            } else if get_webhook_for_recipient(addr, table).is_some() {
                state.rcpt_to.push(String::from_str(addr));
                proof {
                    assert(final(state)@.rcpt_to =~= old(state)@.rcpt_to.push(addr@));
                    assert(final(state)@ =~= SessionView {
                        rcpt_to: old(state)@.rcpt_to.push(addr@),
                        ..old(state)@
                    });
                }
                (rcpt_ok_line(), SmtpAction::Continue)
            } else {
                (unable_line(), SmtpAction::Continue)
            }
        }
    } else {
        (unrecognized_line(), SmtpAction::Continue)
    }
}

fn unrecognized_line() -> (r: String)
    ensures
        r@ == reply_unrecognized(),
{
    String::from_str("500 Syntax error, command unrecognized\r\n")
}

fn ok_line() -> (r: String)
    ensures
        r@ == reply_ok(),
{
    String::from_str("250 OK\r\n")
}

fn mail_ok_line() -> (r: String)
    ensures
        r@ == reply_mail_ok(),
{
    String::from_str("250 2.1.0 OK\r\n")
}

fn rcpt_ok_line() -> (r: String)
    ensures
        r@ == reply_rcpt_ok(),
{
    String::from_str("250 2.1.5 Recipient OK\r\n")
}

fn unable_line() -> (r: String)
    ensures
        r@ == reply_unable_to_relay(),
{
    String::from_str("550 5.7.1 Unable to relay\r\n")
}

fn empty_from_line() -> (r: String)
    ensures
        r@ == reply_empty_from(),
{
    String::from_str("501 5.5.2 Syntax error: Empty email address\r\n")
}

fn empty_rcpt_line() -> (r: String)
    ensures
        r@ == reply_empty_rcpt(),
{
    String::from_str("501 5.5.2 Syntax error: Empty recipient address\r\n")
}

fn bad_sequence_line() -> (r: String)
    ensures
        r@ == reply_bad_sequence(),
{
    String::from_str("503 Bad sequence of commands\r\n")
}

fn data_prompt_line() -> (r: String)
    ensures
        r@ == reply_data_prompt(),
{
    String::from_str("354 End data with <CR><LF>.<CR><LF>\r\n")
}

fn size_exceeded_line() -> (r: String)
    ensures
        r@ == reply_size_exceeded(),
{
    String::from_str("552 Message size exceeds maximum permitted\r\n")
}

fn all_failed_line() -> (r: String)
    ensures
        r@ == reply_all_failed(),
{
    String::from_str("554 Failed to process email for all recipients.\r\n")
}

fn tls_ready_line() -> (r: String)
    ensures
        r@ == reply_tls_ready(),
{
    String::from_str("220 Ready to start TLS\r\n")
}

fn tls_already_line() -> (r: String)
    ensures
        r@ == reply_tls_already(),
{
    String::from_str("503 TLS already active\r\n")
}

fn bye_line() -> (r: String)
    ensures
        r@ == reply_bye(),
{
    String::from_str("221 Bye\r\n")
}

/// The reply closing the DATA phase: `250 OK` when at least one
/// recipient's dispatch succeeded, else the permanent failure.
pub fn data_final_reply(any_success: bool) -> (r: String)
    ensures
        any_success ==> r@ == reply_ok(),
        !any_success ==> r@ == reply_all_failed(),
{
    if any_success {
        ok_line()
    } else {
        all_failed_line()
    }
}

/// The reply aborting the DATA phase when the limit is exceeded.
pub fn size_exceeded_reply() -> (r: String)
    ensures
        r@ == reply_size_exceeded(),
{
    size_exceeded_line()
}

// ---------------------------------------------------------------------------
// The DATA phase
// ---------------------------------------------------------------------------

/// The message being accumulated during one DATA phase.
pub struct DataPhase {
    /// The body received so far, terminator excluded.
    pub data: String,
    /// Bytes received so far, terminator lines included.
    pub total: usize,
}

#[derive(Clone, Copy, Debug, PartialEq, Eq, Structural)]
pub enum DataStatus {
    /// The line was body content; keep reading.
    MoreNeeded,
    /// The line was the dot terminator; the message is complete.
    Done,
    /// The size limit was exceeded; the transaction must be aborted
    /// with `552` and the connection closed.
    TooLarge,
}

/// How many bytes a received line counts against the limit.
pub open spec fn line_bytes(l: Seq<char>) -> nat {
    encode_utf8(l).len()
}

pub open spec fn is_terminator(l: Seq<char>) -> bool {
    l == ".\r\n"@
}

impl DataPhase {
    pub fn new() -> (p: Self)
        ensures
            p.data@ == Seq::<char>::empty(),
            p.total == 0,
    {
        DataPhase { data: String::new(), total: 0 }
    }
}

/// Feed one received line to the DATA accumulator. The line's byte length
/// (terminator included) is charged against `max_size` first; then the
/// dot terminator ends the phase; any other line is appended to the body.
pub fn data_feed_line(phase: &mut DataPhase, line: &str, max_size: usize) -> (st: DataStatus)
    requires
        old(phase).total <= max_size,
        line_bytes(line@) <= usize::MAX,
    ensures
        (st == DataStatus::TooLarge) <==> old(phase).total + line_bytes(line@) > max_size,
        st == DataStatus::TooLarge ==> *final(phase) == *old(phase),
        st != DataStatus::TooLarge ==> final(phase).total == old(phase).total + line_bytes(
            line@,
        ) && final(phase).total <= max_size,
        (st == DataStatus::Done) <==> (old(phase).total + line_bytes(line@) <= max_size
            && is_terminator(line@)),
        st == DataStatus::Done ==> final(phase).data@ == old(phase).data@,
        (st == DataStatus::MoreNeeded) <==> (old(phase).total + line_bytes(line@) <= max_size
            && !is_terminator(line@)),
        st == DataStatus::MoreNeeded ==> final(phase).data@ == old(phase).data@ + line@,
{
    let n = line.len();
    if n > max_size - phase.total {
        return DataStatus::TooLarge;
    }
    phase.total = phase.total + n;
    if str_eq(line, ".\r\n") {
        DataStatus::Done
    } else {
        phase.data.append(line);
        DataStatus::MoreNeeded
    }
}

/// The outcome of feeding a whole sequence of lines to a fresh reading of
/// the DATA machine: the accumulated body and the final status
/// (`MoreNeeded` means the lines ran out with no terminator).
pub open spec fn run_data(
    lines: Seq<Seq<char>>,
    data: Seq<char>,
    total: nat,
    max: nat,
) -> (Seq<char>, DataStatus)
    decreases lines.len(),
{
    if lines.len() == 0 {
        (data, DataStatus::MoreNeeded)
    } else {
        let l = lines[0];
        if total + line_bytes(l) > max {
            (data, DataStatus::TooLarge)
        } else if is_terminator(l) {
            (data, DataStatus::Done)
        } else {
            run_data(lines.drop_first(), data + l, total + line_bytes(l), max)
        }
    }
}

/// Total byte count of a sequence of lines.
pub open spec fn total_bytes(lines: Seq<Seq<char>>) -> nat
    decreases lines.len(),
{
    if lines.len() == 0 {
        0
    } else {
        line_bytes(lines[0]) + total_bytes(lines.drop_first())
    }
}

/// All lines concatenated.
pub open spec fn concat_lines(lines: Seq<Seq<char>>) -> Seq<char>
    decreases lines.len(),
{
    if lines.len() == 0 {
        Seq::empty()
    } else {
        lines[0] + concat_lines(lines.drop_first())
    }
}

/// A transmission whose whole size stays within the limit is never
/// refused for size: the DATA machine cannot answer `552` for it.
pub proof fn lemma_data_within_limit(lines: Seq<Seq<char>>, data: Seq<char>, total: nat, max: nat)
    requires
        total + total_bytes(lines) <= max,
    ensures
        run_data(lines, data, total, max).1 != DataStatus::TooLarge,
    decreases lines.len(),
{
    if lines.len() > 0 {
        let l = lines[0];
        if !(total + line_bytes(l) > max) && !is_terminator(l) {
            lemma_data_within_limit(lines.drop_first(), data + l, total + line_bytes(l), max);
        }
    }
}

/// A body that alone exceeds the limit is always refused for size:
/// feeding lines with no terminator whose total passes `max` ends in
/// `TooLarge` (the session replies `552` and closes).
pub proof fn lemma_data_over_limit(lines: Seq<Seq<char>>, data: Seq<char>, total: nat, max: nat)
    requires
        total <= max,
        total + total_bytes(lines) > max,
        forall|i: int| 0 <= i < lines.len() ==> !is_terminator(#[trigger] lines[i]),
    ensures
        run_data(lines, data, total, max).1 == DataStatus::TooLarge,
    decreases lines.len(),
{
    if lines.len() > 0 {
        let l = lines[0];
        if !(total + line_bytes(l) > max) {
            assert(!is_terminator(l));
            assert forall|i: int| 0 <= i < lines.drop_first().len()
                implies !is_terminator(#[trigger] lines.drop_first()[i]) by {
                assert(lines.drop_first()[i] == lines[i + 1]);
            }
            lemma_data_over_limit(lines.drop_first(), data + l, total + line_bytes(l), max);
        }
    }
}

/// A body followed by the dot terminator, all within the limit, completes
/// the DATA phase with exactly that body accumulated.
pub proof fn lemma_data_completes(body: Seq<Seq<char>>, data: Seq<char>, total: nat, max: nat)
    requires
        forall|i: int| 0 <= i < body.len() ==> !is_terminator(#[trigger] body[i]),
        total + total_bytes(body.push(".\r\n"@)) <= max,
    ensures
        run_data(body.push(".\r\n"@), data, total, max)
            == (data + concat_lines(body), DataStatus::Done),
    decreases body.len(),
{
    let lines = body.push(".\r\n"@);
    if body.len() == 0 {
        assert(lines[0] == ".\r\n"@);
        assert(data + concat_lines(body) =~= data);
    } else {
        let l = body[0];
        assert(lines[0] == l);
        assert(lines.drop_first() =~= body.drop_first().push(".\r\n"@));
        assert(forall|i: int| 0 <= i < body.drop_first().len()
            ==> body.drop_first()[i] == body[i + 1]);
        assert(total_bytes(lines) == line_bytes(l) + total_bytes(lines.drop_first()));
        lemma_data_completes(body.drop_first(), data + l, total + line_bytes(l), max);
        assert((data + l) + concat_lines(body.drop_first()) =~= data + concat_lines(body));
    }
}

// ---------------------------------------------------------------------------
// Routability of the envelope
// ---------------------------------------------------------------------------

/// Every recipient accepted into the envelope resolves in `table`.
pub open spec fn envelope_routable(s: SessionView, table: Seq<(String, WebhookConfig)>) -> bool {
    forall|i: int| 0 <= i < s.rcpt_to.len()
        ==> resolve_spec(#[trigger] s.rcpt_to[i], table) is Some
}

/// No command step breaks routability: a recipient is only accepted when
/// it resolves, so every address in the envelope still resolves at DATA
/// fan-out time against the same table.
pub proof fn lemma_step_preserves_routable(
    s: SessionView,
    line: Seq<char>,
    host: Seq<char>,
    max_size: nat,
    table: Seq<(String, WebhookConfig)>,
)
    requires
        envelope_routable(s, table),
    ensures
        envelope_routable(spec_step(s, line, host, max_size, table).state, table),
{
    let c = parse_command(line);
    match c {
        SpecCommand::RcptTo { addr } => {
            if s.mail_from is Some && addr.len() > 0 && resolve_spec(addr, table) is Some {
                let r2 = s.rcpt_to.push(addr);
                assert forall|i: int| 0 <= i < r2.len()
                    implies resolve_spec(#[trigger] r2[i], table) is Some by {
                    if i < s.rcpt_to.len() {
                        assert(r2[i] == s.rcpt_to[i]);
                    } else {
                        assert(r2[i] == addr);
                    }
                }
            }
        },
        _ => {},
    }
}

/// RSET wipes the whole envelope: after it the sender and recipients are
/// gone (TLS state is kept), and a DATA command coming next is refused
/// with the bad-sequence reply and does not begin a body.
pub proof fn lemma_rset_then_data(
    s: SessionView,
    rset_line: Seq<char>,
    data_line: Seq<char>,
    host: Seq<char>,
    max_size: nat,
    table: Seq<(String, WebhookConfig)>,
)
    requires
        parse_command(rset_line) == SpecCommand::Rset,
        parse_command(data_line) == SpecCommand::Data,
    ensures
        ({
            let s1 = spec_step(s, rset_line, host, max_size, table).state;
            s1.mail_from is None && s1.rcpt_to.len() == 0 && s1.helo is None
                && s1.tls_active == s.tls_active
                && spec_step(s1, data_line, host, max_size, table).reply == reply_bad_sequence()
                && spec_step(s1, data_line, host, max_size, table).action == SmtpAction::Continue
                && spec_step(s1, data_line, host, max_size, table).state == s1
        }),
{
}

/// STARTTLS is not repeatable: on a session whose stream is already
/// encrypted it replies `503 TLS already active`, leaves the session
/// unchanged, and does not ask the driver to upgrade again.
pub proof fn lemma_starttls_idempotent(
    s: SessionView,
    line: Seq<char>,
    host: Seq<char>,
    max_size: nat,
    table: Seq<(String, WebhookConfig)>,
)
    requires
        s.tls_active,
        parse_command(line) == SpecCommand::StartTls,
    ensures
        spec_step(s, line, host, max_size, table).state == s,
        spec_step(s, line, host, max_size, table).reply == reply_tls_already(),
        spec_step(s, line, host, max_size, table).action == SmtpAction::Continue,
{
}

/// A fresh session's (empty) envelope is routable.
pub proof fn lemma_initial_routable(table: Seq<(String, WebhookConfig)>)
    ensures
        envelope_routable(initial_session(), table),
{
}

/// Resolve every accepted recipient for fan-out. Under the envelope
/// invariant each one resolves; the result pairs each recipient, in
/// order, with its webhook entry.
pub fn resolve_recipients(
    state: &SessionState,
    table: &Vec<(String, WebhookConfig)>,
) -> (r: Vec<(String, WebhookConfig)>)
    requires
        envelope_routable(state@, table@),
    ensures
        r@.len() == state@.rcpt_to.len(),
        forall|i: int| 0 <= i < r@.len() ==> (#[trigger] r@[i]).0@ == state@.rcpt_to[i]
            && resolve_spec(state@.rcpt_to[i], table@) is Some
            && r@[i].1 == table@[resolve_spec(state@.rcpt_to[i], table@)->0].1,
{
    let n = state.rcpt_to.len();
    let mut out: Vec<(String, WebhookConfig)> = Vec::new();
    let mut i: usize = 0;
    while i < n
        invariant
            n == state@.rcpt_to.len(),
            n == state.rcpt_to@.len(),
            envelope_routable(state@, table@),
            0 <= i <= n,
            out@.len() == i,
            forall|j: int| 0 <= j < i ==> (#[trigger] out@[j]).0@ == state@.rcpt_to[j]
                && resolve_spec(state@.rcpt_to[j], table@) is Some
                && out@[j].1 == table@[resolve_spec(state@.rcpt_to[j], table@)->0].1,
        decreases n - i,
    {
        let recipient = &state.rcpt_to[i];
        proof {
            assert(state@.rcpt_to[i as int] == state.rcpt_to@[i as int]@);
            assert(resolve_spec(recipient@, table@) is Some);
        }
        match get_webhook_for_recipient(recipient.as_str(), table) {
            Some(entry) => {
                out.push((recipient.clone(), entry.clone()));
            },
            None => {
                vstd::pervasive::unreached::<()>();
            },
        }
        i += 1;
    }
    out
}

} // verus!
