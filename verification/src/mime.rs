//! The parsed MIME message and the walks over it.
//!
//! A message is held as its parts in depth-first pre-order, the message
//! itself first — the shape the outside parser hands back. Every part
//! carries its headers and its decoded body (`None` where decoding
//! failed); the header walks, attachment collection and body selection
//! are verified over that shape.

use vstd::prelude::*;
use vstd::string::StrSliceExecFns;
use vstd::string::StringExecFns;
use crate::text::{
    contains_spec, contains_str, find_c, find_char, seq_eq_ci, starts_with, starts_with_ci,
    starts_with_ci_spec, starts_with_spec, str_eq_ci, trim_spec, trim_str,
};

verus! {

// ---------------------------------------------------------------------------
// The message shape
// ---------------------------------------------------------------------------

/// One MIME part: its headers in order, and its decoded bodies.
pub struct MimePart {
    /// Header name/value pairs, in order of appearance, values already
    /// unfolded and decoded.
    pub headers: Vec<(String, String)>,
    /// The body decoded to text, `None` if that decoding failed.
    pub body_text: Option<String>,
    /// The body's decoded bytes, `None` if that decoding failed.
    pub body_raw: Option<Vec<u8>>,
}

pub ghost struct MimePartView {
    pub headers: Seq<(Seq<char>, Seq<char>)>,
    pub body_text: Option<Seq<char>>,
    pub body_raw: Option<Seq<u8>>,
}

impl View for MimePart {
    type V = MimePartView;

    open spec fn view(&self) -> MimePartView {
        MimePartView {
            headers: Seq::new(
                self.headers@.len(),
                |i: int| (self.headers@[i].0@, self.headers@[i].1@),
            ),
            body_text: match self.body_text {
                Some(t) => Some(t@),
                None => None,
            },
            body_raw: match self.body_raw {
                Some(b) => Some(b@),
                None => None,
            },
        }
    }
}

/// A whole message: its parts in depth-first pre-order, root first.
pub struct MimeMessage {
    pub parts: Vec<MimePart>,
}

impl View for MimeMessage {
    type V = Seq<MimePartView>;

    open spec fn view(&self) -> Seq<MimePartView> {
        Seq::new(self.parts@.len(), |i: int| self.parts@[i]@)
    }
}

/// What the outside MIME parser yields for a raw message: a function of
/// the bytes alone. `None` where the message cannot be parsed at all.
pub uninterp spec fn mime_of(raw: Seq<u8>) -> Option<Seq<MimePartView>>;

/// Relies on `mailparse::parse_mail` and `ParsedMail::parts()` — a
/// depth-first pre-order walk of the MIME tree yielding the message
/// itself first, so the result never has fewer than one part — with each
/// part read through its headers (`get_key`/`get_value`), `get_body` and
/// `get_body_raw`. The whole result is a function of the bytes alone.
#[verifier::external_body]
pub(crate) fn parse_mail_parts(raw: &[u8]) -> (r: Option<MimeMessage>)
    ensures
        r is Some <==> mime_of(raw@) is Some,
        r is Some ==> r->0@ == mime_of(raw@)->0 && r->0@.len() >= 1,
{
    let parsed = mailparse::parse_mail(raw).ok()?;
    let mut parts = Vec::new();
    for p in parsed.parts() {
        let mut headers = Vec::new();
        for h in &p.headers {
            headers.push((h.get_key(), h.get_value()));
        }
        parts.push(MimePart {
            headers,
            body_text: p.get_body().ok(),
            body_raw: p.get_body_raw().ok(),
        });
    }
    Some(MimeMessage { parts })
}

// ---------------------------------------------------------------------------
// Header lookup
// ---------------------------------------------------------------------------

/// The value of the first header whose name equals `name`
/// ASCII-case-insensitively.
pub open spec fn first_header(
    headers: Seq<(Seq<char>, Seq<char>)>,
    name: Seq<char>,
) -> Option<Seq<char>>
    decreases headers.len(),
{
    if headers.len() == 0 {
        None
    } else if seq_eq_ci(headers[0].0, name) {
        Some(headers[0].1)
    } else {
        first_header(headers.drop_first(), name)
    }
}

/// First value of the header called `name`, compared case-insensitively.
pub fn get_first_header_value<'a>(part: &'a MimePart, name: &str) -> (r: Option<&'a String>)
    ensures
        match r {
            Some(v) => first_header(part@.headers, name@) == Some(v@),
            None => first_header(part@.headers, name@) is None,
        },
{
    let n = part.headers.len();
    proof {
        assert(part@.headers.skip(0) =~= part@.headers);
    }
    let mut i: usize = 0;
    while i < n
        invariant
            n == part.headers@.len(),
            n == part@.headers.len(),
            0 <= i <= n,
            first_header(part@.headers, name@) == first_header(
                part@.headers.skip(i as int),
                name@,
            ),
        decreases n - i,
    {
        proof {
            assert(part@.headers.skip(i as int)[0] == part@.headers[i as int]);
        }
        if str_eq_ci(part.headers[i].0.as_str(), name) {
            return Some(&part.headers[i].1);
        }
        proof {
            assert(part@.headers.skip(i as int).drop_first() =~= part@.headers.skip(i as int + 1));
        }
        i += 1;
    }
    proof {
        assert(part@.headers.skip(n as int) =~= Seq::<(Seq<char>, Seq<char>)>::empty());
    }
    None
}

// ---------------------------------------------------------------------------
// Attachment detection and naming
// ---------------------------------------------------------------------------

/// Quotes stripped repeatedly from both ends.
pub open spec fn trim_q_l(s: Seq<char>) -> Seq<char>
    decreases s.len(),
{
    if s.len() > 0 && s[0] == '"' {
        trim_q_l(s.drop_first())
    } else {
        s
    }
}

pub open spec fn trim_q_r(s: Seq<char>) -> Seq<char>
    decreases s.len(),
{
    if s.len() > 0 && s.last() == '"' {
        trim_q_r(s.drop_last())
    } else {
        s
    }
}

pub open spec fn trim_quotes(s: Seq<char>) -> Seq<char> {
    trim_q_r(trim_q_l(s))
}

proof fn lemma_trim_q_l_at(s: Seq<char>, k: int)
    requires
        0 <= k <= s.len(),
        forall|j: int| 0 <= j < k ==> s[j] == '"',
        k < s.len() ==> s[k] != '"',
    ensures
        trim_q_l(s) =~= s.subrange(k, s.len() as int),
    decreases k,
{
    if k == 0 {
        if s.len() > 0 && s[0] == '"' {
            assert(false);
        }
    } else {
        let t = s.drop_first();
        assert(forall|j: int| 0 <= j < t.len() ==> t[j] == s[j + 1]);
        lemma_trim_q_l_at(t, k - 1);
        assert(t.subrange(k - 1, t.len() as int) =~= s.subrange(k, s.len() as int));
    }
}

proof fn lemma_trim_q_r_at(s: Seq<char>, k: int)
    requires
        0 <= k <= s.len(),
        forall|j: int| k <= j < s.len() ==> s[j] == '"',
        k > 0 ==> s[k - 1] != '"',
    ensures
        trim_q_r(s) =~= s.subrange(0, k),
    decreases s.len() - k,
{
    if k == s.len() {
        if s.len() > 0 && s.last() == '"' {
            assert(false);
        }
        assert(trim_q_r(s) =~= s.subrange(0, k));
    } else {
        let t = s.drop_last();
        assert(forall|j: int| 0 <= j < t.len() ==> t[j] == s[j]);
        lemma_trim_q_r_at(t, k);
        assert(t.subrange(0, k) =~= s.subrange(0, k));
    }
}

fn trim_quotes_str<'a>(s: &'a str) -> (r: &'a str)
    ensures
        r@ == trim_quotes(s@),
{
    let len = s.unicode_len();
    let mut start: usize = 0;
    while start < len && s.get_char(start) == '"'
        invariant
            len == s@.len(),
            0 <= start <= len,
            forall|j: int| 0 <= j < start ==> s@[j] == '"',
        decreases len - start,
    {
        start += 1;
    }
    let mut end: usize = len;
    while end > start && s.get_char(end - 1) == '"'
        invariant
            len == s@.len(),
            start <= end <= len,
            forall|j: int| end <= j < len ==> s@[j] == '"',
        decreases end,
    {
        end -= 1;
    }
    proof {
        lemma_trim_q_l_at(s@, start as int);
        let t = s@.subrange(start as int, s@.len() as int);
        assert(forall|j: int| end - start <= j < t.len() ==> t[j] == '"');
        lemma_trim_q_r_at(t, end - start);
        assert(t.subrange(0, end - start) =~= s@.subrange(start as int, end as int));
    }
    s.substring_char(start, end)
}

/// The `filename=` parameter of a Content-Disposition value: the value
/// is split on `;`, each piece trimmed, and the first piece that begins
/// with `filename=` yields what follows, quotes stripped.
pub open spec fn filename_param(s: Seq<char>) -> Option<Seq<char>>
    decreases s.len(),
    via filename_param_decreases
{
    let semi = find_c(s, ';');
    let seg = if semi < 0 { s } else { s.subrange(0, semi) };
    let t = trim_spec(seg);
    if starts_with_spec(t, "filename="@) {
        Some(trim_quotes(t.subrange("filename="@.len() as int, t.len() as int)))
    } else if semi < 0 {
        None
    } else {
        filename_param(s.subrange(semi + 1, s.len() as int))
    }
}

#[via_fn]
proof fn filename_param_decreases(s: Seq<char>) {
    crate::text::lemma_find_c(s, ';');
}

/// The filename given by a Content-Disposition value, if any.
pub fn extract_filename_from_content_disposition(content_disposition: &str) -> (r: Option<
    String,
>)
    ensures
        match r {
            Some(v) => filename_param(content_disposition@) == Some(v@),
            None => filename_param(content_disposition@) is None,
        },
    decreases content_disposition@.len(),
{
    let s = content_disposition;
    let len = s.unicode_len();
    let (seg, rest): (&str, Option<&str>) = match find_char(s, ';') {
        Some(i) => (s.substring_char(0, i), Some(s.substring_char(i + 1, len))),
        None => {
            proof {
                assert(s@.subrange(0, s@.len() as int) =~= s@);
            }
            (s, None)
        },
    };
    let t = trim_str(seg);
    if starts_with(t, "filename=") {
        let flen = "filename=".unicode_len();
        let tail = t.substring_char(flen, t.unicode_len());
        Some(String::from_str(trim_quotes_str(tail)))
    } else {
        match rest {
            Some(more) => extract_filename_from_content_disposition(more),
            None => None,
        }
    }
}

/// A part is an attachment when its Content-Disposition value begins
/// with `attachment` (case-insensitively) or carries a `filename=`.
pub open spec fn is_attachment_part(p: MimePartView) -> bool {
    match first_header(p.headers, "content-disposition"@) {
        Some(v) => starts_with_ci_spec(v, "attachment"@) || contains_spec(v, "filename="@),
        None => false,
    }
}

/// The name an attachment part is carried under: a dedicated `filename`
/// header, else the Content-Disposition parameter, else a fixed fallback.
pub open spec fn attachment_name(p: MimePartView) -> Seq<char> {
    match first_header(p.headers, "filename"@) {
        Some(v) => v,
        None => match first_header(p.headers, "content-disposition"@) {
            Some(cd) => match filename_param(cd) {
                Some(f) => f,
                None => "unnamed_attachment"@,
            },
            None => "unnamed_attachment"@,
        },
    }
}

fn part_is_attachment(p: &MimePart) -> (r: bool)
    ensures
        r == is_attachment_part(p@),
{
    match get_first_header_value(p, "content-disposition") {
        Some(cd) => starts_with_ci(cd.as_str(), "attachment") || contains_str(
            cd.as_str(),
            "filename=",
        ),
        None => false,
    }
}

fn part_attachment_name(p: &MimePart) -> (r: String)
    ensures
        r@ == attachment_name(p@),
{
    match get_first_header_value(p, "filename") {
        Some(v) => v.clone(),
        None => match get_first_header_value(p, "content-disposition") {
            Some(cd) => {
                let cd_str = cd.clone();
                match extract_filename_from_content_disposition(cd_str.as_str()) {
                    Some(f) => f,
                    None => String::from_str("unnamed_attachment"),
                }
            },
            None => String::from_str("unnamed_attachment"),
        },
    }
}

pub(crate) fn clone_bytes(v: &Vec<u8>) -> (r: Vec<u8>)
    ensures
        r@ == v@,
{
    let mut out: Vec<u8> = Vec::new();
    let n = v.len();
    let mut i: usize = 0;
    while i < n
        invariant
            n == v@.len(),
            0 <= i <= n,
            out@ =~= v@.subrange(0, i as int),
        decreases n - i,
    {
        out.push(v[i]);
        proof {
            assert(out@ =~= v@.subrange(0, i as int + 1));
        }
        i += 1;
    }
    proof {
        assert(v@.subrange(0, n as int) =~= v@);
    }
    out
}

// ---------------------------------------------------------------------------
// Attachment collection
// ---------------------------------------------------------------------------

/// The attachments among `parts` in order: each attachment part's name
/// and its decoded bytes (`None` where decoding failed).
pub open spec fn attachments_of(parts: Seq<MimePartView>) -> Seq<(Seq<char>, Option<Seq<u8>>)>
    decreases parts.len(),
{
    if parts.len() == 0 {
        Seq::empty()
    } else {
        let rest = attachments_of(parts.drop_first());
        if is_attachment_part(parts[0]) {
            seq![(attachment_name(parts[0]), parts[0].body_raw)] + rest
        } else {
            rest
        }
    }
}

pub proof fn lemma_attachments_append(a: Seq<MimePartView>, b: Seq<MimePartView>)
    ensures
        attachments_of(a + b) == attachments_of(a) + attachments_of(b),
    decreases a.len(),
{
    if a.len() == 0 {
        assert(a + b =~= b);
        assert(attachments_of(a) + attachments_of(b) =~= attachments_of(b));
    } else {
        assert((a + b).drop_first() =~= a.drop_first() + b);
        assert((a + b)[0] == a[0]);
        lemma_attachments_append(a.drop_first(), b);
        if is_attachment_part(a[0]) {
            assert(seq![(attachment_name(a[0]), a[0].body_raw)] + (attachments_of(a.drop_first())
                + attachments_of(b)) =~= (seq![(attachment_name(a[0]), a[0].body_raw)]
                + attachments_of(a.drop_first())) + attachments_of(b));
        }
    }
}

/// Collect the attachments of a message: every part after the root, in
/// depth-first pre-order, that the disposition rules mark as an
/// attachment. `None` when some attachment's body failed to decode.
pub fn extract_attachments(msg: &MimeMessage) -> (r: Option<Vec<(String, Vec<u8>)>>)
    requires
        msg@.len() >= 1,
    ensures
        ({
            let atts = attachments_of(msg@.drop_first());
            match r {
                Some(v) => v@.len() == atts.len() && forall|i: int|
                    0 <= i < atts.len() ==> (#[trigger] v@[i]).0@ == atts[i].0 && Some(v@[i].1@)
                        == atts[i].1,
                None => exists|i: int| 0 <= i < atts.len() && (#[trigger] atts[i]).1 is None,
            }
        }),
{
    let n = msg.parts.len();
    let mut out: Vec<(String, Vec<u8>)> = Vec::new();
    let mut i: usize = 1;
    while i < n
        invariant
            n == msg.parts@.len(),
            n == msg@.len(),
            n >= 1,
            1 <= i <= n,
            ({
                let sofar = attachments_of(msg@.subrange(1, i as int));
                out@.len() == sofar.len() && forall|j: int|
                    0 <= j < sofar.len() ==> (#[trigger] out@[j]).0@ == sofar[j].0 && Some(
                        out@[j].1@,
                    ) == sofar[j].1
            }),
        decreases n - i,
    {
        let p = &msg.parts[i];
        proof {
            assert(msg@[i as int] == msg.parts@[i as int]@);
            assert(msg@.subrange(1, i as int + 1) =~= msg@.subrange(1, i as int) + msg@.subrange(
                i as int,
                i as int + 1,
            ));
            lemma_attachments_append(
                msg@.subrange(1, i as int),
                msg@.subrange(i as int, i as int + 1),
            );
            assert(msg@.subrange(i as int, i as int + 1).drop_first()
                =~= Seq::<MimePartView>::empty());
            assert(msg@.subrange(i as int, i as int + 1)[0] == msg@[i as int]);
            assert(attachments_of(Seq::<MimePartView>::empty())
                =~= Seq::<(Seq<char>, Option<Seq<u8>>)>::empty());
            assert(attachments_of(msg@.subrange(i as int, i as int + 1).drop_first())
                == attachments_of(Seq::<MimePartView>::empty()));
        }
        if part_is_attachment(p) {
            match &p.body_raw {
                Some(bytes) => {
                    let name = part_attachment_name(p);
                    let data = clone_bytes(bytes);
                    out.push((name, data));
                    proof {
                        let sofar = attachments_of(msg@.subrange(1, i as int + 1));
                        assert(attachments_of(msg@.subrange(i as int, i as int + 1))
                            =~= seq![(attachment_name(msg@[i as int]), msg@[i as int].body_raw)]);
                        assert(sofar =~= attachments_of(msg@.subrange(1, i as int)).push(
                            (attachment_name(msg@[i as int]), msg@[i as int].body_raw),
                        ));
                    }
                },
                None => {
                    proof {
                        let whole = attachments_of(msg@.drop_first());
                        let k = attachments_of(msg@.subrange(1, i as int)).len();
                        assert(msg@.drop_first() =~= msg@.subrange(1, i as int) + msg@.subrange(
                            i as int,
                            n as int,
                        ));
                        lemma_attachments_append(
                            msg@.subrange(1, i as int),
                            msg@.subrange(i as int, n as int),
                        );
                        assert(msg@.subrange(i as int, n as int)[0] == msg@[i as int]);
                        assert(msg@.subrange(i as int, n as int).drop_first() =~= msg@.subrange(
                            i as int + 1,
                            n as int,
                        ));
                        assert(attachments_of(msg@.subrange(i as int, n as int))[0]
                            == (attachment_name(msg@[i as int]), msg@[i as int].body_raw));
                        assert(whole[k as int].1 is None);
                    }
                    return None;
                },
            }
        } else {
            proof {
                assert(attachments_of(msg@.subrange(i as int, i as int + 1))
                    =~= Seq::<(Seq<char>, Option<Seq<u8>>)>::empty());
                assert(attachments_of(msg@.subrange(1, i as int + 1)) =~= attachments_of(
                    msg@.subrange(1, i as int),
                ));
            }
        }
        i += 1;
    }
    proof {
        assert(msg@.subrange(1, n as int) =~= msg@.drop_first());
    }
    Some(out)
}

// ---------------------------------------------------------------------------
// Body selection
// ---------------------------------------------------------------------------

/// A part's Content-Type value, or empty when the header is absent.
pub open spec fn content_type_of(p: MimePartView) -> Seq<char> {
    match first_header(p.headers, "content-type"@) {
        Some(v) => v,
        None => Seq::empty(),
    }
}

/// Walk the parts in order, filling the plain and HTML bodies: the first
/// `text/plain` part whose slot is still empty fills it, likewise
/// `text/html`; a filled (non-empty) slot is never overwritten. `None`
/// when a chosen part's body failed to decode.
pub open spec fn fold_bodies(
    parts: Seq<MimePartView>,
    plain: Seq<char>,
    html: Seq<char>,
) -> Option<(Seq<char>, Seq<char>)>
    decreases parts.len(),
{
    if parts.len() == 0 {
        Some((plain, html))
    } else {
        let p = parts[0];
        let ct = content_type_of(p);
        if starts_with_ci_spec(ct, "text/plain"@) && plain.len() == 0 {
            match p.body_text {
                None => None,
                Some(b) => fold_bodies(parts.drop_first(), b, html),
            }
        } else if starts_with_ci_spec(ct, "text/html"@) && html.len() == 0 {
            match p.body_text {
                None => None,
                Some(b) => fold_bodies(parts.drop_first(), plain, b),
            }
        } else {
            fold_bodies(parts.drop_first(), plain, html)
        }
    }
}

fn extract_bodies(msg: &MimeMessage) -> (r: Option<(String, String)>)
    ensures
        match r {
            Some(pair) => fold_bodies(msg@, Seq::empty(), Seq::empty()) == Some(
                (pair.0@, pair.1@),
            ),
            None => fold_bodies(msg@, Seq::empty(), Seq::empty()) is None,
        },
{
    let n = msg.parts.len();
    let mut plain = String::new();
    let mut html = String::new();
    proof {
        assert(msg@.skip(0) =~= msg@);
        assert(plain@ =~= Seq::<char>::empty());
        assert(html@ =~= Seq::<char>::empty());
    }
    let mut i: usize = 0;
    while i < n
        invariant
            n == msg.parts@.len(),
            n == msg@.len(),
            0 <= i <= n,
            fold_bodies(msg@, Seq::empty(), Seq::empty()) == fold_bodies(
                msg@.skip(i as int),
                plain@,
                html@,
            ),
        decreases n - i,
    {
        let p = &msg.parts[i];
        proof {
            assert(msg@[i as int] == msg.parts@[i as int]@);
            assert(msg@.skip(i as int)[0] == msg@[i as int]);
            assert(msg@.skip(i as int).drop_first() =~= msg@.skip(i as int + 1));
        }
        let ct: &str = match get_first_header_value(p, "content-type") {
            Some(v) => v.as_str(),
            None => {
                proof {
                    reveal_strlit("");
                    assert(""@ =~= Seq::<char>::empty());
                }
                ""
            },
        };
        if starts_with_ci(ct, "text/plain") && plain.unicode_len() == 0 {
            proof {
                assert(plain@ =~= Seq::<char>::empty());
            }
            match &p.body_text {
                Some(b) => {
                    plain = b.clone();
                },
                None => {
                    return None;
                },
            }
        } else if starts_with_ci(ct, "text/html") && html.unicode_len() == 0 {
            proof {
                assert(html@ =~= Seq::<char>::empty());
            }
            match &p.body_text {
                Some(b) => {
                    html = b.clone();
                },
                None => {
                    return None;
                },
            }
        }
        i += 1;
    }
    proof {
        assert(msg@.skip(n as int) =~= Seq::<MimePartView>::empty());
    }
    Some((plain, html))
}

// ---------------------------------------------------------------------------
// Address extraction
// ---------------------------------------------------------------------------

/// The string begins with an angle-bracketed group: `<`, at least one
/// character that is not `>`, then a closing `>` somewhere after.
pub open spec fn angle_match_at(s: Seq<char>) -> bool {
    s.len() >= 3 && s[0] == '<' && s[1] != '>' && exists|j: int| 2 <= j < s.len() && s[j] == '>'
}

/// What the group at the start captures: everything between the opening
/// `<` and the first `>` after the first captured character.
pub open spec fn angle_capture(s: Seq<char>) -> Seq<char> {
    let j = 2 + find_c(s.skip(2), '>');
    s.subrange(1, j)
}

/// The first angle-bracketed group anywhere in `s`, scanning left to
/// right.
pub open spec fn angle_addr(s: Seq<char>) -> Option<Seq<char>>
    decreases s.len(),
{
    if s.len() == 0 {
        None
    } else if angle_match_at(s) {
        Some(angle_capture(s))
    } else {
        angle_addr(s.drop_first())
    }
}

/// The bare address carried by a From/To header value: the contents of
/// the first `<…>` group if one exists, else the whole value.
pub open spec fn email_address_of(h: Seq<char>) -> Seq<char> {
    match angle_addr(h) {
        Some(a) => a,
        None => h,
    }
}

/// Extract the bare mailbox from a From/To header value.
pub fn extract_email_address(header_value: &str) -> (r: String)
    ensures
        r@ == email_address_of(header_value@),
{
    let s = header_value;
    let len = s.unicode_len();
    proof {
        assert(s@.skip(0) =~= s@);
    }
    let mut i: usize = 0;
    while i < len
        invariant
            s@ == header_value@,
            len == s@.len(),
            0 <= i <= len,
            angle_addr(s@) == angle_addr(s@.skip(i as int)),
        decreases len - i,
    {
        proof {
            assert(s@.skip(i as int)[0] == s@[i as int]);
            assert(s@.skip(i as int).drop_first() =~= s@.skip(i as int + 1));
        }
        if s.get_char(i) == '<' && i + 1 < len && s.get_char(i + 1) != '>' {
            let tail = s.substring_char(i + 2, len);
            match find_char(tail, '>') {
                Some(j) => {
                    let cap = s.substring_char(i + 1, i + 2 + j);
                    proof {
                        let suf = s@.skip(i as int);
                        assert(suf[1] == s@[i as int + 1]);
                        assert(tail@ =~= suf.skip(2));
                        assert(suf[2 + j as int] == tail@[j as int]);
                        assert(angle_match_at(suf));
                        assert(angle_capture(suf) =~= s@.subrange(
                            i as int + 1,
                            i as int + 2 + j as int,
                        ));
                    }
                    return String::from_str(cap);
                },
                None => {
                    proof {
                        let suf = s@.skip(i as int);
                        assert(tail@ =~= suf.skip(2));
                        if angle_match_at(suf) {
                            let j = choose|j: int| 2 <= j < suf.len() && suf[j] == '>';
                            assert(tail@[j - 2] == suf[j]);
                            crate::text::lemma_find_c(tail@, '>');
                            assert(false);
                        }
                    }
                },
            }
        } else {
            proof {
                let suf = s@.skip(i as int);
                if i + 1 < len {
                    assert(suf[1] == s@[i as int + 1]);
                }
                assert(!angle_match_at(suf));
            }
        }
        i += 1;
    }
    proof {
        assert(s@.skip(len as int) =~= Seq::<char>::empty());
    }
    String::from_str(s)
}

// ---------------------------------------------------------------------------
// The parsed message fields
// ---------------------------------------------------------------------------

/// The fields handed to the dispatcher for one message.
pub struct EmailData {
    pub subject: String,
    pub from_raw: String,
    pub from_email: String,
    pub to_raw: String,
    pub to_email: String,
    pub date: String,
    pub body_plain: String,
    pub body_html: String,
}

pub ghost struct EmailDataView {
    pub subject: Seq<char>,
    pub from_raw: Seq<char>,
    pub from_email: Seq<char>,
    pub to_raw: Seq<char>,
    pub to_email: Seq<char>,
    pub date: Seq<char>,
    pub body_plain: Seq<char>,
    pub body_html: Seq<char>,
}

impl View for EmailData {
    type V = EmailDataView;

    open spec fn view(&self) -> EmailDataView {
        EmailDataView {
            subject: self.subject@,
            from_raw: self.from_raw@,
            from_email: self.from_email@,
            to_raw: self.to_raw@,
            to_email: self.to_email@,
            date: self.date@,
            body_plain: self.body_plain@,
            body_html: self.body_html@,
        }
    }
}

/// The first value of `name` among the root part's headers, or empty.
pub open spec fn header_or_empty(parts: Seq<MimePartView>, name: Seq<char>) -> Seq<char> {
    match first_header(parts[0].headers, name) {
        Some(v) => v,
        None => Seq::empty(),
    }
}

/// What the dispatcher extracts from a parsed message: the four standard
/// headers of the root part (first occurrence, empty when absent), the
/// bare addresses inside From and To, and the first plain and HTML
/// bodies of the part walk.
pub open spec fn email_data_of(parts: Seq<MimePartView>) -> Option<EmailDataView> {
    match fold_bodies(parts, Seq::empty(), Seq::empty()) {
        None => None,
        Some(bodies) => Some(
            EmailDataView {
                subject: header_or_empty(parts, "Subject"@),
                from_raw: header_or_empty(parts, "From"@),
                from_email: email_address_of(header_or_empty(parts, "From"@)),
                to_raw: header_or_empty(parts, "To"@),
                to_email: email_address_of(header_or_empty(parts, "To"@)),
                date: header_or_empty(parts, "Date"@),
                body_plain: bodies.0,
                body_html: bodies.1,
            },
        ),
    }
}

fn root_header_or_empty(msg: &MimeMessage, name: &str) -> (r: String)
    requires
        msg@.len() >= 1,
    ensures
        r@ == header_or_empty(msg@, name@),
{
    proof {
        assert(msg@[0] == msg.parts@[0]@);
    }
    match get_first_header_value(&msg.parts[0], name) {
        Some(v) => v.clone(),
        None => {
            let r = String::new();
            proof {
                assert(r@ =~= Seq::<char>::empty());
            }
            r
        },
    }
}

/// Extract the dispatcher's view of a parsed message. `None` when a
/// chosen body part could not be decoded.
pub fn extract_email_data(msg: &MimeMessage) -> (r: Option<EmailData>)
    requires
        msg@.len() >= 1,
    ensures
        match r {
            Some(d) => email_data_of(msg@) == Some(d@),
            None => email_data_of(msg@) is None,
        },
{
    let bodies = match extract_bodies(msg) {
        Some(pair) => pair,
        None => {
            return None;
        },
    };
    let from_raw = root_header_or_empty(msg, "From");
    let to_raw = root_header_or_empty(msg, "To");
    let from_email = extract_email_address(from_raw.as_str());
    let to_email = extract_email_address(to_raw.as_str());
    Some(EmailData {
        subject: root_header_or_empty(msg, "Subject"),
        from_raw,
        from_email,
        to_raw,
        to_email,
        date: root_header_or_empty(msg, "Date"),
        body_plain: bodies.0,
        body_html: bodies.1,
    })
}

} // verus!
