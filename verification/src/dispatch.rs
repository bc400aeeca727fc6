//! Planning one webhook dispatch.
//!
//! Given a webhook entry, a raw message and fresh signing material,
//! `prepare_dispatch` produces everything the HTTP layer needs to post
//! the multipart form: the URL, the text fields in a fixed order, and
//! each attachment with its form field name, its sanitised filename and
//! its bytes. The HTTP POST itself, and the staging of attachment bytes
//! into temporary files, happen outside the library; the collision
//! renaming those files use is computed here.

use vstd::prelude::*;
use vstd::string::StrSliceExecFns;
use vstd::string::StringExecFns;
use vstd::string::StringSliceAdditionalSpecFns;
use crate::config::WebhookConfig;
use crate::mime::{
    attachments_of, clone_bytes, email_data_of, extract_attachments, extract_email_data, mime_of,
    parse_mail_parts, EmailData, EmailDataView,
};
use crate::signer::AuthTriple;
use crate::text::{dec_nat, rfind_c, rfind_char, u64_to_string};

verus! {

// ---------------------------------------------------------------------------
// Attachment file naming
// ---------------------------------------------------------------------------

/// What the filename sanitiser returns: a function of the name alone.
pub uninterp spec fn sanitized_of(name: Seq<char>) -> Seq<char>;

/// Relies on `sanitize_filename::sanitize_with_options`: path separators,
/// control characters and reserved names are removed from the filename.
/// The options are pinned (no platform-dependent Windows handling, the
/// usual truncation, empty replacement), so the result is a function of
/// the name alone.
#[verifier::external_body]
fn sanitize_name(name: &str) -> (r: String)
    ensures
        r@ == sanitized_of(name@),
{
    sanitize_filename::sanitize_with_options(
        name,
        sanitize_filename::Options { windows: false, truncate: true, replacement: "" },
    )
}

/// The filename up to its last dot (the whole name when it has none).
pub open spec fn stem_of(name: Seq<char>) -> Seq<char> {
    let d = rfind_c(name, '.');
    if d < 0 {
        name
    } else {
        name.subrange(0, d)
    }
}

/// The extension from the last dot on (empty when there is none).
pub open spec fn ext_of(name: Seq<char>) -> Seq<char> {
    let d = rfind_c(name, '.');
    if d < 0 {
        Seq::empty()
    } else {
        name.subrange(d, name.len() as int)
    }
}

/// The alternative filename tried when `name` collides on disk: the
/// counter is inserted before the extension (`report_1.pdf`, not
/// `report.pdf_1`).
pub open spec fn candidate_name(name: Seq<char>, counter: nat) -> Seq<char> {
    stem_of(name) + "_"@ + dec_nat(counter) + ext_of(name)
}

/// Split a filename into stem and extension at the last dot.
pub fn split_stem_ext(name: &str) -> (r: (String, String))
    ensures
        r.0@ == stem_of(name@),
        r.1@ == ext_of(name@),
{
    let len = name.unicode_len();
    match rfind_char(name, '.') {
        Some(d) => {
            (
                String::from_str(name.substring_char(0, d)),
                String::from_str(name.substring_char(d, len)),
            )
        },
        None => {
            let empty = String::new();
            proof {
                assert(empty@ =~= Seq::<char>::empty());
                assert(name@.subrange(0, name@.len() as int) =~= name@);
            }
            (String::from_str(name), empty)
        },
    }
}

/// The `counter`-th collision candidate for a staged attachment file.
pub fn collision_candidate(name: &str, counter: u64) -> (r: String)
    ensures
        r@ == candidate_name(name@, counter as nat),
{
    let (stem, ext) = split_stem_ext(name);
    let mut s = stem;
    s.append("_");
    let num = u64_to_string(counter);
    s.append(num.as_str());
    s.append(ext.as_str());
    proof {
        reveal_strlit("_");
        assert("_"@ =~= seq!['_']);
        assert(s@ =~= candidate_name(name@, counter as nat));
    }
    s
}

/// The form field name of the `idx`-th attachment (counting from zero):
/// `attachment-1`, `attachment-2`, …
pub open spec fn field_name_spec(idx: nat) -> Seq<char> {
    "attachment-"@ + dec_nat(idx + 1)
}

pub fn attachment_field_name(idx: usize) -> (r: String)
    requires
        idx < usize::MAX,
    ensures
        r@ == field_name_spec(idx as nat),
{
    let mut s = String::from_str("attachment-");
    let num = u64_to_string((idx + 1) as u64);
    s.append(num.as_str());
    proof {
        assert(s@ =~= field_name_spec(idx as nat));
    }
    s
}

// ---------------------------------------------------------------------------
// The multipart form plan
// ---------------------------------------------------------------------------

/// The text fields of the multipart form, in the order they are posted:
/// the signing tuple first, then the message fields.
pub open spec fn form_fields_spec(
    ts: Seq<char>,
    tok: Seq<char>,
    sig: Seq<char>,
    d: EmailDataView,
) -> Seq<(Seq<char>, Seq<char>)> {
    seq![
        ("timestamp"@, ts),
        ("token"@, tok),
        ("signature"@, sig),
        ("From"@, d.from_raw),
        ("Subject"@, d.subject),
        ("To"@, d.to_raw),
        ("body-html"@, d.body_html),
        ("body-plain"@, d.body_plain),
        ("date"@, d.date),
        ("from"@, d.from_email),
        ("subject"@, d.subject),
        ("to"@, d.to_email),
    ]
}

/// View of an executable field list.
pub open spec fn fields_view(v: Seq<(String, String)>) -> Seq<(Seq<char>, Seq<char>)> {
    Seq::new(v.len(), |i: int| (v[i].0@, v[i].1@))
}

/// Build the text fields posted for one message.
pub fn build_text_fields(auth: &AuthTriple, d: &EmailData) -> (r: Vec<(String, String)>)
    ensures
        fields_view(r@) == form_fields_spec(auth.timestamp@, auth.token@, auth.signature@, d@),
{
    let mut v: Vec<(String, String)> = Vec::new();
    v.push((String::from_str("timestamp"), auth.timestamp.clone()));
    v.push((String::from_str("token"), auth.token.clone()));
    v.push((String::from_str("signature"), auth.signature.clone()));
    v.push((String::from_str("From"), d.from_raw.clone()));
    v.push((String::from_str("Subject"), d.subject.clone()));
    v.push((String::from_str("To"), d.to_raw.clone()));
    v.push((String::from_str("body-html"), d.body_html.clone()));
    v.push((String::from_str("body-plain"), d.body_plain.clone()));
    v.push((String::from_str("date"), d.date.clone()));
    v.push((String::from_str("from"), d.from_email.clone()));
    v.push((String::from_str("subject"), d.subject.clone()));
    v.push((String::from_str("to"), d.to_email.clone()));
    proof {
        assert(fields_view(v@) =~= form_fields_spec(
            auth.timestamp@,
            auth.token@,
            auth.signature@,
            d@,
        ));
    }
    v
}

/// One attachment as it goes into the form: its field name, the
/// sanitised filename it is staged under, and its bytes.
pub struct AttachmentFile {
    pub field_name: String,
    pub file_name: String,
    pub bytes: Vec<u8>,
}

/// Everything the HTTP layer needs to post one message to one webhook.
pub struct DispatchPlan {
    pub url: String,
    pub text_fields: Vec<(String, String)>,
    pub attachments: Vec<AttachmentFile>,
}

/// Why a dispatch could not be planned. Any of these counts as a
/// dispatch failure for the recipient; the SMTP transaction fails only
/// if every recipient fails.
#[derive(Clone, Copy, Debug, PartialEq, Eq, Structural)]
pub enum DispatchError {
    /// The raw message could not be parsed at all.
    ParseFailure,
    /// A chosen body part or an attachment body could not be decoded.
    BodyDecode,
    /// An attachment filename is empty after sanitisation.
    InvalidFilename,
}

/// Whether an HTTP status counts as webhook success.
pub fn is_success_status(status: u16) -> (r: bool)
    ensures
        r == (200 <= status < 300),
{
    200 <= status && status < 300
}

/// Plan the dispatch of one raw message to one webhook: parse it, pull
/// out the fields and attachments, and lay out the multipart form.
pub fn prepare_dispatch(webhook: &WebhookConfig, raw_email: &str, auth: &AuthTriple) -> (r:
    Result<DispatchPlan, DispatchError>)
    ensures
        (r == Err::<DispatchPlan, DispatchError>(DispatchError::ParseFailure) <==> mime_of(
            raw_email.spec_bytes(),
        ) is None),
        mime_of(raw_email.spec_bytes()) is Some ==> ({
            let parts = mime_of(raw_email.spec_bytes())->0;
            let atts = attachments_of(parts.drop_first());
            &&& (r == Err::<DispatchPlan, DispatchError>(DispatchError::BodyDecode) <==> (
            email_data_of(parts) is None || exists|i: int|
                0 <= i < atts.len() && (#[trigger] atts[i]).1 is None))
            &&& (r == Err::<DispatchPlan, DispatchError>(DispatchError::InvalidFilename) <==> (
            email_data_of(parts) is Some && (forall|i: int|
                0 <= i < atts.len() ==> (#[trigger] atts[i]).1 is Some) && exists|i: int|
                0 <= i < atts.len() && sanitized_of((#[trigger] atts[i]).0).len() == 0))
            &&& (r is Ok ==> ({
                let plan = r->Ok_0;
                &&& email_data_of(parts) is Some
                &&& plan.url@ == webhook.url@
                &&& fields_view(plan.text_fields@) == form_fields_spec(
                    auth.timestamp@,
                    auth.token@,
                    auth.signature@,
                    email_data_of(parts)->0,
                )
                &&& plan.attachments@.len() == atts.len()
                &&& forall|j: int| 0 <= j < atts.len() ==> {
                    &&& (#[trigger] plan.attachments@[j]).field_name@ == field_name_spec(j as nat)
                    &&& plan.attachments@[j].file_name@ == sanitized_of(atts[j].0)
                    &&& plan.attachments@[j].file_name@.len() > 0
                    &&& atts[j].1 == Some(plan.attachments@[j].bytes@)
                }
            }))
        }),
{
    let msg = match parse_mail_parts(raw_email.as_bytes()) {
        Some(m) => m,
        None => {
            return Err(DispatchError::ParseFailure);
        },
    };
    let data = match extract_email_data(&msg) {
        Some(d) => d,
        None => {
            return Err(DispatchError::BodyDecode);
        },
    };
    let atts = match extract_attachments(&msg) {
        Some(a) => a,
        None => {
            return Err(DispatchError::BodyDecode);
        },
    };
    let fields = build_text_fields(auth, &data);
    let ghost spec_atts = attachments_of(mime_of(raw_email.spec_bytes())->0.drop_first());
    let n = atts.len();
    proof {
        assert forall|i: int| 0 <= i < n implies (#[trigger] spec_atts[i]).1 is Some by {
            assert(Some(atts@[i].1@) == spec_atts[i].1);
        }
    }
    let mut files: Vec<AttachmentFile> = Vec::new();
    let mut j: usize = 0;
    while j < n
        invariant
            n == atts@.len(),
            n == spec_atts.len(),
            mime_of(raw_email.spec_bytes()) is Some,
            spec_atts == attachments_of(mime_of(raw_email.spec_bytes())->0.drop_first()),
            email_data_of(mime_of(raw_email.spec_bytes())->0) is Some,
            forall|i: int| 0 <= i < n ==> (#[trigger] spec_atts[i]).1 is Some,
            forall|i: int| 0 <= i < n ==> (#[trigger] atts@[i]).0@ == spec_atts[i].0 && Some(
                atts@[i].1@,
            ) == spec_atts[i].1,
            0 <= j <= n,
            files@.len() == j,
            forall|i: int| 0 <= i < j ==> {
                &&& (#[trigger] files@[i]).field_name@ == field_name_spec(i as nat)
                &&& files@[i].file_name@ == sanitized_of(spec_atts[i].0)
                &&& files@[i].file_name@.len() > 0
                &&& spec_atts[i].1 == Some(files@[i].bytes@)
            },
        decreases n - j,
    {
        let name_s = sanitize_name(atts[j].0.as_str());
        if name_s.unicode_len() == 0 {
            proof {
                assert(atts@[j as int].0@ == spec_atts[j as int].0);
                assert(sanitized_of((spec_atts[j as int]).0).len() == 0);
            }
            return Err(DispatchError::InvalidFilename);
        }
        files.push(
            AttachmentFile {
                field_name: attachment_field_name(j),
                file_name: name_s,
                bytes: clone_bytes(&atts[j].1),
            },
        );
        j += 1;
    }
    proof {
        assert forall|i: int| 0 <= i < n implies sanitized_of(
            (#[trigger] spec_atts[i]).0,
        ).len() > 0 by {
            assert(files@[i].file_name@ == sanitized_of(spec_atts[i].0));
        }
    }
    Ok(DispatchPlan { url: webhook.url.clone(), text_fields: fields, attachments: files })
}

} // verus!
