//! Classification of the build-sharing service's upload response.
//!
//! The upload endpoint answers a POST of a build code with either the new
//! paste's identifier as bare text, or a JSON error object. The HTTP call
//! itself is the caller's; this module decides what an answer means: a
//! non-success status is reported with its body, a bare identifier becomes
//! the paste's URL, and anything that looks like JSON is read for an error
//! code, a paste id, or a ready-made URL. This path shares nothing with
//! the rate-limited client: it has its own quota on the service side.

use vstd::prelude::*;
use vstd::string::StrSliceExecFns;
use crate::text::collect_chars;

verus! {

/// A Unicode whitespace character, the set `str::trim` strips (the
/// White_Space property).
pub open spec fn is_ws(c: char) -> bool {
    ('\u{0009}' <= c && c <= '\u{000D}') || c == ' ' || c == '\u{0085}' || c == '\u{00A0}'
        || c == '\u{1680}' || ('\u{2000}' <= c && c <= '\u{200A}') || c == '\u{2028}'
        || c == '\u{2029}' || c == '\u{202F}' || c == '\u{205F}' || c == '\u{3000}'
}

/// Is this a Unicode whitespace character?
fn is_ws_char(c: char) -> (r: bool)
    ensures
        r == is_ws(c),
{
    ('\u{0009}' <= c && c <= '\u{000D}') || c == ' ' || c == '\u{0085}' || c == '\u{00A0}'
        || c == '\u{1680}' || ('\u{2000}' <= c && c <= '\u{200A}') || c == '\u{2028}'
        || c == '\u{2029}' || c == '\u{202F}' || c == '\u{205F}' || c == '\u{3000}'
}

pub open spec fn spec_trim_front(s: Seq<char>) -> Seq<char>
    decreases s.len(),
{
    if s.len() > 0 && is_ws(s[0]) {
        spec_trim_front(s.drop_first())
    } else {
        s
    }
}

pub open spec fn spec_trim_back(s: Seq<char>) -> Seq<char>
    decreases s.len(),
{
    if s.len() > 0 && is_ws(s.last()) {
        spec_trim_back(s.drop_last())
    } else {
        s
    }
}

/// The text with whitespace stripped from both ends.
pub open spec fn spec_trimmed(s: Seq<char>) -> Seq<char> {
    spec_trim_back(spec_trim_front(s))
}

/// Copy of `s` with whitespace stripped from both ends.
pub fn trimmed(s: &str) -> (r: String)
    ensures
        r@ == spec_trimmed(s@),
{
    let chars = collect_chars(s);
    let n = chars.len();
    let mut start: usize = 0;
    proof {
        assert(s@.skip(0) =~= s@);
    }
    while start < n && is_ws_char(chars[start])
        invariant
            n == s@.len(),
            chars@ == s@,
            0 <= start <= n,
            spec_trim_front(s@) == spec_trim_front(s@.skip(start as int)),
        decreases n - start,
    {
        proof {
            assert(s@.skip(start as int)[0] == s@[start as int]);
            assert(s@.skip(start as int).drop_first() =~= s@.skip(start + 1));
        }
        start = start + 1;
    }
    proof {
        if start < n {
            assert(s@.skip(start as int)[0] == s@[start as int]);
        }
        assert(spec_trim_front(s@) =~= s@.skip(start as int));
    }
    let mut end: usize = n;
    while end > start && is_ws_char(chars[end - 1])
        invariant
            n == s@.len(),
            chars@ == s@,
            start <= end <= n,
            spec_trim_front(s@) == s@.skip(start as int),
            spec_trim_back(s@.skip(start as int)) == spec_trim_back(
                s@.subrange(start as int, end as int),
            ),
        decreases end,
    {
        proof {
            let cur = s@.subrange(start as int, end as int);
            assert(cur.last() == s@[end - 1]);
            assert(cur.drop_last() =~= s@.subrange(start as int, end - 1));
        }
        end = end - 1;
    }
    proof {
        let cur = s@.subrange(start as int, end as int);
        if end > start {
            assert(cur.last() == s@[end - 1]);
        }
        assert(spec_trim_back(cur) == cur);
        assert(s@.skip(start as int) =~= s@.subrange(start as int, n as int));
    }
    s.substring_char(start, end).to_owned()
}

/// What an upload answer means.
#[derive(Debug, PartialEq)]
pub enum UploadOutcome {
    /// The paste's URL.
    Url(String),
    /// The service refused the request: the status and the trimmed body.
    HttpError { status: u16, body: String },
    /// A JSON error object: its message.
    JsonError { message: String },
    /// An answer in no recognized shape: the status and the trimmed body.
    Unrecognized { status: u16, body: String },
}

/// The paste URL for a bare identifier.
pub open spec fn spec_paste_url(id: Seq<char>) -> Seq<char> {
    "https://pobb.in/"@ + id
}

/// The trimmed body names a paste directly: nonempty, not a JSON object,
/// not an HTML page.
pub open spec fn spec_plain_id(t: Seq<char>) -> bool {
    t.len() > 0 && t[0] != '{' && t[0] != '<'
}

/// The `code`, `message`, `id` and `url` fields of a text read as a JSON
/// object — `code` as an integer, the others as text — each absent when
/// the text is not a JSON object or lacks the field: a function of the
/// text alone.
pub uninterp spec fn json_probe_of(t: Seq<char>) -> (
    Option<i64>,
    Option<Seq<char>>,
    Option<Seq<char>>,
    Option<Seq<char>>,
);

/// Relies on serde_json's `from_str::<Value>`, `Value::get`,
/// `Value::as_i64` and `Value::as_str`: reads the four fields the
/// classification consults, absent on a parse failure, a missing key or a
/// wrongly typed value; deterministic in the text.
#[verifier::external_body]
fn probe_json(t: &str) -> (r: (Option<i64>, Option<String>, Option<String>, Option<String>))
    ensures
        r.0 == json_probe_of(t@).0,
        (match (r.1, json_probe_of(t@).1) {
            (Some(a), Some(b)) => a@ == b,
            (None, None) => true,
            _ => false,
        }),
        (match (r.2, json_probe_of(t@).2) {
            (Some(a), Some(b)) => a@ == b,
            (None, None) => true,
            _ => false,
        }),
        (match (r.3, json_probe_of(t@).3) {
            (Some(a), Some(b)) => a@ == b,
            (None, None) => true,
            _ => false,
        }),
{
    match serde_json::from_str::<serde_json::Value>(t) {
        Ok(v) => (
            v.get("code").and_then(|x| x.as_i64()),
            v.get("message").and_then(|x| x.as_str()).map(|s| s.to_owned()),
            v.get("id").and_then(|x| x.as_str()).map(|s| s.to_owned()),
            v.get("url").and_then(|x| x.as_str()).map(|s| s.to_owned()),
        ),
        Err(_) => (None, None, None, None),
    }
}

/// Does the JSON reading carry an error code of 400 or more?
pub open spec fn spec_json_error(t: Seq<char>) -> bool {
    match json_probe_of(t).0 {
        Some(c) => c >= 400,
        None => false,
    }
}

/// The message reported for a JSON error object: its `message` field, or
/// a fixed text when none is readable.
pub open spec fn spec_json_error_message(t: Seq<char>) -> Seq<char> {
    match json_probe_of(t).1 {
        Some(m) => m,
        None => "Unknown error"@,
    }
}

/// Classify an upload answer. A non-success status is an error carrying
/// the trimmed body; a success whose trimmed body names a paste outright
/// yields that paste's URL; any other success is read as a JSON object:
/// an error code of 400 or more yields the object's message, otherwise an
/// `id` field yields that paste's URL, otherwise a `url` field is taken
/// as the URL itself, and anything else — a parse failure included — is
/// unrecognized.
pub fn classify_upload_response(status: u16, body: &str) -> (r: UploadOutcome)
    ensures
        !(200 <= status < 300) ==> (match r {
            UploadOutcome::HttpError { status: st, body: b } => st == status && b@ == spec_trimmed(
                body@,
            ),
            _ => false,
        }),
        (200 <= status < 300) && spec_plain_id(spec_trimmed(body@)) ==> (match r {
            UploadOutcome::Url(u) => u@ == spec_paste_url(spec_trimmed(body@)),
            _ => false,
        }),
        (200 <= status < 300) && !spec_plain_id(spec_trimmed(body@)) && spec_json_error(
            spec_trimmed(body@),
        ) ==> (match r {
            UploadOutcome::JsonError { message } => message@ == spec_json_error_message(
                spec_trimmed(body@),
            ),
            _ => false,
        }),
        (200 <= status < 300) && !spec_plain_id(spec_trimmed(body@)) && !spec_json_error(
            spec_trimmed(body@),
        ) && json_probe_of(spec_trimmed(body@)).2 is Some ==> (match r {
            UploadOutcome::Url(u) => u@ == spec_paste_url(json_probe_of(spec_trimmed(body@)).2->0),
            _ => false,
        }),
        (200 <= status < 300) && !spec_plain_id(spec_trimmed(body@)) && !spec_json_error(
            spec_trimmed(body@),
        ) && json_probe_of(spec_trimmed(body@)).2 is None && json_probe_of(
            spec_trimmed(body@),
        ).3 is Some ==> (match r {
            UploadOutcome::Url(u) => u@ == json_probe_of(spec_trimmed(body@)).3->0,
            _ => false,
        }),
        (200 <= status < 300) && !spec_plain_id(spec_trimmed(body@)) && !spec_json_error(
            spec_trimmed(body@),
        ) && json_probe_of(spec_trimmed(body@)).2 is None && json_probe_of(
            spec_trimmed(body@),
        ).3 is None ==> (match r {
            UploadOutcome::Unrecognized { status: st, body: b } => st == status && b@
                == spec_trimmed(body@),
            _ => false,
        }),
{
    let text = trimmed(body);
    if !(200 <= status && status < 300) {
        return UploadOutcome::HttpError { status, body: text };
    }
    let chars = collect_chars(text.as_str());
    if chars.len() > 0 && chars[0] != '{' && chars[0] != '<' {
        let mut url: String = "https://pobb.in/".to_owned();
        url.append(text.as_str());
        return UploadOutcome::Url(url);
    }
    let (code, message, id, url_field) = probe_json(text.as_str());
    let is_error = match code {
        Some(c) => c >= 400,
        None => false,
    };
    if is_error {
        let message = match message {
            Some(m) => m,
            None => "Unknown error".to_owned(),
        };
        return UploadOutcome::JsonError { message };
    }
    match id {
        Some(id_text) => {
            let mut url: String = "https://pobb.in/".to_owned();
            url.append(id_text.as_str());
            UploadOutcome::Url(url)
        },
        None => match url_field {
            Some(u) => UploadOutcome::Url(u),
            None => UploadOutcome::Unrecognized { status, body: text },
        },
    }
}

} // verus!
