//! Responses: their status lines, headers and entity tags.
use crate::encoding::string_of;
use crate::number::{
    decimal_chars, decimal_text, lemma_decimal_text, signed_chars, signed_text,
};
use crate::problem::{answers, ApiError};
use crate::query::{entry_texts, same_text, Entries};
use crate::text::{append_chars, chars_of, equals_ignoring_case, same_ignoring_case};
use vstd::prelude::*;
use vstd::slice::slice_to_vec;
use vstd::utf8::encode_utf8;

verus! {

/// The version of the browser interface's documents.
pub const WEB_SCHEMA_VERSION: u8 = 2;

/// Raised when a document can change although the catalog did not, so that no
/// browser keeps one from an older build.
pub const WEB_API_CACHE_REVISION: u8 = 5;

/// A response.
pub struct HttpResponse {
    pub status: u16,
    pub reason: &'static str,
    pub headers: Vec<(String, String)>,
    pub body: Vec<u8>,
}

/// Headers with one set: its value replaced where the name is there, appended
/// otherwise.
pub open spec fn with_header(headers: Entries, name: Seq<char>, value: Seq<char>) -> Entries
    decreases headers.len(),
{
    if headers.len() == 0 {
        seq![(name, value)]
    } else if same_ignoring_case(headers[0].0, name) {
        seq![(headers[0].0, value)] + headers.skip(1)
    } else {
        seq![headers[0]] + with_header(headers.skip(1), name, value)
    }
}

impl HttpResponse {
    /// The names and values of the headers.
    pub open spec fn fields(self) -> Entries {
        entry_texts(self.headers@)
    }

    /// A response without headers or body.
    pub fn new(status: u16, reason: &'static str) -> (response: HttpResponse)
        ensures
            response.status == status,
            response.reason@ == reason@,
            response.fields() == Seq::<(Seq<char>, Seq<char>)>::empty(),
            response.body@ == Seq::<u8>::empty(),
    {
        let headers: Vec<(String, String)> = Vec::new();
        assert(entry_texts(headers@) =~= Seq::<(Seq<char>, Seq<char>)>::empty());
        HttpResponse { status, reason, headers, body: Vec::new() }
    }

    pub(crate) fn push(&mut self, name: &str, value: &str)
        ensures
            final(self).fields() == old(self).fields().push((name@, value@)),
            final(self).status == old(self).status,
            final(self).reason == old(self).reason,
            final(self).body == old(self).body,
    {
        let ghost before = self.headers@;
        self.headers.push((name.to_owned(), value.to_owned()));
        assert(entry_texts(self.headers@) =~= entry_texts(before).push((name@, value@)));
    }

    /// Sets a header.
    pub fn set(&mut self, name: &str, value: &str)
        ensures
            final(self).fields() == with_header(old(self).fields(), name@, value@),
            final(self).status == old(self).status,
            final(self).reason == old(self).reason,
            final(self).body == old(self).body,
    {
        let ghost all = self.fields();
        let mut i: usize = 0;
        proof {
            assert(all.skip(0) =~= all);
            assert(all.take(0) + with_header(all.skip(0), name@, value@) =~= with_header(
                all,
                name@,
                value@,
            ));
        }
        while i < self.headers.len()
            invariant
                i <= self.headers.len(),
                *self == *old(self),
                all == entry_texts(self.headers@),
                all.len() == self.headers@.len(),
                all.take(i as int) + with_header(all.skip(i as int), name@, value@) == with_header(
                    all,
                    name@,
                    value@,
                ),
            decreases self.headers.len() - i,
        {
            let ghost rest = all.skip(i as int);
            let field = chars_of(self.headers[i].0.as_str());
            proof {
                assert(all[i as int] == (self.headers@[i as int].0@, self.headers@[i as int].1@));
                assert(rest[0] == all[i as int]);
                assert(rest.skip(1) =~= all.skip(i + 1));
            }
            if equals_ignoring_case(&field, name) {
                let ghost kept = self.headers@;
                let kept_name = self.headers[i].0.clone();
                self.headers.set(i, (kept_name, value.to_owned()));
                proof {
                    assert(entry_texts(self.headers@) =~= all.take(i as int) + (seq![
                        (all[i as int].0, value@),
                    ] + all.skip(i + 1)));
                }
                return;
            }
            proof {
                assert(all.take(i + 1) + with_header(all.skip(i + 1), name@, value@) =~= all.take(
                    i as int,
                ) + (seq![all[i as int]] + with_header(all.skip(i + 1), name@, value@)));
            }
            i += 1;
        }
        proof {
            assert(all.skip(i as int) =~= Seq::<(Seq<char>, Seq<char>)>::empty());
            assert(all.take(i as int) =~= all);
            assert(all + seq![(name@, value@)] =~= all.push((name@, value@)));
        }
        self.push(name, value);
    }
}

/// The reason phrase of a status.
pub open spec fn reason_of(status: u16) -> Seq<char> {
    if status == 200 {
        "OK"@
    } else if status == 400 {
        "Bad Request"@
    } else if status == 403 {
        "Forbidden"@
    } else if status == 404 {
        "Not Found"@
    } else if status == 405 {
        "Method Not Allowed"@
    } else if status == 409 {
        "Conflict"@
    } else if status == 413 {
        "Payload Too Large"@
    } else if status == 415 {
        "Unsupported Media Type"@
    } else if status == 422 {
        "Unprocessable Content"@
    } else if status == 503 {
        "Service Unavailable"@
    } else {
        "Error"@
    }
}

/// The reason phrase of a status.
pub fn reason(status: u16) -> (phrase: &'static str)
    ensures
        phrase@ == reason_of(status),
{
    match status {
        200 => "OK",
        400 => "Bad Request",
        403 => "Forbidden",
        404 => "Not Found",
        405 => "Method Not Allowed",
        409 => "Conflict",
        413 => "Payload Too Large",
        415 => "Unsupported Media Type",
        422 => "Unprocessable Content",
        503 => "Service Unavailable",
        _ => "Error",
    }
}

/// The headers of a body of that type and length.
pub open spec fn entity_fields(mime: Seq<char>, cache_control: Seq<char>, length: nat) -> Entries {
    seq![
        ("Content-Type"@, mime),
        ("Cache-Control"@, cache_control),
        ("Content-Length"@, decimal_text(length)),
    ]
}

/// The headers of a JSON document.
pub open spec fn json_fields(cache_control: Seq<char>, length: nat) -> Entries {
    entity_fields("application/json; charset=utf-8"@, cache_control, length).push(
        ("X-Content-Type-Options"@, "nosniff"@),
    )
}

/// A successful response with a body.
pub fn bytes_response(mime: &str, body: &[u8], cache_control: &str) -> (response: HttpResponse)
    ensures
        response.status == 200,
        response.reason@ == "OK"@,
        response.fields() == entity_fields(mime@, cache_control@, body@.len()),
        response.body@ == body@,
{
    let mut response = HttpResponse::new(200, "OK");
    response.push("Content-Type", mime);
    response.push("Cache-Control", cache_control);
    let length = string_of(&decimal_chars(body.len() as u64));
    response.push("Content-Length", length.as_str());
    response.body = slice_to_vec(body);
    assert(response.fields() =~= entity_fields(mime@, cache_control@, body@.len()));
    response
}

/// The headers of a page.
pub open spec fn html_fields(length: nat) -> Entries {
    entity_fields("text/html; charset=utf-8"@, "no-cache"@, length).push(
        ("X-Content-Type-Options"@, "nosniff"@),
    )
}

/// A page.
pub fn html_response(body: String) -> (response: HttpResponse)
    ensures
        response.status == 200,
        response.reason@ == "OK"@,
        response.fields() == html_fields(encode_utf8(body@).len()),
        response.body@ == encode_utf8(body@),
{
    let mut response = bytes_response(
        "text/html; charset=utf-8",
        body.as_str().as_bytes(),
        "no-cache",
    );
    response.push("X-Content-Type-Options", "nosniff");
    response
}

/// A JSON document with a status.
pub fn json_response_with_status_and_cache_control(
    status_code: u16,
    body: Vec<u8>,
    cache_control: &str,
) -> (response: HttpResponse)
    ensures
        response.status == status_code,
        response.reason@ == reason_of(status_code),
        response.fields() == json_fields(cache_control@, body@.len()),
        response.body@ == body@,
{
    let mut response = HttpResponse::new(status_code, reason(status_code));
    response.push("Content-Type", "application/json; charset=utf-8");
    response.push("Cache-Control", cache_control);
    let length = string_of(&decimal_chars(body.len() as u64));
    response.push("Content-Length", length.as_str());
    response.push("X-Content-Type-Options", "nosniff");
    response.body = body;
    assert(response.fields() =~= json_fields(cache_control@, body@.len()));
    response
}

/// A JSON document with a status, not to be stored.
pub fn json_response_with_status(status_code: u16, body: Vec<u8>) -> (response: HttpResponse)
    ensures
        response.status == status_code,
        response.reason@ == reason_of(status_code),
        response.fields() == json_fields("no-store"@, body@.len()),
        response.body@ == body@,
{
    json_response_with_status_and_cache_control(status_code, body, "no-store")
}

/// A JSON document, not to be stored.
pub fn json_response(body: Vec<u8>) -> (response: HttpResponse)
    ensures
        response.status == 200,
        response.reason@ == "OK"@,
        response.fields() == json_fields("no-store"@, body@.len()),
        response.body@ == body@,
{
    json_response_with_status(200, body)
}

// -------------------------------------------------------------- entity tags

/// A browser may keep the document, and asks each time whether it still holds.
pub open spec fn revalidated() -> Seq<char> {
    "private, max-age=0, must-revalidate"@
}

/// The entity tag of what the catalog says in a generation.
pub open spec fn generation_tag(generation: u32) -> Seq<char> {
    "W/\"web-v"@ + decimal_text(WEB_SCHEMA_VERSION as nat) + "-r"@ + decimal_text(
        WEB_API_CACHE_REVISION as nat,
    ) + seq!['-'] + decimal_text(generation as nat) + seq!['"']
}

/// The entity tag of an item's details in a generation.
pub open spec fn item_tag(generation: u32, id: i64, enriched: bool) -> Seq<char> {
    "W/\"web-v"@ + decimal_text(WEB_SCHEMA_VERSION as nat) + "-r"@ + decimal_text(
        WEB_API_CACHE_REVISION as nat,
    ) + seq!['-'] + decimal_text(generation as nat) + "-item-"@ + signed_text(id as int) + (
    if enriched {
        "-enriched"@
    } else {
        Seq::empty()
    }) + seq!['"']
}

/// The entity tag of a preview manifest.
pub open spec fn manifest_tag(revision: Seq<char>) -> Seq<char> {
    "\"trickplay-api-v"@ + decimal_text(WEB_SCHEMA_VERSION as nat) + seq!['-'] + revision + seq![
        '"',
    ]
}

/// The entity tag of a preview sheet.
pub open spec fn sheet_tag(revision: Seq<char>, index: u32) -> Seq<char> {
    "\"trickplay-v1-"@ + revision + seq!['-'] + decimal_text(index as nat) + seq!['"']
}

fn tag_head(generation: u32) -> (tag: Vec<char>)
    ensures
        tag@ == "W/\"web-v"@ + decimal_text(WEB_SCHEMA_VERSION as nat) + "-r"@ + decimal_text(
            WEB_API_CACHE_REVISION as nat,
        ) + seq!['-'] + decimal_text(generation as nat),
{
    let mut tag = chars_of("W/\"web-v");
    append_chars(&mut tag, &decimal_chars(WEB_SCHEMA_VERSION as u64));
    append_chars(&mut tag, &chars_of("-r"));
    append_chars(&mut tag, &decimal_chars(WEB_API_CACHE_REVISION as u64));
    tag.push('-');
    append_chars(&mut tag, &decimal_chars(generation as u64));
    assert(tag@ =~= "W/\"web-v"@ + decimal_text(WEB_SCHEMA_VERSION as nat) + "-r"@ + decimal_text(
        WEB_API_CACHE_REVISION as nat,
    ) + seq!['-'] + decimal_text(generation as nat));
    tag
}

/// The entity tag of what the catalog says in a generation.
pub fn generation_etag(generation: u32) -> (tag: String)
    ensures
        tag@ == generation_tag(generation),
{
    let mut tag = tag_head(generation);
    tag.push('"');
    assert(tag@ =~= generation_tag(generation));
    string_of(&tag)
}

/// The entity tag of an item's details in a generation.
pub fn item_etag(generation: u32, id: i64, enriched: bool) -> (tag: String)
    ensures
        tag@ == item_tag(generation, id, enriched),
{
    let mut tag = tag_head(generation);
    append_chars(&mut tag, &chars_of("-item-"));
    append_chars(&mut tag, &signed_chars(id));
    if enriched {
        append_chars(&mut tag, &chars_of("-enriched"));
    }
    tag.push('"');
    assert(tag@ =~= item_tag(generation, id, enriched));
    string_of(&tag)
}

/// The entity tag of a preview manifest.
pub fn manifest_etag(revision: &str) -> (tag: String)
    ensures
        tag@ == manifest_tag(revision@),
{
    let mut tag = chars_of("\"trickplay-api-v");
    append_chars(&mut tag, &decimal_chars(WEB_SCHEMA_VERSION as u64));
    tag.push('-');
    append_chars(&mut tag, &chars_of(revision));
    tag.push('"');
    assert(tag@ =~= manifest_tag(revision@));
    string_of(&tag)
}

/// The entity tag of a preview sheet.
pub fn sheet_etag(revision: &str, index: u32) -> (tag: String)
    ensures
        tag@ == sheet_tag(revision@, index),
{
    let mut tag = chars_of("\"trickplay-v1-");
    append_chars(&mut tag, &chars_of(revision));
    tag.push('-');
    append_chars(&mut tag, &decimal_chars(index as u64));
    tag.push('"');
    assert(tag@ =~= sheet_tag(revision@, index));
    string_of(&tag)
}

/// Whether the tag that a browser holds is the current one.
pub open spec fn is_current(held: Option<&str>, tag: Seq<char>) -> bool {
    held matches Some(held) && held@ == tag
}

/// The answer to a browser whose copy is current.
pub fn not_modified(etag: &str, cache_control: &str) -> (response: HttpResponse)
    ensures
        response.status == 304,
        response.reason@ == "Not Modified"@,
        response.fields() == seq![("ETag"@, etag@), ("Cache-Control"@, cache_control@)],
        response.body@ == Seq::<u8>::empty(),
{
    let mut response = HttpResponse::new(304, "Not Modified");
    response.push("ETag", etag);
    response.push("Cache-Control", cache_control);
    assert(response.fields() =~= seq![("ETag"@, etag@), ("Cache-Control"@, cache_control@)]);
    response
}

/// A document under an entity tag, or word that the browser's copy is current.
pub fn tagged_json_response(held: Option<&str>, etag: &str, body: Vec<u8>) -> (response:
    HttpResponse)
    ensures
        if is_current(held, etag@) {
            &&& response.status == 304
            &&& response.reason@ == "Not Modified"@
            &&& response.fields() == seq![("ETag"@, etag@), ("Cache-Control"@, revalidated())]
            &&& response.body@ == Seq::<u8>::empty()
        } else {
            &&& response.status == 200
            &&& response.reason@ == "OK"@
            &&& response.fields() == json_fields(revalidated(), body@.len()).push(
                ("ETag"@, etag@),
            )
            &&& response.body@ == body@
        },
{
    let current = match held {
        Some(held) => same_text(held, etag),
        None => false,
    };
    if current {
        return not_modified(etag, "private, max-age=0, must-revalidate");
    }
    let mut response = json_response_with_status_and_cache_control(
        200,
        body,
        "private, max-age=0, must-revalidate",
    );
    response.push("ETag", etag);
    response
}

/// What the catalog says in a generation, or word that the browser's copy is
/// current.
pub fn generation_json_response(held: Option<&str>, generation: u32, body: Vec<u8>) -> (response:
    HttpResponse)
    ensures
        ({
            let etag = generation_tag(generation);
            if is_current(held, etag) {
                &&& response.status == 304
                &&& response.reason@ == "Not Modified"@
                &&& response.fields() == seq![("ETag"@, etag), ("Cache-Control"@, revalidated())]
                &&& response.body@ == Seq::<u8>::empty()
            } else {
                &&& response.status == 200
                &&& response.reason@ == "OK"@
                &&& response.fields() == json_fields(revalidated(), body@.len()).push(
                    ("ETag"@, etag),
                )
                &&& response.body@ == body@
            }
        }),
{
    let etag = generation_etag(generation);
    tagged_json_response(held, etag.as_str(), body)
}

/// The answer to a stream that could not be prepared, and how many seconds to
/// wait before trying again.
pub fn transcode_stream_error(status_code: u16, code: &str) -> (result: (ApiError, Option<u64>))
    ensures
        if code@ == "transcode_busy"@ {
            &&& answers(
                result.0,
                status_code,
                "transcode_busy"@,
                "The server is preparing other media. Try again shortly."@,
                true,
                Some("retry_media"@),
            )
            &&& result.1 == Some(1u64)
        } else if code@ == "transcode_cancelled"@ {
            &&& answers(
                result.0,
                status_code,
                "transcode_cancelled"@,
                "Preparing this title was cancelled."@,
                true,
                Some("retry_media"@),
            )
            &&& result.1 is None
        } else {
            &&& answers(
                result.0,
                status_code,
                "transcode_failed"@,
                "The server could not prepare this title."@,
                true,
                Some("retry_media"@),
            )
            &&& result.1 is None
        },
{
    if same_text(code, "transcode_busy") {
        (
            ApiError {
                status: status_code,
                code: "transcode_busy",
                message: "The server is preparing other media. Try again shortly.",
                recoverable: true,
                action: Some("retry_media"),
            },
            Some(1),
        )
    } else if same_text(code, "transcode_cancelled") {
        (
            ApiError {
                status: status_code,
                code: "transcode_cancelled",
                message: "Preparing this title was cancelled.",
                recoverable: true,
                action: Some("retry_media"),
            },
            None,
        )
    } else {
        (
            ApiError {
                status: status_code,
                code: "transcode_failed",
                message: "The server could not prepare this title.",
                recoverable: true,
                action: Some("retry_media"),
            },
            None,
        )
    }
}

// -------------------------------------------------------------------- laws

proof fn lemma_tail_equal(head: Seq<char>, a: Seq<char>, b: Seq<char>)
    requires
        head + a == head + b,
    ensures
        a == b,
{
    let n = head.len() as int;
    assert((head + a).skip(n) =~= a);
    assert((head + b).skip(n) =~= b);
}

/// A browser's copy of one generation is never taken for another's.
pub proof fn law_tags_tell_generations_apart(a: u32, b: u32)
    requires
        generation_tag(a) == generation_tag(b),
    ensures
        a == b,
{
    let head = "W/\"web-v"@ + decimal_text(WEB_SCHEMA_VERSION as nat) + "-r"@ + decimal_text(
        WEB_API_CACHE_REVISION as nat,
    ) + seq!['-'];
    let x = decimal_text(a as nat);
    let y = decimal_text(b as nat);
    assert(generation_tag(a) =~= head + (x + seq!['"']));
    assert(generation_tag(b) =~= head + (y + seq!['"']));
    lemma_tail_equal(head, x + seq!['"'], y + seq!['"']);
    let n = (x + seq!['"']).len() - 1;
    assert((x + seq!['"']).take(n) =~= x);
    assert((y + seq!['"']).take(n) =~= y);
    lemma_decimal_text(a as nat);
    lemma_decimal_text(b as nat);
}

} // verus!
