//! The state of a conversion, its cancellation, and playback timing reports.
use crate::http::{json_fields, json_response, HttpResponse};
use crate::encoding::string_of;
use crate::number::{decimal_chars, decimal_text};
use crate::playback::{as_nat, gives, number_in};
use crate::problem::Problem;
use crate::query::{
    all_allowed, is_well_formed, optional_number, query_entries, value_of, QueryParams,
};
use crate::route::{id_under, web_transcode_status_id};
use crate::text::{chars_of, equals_ignoring_case, same_ignoring_case};
use vstd::prelude::*;

verus! {

/// What is done with a conversion.
#[derive(Clone, Copy, Debug, PartialEq, Eq, Structural)]
pub enum StatusMethod {
    /// Its state is read, which keeps it alive.
    Look,
    /// It is cancelled.
    Cancel,
    /// A moment of its playback is reported.
    Report,
}

/// What a method does.
pub open spec fn method_of(method: Seq<char>) -> Option<StatusMethod> {
    if same_ignoring_case(method, "DELETE"@) {
        Some(StatusMethod::Cancel)
    } else if same_ignoring_case(method, "POST"@) {
        Some(StatusMethod::Report)
    } else if same_ignoring_case(method, "GET"@) || same_ignoring_case(method, "HEAD"@) {
        Some(StatusMethod::Look)
    } else {
        None
    }
}

fn read_method(method: &str) -> (result: Option<StatusMethod>)
    ensures
        result == method_of(method@),
{
    let method = chars_of(method);
    if equals_ignoring_case(&method, "DELETE") {
        Some(StatusMethod::Cancel)
    } else if equals_ignoring_case(&method, "POST") {
        Some(StatusMethod::Report)
    } else if equals_ignoring_case(&method, "GET") || equals_ignoring_case(&method, "HEAD") {
        Some(StatusMethod::Look)
    } else {
        None
    }
}

/// The playback event that a query reports.
pub fn startup_event(query: &str) -> (result: Option<String>)
    ensures
        match result {
            Some(event) => value_of(query_entries(query@), "event"@) == Some(event@),
            None => value_of(query_entries(query@), "event"@) is None,
        },
{
    let params = QueryParams::parse(query);
    match params.get("event") {
        Some(event) => Some(event.to_owned()),
        None => None,
    }
}

/// A request about a conversion.
#[derive(Clone, Copy, Debug, PartialEq, Eq, Structural)]
pub struct StatusRequest {
    pub method: StatusMethod,
    pub item: i64,
    pub request_id: Option<u64>,
    pub session_id: Option<u64>,
}

/// The parameters of a request about a conversion.
pub open spec fn status_names() -> Seq<&'static str> {
    seq!["request", "session", "event"]
}

/// Why a request about a conversion is refused, if it is. `known_event` says
/// whether the event that it reports, if any, is one that is counted.
pub open spec fn status_problem(
    method: Seq<char>,
    query: Seq<char>,
    path: Seq<char>,
    known_event: bool,
) -> Option<Problem> {
    let entries = query_entries(query);
    match method_of(method) {
        None => Some(Problem::StatusMethod),
        Some(method) => if !is_well_formed(query) || !all_allowed(entries, status_names()) {
            Some(Problem::StatusParameter)
        } else if optional_number(entries, "request"@, u64::MAX as nat) is Err {
            Some(Problem::InvalidRequest)
        } else if optional_number(entries, "session"@, u64::MAX as nat) is Err {
            Some(Problem::InvalidSession)
        } else if method == StatusMethod::Report && !(gives(entries, "event"@) && known_event) {
            Some(Problem::InvalidEvent)
        } else if method != StatusMethod::Report && gives(entries, "event"@) {
            Some(Problem::EventWithoutPost)
        } else if id_under(path, "/api/web/transcode/"@) is None {
            Some(Problem::InvalidItem)
        } else {
            None
        },
    }
}

/// Reads a request about a conversion. `known_event` says whether the event that
/// it reports, if any, is one that is counted.
pub fn status_request(method: &str, query: &str, path: &str, known_event: bool) -> (result: Result<
    StatusRequest,
    Problem,
>)
    ensures
        match result {
            Ok(request) => {
                let entries = query_entries(query@);
                &&& status_problem(method@, query@, path@, known_event) is None
                &&& method_of(method@) == Some(request.method)
                &&& id_under(path@, "/api/web/transcode/"@) == Some(request.item)
                &&& as_nat(request.request_id) == number_in(entries, "request"@, u64::MAX as nat)
                &&& as_nat(request.session_id) == number_in(entries, "session"@, u64::MAX as nat)
            },
            Err(problem) => status_problem(method@, query@, path@, known_event) == Some(problem),
        },
{
    let method = match read_method(method) {
        Some(method) => method,
        None => {
            return Err(Problem::StatusMethod);
        },
    };
    let params = QueryParams::parse(query);
    let names: [&str; 3] = ["request", "session", "event"];
    assert(names@ =~= status_names());
    if params.has_unknown(&names) {
        return Err(Problem::StatusParameter);
    }
    let request_id = match params.optional_u64("request") {
        Ok(value) => value,
        Err(_) => {
            return Err(Problem::InvalidRequest);
        },
    };
    let session_id = match params.optional_u64("session") {
        Ok(value) => value,
        Err(_) => {
            return Err(Problem::InvalidSession);
        },
    };
    let has_event = params.get("event").is_some();
    if method == StatusMethod::Report && !(has_event && known_event) {
        return Err(Problem::InvalidEvent);
    }
    if method != StatusMethod::Report && has_event {
        return Err(Problem::EventWithoutPost);
    }
    match web_transcode_status_id(path) {
        Some(item) => Ok(StatusRequest { method, item, request_id, session_id }),
        None => Err(Problem::InvalidItem),
    }
}

/// What is done about a conversion.
#[derive(Clone, Copy, Debug, PartialEq, Eq, Structural)]
pub enum StatusAction {
    /// Cancel the request.
    Cancel { request_id: u64 },
    /// Keep the request alive and count the event.
    Report { request_id: u64, session_id: u64 },
    /// Keep the request alive.
    KeepAlive { request_id: u64 },
    /// Nothing.
    Look,
}

/// Why nothing is done, if nothing is. `known` says whether the catalog has the
/// title, `available` whether its file can be opened.
pub open spec fn action_problem(request: StatusRequest, known: bool, available: bool) -> Option<
    Problem,
> {
    if !known {
        Some(Problem::MediaMissing)
    } else if !available {
        Some(Problem::StatusFileMissing)
    } else if request.method == StatusMethod::Cancel && request.request_id is None {
        Some(Problem::CancelWithoutRequest)
    } else if request.method == StatusMethod::Report && (request.request_id is None
        || request.session_id is None) {
        Some(Problem::EventWithoutIds)
    } else {
        None
    }
}

/// What is done about a conversion.
pub open spec fn action_of(request: StatusRequest) -> StatusAction {
    match (request.method, request.request_id) {
        (StatusMethod::Cancel, Some(request_id)) => StatusAction::Cancel { request_id },
        (StatusMethod::Report, Some(request_id)) => StatusAction::Report {
            request_id,
            session_id: request.session_id->0,
        },
        (StatusMethod::Look, Some(request_id)) => StatusAction::KeepAlive { request_id },
        _ => StatusAction::Look,
    }
}

/// Decides what is done about a conversion.
pub fn status_action(request: StatusRequest, known: bool, available: bool) -> (result: Result<
    StatusAction,
    Problem,
>)
    ensures
        match result {
            Ok(action) => action_problem(request, known, available) is None && action == action_of(
                request,
            ),
            Err(problem) => action_problem(request, known, available) == Some(problem),
        },
{
    if !known {
        return Err(Problem::MediaMissing);
    }
    if !available {
        return Err(Problem::StatusFileMissing);
    }
    match request.method {
        StatusMethod::Cancel => match request.request_id {
            Some(request_id) => Ok(StatusAction::Cancel { request_id }),
            None => Err(Problem::CancelWithoutRequest),
        },
        StatusMethod::Report => match (request.request_id, request.session_id) {
            (Some(request_id), Some(session_id)) => Ok(
                StatusAction::Report { request_id, session_id },
            ),
            _ => Err(Problem::EventWithoutIds),
        },
        StatusMethod::Look => match request.request_id {
            Some(request_id) => Ok(StatusAction::KeepAlive { request_id }),
            None => Ok(StatusAction::Look),
        },
    }
}

/// The state that is answered: cancelled where the request was, else what the
/// conversion says, with the seconds to wait before asking again.
pub fn answered_state(
    request: StatusRequest,
    cancelled: bool,
    state: String,
    retry_after_seconds: Option<u64>,
) -> (result: (String, Option<u64>))
    ensures
        if request.method == StatusMethod::Cancel && cancelled {
            result.0@ == "cancelled"@ && result.1 is None
        } else {
            result.0@ == state@ && result.1 == retry_after_seconds
        },
{
    if request.method == StatusMethod::Cancel && cancelled {
        ("cancelled".to_owned(), None)
    } else {
        (state, retry_after_seconds)
    }
}

/// The answer with a state, and when to ask again.
pub fn status_response(body: Vec<u8>, retry_after_seconds: Option<u64>) -> (response: HttpResponse)
    ensures
        response.status == 200,
        response.reason@ == "OK"@,
        response.body@ == body@,
        response.fields() == match retry_after_seconds {
            Some(seconds) => json_fields("no-store"@, body@.len()).push(
                ("Retry-After"@, decimal_text(seconds as nat)),
            ),
            None => json_fields("no-store"@, body@.len()),
        },
{
    let mut response = json_response(body);
    if let Some(seconds) = retry_after_seconds {
        let value = string_of(&decimal_chars(seconds));
        response.push("Retry-After", value.as_str());
    }
    response
}

// -------------------------------------------------------------------- laws

/// Nothing is cancelled or counted but what a request names, and only by the
/// method for it.
pub proof fn law_actions_name_their_request(request: StatusRequest, known: bool, available: bool)
    requires
        action_problem(request, known, available) is None,
    ensures
        action_of(request) matches StatusAction::Cancel { request_id } ==> request.method
            == StatusMethod::Cancel && request.request_id == Some(request_id),
        action_of(request) matches StatusAction::Report { request_id, session_id }
            ==> request.method == StatusMethod::Report && request.request_id == Some(request_id)
            && request.session_id == Some(session_id),
        request.method == StatusMethod::Cancel ==> action_of(request) is Cancel,
        request.method == StatusMethod::Report ==> action_of(request) is Report,
{
}

} // verus!
