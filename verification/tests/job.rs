use rusty_dlna_web::job::{
    answered_state, startup_event, status_action, status_request, status_response, StatusAction,
    StatusMethod, StatusRequest,
};
use rusty_dlna_web::problem::Problem;

const PATH: &str = "/api/web/transcode/42";

fn asked(method: &str, query: &str, known_event: bool) -> Result<StatusRequest, Problem> {
    status_request(method, query, PATH, known_event)
}

#[test]
fn methods_look_cancel_and_report() {
    let look = asked("get", "request=78&session=12", false).unwrap();
    assert_eq!(
        look,
        StatusRequest {
            method: StatusMethod::Look,
            item: 42,
            request_id: Some(78),
            session_id: Some(12),
        }
    );
    assert_eq!(asked("HEAD", "", false).unwrap().method, StatusMethod::Look);
    assert_eq!(asked("DELETE", "request=1", false).unwrap().method, StatusMethod::Cancel);
    let report = asked("POST", "request=78&session=12&event=canplay", true).unwrap();
    assert_eq!(report.method, StatusMethod::Report);
    assert_eq!(startup_event("request=78&event=canplay").as_deref(), Some("canplay"));
    assert_eq!(startup_event("request=78"), None);
}

#[test]
fn every_status_refusal_has_an_input() {
    let cases = [
        ("PUT", "", true, Problem::StatusMethod),
        ("GET", "start=1", true, Problem::StatusParameter),
        ("GET", "request=x", true, Problem::InvalidRequest),
        ("GET", "session=x", true, Problem::InvalidSession),
        ("POST", "request=78&session=12&event=nope", false, Problem::InvalidEvent),
        ("POST", "request=78&session=12", true, Problem::InvalidEvent),
        ("GET", "request=78&session=12&event=canplay", true, Problem::EventWithoutPost),
    ];
    for (method, query, known, expected) in cases {
        assert_eq!(asked(method, query, known), Err(expected), "{method} {query}");
    }
    assert_eq!(
        status_request("GET", "", "/api/web/transcode/042", true),
        Err(Problem::InvalidItem)
    );
    let cancel = asked("DELETE", "", false).unwrap();
    let report = asked("POST", "event=canplay", true).unwrap();
    assert_eq!(status_action(cancel, false, true), Err(Problem::MediaMissing));
    assert_eq!(status_action(cancel, true, false), Err(Problem::StatusFileMissing));
    assert_eq!(status_action(cancel, true, true), Err(Problem::CancelWithoutRequest));
    assert_eq!(status_action(report, true, true), Err(Problem::EventWithoutIds));
}

#[test]
fn what_is_done_names_the_request() {
    let act = |method: &str, query: &str| {
        status_action(asked(method, query, true).unwrap(), true, true).unwrap()
    };
    assert_eq!(act("DELETE", "request=1"), StatusAction::Cancel { request_id: 1 });
    assert_eq!(
        act("POST", "request=1&session=2&event=playing"),
        StatusAction::Report { request_id: 1, session_id: 2 }
    );
    assert_eq!(act("GET", "request=1"), StatusAction::KeepAlive { request_id: 1 });
    assert_eq!(act("GET", ""), StatusAction::Look);
}

#[test]
fn a_cancelled_request_is_answered_as_cancelled() {
    let cancel = asked("DELETE", "request=1", false).unwrap();
    let look = asked("GET", "request=1", false).unwrap();
    assert_eq!(
        answered_state(cancel, true, "running".into(), Some(2)),
        ("cancelled".to_owned(), None)
    );
    assert_eq!(
        answered_state(cancel, false, "idle".into(), None),
        ("idle".to_owned(), None)
    );
    assert_eq!(
        answered_state(look, true, "queued".into(), Some(2)),
        ("queued".to_owned(), Some(2))
    );
    let response = status_response(b"{}".to_vec(), Some(2));
    assert_eq!(response.status, 200);
    assert_eq!(response.headers.last().unwrap(), &("Retry-After".to_owned(), "2".to_owned()));
    assert_eq!(status_response(b"{}".to_vec(), None).headers.len(), 4);
}
