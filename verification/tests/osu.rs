use midnight::models::{ExtractError, SearchResponse};
use midnight::osu::{
    accumulate_page, auth_request_step, extract_access_token, AdmissionGate,
    AuthAction, AuthRequestEvent, AuthRequestState, AuthenticationManager, FetchScheduler,
    RequestOutcome, MAX_CONCURRENT_REQUESTS,
};

#[test]
fn token_refresh_timing() {
    let manager = AuthenticationManager::new("SECRET-REDACTED".to_string(), 86400);
    assert_eq!(manager.refresh_sleep_seconds(), 86340);
    assert_eq!(manager.access_token, "SECRET-REDACTED");
}

#[test]
fn token_extraction() {
    let body = b"{\"token_type\":\"Bearer\",\"expires_in\":86400,\"access_token\":\"abc.123\"}";
    assert_eq!(extract_access_token(body).unwrap(), b"abc.123".to_vec());

    assert_eq!(
        extract_access_token(b"{\"error\":\"nope\"}"),
        Err(ExtractError::MissingStartTag)
    );
    assert_eq!(
        extract_access_token(b"{\"access_token\":\"abc"),
        Err(ExtractError::MissingEndTag)
    );
}

fn reauth_count(trace: &[(AuthRequestState, AuthAction)]) -> usize {
    trace.iter().filter(|(_, a)| *a == AuthAction::Reauthorize).count()
}

#[test]
fn absent_token_triggers_one_reauth() {
    let mut trace = Vec::new();
    let s0 = AuthRequestState::Idle;
    let step1 = auth_request_step(s0, AuthRequestEvent::Start { token_present: false });
    trace.push(step1);
    let step2 = auth_request_step(step1.0, AuthRequestEvent::Reauthorized { success: true });
    trace.push(step2);
    let step3 = auth_request_step(step2.0, AuthRequestEvent::Response { status: 200 });
    trace.push(step3);

    assert_eq!(reauth_count(&trace), 1);
    assert_eq!(step3.0, AuthRequestState::Done(RequestOutcome::Succeeded));
    assert_eq!(step3.1, AuthAction::Finish);
}

#[test]
fn rejected_token_triggers_one_reauth_then_one_retry() {
    let mut trace = Vec::new();
    let step1 = auth_request_step(
        AuthRequestState::Idle,
        AuthRequestEvent::Start { token_present: true },
    );
    trace.push(step1);
    assert_eq!(step1.1, AuthAction::Send);
    let step2 = auth_request_step(step1.0, AuthRequestEvent::Response { status: 401 });
    trace.push(step2);
    let step3 = auth_request_step(step2.0, AuthRequestEvent::Reauthorized { success: true });
    trace.push(step3);
    assert_eq!(step3.1, AuthAction::Send);
    // a second unauthorized answer is fatal, with no further exchange
    let step4 = auth_request_step(step3.0, AuthRequestEvent::Response { status: 401 });
    trace.push(step4);

    assert_eq!(reauth_count(&trace), 1);
    assert_eq!(step4.0, AuthRequestState::Done(RequestOutcome::Unauthorized));
}

#[test]
fn failed_exchange_is_fatal_for_the_request() {
    let step1 = auth_request_step(
        AuthRequestState::Idle,
        AuthRequestEvent::Start { token_present: false },
    );
    let step2 = auth_request_step(step1.0, AuthRequestEvent::Reauthorized { success: false });
    assert_eq!(step2.0, AuthRequestState::Done(RequestOutcome::AuthFailed));
}

#[test]
fn admission_gate_caps_slots() {
    let mut gate = AdmissionGate::new(2);
    assert!(gate.try_acquire());
    assert!(gate.try_acquire());
    assert!(!gate.try_acquire());
    gate.release();
    assert!(gate.try_acquire());
}

#[test]
fn bounded_fetch_never_exceeds_limit() {
    let ids: Vec<i32> = (1..=10).collect();
    let limit = 3;
    let mut scheduler = FetchScheduler::new(ids.clone(), limit);

    let mut running: Vec<i32> = Vec::new();
    let mut fetched: Vec<i32> = Vec::new();
    let mut max_concurrent = 0;

    while !scheduler.is_done() {
        // start as many fetches as free slots allow
        while let Some(id) = scheduler.start_next() {
            running.push(id);
            if running.len() > max_concurrent {
                max_concurrent = running.len();
            }
            assert!(running.len() <= limit);
        }
        // one in-flight fetch completes (odd ids "fail" and are dropped)
        let done = running.remove(0);
        if done % 2 == 0 {
            fetched.push(done);
        }
        scheduler.complete();
    }

    assert_eq!(max_concurrent, limit);
    assert_eq!(fetched, vec![2, 4, 6, 8, 10]);
}

#[test]
fn default_limit_matches_configuration() {
    assert_eq!(MAX_CONCURRENT_REQUESTS, 16);
}

#[test]
fn pagination_accumulates_until_cursor_runs_out() {
    let mut ids: Vec<i32> = Vec::new();
    let first = SearchResponse {
        beatmapset_ids: vec![1, 2],
        cursor_string: Some("next".to_string()),
    };
    let second = SearchResponse { beatmapset_ids: vec![3], cursor_string: None };

    let cursor = accumulate_page(&mut ids, first);
    assert_eq!(cursor, Some("next".to_string()));
    let cursor = accumulate_page(&mut ids, second);
    assert_eq!(cursor, None);
    assert_eq!(ids, vec![1, 2, 3]);
}
