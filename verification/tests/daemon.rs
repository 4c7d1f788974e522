use op_cache::daemon::{idle_poll_interval, Request, Response, State};

const SEC: u64 = 1_000_000_000;

fn get(state: &mut State, key: &str, now: u64) -> Response {
    let (response, stop) = state.handle(
        Request::Get { key: key.to_string() },
        now,
        1,
        0,
        None,
    );
    assert!(!stop);
    response
}

#[test]
fn a_get_after_a_put_is_a_hit_until_the_lifetime_runs_out() {
    let mut state = State::new(0);
    let (response, stop) = state.handle(
        Request::Put { key: "k".into(), value: b"secret".to_vec(), ttl_secs: Some(2) },
        0,
        1,
        0,
        None,
    );
    assert!(matches!(response, Response::Done));
    assert!(!stop);
    assert!(matches!(get(&mut state, "k", SEC), Response::Hit { value } if value == b"secret"));
    assert!(matches!(get(&mut state, "k", 2 * SEC), Response::Miss));
    assert!(matches!(get(&mut state, "other", 0), Response::Miss));
    assert_eq!(state.last_activity, 0);
}

#[test]
fn status_reports_what_it_is_given_and_the_live_count() {
    let mut state = State::new(0);
    state.handle(Request::Put { key: "a".into(), value: vec![1], ttl_secs: None }, 0, 7, 0, None);
    state.handle(Request::Put { key: "b".into(), value: vec![2], ttl_secs: Some(1) }, 0, 7, 0, None);
    let (response, stop) = state.handle(Request::Status, 5 * SEC, 99, 12, Some(3600));
    assert!(!stop);
    match response {
        Response::Status(st) => {
            assert_eq!(st.pid, 99);
            assert_eq!(st.uptime_secs, 12);
            assert_eq!(st.idle_timeout_secs, Some(3600));
            assert_eq!(st.cached, 1);
        }
        _ => panic!("not a status"),
    }
    assert_eq!(state.last_activity, 5 * SEC);
}

#[test]
fn inspect_masks_values_and_rounds_down_to_seconds() {
    let mut state = State::new(0);
    state.handle(
        Request::Put {
            key: "op://v/item/field".into(),
            value: b"secret-for-op://v/item/field\n".to_vec(),
            ttl_secs: None,
        },
        0,
        1,
        0,
        None,
    );
    state.handle(
        Request::Put { key: "k".into(), value: vec![1], ttl_secs: Some(u64::MAX) },
        0,
        1,
        0,
        None,
    );
    let (response, _) = state.handle(Request::Inspect, SEC / 2, 1, 0, None);
    match response {
        Response::Entries { entries } => {
            assert_eq!(entries.len(), 2);
            assert_eq!(entries[0].key, "k");
            assert_eq!(entries[0].preview, "••••••••");
            // A lifetime of u64::MAX seconds is capped at a day.
            assert_eq!(entries[0].expires_in_secs, Some(86_399));
            assert_eq!(entries[1].key, "op://v/item/field");
            assert_eq!(entries[1].preview, "sec••••••eld");
            assert_eq!(entries[1].expires_in_secs, None);
        }
        _ => panic!("not entries"),
    }
}

#[test]
fn clear_forgets_and_stop_stops() {
    let mut state = State::new(0);
    state.handle(Request::Put { key: "a".into(), value: vec![1], ttl_secs: None }, 0, 1, 0, None);
    let (response, stop) = state.handle(Request::Clear, 0, 1, 0, None);
    assert!(matches!(response, Response::Done));
    assert!(!stop);
    assert!(matches!(get(&mut state, "a", 0), Response::Miss));
    let (response, stop) = state.handle(Request::Stop, 0, 1, 0, None);
    assert!(matches!(response, Response::Done));
    assert!(stop);
}

#[test]
fn the_daemon_idles_out_after_the_timeout() {
    let state = State::new(10 * SEC);
    assert!(!state.idle_expired(10 * SEC, 5 * SEC));
    assert!(!state.idle_expired(15 * SEC - 1, 5 * SEC));
    assert!(state.idle_expired(15 * SEC, 5 * SEC));
    assert!(!state.idle_expired(SEC, 5 * SEC));
    assert_eq!(idle_poll_interval(5 * SEC), SEC);
    assert_eq!(idle_poll_interval(SEC / 4), SEC / 4);
}
