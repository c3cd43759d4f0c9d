use loopback_oauth::listener::{
    bind_finished, is_shared_server_ready, next_action, serving_ended, start_shared_oauth_server, LoopAction, Poll,
    ServerState, StartError,
};

#[test]
fn many_start_requests_bind_once() {
    let mut s = ServerState::NotStarted;
    let mut binds = 0;
    for _ in 0..8 {
        if start_shared_oauth_server(&mut s) {
            binds += 1;
        }
    }
    assert_eq!(binds, 1);
    assert_eq!(s, ServerState::Starting);
    assert!(!is_shared_server_ready(&s));
    assert_eq!(bind_finished(&mut s, true), Ok(()));
    assert!(is_shared_server_ready(&s));
    assert!(!start_shared_oauth_server(&mut s));
}

#[test]
fn failed_bind_allows_a_later_start() {
    let mut s = ServerState::NotStarted;
    assert!(start_shared_oauth_server(&mut s));
    assert_eq!(bind_finished(&mut s, false), Err(StartError::BindFailed));
    assert_eq!(s, ServerState::Stopped);
    assert!(!is_shared_server_ready(&s));
    assert!(start_shared_oauth_server(&mut s));
    assert!(!start_shared_oauth_server(&mut s));
}

#[test]
fn serving_end_stops_the_listener() {
    let mut s = ServerState::Ready;
    serving_ended(&mut s);
    assert_eq!(s, ServerState::Stopped);
    let _ = bind_finished(&mut s, true);
    assert_eq!(s, ServerState::Stopped);
}

#[test]
fn loop_actions() {
    assert_eq!(next_action(false, Poll::Request), LoopAction::Serve);
    assert_eq!(next_action(false, Poll::Idle), LoopAction::Sleep);
    assert_eq!(next_action(false, Poll::Failed), LoopAction::Stop);
    assert_eq!(next_action(true, Poll::Request), LoopAction::Stop);
}
