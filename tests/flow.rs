use loopback_oauth::flow::{
    abort_flow, build_auth_url, start_failure, finish_flow, readiness_step, redirect_uri, FlowError, GoogleOAuthConfig,
    ReadyStep, WaitOutcome,
};
use loopback_oauth::listener::{ServerState, StartError};
use loopback_oauth::registry::{register_oauth_provider, ProviderRegistry};
use tokio::sync::oneshot;

fn registered() -> (ProviderRegistry, oneshot::Receiver<String>) {
    let mut reg = ProviderRegistry::new();
    let (tx, rx) = oneshot::channel::<String>();
    register_oauth_provider(&mut reg, "google".to_string(), "/callback".to_string(), tx, "p".to_string());
    (reg, rx)
}

#[test]
fn timeout_without_redirect_is_cancelled_and_cleans_up() {
    let (mut reg, _rx) = registered();
    let end = finish_flow(&mut reg, "google", "/callback", WaitOutcome::TimedOut, false);
    assert!(matches!(end.result, Err(FlowError::Cancelled)));
    assert!(end.close_view);
    assert_eq!(reg.pending_count(), 0);
    assert!(reg.match_path("/callback?x=1").is_none());
}

#[test]
fn timeout_after_user_closed_view_leaves_view_alone() {
    let (mut reg, _rx) = registered();
    let end = finish_flow(&mut reg, "google", "/callback", WaitOutcome::TimedOut, true);
    assert!(matches!(end.result, Err(FlowError::Cancelled)));
    assert!(!end.close_view);
    assert_eq!(reg.pending_count(), 0);
}

#[test]
fn received_credential_is_the_result() {
    let (mut reg, _rx) = registered();
    let end = finish_flow(&mut reg, "google", "/callback", WaitOutcome::Received("tok".to_string()), false);
    assert_eq!(end.result.unwrap().access_token, "tok");
    assert!(end.close_view);
    assert_eq!(reg.pending_count(), 0);
    assert!(reg.match_path("/callback").is_none());
}

#[test]
fn abandoned_cell_is_cancelled() {
    let (mut reg, _rx) = registered();
    let end = finish_flow(&mut reg, "google", "/callback", WaitOutcome::Abandoned, false);
    assert!(matches!(end.result, Err(FlowError::Cancelled)));
    assert!(end.close_view);
    assert_eq!(reg.pending_count(), 0);
}

#[test]
fn aborted_flow_is_unregistered() {
    let (mut reg, _rx) = registered();
    assert_eq!(abort_flow(&mut reg, "google", "/callback", FlowError::InvalidRequest), FlowError::InvalidRequest);
    assert_eq!(reg.pending_count(), 0);
    assert!(reg.match_path("/callback").is_none());
}

#[test]
fn error_messages() {
    assert_eq!(FlowError::Cancelled.message(), "Authentication cancelled");
    assert_eq!(FlowError::ServerUnavailable.message(), "Shared OAuth server failed to start. Please try again.");
    assert_eq!(FlowError::InvalidRequest.message(), "Invalid authorization URL");
}

#[test]
fn auth_url_percent_encodes_its_parts() {
    let config = GoogleOAuthConfig {
        client_id: "id 1&x".to_string(),
        scope: "https://www.googleapis.com/auth/gmail.readonly email".to_string(),
        auth_url: "https://accounts.google.com/o/oauth2/v2/auth".to_string(),
    };
    assert_eq!(
        build_auth_url(&config, "/callback", "google-1"),
        "https://accounts.google.com/o/oauth2/v2/auth?client_id=id%201%26x&redirect_uri=http%3A%2F%2Flocalhost%3A8080%2Fcallback&response_type=token&scope=https%3A%2F%2Fwww.googleapis.com%2Fauth%2Fgmail.readonly%20email&state=google-1"
    );
    assert!(build_auth_url(&config, "/callback", "a b&c").ends_with("&state=a%20b%26c"));
}

#[test]
fn redirect_uri_uses_listener_port() {
    assert_eq!(redirect_uri("/callback"), "http://localhost:8080/callback");
}

#[test]
fn readiness_poll_decisions() {
    assert_eq!(readiness_step(1, ServerState::Ready), ReadyStep::Proceed);
    assert_eq!(readiness_step(1, ServerState::Starting), ReadyStep::Wait);
    assert_eq!(readiness_step(49, ServerState::Starting), ReadyStep::Wait);
    assert_eq!(readiness_step(50, ServerState::Starting), ReadyStep::GiveUp);
    assert_eq!(readiness_step(50, ServerState::Ready), ReadyStep::Proceed);
    assert_eq!(readiness_step(1, ServerState::Stopped), ReadyStep::GiveUp);
}

#[test]
fn google_config_uses_google_endpoint() {
    let c = GoogleOAuthConfig::google("cid".to_string(), "email".to_string());
    assert_eq!(c.auth_url, "https://accounts.google.com/o/oauth2/v2/auth");
    assert_eq!(build_auth_url(&c, "/callback", "s1"),
        "https://accounts.google.com/o/oauth2/v2/auth?client_id=cid&redirect_uri=http%3A%2F%2Flocalhost%3A8080%2Fcallback&response_type=token&scope=email&state=s1");
}

#[test]
fn failed_start_is_server_unavailable() {
    assert_eq!(start_failure(StartError::BindFailed), FlowError::ServerUnavailable);
}
