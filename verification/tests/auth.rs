use collab_playlist::auth::{
    callback_finish, callback_start, guard_route, route_path, CallbackStep, ClientPlan, OAuthFlow,
    OAuthFlowState, Route,
};
use collab_playlist::gate::RequestGate;

#[test]
fn flow_knows_its_step() {
    let first: OAuthFlow<u32> = OAuthFlow::FirstVisit;
    assert_eq!(first.state(), OAuthFlowState::FirstVisit);
    let asked: OAuthFlow<u32> = OAuthFlow::login_clicked("v".to_string());
    assert_eq!(asked, OAuthFlow::RequestedUserAuthorization { verifier: "v".to_string() });
    assert_eq!(asked.state(), OAuthFlowState::RequestedUserAuthorization);
    assert_eq!(OAuthFlow::GotToken { token: 7u32 }.state(), OAuthFlowState::GotToken);
}

#[test]
fn visitor_without_token_is_sent_to_login() {
    assert_eq!(guard_route(OAuthFlowState::FirstVisit), Some(Route::Login));
    assert_eq!(guard_route(OAuthFlowState::RequestedUserAuthorization), Some(Route::Login));
    assert_eq!(guard_route(OAuthFlowState::GotToken), None);
}

#[test]
fn callback_exchanges_only_after_a_request() {
    assert_eq!(callback_start(OAuthFlowState::RequestedUserAuthorization), CallbackStep::ExchangeCode);
    assert_eq!(callback_start(OAuthFlowState::FirstVisit), CallbackStep::GoTo(Route::Login));
    assert_eq!(callback_start(OAuthFlowState::GotToken), CallbackStep::GoTo(Route::Login));
}

#[test]
fn callback_ends_at_home_with_a_token_and_at_login_without() {
    assert_eq!(callback_finish(Some(9u32)), (Some(OAuthFlow::GotToken { token: 9u32 }), Route::Home));
    assert_eq!(callback_finish::<u32>(None), (None, Route::Login));
}

#[test]
fn routes_have_their_paths() {
    assert_eq!(route_path(Route::Home), "/");
    assert_eq!(route_path(Route::Login), "/login");
}

#[test]
fn client_is_kept_only_where_it_holds_the_verifier() {
    let first: OAuthFlow<u32> = OAuthFlow::FirstVisit;
    assert_eq!(first.client_plan(&None), ClientPlan::Fresh);
    assert_eq!(first.client_plan(&Some("v".to_string())), ClientPlan::Fresh);
    let asked: OAuthFlow<u32> = OAuthFlow::RequestedUserAuthorization { verifier: "v".to_string() };
    assert_eq!(asked.client_plan(&Some("v".to_string())), ClientPlan::KeepCurrent);
    assert_eq!(asked.client_plan(&Some("w".to_string())), ClientPlan::FreshWithVerifier);
    assert_eq!(asked.client_plan(&None), ClientPlan::FreshWithVerifier);
    let granted = OAuthFlow::GotToken { token: 1u32 };
    assert_eq!(granted.client_plan(&Some("v".to_string())), ClientPlan::FromToken);
}

#[test]
fn only_the_latest_fetch_may_publish() {
    let mut gate = RequestGate::new();
    assert!(gate.is_current(0));
    let first = gate.issue().unwrap();
    assert_eq!(first, 1);
    assert!(gate.is_current(first));
    let second = gate.issue().unwrap();
    assert_eq!(second, 2);
    assert!(!gate.is_current(first));
    assert!(gate.is_current(second));
    assert_eq!(gate.publish(first, "stale"), None);
    assert_eq!(gate.publish(second, "fresh"), Some("fresh"));
}

#[test]
fn gate_runs_out_of_tickets_at_the_end_of_the_counter() {
    let mut gate = RequestGate::resume(u64::MAX - 1);
    assert_eq!(gate.issue(), Some(u64::MAX));
    assert_eq!(gate.issue(), None);
    assert!(gate.is_current(u64::MAX));
    assert_eq!(gate.publish(u64::MAX - 1, 1u8), None);
    assert_eq!(gate.publish(u64::MAX, 2u8), Some(2u8));
}
