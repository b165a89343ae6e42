//! The steps of signing in with the music service.
//!
//! A visitor starts unknown, asks for authorization by an explicit click,
//! and holds a token once the service has exchanged the returned code for
//! one. What to do at each step is decided here; sending the visitor
//! somewhere and talking to the service is the caller's part.

use vstd::prelude::*;

verus! {

/// Where signing in stands, with what each step holds: the verifier of an
/// authorization that was asked for, or the token that was granted.
#[derive(Clone, Debug, PartialEq, Eq)]
pub enum OAuthFlow<T> {
    FirstVisit,
    RequestedUserAuthorization { verifier: String },
    GotToken { token: T },
}

/// Where signing in stands, without what the step holds.
#[derive(Clone, Copy, Debug, PartialEq, Eq, Structural)]
pub enum OAuthFlowState {
    FirstVisit,
    RequestedUserAuthorization,
    GotToken,
}

/// A page to send the visitor to.
#[derive(Clone, Copy, Debug, PartialEq, Eq, Structural)]
pub enum Route {
    /// The list of playlists, at `/`.
    Home,
    /// The page with the button that starts signing in, at `/login`.
    Login,
}

/// What the page that the service sends the visitor back to does first.
#[derive(Clone, Copy, Debug, PartialEq, Eq, Structural)]
pub enum CallbackStep {
    /// Exchange the returned code for a token.
    ExchangeCode,
    /// Send the visitor away without asking the service.
    GoTo(Route),
}

/// How to come by the client for the service.
#[derive(Clone, Copy, Debug, PartialEq, Eq, Structural)]
pub enum ClientPlan {
    /// Make a client with no verifier and no token.
    Fresh,
    /// Keep the client there is: it holds the verifier already.
    KeepCurrent,
    /// Make a client and give it the verifier of the flow.
    FreshWithVerifier,
    /// Make a client from the token of the flow.
    FromToken,
}

impl<T> OAuthFlow<T> {
    /// The step at which the flow stands.
    pub open spec fn state_of(self) -> OAuthFlowState {
        match self {
            OAuthFlow::FirstVisit => OAuthFlowState::FirstVisit,
            OAuthFlow::RequestedUserAuthorization { .. } => OAuthFlowState::RequestedUserAuthorization,
            OAuthFlow::GotToken { .. } => OAuthFlowState::GotToken,
        }
    }

    /// The step at which the flow stands.
    pub fn state(&self) -> (state: OAuthFlowState)
        ensures
            state == self.state_of(),
    {
        match self {
            OAuthFlow::FirstVisit => OAuthFlowState::FirstVisit,
            OAuthFlow::RequestedUserAuthorization { .. } => OAuthFlowState::RequestedUserAuthorization,
            OAuthFlow::GotToken { .. } => OAuthFlowState::GotToken,
        }
    }

    /// The flow after the visitor clicked to sign in and an authorization
    /// with `verifier` was asked for.
    pub fn login_clicked(verifier: String) -> (flow: OAuthFlow<T>)
        ensures
            flow matches OAuthFlow::RequestedUserAuthorization { verifier: v } && v@ == verifier@,
    {
        OAuthFlow::RequestedUserAuthorization { verifier }
    }

    /// How to come by the client, given the verifier that the client there
    /// is holds, if there is a client and it holds one.
    pub fn client_plan(&self, current_verifier: &Option<String>) -> (plan: ClientPlan)
        ensures
            plan == match *self {
                OAuthFlow::FirstVisit => ClientPlan::Fresh,
                OAuthFlow::RequestedUserAuthorization { verifier } => if current_verifier matches Some(
                    held,
                ) && held@ == verifier@ {
                    ClientPlan::KeepCurrent
                } else {
                    ClientPlan::FreshWithVerifier
                },
                OAuthFlow::GotToken { .. } => ClientPlan::FromToken,
            },
    {
        match self {
            OAuthFlow::FirstVisit => ClientPlan::Fresh,
            OAuthFlow::RequestedUserAuthorization { verifier } => {
                let same = match current_verifier {
                    Some(held) => *held == *verifier,
                    None => false,
                };
                if same {
                    ClientPlan::KeepCurrent
                } else {
                    ClientPlan::FreshWithVerifier
                }
            },
            OAuthFlow::GotToken { .. } => ClientPlan::FromToken,
        }
    }
}

/// Where the pages behind the sign-in send a visitor: to the sign-in page
/// as long as there is no token, and nowhere once there is one.
pub fn guard_route(state: OAuthFlowState) -> (route: Option<Route>)
    ensures
        route == if state == OAuthFlowState::GotToken {
            None::<Route>
        } else {
            Some(Route::Login)
        },
{
    match state {
        OAuthFlowState::FirstVisit => Some(Route::Login),
        OAuthFlowState::RequestedUserAuthorization => Some(Route::Login),
        OAuthFlowState::GotToken => None,
    }
}

/// What the callback page does first: it exchanges the code only where an
/// authorization was asked for, and sends every other visitor to the
/// sign-in page.
pub fn callback_start(state: OAuthFlowState) -> (step: CallbackStep)
    ensures
        step == if state == OAuthFlowState::RequestedUserAuthorization {
            CallbackStep::ExchangeCode
        } else {
            CallbackStep::GoTo(Route::Login)
        },
{
    match state {
        OAuthFlowState::RequestedUserAuthorization => CallbackStep::ExchangeCode,
        OAuthFlowState::FirstVisit => CallbackStep::GoTo(Route::Login),
        OAuthFlowState::GotToken => CallbackStep::GoTo(Route::Login),
    }
}

/// What the callback page does once the exchange has ended: with a token
/// the flow holds it and the visitor goes home; without one the flow stays
/// as it is and the visitor goes back to the sign-in page.
pub fn callback_finish<T>(token: Option<T>) -> (outcome: (Option<OAuthFlow<T>>, Route))
    ensures
        token matches Some(t) ==> outcome.0 == Some(OAuthFlow::GotToken { token: t }) && outcome.1
            == Route::Home,
        token is None ==> outcome.0 is None && outcome.1 == Route::Login,
{
    match token {
        Some(token) => (Some(OAuthFlow::GotToken { token }), Route::Home),
        None => (None, Route::Login),
    }
}

/// The path of a page.
pub fn route_path(route: Route) -> (path: &'static str)
    ensures
        path@ == match route {
            Route::Home => "/"@,
            Route::Login => "/login"@,
        },
{
    match route {
        Route::Home => "/",
        Route::Login => "/login",
    }
}

} // verus!
