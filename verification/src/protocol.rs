//! The names that clients use: methods, streams and error codes.

use vstd::prelude::*;
use crate::text::{concat, same_text};

pub mod stream;

verus! {

pub const NAME: &'static str = "app-api";

pub const VERSION: u8 = 1;

/// All methods, in the order in which they are listed to clients.
pub fn methods() -> (list: Vec<&'static str>)
    ensures
        list@.len() == 7,
        list@[0]@ == "applications.query"@,
        list@[1]@ == "applications.revision"@,
        list@[2]@ == "applications.history"@,
        list@[3]@ == "applications.energyOverview"@,
        list@[4]@ == "applications.refresh"@,
        list@[5]@ == "applications.execute"@,
        list@[6]@ == "applications.settings.update"@,
{
    vec![
        "applications.query",
        "applications.revision",
        "applications.history",
        "applications.energyOverview",
        "applications.refresh",
        "applications.execute",
        "applications.settings.update",
    ]
}

/// All event streams, in the order in which they are listed to clients.
pub fn streams() -> (list: Vec<&'static str>)
    ensures
        list@.len() == 3,
        list@[0]@ == stream::APPLICATIONS@,
        list@[1]@ == stream::WINDOWS@,
        list@[2]@ == stream::OPERATION@,
{
    vec![stream::APPLICATIONS, stream::WINDOWS, stream::OPERATION]
}

/// What a client can call.
#[derive(Debug, Clone, Copy, PartialEq, Eq, Structural)]
pub enum Method {
    Query,
    History,
    EnergyOverview,
    Refresh,
    Execute,
    UpdateSettings,
}

impl Method {
    pub open spec fn text(self) -> Seq<char> {
        match self {
            Method::Query => "applications.query"@,
            Method::History => "applications.history"@,
            Method::EnergyOverview => "applications.energyOverview"@,
            Method::Refresh => "applications.refresh"@,
            Method::Execute => "applications.execute"@,
            Method::UpdateSettings => "applications.settings.update"@,
        }
    }
}

/// Different methods have different names.
pub proof fn lemma_method_names(a: Method, b: Method)
    requires
        a.text() == b.text(),
    ensures
        a == b,
{
    reveal_strlit("applications.query");
    reveal_strlit("applications.history");
    reveal_strlit("applications.energyOverview");
    reveal_strlit("applications.refresh");
    reveal_strlit("applications.execute");
    reveal_strlit("applications.settings.update");
    assert("applications.query"@.len() == 18 && "applications.history"@.len() == 20
        && "applications.energyOverview"@.len() == 27 && "applications.refresh"@.len() == 20
        && "applications.execute"@.len() == 20 && "applications.settings.update"@.len() == 28);
    assert("applications.history"@[13] == 'h' && "applications.refresh"@[13] == 'r'
        && "applications.execute"@[13] == 'e');
}

/// An answer that says why there is no other.
#[derive(Debug)]
pub struct ApiError {
    pub code: &'static str,
    pub message: String,
}

impl ApiError {
    pub open spec fn is(self, code: Seq<char>, message: Seq<char>) -> bool {
        self.code@ == code && self.message@ == message
    }
}

/// The method that a client calls.
pub fn route(name: &str) -> (method: Result<Method, ApiError>)
    ensures
        match method {
            Ok(m) => m.text() == name@,
            Err(e) => (forall|m: Method| #[trigger] m.text() != name@) && e.is(
                "unsupported-method"@,
                "Unsupported app-api method: "@ + name@,
            ),
        },
{
    if same_text(name, "applications.query") {
        Ok(Method::Query)
    } else if same_text(name, "applications.history") {
        Ok(Method::History)
    } else if same_text(name, "applications.energyOverview") {
        Ok(Method::EnergyOverview)
    } else if same_text(name, "applications.refresh") {
        Ok(Method::Refresh)
    } else if same_text(name, "applications.execute") {
        Ok(Method::Execute)
    } else if same_text(name, "applications.settings.update") {
        Ok(Method::UpdateSettings)
    } else {
        Err(
            ApiError {
                code: "unsupported-method",
                message: concat("Unsupported app-api method: ", name),
            },
        )
    }
}

/// A request that cannot be understood or that asks for what cannot be.
pub fn validation_error(message: String) -> (error: ApiError)
    ensures
        error.is("validation-error"@, message@),
{
    ApiError { code: "validation-error", message }
}

/// Parameters that are no JSON.
pub fn invalid_params(fault: &str) -> (error: ApiError)
    ensures
        error.is("validation-error"@, "invalid params JSON: "@ + fault@),
{
    ApiError { code: "validation-error", message: concat("invalid params JSON: ", fault) }
}

/// An operation that was refused.
pub fn operation_failed(message: String) -> (error: ApiError)
    ensures
        error.is("operation-failed"@, message@),
{
    ApiError { code: "operation-failed", message }
}

pub fn unsupported_stream(name: &str) -> (error: ApiError)
    ensures
        error.is("unsupported-stream"@, "Unsupported app-api stream: "@ + name@),
{
    ApiError { code: "unsupported-stream", message: concat("Unsupported app-api stream: ", name) }
}

pub fn request_not_found(id: &str) -> (error: ApiError)
    ensures
        error.is("request-not-found"@, "No active request named "@ + id@),
{
    ApiError { code: "request-not-found", message: concat("No active request named ", id) }
}

pub fn daemon_unavailable() -> (error: ApiError)
    ensures
        error.is("daemon-unavailable"@, "app-daemon session service is unavailable"@),
{
    ApiError {
        code: "daemon-unavailable",
        message: "app-daemon session service is unavailable".to_owned(),
    }
}

} // verus!
