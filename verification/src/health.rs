//! The answers of the service's health check, given what the probe of the
//! embedding service found.
use vstd::prelude::*;
use crate::api_client::is_success;

verus! {

broadcast use vstd::string::group_string_axioms;

/// What probing the embedding service found.
#[derive(Debug)]
pub enum HealthProbe {
    /// The service answered with `status`; `status_text` is how the status
    /// reads (code and reason).
    Responded { status: u16, status_text: String },
    /// The service could not be reached.
    Unreachable { error: String },
}

/// The answer of the health check: an HTTP status and a body.
pub open spec fn health_answer(probe: HealthProbe) -> (u16, Seq<char>) {
    match probe {
        HealthProbe::Responded { status, status_text } => if is_success(status) {
            (200, "Embedding service is healthy"@)
        } else {
            (500, "Embedding service error: Status "@ + status_text@)
        },
        HealthProbe::Unreachable { error } => (500, "Failed to connect to embedding service: "@
            + error@),
    }
}

/// The health check's answer for `probe`.
pub fn health_reply(probe: HealthProbe) -> (r: (u16, String))
    ensures
        (r.0, r.1@) == health_answer(probe),
{
    match probe {
        HealthProbe::Responded { status, status_text } => if 200 <= status && status <= 299 {
            (200, "Embedding service is healthy".to_owned())
        } else {
            let mut body = "Embedding service error: Status ".to_owned();
            body.append(status_text.as_str());
            (500, body)
        },
        HealthProbe::Unreachable { error } => {
            let mut body = "Failed to connect to embedding service: ".to_owned();
            body.append(error.as_str());
            (500, body)
        },
    }
}

/// The health check reports healthy (200) exactly when the embedding service
/// answered with a status from 200 to 299; any other answer, 4xx included,
/// gives 500 with the status, and an unreachable service gives 500 with the
/// error.
pub proof fn lemma_health_answers(status: u16, status_text: String, error: String)
    ensures
        health_answer(HealthProbe::Responded { status, status_text }).0 == 200 <==> 200 <= status
            <= 299,
        200 <= status <= 299 ==> health_answer(HealthProbe::Responded { status, status_text }).1
            == "Embedding service is healthy"@,
        !(200 <= status <= 299) ==> health_answer(HealthProbe::Responded { status, status_text })
            == (500u16, "Embedding service error: Status "@ + status_text@),
        health_answer(HealthProbe::Unreachable { error }) == (
            500u16,
            "Failed to connect to embedding service: "@ + error@,
        ),
{
}

}
