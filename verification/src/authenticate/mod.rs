//! Checking that a request comes from the configured Slack app.
use vstd::prelude::*;

verus! {

/// Accepts the request when both its token and its app id are the expected
/// ones; otherwise refuses it with "Invalid token or app_id".
pub fn check_credentials(token: &str, api_app_id: &str, expected_token: &str, expected_app_id: &str) -> (r:
    Result<(), String>)
    ensures
        r is Ok <==> (token@ == expected_token@ && api_app_id@ == expected_app_id@),
        r matches Err(e) ==> e@ == "Invalid token or app_id"@,
{
    let a = String::from_str(token);
    let b = String::from_str(expected_token);
    let c = String::from_str(api_app_id);
    let d = String::from_str(expected_app_id);
    if a != b || c != d {
        return Err("Invalid token or app_id".to_string());
    }
    Ok(())
}

} // verus!
