//! The environment variables that the bot needs.
use vstd::prelude::*;

verus! {

/// The names of the variables that must be set, in the order they are checked.
pub open spec fn required_env_var_names() -> Seq<Seq<char>> {
    seq![
        "APP_ADDRESS"@,
        "APP_PORT"@,
        "APP_BASE_ROUTE"@,
        "SLACK_TOKEN"@,
        "SLACK_API_APP_ID"@,
        "REDIS_HOSTNAME"@,
        "REDIS_PASSWORD"@,
        "REDIS_URI_SCHEME"@,
    ]
}

/// The names of the variables that must be set.
pub fn env_var_names() -> (r: Vec<&'static str>)
    ensures
        r@.map_values(|s: &str| s@) == required_env_var_names(),
{
    let mut r: Vec<&'static str> = Vec::new();
    r.push("APP_ADDRESS");
    r.push("APP_PORT");
    r.push("APP_BASE_ROUTE");
    r.push("SLACK_TOKEN");
    r.push("SLACK_API_APP_ID");
    r.push("REDIS_HOSTNAME");
    r.push("REDIS_PASSWORD");
    r.push("REDIS_URI_SCHEME");
    assert(r@.map_values(|s: &str| s@) =~= required_env_var_names());
    r
}

/// The position of the first variable that is not set, if any.
pub fn first_unset_env_var(is_set: &Vec<bool>) -> (r: Option<usize>)
    ensures
        match r {
            Some(i) => i < is_set@.len() && !is_set@[i as int] && forall|j: int| 0 <= j < i ==> is_set@[j],
            None => forall|j: int| 0 <= j < is_set@.len() ==> is_set@[j],
        },
{
    let mut i: usize = 0;
    while i < is_set.len()
        invariant
            i <= is_set@.len(),
            forall|j: int| 0 <= j < i ==> is_set@[j],
        decreases is_set@.len() - i,
    {
        if !is_set[i] {
            return Some(i);
        }
        i += 1;
    }
    None
}

} // verus!
