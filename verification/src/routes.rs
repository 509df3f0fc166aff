//! What requests ask for, and how they are answered.
use vstd::prelude::*;
use crate::encoding::{hyphenated, uuid_text};
use crate::json::{member_models, object_of, Json, JsonModel};
use crate::text::join3;

pub mod environments;
pub mod hosts;
pub mod images;
pub mod model_presets;
pub mod model_providers;
pub mod models;
pub mod runs;
pub mod sessions;

verus! {

/// How many rows a collection returns when the request does not say.
pub const DEFAULT_LIMIT: i64 = 100;

/// How many rows a collection returns at most.
pub const MAX_LIMIT: i64 = 500;

/// The number of rows a request gets.
pub open spec fn limit_for(requested: Option<i64>) -> i64 {
    match requested {
        None => DEFAULT_LIMIT,
        Some(n) => if n < 1 {
            1
        } else if n > MAX_LIMIT {
            MAX_LIMIT
        } else {
            n
        },
    }
}

/// The number of rows a request gets: what it asked for, within bounds.
pub fn clamp_limit(requested: Option<i64>) -> (r: i64)
    ensures
        r == limit_for(requested),
{
    match requested {
        None => DEFAULT_LIMIT,
        Some(n) => if n < 1 {
            1
        } else if n > MAX_LIMIT {
            MAX_LIMIT
        } else {
            n
        },
    }
}

/// No list is unbounded or empty by request, and a bounded limit stays what it
/// is.
pub proof fn limits_are_bounded(requested: Option<i64>)
    ensures
        1 <= limit_for(requested) <= MAX_LIMIT,
        limit_for(Some(limit_for(requested))) == limit_for(requested),
{
}

/// What a client is told of the service's configuration: whether hosts on this
/// machine may be registered, and nothing else.
pub fn config_response(allow_local_hosts: bool) -> (r: Json)
    ensures
        r@ == object_of(seq![("allow_local_hosts"@, JsonModel::Bool(allow_local_hosts))]),
{
    let members = vec![("allow_local_hosts".to_owned(), Json::Bool(allow_local_hosts))];
    assert(member_models(members@) =~= seq![
        ("allow_local_hosts"@, JsonModel::Bool(allow_local_hosts)),
    ]);
    Json::object(members)
}

/// Who the caller is here. What else is known of them lives with the identity
/// provider.
#[derive(Debug)]
pub struct MeResponse {
    pub id: String,
}

pub fn me_response(user_id: u128) -> (r: MeResponse)
    ensures
        r.id@ == hyphenated(user_id),
{
    MeResponse { id: uuid_text(user_id) }
}

/// The cookie that ends a session in the browser.
pub fn clear_cookie(domain: &str) -> (r: String)
    ensures
        r@ == "surge_session=; Domain="@ + domain@
            + "; Path=/; Max-Age=0; HttpOnly; Secure; SameSite=Lax"@,
{
    join3(
        "surge_session=; Domain=",
        domain,
        "; Path=/; Max-Age=0; HttpOnly; Secure; SameSite=Lax",
    )
}

/// A request gets as many rows as it asks for between 1 and 500, the nearer of
/// the two where it asks for something else, and 100 where it does not ask.
pub proof fn a_limit_is_what_was_asked_within_bounds(n: i64)
    ensures
        1 <= n <= 500 ==> limit_for(Some(n)) == n,
        n < 1 ==> limit_for(Some(n)) == 1,
        n > 500 ==> limit_for(Some(n)) == 500,
        limit_for(None) == 100,
{
}

} // verus!
