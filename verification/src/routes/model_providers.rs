//! Per-user providers.
//!
//! A caller sees their own providers and the system's, and may change only
//! their own.
use vstd::prelude::*;
use crate::error::{bad_request, refusal, AppError, ErrorModel};
use crate::models::model_provider::{ModelProviderRow, NewModelProvider, UpdateModelProvider};
use crate::text::{change, copy_opt, join3, opt, trim, trim_opt, trimmed, trimmed_opt};

verus! {

/// A provider as the client sees it. `provider_id` is the row handle that
/// changes address; `id` is the publisher's key.
#[derive(Debug)]
pub struct ProviderResponse {
    pub provider_id: u128,
    pub id: String,
    pub name: String,
    pub website: Option<String>,
    pub api_base_url: Option<String>,
    pub model_count: usize,
    /// Whether this provider belongs to the caller, as opposed to the system.
    pub owned: bool,
    pub created_at: i64,
}

impl ProviderResponse {
    /// Whether this shows `row` to `owner`.
    pub open spec fn shows(&self, row: ModelProviderRow, owner: u128, model_count: usize) -> bool {
        &&& self.provider_id == row.id
        &&& self.id@ == row.provider_id@
        &&& self.name@ == row.name@
        &&& opt(self.website) == opt(row.website)
        &&& opt(self.api_base_url) == opt(row.api_base_url)
        &&& self.model_count == model_count
        &&& self.owned == (row.user_id == Some(owner))
        &&& self.created_at == row.created_at
    }
}

pub fn provider_response(row: &ModelProviderRow, owner: u128, model_count: usize) -> (r:
    ProviderResponse)
    ensures
        r.shows(*row, owner, model_count),
{
    let owned = match row.user_id {
        Some(id) => id == owner,
        None => false,
    };
    ProviderResponse {
        provider_id: row.id,
        id: row.provider_id.clone(),
        name: row.name.clone(),
        website: copy_opt(&row.website),
        api_base_url: copy_opt(&row.api_base_url),
        model_count,
        owned,
        created_at: row.created_at,
    }
}

/// How many presets were counted for a provider: the last count of its row,
/// or none.
pub open spec fn count_for(counts: Seq<(u128, usize)>, id: u128) -> usize
    decreases counts.len(),
{
    if counts.len() == 0 {
        0
    } else if counts.last().0 == id {
        counts.last().1
    } else {
        count_for(counts.drop_last(), id)
    }
}

fn find_count(counts: &Vec<(u128, usize)>, id: u128) -> (r: usize)
    ensures
        r == count_for(counts@, id),
{
    let mut i: usize = counts.len();
    assert(counts@.take(i as int) =~= counts@);
    while i > 0
        invariant
            i <= counts@.len(),
            count_for(counts@, id) == count_for(counts@.take(i as int), id),
        decreases i,
    {
        assert(counts@.take(i as int).drop_last() =~= counts@.take(i - 1));
        i -= 1;
        if counts[i].0 == id {
            return counts[i].1;
        }
    }
    0
}

/// The caller's own providers plus the system's, with how many visible presets
/// each one publishes.
pub fn list(rows: &Vec<ModelProviderRow>, counts: &Vec<(u128, usize)>, owner: u128) -> (r: Vec<
    ProviderResponse,
>)
    ensures
        r@.len() == rows@.len(),
        forall|i: int|
            0 <= i < r@.len() ==> (#[trigger] r@[i]).shows(
                rows@[i],
                owner,
                count_for(counts@, rows@[i].id),
            ),
{
    let mut responses: Vec<ProviderResponse> = Vec::new();
    let mut i: usize = 0;
    while i < rows.len()
        invariant
            i <= rows@.len(),
            responses@.len() == i,
            forall|k: int|
                0 <= k < i ==> (#[trigger] responses@[k]).shows(
                    rows@[k],
                    owner,
                    count_for(counts@, rows@[k].id),
                ),
        decreases rows@.len() - i,
    {
        let count: usize = find_count(counts, rows[i].id);
        responses.push(provider_response(&rows[i], owner, count));
        i += 1;
    }
    responses
}

#[derive(Debug)]
pub struct CreateRequest {
    /// The publisher's key.
    pub id: String,
    pub name: String,
    pub website: Option<String>,
    pub api_base_url: Option<String>,
}

/// The provider to store.
pub fn create(input: CreateRequest, id: u128, owner: u128) -> (r: Result<
    NewModelProvider,
    AppError,
>)
    ensures
        refusal(r) == if trimmed(input.id@).len() == 0 {
            Some(ErrorModel::BadRequest("id is required"@))
        } else if trimmed(input.name@).len() == 0 {
            Some(ErrorModel::BadRequest("name is required"@))
        } else {
            None
        },
        r matches Ok(row) ==> {
            &&& row.id == id
            &&& row.user_id == Some(owner)
            &&& row.provider_id@ == trimmed(input.id@)
            &&& row.name@ == trimmed(input.name@)
            &&& opt(row.website) == opt(input.website)
            &&& opt(row.api_base_url) == opt(input.api_base_url)
        },
{
    let key = trim(input.id.as_str()).to_owned();
    if key.as_str().is_empty() {
        return Err(bad_request("id is required"));
    }
    let name = trim(input.name.as_str()).to_owned();
    if name.as_str().is_empty() {
        return Err(bad_request("name is required"));
    }
    Ok(
        NewModelProvider {
            id,
            user_id: Some(owner),
            provider_id: key,
            name,
            website: input.website,
            api_base_url: input.api_base_url,
        },
    )
}

#[derive(Debug)]
pub struct UpdateRequest {
    pub name: Option<String>,
    pub website: Option<Option<String>>,
    pub api_base_url: Option<Option<String>>,
}

/// The change to store.
pub fn update(input: UpdateRequest) -> (r: Result<UpdateModelProvider, AppError>)
    ensures
        refusal(r) == match trimmed_opt(opt(input.name)) {
            Some(name) => if name.len() == 0 {
                Some(ErrorModel::BadRequest("name cannot be empty"@))
            } else {
                None
            },
            None => None,
        },
        r matches Ok(patch) ==> {
            &&& opt(patch.name) == trimmed_opt(opt(input.name))
            &&& change(patch.website) == change(input.website)
            &&& change(patch.api_base_url) == change(input.api_base_url)
        },
{
    let name = trim_opt(&input.name);
    if let Some(text) = &name {
        if text.as_str().is_empty() {
            return Err(bad_request("name cannot be empty"));
        }
    }
    Ok(UpdateModelProvider { name, website: input.website, api_base_url: input.api_base_url })
}

/// What a key that is taken is answered with.
pub fn taken(key: &str) -> (r: AppError)
    ensures
        r@ == ErrorModel::BadRequest("a provider named '"@ + key@ + "' already exists"@),
{
    AppError::BadRequest(join3("a provider named '", key, "' already exists"))
}

/// A provider's count is the last one given for its row, whatever was counted
/// for others, and none where none was given.
pub proof fn a_provider_has_its_own_count(
    before: Seq<(u128, usize)>,
    id: u128,
    count: usize,
    after: Seq<(u128, usize)>,
)
    requires
        forall|i: int| 0 <= i < after.len() ==> (#[trigger] after[i]).0 != id,
    ensures
        count_for(before + seq![(id, count)] + after, id) == count,
        count_for(after, id) == 0,
    decreases after.len(),
{
    let counts = before + seq![(id, count)] + after;
    if after.len() == 0 {
        assert(counts.last() == (id, count));
    } else {
        let fewer = after.drop_last();
        assert forall|i: int| 0 <= i < fewer.len() implies (#[trigger] fewer[i]).0 != id by {
            assert(after[i].0 != id);
        }
        a_provider_has_its_own_count(before, id, count, fewer);
        assert(counts.last() == after.last());
        assert(after[after.len() - 1].0 != id);
        assert(counts.drop_last() =~= before + seq![(id, count)] + fewer);
    }
}

/// A provider is shown under its publisher's key and its row's handle, each in
/// its place, and as the caller's own just where it is.
pub proof fn a_provider_is_shown_as_it_is(
    response: ProviderResponse,
    row: ModelProviderRow,
    owner: u128,
    model_count: usize,
)
    requires
        response.shows(row, owner, model_count),
    ensures
        response.provider_id == row.id,
        response.id@ == row.provider_id@,
        response.name@ == row.name@,
        opt(response.website) == opt(row.website),
        opt(response.api_base_url) == opt(row.api_base_url),
        response.model_count == model_count,
        row.user_id == Some(owner) ==> response.owned,
        row.user_id is None ==> !response.owned,
        row.user_id matches Some(other) ==> (other != owner ==> !response.owned),
        response.created_at == row.created_at,
{
}

} // verus!
