//! Providers a model preset is published by.
//!
//! A provider is metadata: a key, a display name, and where it says it is
//! served from. It is owned by a user, or by the system where it has no owner.
use vstd::prelude::*;
use crate::text::{copy_opt, opt};

verus! {

/// One provider as stored.
#[derive(Debug)]
pub struct ModelProviderRow {
    pub id: u128,
    pub user_id: Option<u128>,
    /// The publisher's key.
    pub provider_id: String,
    pub name: String,
    pub website: Option<String>,
    pub api_base_url: Option<String>,
    pub created_at: i64,
}

/// One provider as it is written. `user_id` is `None` for a system provider.
#[derive(Debug)]
pub struct NewModelProvider {
    pub id: u128,
    pub user_id: Option<u128>,
    pub provider_id: String,
    pub name: String,
    pub website: Option<String>,
    pub api_base_url: Option<String>,
}

/// The fields that may change on a user's provider. The provider key is its
/// identity and is not editable.
#[derive(Debug)]
pub struct UpdateModelProvider {
    pub name: Option<String>,
    pub website: Option<Option<String>>,
    pub api_base_url: Option<Option<String>>,
}

/// A provider as the directory publishes it.
#[derive(Debug)]
pub struct Provider {
    pub id: String,
    pub name: String,
    pub website: Option<String>,
    pub api_base_url: Option<String>,
}

impl NewModelProvider {
    /// Whether this is the system's row for a published provider.
    pub open spec fn publishes(&self, id: u128, provider: Provider) -> bool {
        &&& self.id == id
        &&& self.user_id is None
        &&& self.provider_id@ == provider.id@
        &&& self.name@ == provider.name@
        &&& opt(self.website) == opt(provider.website)
        &&& opt(self.api_base_url) == opt(provider.api_base_url)
    }
}

/// The system's rows for the published providers, under the given ids.
pub fn system_providers(providers: &Vec<Provider>, ids: &Vec<u128>) -> (r: Vec<NewModelProvider>)
    requires
        ids@.len() >= providers@.len(),
    ensures
        r@.len() == providers@.len(),
        forall|i: int|
            0 <= i < r@.len() ==> (#[trigger] r@[i]).publishes(ids@[i], providers@[i]),
{
    let mut rows: Vec<NewModelProvider> = Vec::new();
    let mut i: usize = 0;
    while i < providers.len()
        invariant
            i <= providers@.len() <= ids@.len(),
            rows@.len() == i,
            forall|k: int|
                0 <= k < i ==> (#[trigger] rows@[k]).publishes(ids@[k], providers@[k]),
        decreases providers@.len() - i,
    {
        let provider = &providers[i];
        rows.push(
            NewModelProvider {
                id: ids[i],
                user_id: None,
                provider_id: provider.id.clone(),
                name: provider.name.clone(),
                website: copy_opt(&provider.website),
                api_base_url: copy_opt(&provider.api_base_url),
            },
        );
        i += 1;
    }
    rows
}

/// A published provider is written as the system's, with what is published of
/// it, each in its column.
pub proof fn a_provider_is_written_as_published(row: NewModelProvider, id: u128, provider: Provider)
    requires
        row.publishes(id, provider),
    ensures
        row.id == id,
        row.user_id is None,
        row.provider_id@ == provider.id@,
        row.name@ == provider.name@,
        opt(row.website) == opt(provider.website),
        opt(row.api_base_url) == opt(provider.api_base_url),
{
}

} // verus!
