//! Refreshing the system's providers and presets from what the directory
//! publishes.
//!
//! A row the directory still publishes keeps its id across refreshes, which is
//! what lets a model point at a preset and keep pointing at it. A key the
//! directory stops publishing is left as it is, and so is every user's row.
use vstd::prelude::*;
use crate::json::JsonModel;
use crate::models::model_preset::{
    stored_limit, stored_modalities, Capabilities, ModelPresetRow, NewModelPreset, Preset, Pricing,
};
use crate::models::model_provider::{system_providers, ModelProviderRow, Provider};
use crate::text::{copy_opt, opt, same, texts};

verus! {

/// A row of either table: what it is found by, and what is written over when
/// the directory publishes it again.
pub struct Entry<K, B> {
    pub id: u128,
    pub user_id: Option<u128>,
    pub key: K,
    pub created_at: i64,
    pub body: B,
}

/// Where the system's row for a key stands.
pub open spec fn system_row<K, B>(rows: Seq<Entry<K, B>>, key: K) -> Option<int>
    decreases rows.len(),
{
    if rows.len() == 0 {
        None
    } else {
        match system_row(rows.drop_last(), key) {
            Some(at) => Some(at),
            None => if rows.last().user_id is None && rows.last().key == key {
                Some(rows.len() - 1)
            } else {
                None
            },
        }
    }
}

/// The rows after one of the system's is written: over the row that has its
/// key, which keeps its id and its age, else as a new one.
pub open spec fn upsert<K, B>(rows: Seq<Entry<K, B>>, new: Entry<K, B>) -> Seq<Entry<K, B>> {
    match system_row(rows, new.key) {
        Some(at) => rows.update(at, Entry { body: new.body, ..rows[at] }),
        None => rows.push(new),
    }
}

/// The rows after several of the system's are written, in order.
pub open spec fn upserts<K, B>(rows: Seq<Entry<K, B>>, new: Seq<Entry<K, B>>) -> Seq<Entry<K, B>>
    decreases new.len(),
{
    if new.len() == 0 {
        rows
    } else {
        upsert(upserts(rows, new.drop_last()), new.last())
    }
}

/// Whether no key has two of the system's rows.
pub open spec fn keyed<K, B>(rows: Seq<Entry<K, B>>) -> bool {
    forall|i: int, j: int|
        0 <= i < j < rows.len() && (#[trigger] rows[i]).user_id is None && (
        #[trigger] rows[j]).user_id is None ==> rows[i].key != rows[j].key
}

proof fn lemma_system_row<K, B>(rows: Seq<Entry<K, B>>, key: K)
    ensures
        match system_row(rows, key) {
            Some(at) => 0 <= at < rows.len() && rows[at].user_id is None && rows[at].key == key
                && forall|i: int|
                0 <= i < at ==> !((#[trigger] rows[i]).user_id is None && rows[i].key == key),
            None => forall|i: int|
                0 <= i < rows.len() ==> !((#[trigger] rows[i]).user_id is None && rows[i].key
                    == key),
        },
    decreases rows.len(),
{
    if rows.len() > 0 {
        let before = rows.drop_last();
        lemma_system_row(before, key);
        match system_row(before, key) {
            Some(at) => {
                assert(rows[at] == before[at]);
                assert forall|i: int| 0 <= i < at implies !((#[trigger] rows[i]).user_id is None
                    && rows[i].key == key) by {
                    assert(rows[i] == before[i]);
                }
            },
            None => {
                assert forall|i: int| 0 <= i < before.len() implies !((
                #[trigger] rows[i]).user_id is None && rows[i].key == key) by {
                    assert(rows[i] == before[i]);
                }
            },
        }
    }
}

/// The first of the system's rows with a key is where it is found.
proof fn lemma_found_at<K, B>(rows: Seq<Entry<K, B>>, key: K, at: int)
    requires
        0 <= at < rows.len(),
        rows[at].user_id is None,
        rows[at].key == key,
        forall|i: int|
            0 <= i < at ==> !((#[trigger] rows[i]).user_id is None && rows[i].key == key),
    ensures
        system_row(rows, key) == Some(at),
{
    lemma_system_row(rows, key);
    match system_row(rows, key) {
        Some(found) => {
            if found < at {
                let _ = rows[found];
            }
        },
        None => {
            let _ = rows[at];
        },
    }
}

/// A refresh takes no row away, and a row that was there keeps its id, its
/// owner, its key and its age.
pub proof fn a_refresh_keeps_every_id<K, B>(rows: Seq<Entry<K, B>>, new: Seq<Entry<K, B>>)
    ensures
        upserts(rows, new).len() >= rows.len(),
        forall|i: int|
            0 <= i < rows.len() ==> {
                &&& (#[trigger] upserts(rows, new)[i]).id == rows[i].id
                &&& upserts(rows, new)[i].user_id == rows[i].user_id
                &&& upserts(rows, new)[i].key == rows[i].key
                &&& upserts(rows, new)[i].created_at == rows[i].created_at
            },
    decreases new.len(),
{
    if new.len() > 0 {
        a_refresh_keeps_every_id(rows, new.drop_last());
        lemma_system_row(upserts(rows, new.drop_last()), new.last().key);
        assert forall|i: int| 0 <= i < rows.len() implies {
            &&& (#[trigger] upserts(rows, new)[i]).id == rows[i].id
            &&& upserts(rows, new)[i].user_id == rows[i].user_id
            &&& upserts(rows, new)[i].key == rows[i].key
            &&& upserts(rows, new)[i].created_at == rows[i].created_at
        } by {
            let _ = upserts(rows, new.drop_last())[i];
        }
    }
}

/// A user's row is left alone by a refresh, and so is one of the system's that
/// is no longer published.
pub proof fn a_refresh_leaves_the_rest_alone<K, B>(
    rows: Seq<Entry<K, B>>,
    new: Seq<Entry<K, B>>,
    i: int,
)
    requires
        0 <= i < rows.len(),
        rows[i].user_id is Some || forall|j: int|
            0 <= j < new.len() ==> (#[trigger] new[j]).key != rows[i].key,
    ensures
        upserts(rows, new).len() >= rows.len(),
        upserts(rows, new)[i] == rows[i],
    decreases new.len(),
{
    if new.len() > 0 {
        if rows[i].user_id is None {
            assert forall|j: int| 0 <= j < new.drop_last().len() implies (
            #[trigger] new.drop_last()[j]).key != rows[i].key by {
                let _ = new[j];
            }
            assert(new[new.len() - 1].key != rows[i].key);
        }
        a_refresh_leaves_the_rest_alone(rows, new.drop_last(), i);
        lemma_system_row(upserts(rows, new.drop_last()), new.last().key);
    }
}

/// After a refresh the system has a row for everything that was published, and
/// it says what was published last under its key.
pub proof fn a_refresh_writes_what_is_published<K, B>(
    rows: Seq<Entry<K, B>>,
    new: Seq<Entry<K, B>>,
    j: int,
)
    requires
        0 <= j < new.len(),
        forall|k: int| j < k < new.len() ==> (#[trigger] new[k]).key != new[j].key,
        forall|k: int| 0 <= k < new.len() ==> (#[trigger] new[k]).user_id is None,
    ensures
        system_row(upserts(rows, new), new[j].key) matches Some(at) && upserts(rows, new)[at].body
            == new[j].body,
    decreases new.len(),
{
    let last = new.last();
    let before = upserts(rows, new.drop_last());
    let after = upserts(rows, new);
    lemma_system_row(before, last.key);
    if j == new.len() - 1 {
        match system_row(before, last.key) {
            Some(at) => {
                assert forall|i: int| 0 <= i < at implies !((#[trigger] after[i]).user_id is None
                    && after[i].key == last.key) by {
                    let _ = before[i];
                }
                lemma_found_at(after, last.key, at);
            },
            None => {
                assert forall|i: int| 0 <= i < before.len() implies !((
                #[trigger] after[i]).user_id is None && after[i].key == last.key) by {
                    let _ = before[i];
                }
                assert(last == new[new.len() - 1]);
                lemma_found_at(after, last.key, before.len() as int);
            },
        }
    } else {
        let shorter = new.drop_last();
        assert forall|k: int| j < k < shorter.len() implies (#[trigger] shorter[k]).key
            != shorter[j].key by {
            let _ = new[k];
        }
        assert forall|k: int| 0 <= k < shorter.len() implies (
        #[trigger] shorter[k]).user_id is None by {
            let _ = new[k];
        }
        a_refresh_writes_what_is_published(rows, shorter, j);
        assert(new[new.len() - 1].key != new[j].key);
        lemma_system_row(before, new[j].key);
        let found = system_row(before, new[j].key)->0;
        assert forall|i: int| 0 <= i < found implies !((#[trigger] after[i]).user_id is None
            && after[i].key == new[j].key) by {
            let _ = before[i];
        }
        lemma_found_at(after, new[j].key, found);
    }
}

/// A refresh never gives a key a second of the system's rows.
pub proof fn a_refresh_repeats_no_key<K, B>(rows: Seq<Entry<K, B>>, new: Seq<Entry<K, B>>)
    requires
        keyed(rows),
    ensures
        keyed(upserts(rows, new)),
    decreases new.len(),
{
    if new.len() > 0 {
        a_refresh_repeats_no_key(rows, new.drop_last());
        let before = upserts(rows, new.drop_last());
        let after = upserts(rows, new);
        lemma_system_row(before, new.last().key);
        assert forall|i: int, j: int|
            0 <= i < j < after.len() && (#[trigger] after[i]).user_id is None && (
            #[trigger] after[j]).user_id is None implies after[i].key != after[j].key by {
            let _ = before[i];
            if j < before.len() {
                let _ = before[j];
            }
        }
    }
}

/// Publishing the same again changes nothing.
pub proof fn a_refresh_settles<K, B>(rows: Seq<Entry<K, B>>, new: Entry<K, B>)
    requires
        new.user_id is None,
    ensures
        upsert(upsert(rows, new), new) == upsert(rows, new),
{
    let once = upsert(rows, new);
    lemma_system_row(rows, new.key);
    match system_row(rows, new.key) {
        Some(at) => {
            assert forall|i: int| 0 <= i < at implies !((#[trigger] once[i]).user_id is None
                && once[i].key == new.key) by {
                let _ = rows[i];
            }
            lemma_found_at(once, new.key, at);
            assert(upsert(once, new) =~= once);
        },
        None => {
            assert forall|i: int| 0 <= i < rows.len() implies !((#[trigger] once[i]).user_id is None
                && once[i].key == new.key) by {
                let _ = rows[i];
            }
            lemma_found_at(once, new.key, rows.len() as int);
            assert(upsert(once, new) =~= once);
        },
    }
}

// ---------------------------------------------------------------------------
// Providers
// ---------------------------------------------------------------------------

/// What the directory says of a provider.
pub struct ProviderBody {
    pub name: Seq<char>,
    pub website: Option<Seq<char>>,
    pub api_base_url: Option<Seq<char>>,
}

/// A provider's row, found by the publisher's key.
pub open spec fn provider_entry(row: ModelProviderRow) -> Entry<Seq<char>, ProviderBody> {
    Entry {
        id: row.id,
        user_id: row.user_id,
        key: row.provider_id@,
        created_at: row.created_at,
        body: ProviderBody {
            name: row.name@,
            website: opt(row.website),
            api_base_url: opt(row.api_base_url),
        },
    }
}

pub open spec fn provider_entries(rows: Seq<ModelProviderRow>) -> Seq<
    Entry<Seq<char>, ProviderBody>,
> {
    Seq::new(rows.len(), |i: int| provider_entry(rows[i]))
}

/// The row that is written for a published provider.
pub open spec fn published_provider(provider: Provider, id: u128, now: i64) -> Entry<
    Seq<char>,
    ProviderBody,
> {
    Entry {
        id,
        user_id: None,
        key: provider.id@,
        created_at: now,
        body: ProviderBody {
            name: provider.name@,
            website: opt(provider.website),
            api_base_url: opt(provider.api_base_url),
        },
    }
}

/// The rows that are written for the published providers.
pub open spec fn published_providers(
    providers: Seq<Provider>,
    ids: Seq<u128>,
    now: i64,
) -> Seq<Entry<Seq<char>, ProviderBody>> {
    Seq::new(providers.len(), |i: int| published_provider(providers[i], ids[i], now))
}

/// Writes one of the system's providers, and says under which id.
fn upsert_provider(rows: &mut Vec<ModelProviderRow>, new: ModelProviderRow) -> (r: u128)
    requires
        new.user_id is None,
    ensures
        provider_entries(final(rows)@) == upsert(provider_entries(old(rows)@), provider_entry(new)),
        r == match system_row(provider_entries(old(rows)@), new.provider_id@) {
            Some(at) => provider_entries(old(rows)@)[at].id,
            None => new.id,
        },
{
    let ghost before = provider_entries(rows@);
    let ghost entry = provider_entry(new);
    let mut i: usize = 0;
    while i < rows.len()
        invariant
            i <= rows@.len(),
            new.user_id is None,
            entry == provider_entry(new),
            before == provider_entries(rows@),
            before == provider_entries(old(rows)@),
            forall|k: int|
                0 <= k < i ==> !((#[trigger] before[k]).user_id is None && before[k].key
                    == new.provider_id@),
        decreases rows@.len() - i,
    {
        assert(before[i as int] == provider_entry(rows@[i as int]));
        if rows[i].user_id.is_none() && same(
            rows[i].provider_id.as_str(),
            new.provider_id.as_str(),
        ) {
            proof {
                lemma_found_at(before, new.provider_id@, i as int);
            }
            let id: u128 = rows[i].id;
            let created_at: i64 = rows[i].created_at;
            rows.set(i, ModelProviderRow { id, created_at, ..new });
            assert(provider_entries(rows@) =~= upsert(before, entry));
            return id;
        }
        i += 1;
    }
    proof {
        lemma_system_row(before, new.provider_id@);
    }
    let id: u128 = new.id;
    rows.push(new);
    assert(provider_entries(rows@) =~= upsert(before, entry));
    id
}

// ---------------------------------------------------------------------------
// Presets
// ---------------------------------------------------------------------------

/// What the directory says of a preset, as the table stores it.
pub struct PresetBody {
    pub name: Seq<char>,
    pub capabilities: Capabilities,
    pub pricing: Pricing,
    pub limit_context: Option<i64>,
    pub limit_input: Option<i64>,
    pub limit_output: Option<i64>,
    pub modalities_input: JsonModel,
    pub modalities_output: JsonModel,
    pub release_date: Option<i64>,
    pub last_updated: Option<i64>,
    pub knowledge_cutoff: Option<i64>,
    pub open_weights: Option<bool>,
}

/// A preset's row, found by its provider's row and the model's key.
pub open spec fn preset_entry(row: ModelPresetRow) -> Entry<(u128, Seq<char>), PresetBody> {
    Entry {
        id: row.id,
        user_id: row.user_id,
        key: (row.model_provider_id, row.model_id@),
        created_at: row.created_at,
        body: PresetBody {
            name: row.name@,
            capabilities: Capabilities {
                vision: row.vision,
                attachment: row.attachment,
                reasoning: row.reasoning,
                tools: row.tools,
                structured_output: row.structured_output,
                temperature: row.temperature,
            },
            pricing: Pricing {
                input: row.price_input,
                output: row.price_output,
                cache_read: row.price_cache_read,
                cache_write: row.price_cache_write,
                input_audio: row.price_input_audio,
                output_audio: row.price_output_audio,
                reasoning: row.price_reasoning,
            },
            limit_context: row.limit_context,
            limit_input: row.limit_input,
            limit_output: row.limit_output,
            modalities_input: row.modalities_input@,
            modalities_output: row.modalities_output@,
            release_date: row.release_date,
            last_updated: row.last_updated,
            knowledge_cutoff: row.knowledge_cutoff,
            open_weights: row.open_weights,
        },
    }
}

pub open spec fn preset_entries(rows: Seq<ModelPresetRow>) -> Seq<
    Entry<(u128, Seq<char>), PresetBody>,
> {
    Seq::new(rows.len(), |i: int| preset_entry(rows[i]))
}

/// The row that is written for a published preset.
pub open spec fn published_preset(preset: Preset, provider: u128, id: u128, now: i64) -> Entry<
    (u128, Seq<char>),
    PresetBody,
> {
    Entry {
        id,
        user_id: None,
        key: (provider, preset.id@),
        created_at: now,
        body: PresetBody {
            name: preset.name@,
            capabilities: preset.capabilities,
            pricing: preset.pricing,
            limit_context: stored_limit(preset.limits.context),
            limit_input: stored_limit(preset.limits.input),
            limit_output: stored_limit(preset.limits.output),
            modalities_input: stored_modalities(texts(preset.modalities.input@)),
            modalities_output: stored_modalities(texts(preset.modalities.output@)),
            release_date: preset.release_date,
            last_updated: preset.last_updated,
            knowledge_cutoff: preset.knowledge_cutoff,
            open_weights: preset.open_weights,
        },
    }
}

/// The row id under which a published provider stands, where `key` is
/// published at all.
pub open spec fn provider_id(
    providers: Seq<Provider>,
    rows: Seq<Entry<Seq<char>, ProviderBody>>,
    key: Seq<char>,
) -> Option<u128> {
    if exists|i: int| 0 <= i < providers.len() && (#[trigger] providers[i]).id@ == key {
        match system_row(rows, key) {
            Some(at) => Some(rows[at].id),
            None => None,
        }
    } else {
        None
    }
}

/// The rows that are written for the published presets: each under its
/// provider's row. One whose provider is not published is left out.
pub open spec fn published_presets(
    catalog: Catalog,
    rows: Seq<Entry<Seq<char>, ProviderBody>>,
    ids: Seq<u128>,
    now: i64,
    n: nat,
) -> Seq<Entry<(u128, Seq<char>), PresetBody>>
    decreases n,
{
    if n == 0 {
        Seq::empty()
    } else {
        let before = published_presets(catalog, rows, ids, now, (n - 1) as nat);
        let preset = catalog.presets@[n - 1];
        match provider_id(catalog.providers@, rows, preset.provider@) {
            Some(provider) => before.push(published_preset(preset, provider, ids[n - 1], now)),
            None => before,
        }
    }
}

/// Writes one of the system's presets.
fn upsert_preset(rows: &mut Vec<ModelPresetRow>, new: ModelPresetRow)
    requires
        new.user_id is None,
    ensures
        preset_entries(final(rows)@) == upsert(preset_entries(old(rows)@), preset_entry(new)),
{
    let ghost before = preset_entries(rows@);
    let ghost entry = preset_entry(new);
    let mut i: usize = 0;
    while i < rows.len()
        invariant
            i <= rows@.len(),
            new.user_id is None,
            entry == preset_entry(new),
            before == preset_entries(rows@),
            before == preset_entries(old(rows)@),
            forall|k: int|
                0 <= k < i ==> !((#[trigger] before[k]).user_id is None && before[k].key
                    == entry.key),
        decreases rows@.len() - i,
    {
        assert(before[i as int] == preset_entry(rows@[i as int]));
        if rows[i].user_id.is_none() && rows[i].model_provider_id == new.model_provider_id && same(
            rows[i].model_id.as_str(),
            new.model_id.as_str(),
        ) {
            proof {
                lemma_found_at(before, entry.key, i as int);
            }
            let id: u128 = rows[i].id;
            let created_at: i64 = rows[i].created_at;
            rows.set(i, ModelPresetRow { id, created_at, ..new });
            assert(preset_entries(rows@) =~= upsert(before, entry));
            return ;
        }
        i += 1;
    }
    proof {
        lemma_system_row(before, entry.key);
    }
    rows.push(new);
    assert(preset_entries(rows@) =~= upsert(before, entry));
}

/// The row that a new preset is inserted as.
fn inserted(new: NewModelPreset, now: i64) -> (r: ModelPresetRow)
    ensures
        r.id == new.id,
        r.user_id == new.user_id,
        r.model_provider_id == new.model_provider_id,
        r.created_at == now,
        r.stores(new),
{
    ModelPresetRow {
        id: new.id,
        user_id: new.user_id,
        model_provider_id: new.model_provider_id,
        model_id: new.model_id,
        name: new.name,
        vision: new.vision,
        attachment: new.attachment,
        reasoning: new.reasoning,
        tools: new.tools,
        structured_output: new.structured_output,
        temperature: new.temperature,
        price_input: new.price_input,
        price_output: new.price_output,
        price_cache_read: new.price_cache_read,
        price_cache_write: new.price_cache_write,
        price_input_audio: new.price_input_audio,
        price_output_audio: new.price_output_audio,
        price_reasoning: new.price_reasoning,
        limit_context: new.limit_context,
        limit_input: new.limit_input,
        limit_output: new.limit_output,
        modalities_input: new.modalities_input,
        modalities_output: new.modalities_output,
        release_date: new.release_date,
        last_updated: new.last_updated,
        knowledge_cutoff: new.knowledge_cutoff,
        open_weights: new.open_weights,
        created_at: now,
    }
}

// ---------------------------------------------------------------------------
// The refresh
// ---------------------------------------------------------------------------

/// What the directory publishes.
#[derive(Debug)]
pub struct Catalog {
    pub providers: Vec<Provider>,
    pub presets: Vec<Preset>,
}

/// The two tables.
#[derive(Debug)]
pub struct Tables {
    pub providers: Vec<ModelProviderRow>,
    pub presets: Vec<ModelPresetRow>,
}

/// The row id that a provider key was last written under.
spec fn provider_row(written: Seq<(String, u128)>, key: Seq<char>) -> Option<u128>
    decreases written.len(),
{
    if written.len() == 0 {
        None
    } else if written.last().0@ == key {
        Some(written.last().1)
    } else {
        provider_row(written.drop_last(), key)
    }
}

fn find_provider(written: &Vec<(String, u128)>, key: &str) -> (r: Option<u128>)
    ensures
        r == provider_row(written@, key@),
{
    let mut i: usize = written.len();
    assert(written@.take(i as int) =~= written@);
    while i > 0
        invariant
            i <= written@.len(),
            provider_row(written@, key@) == provider_row(written@.take(i as int), key@),
        decreases i,
    {
        assert(written@.take(i as int).drop_last() =~= written@.take(i - 1));
        i -= 1;
        if same(written[i].0.as_str(), key) {
            return Some(written[i].1);
        }
    }
    None
}

/// Whether each provider is listed in `written` under the id of its row.
spec fn listed(
    providers: Seq<Provider>,
    rows: Seq<Entry<Seq<char>, ProviderBody>>,
    written: Seq<(String, u128)>,
) -> bool {
    &&& written.len() == providers.len()
    &&& forall|i: int|
        0 <= i < written.len() ==> {
            &&& (#[trigger] written[i]).0@ == providers[i].id@
            &&& system_row(rows, written[i].0@) matches Some(at) && rows[at].id == written[i].1
        }
}

/// A list of written providers gives each published key its row's id.
proof fn lemma_listed(
    providers: Seq<Provider>,
    rows: Seq<Entry<Seq<char>, ProviderBody>>,
    written: Seq<(String, u128)>,
    key: Seq<char>,
)
    requires
        listed(providers, rows, written),
    ensures
        provider_row(written, key) == provider_id(providers, rows, key),
    decreases written.len(),
{
    if written.len() > 0 {
        let last = written.last();
        assert(written[written.len() - 1] == last);
        let fewer = providers.drop_last();
        if last.0@ == key {
            assert(providers[providers.len() - 1].id@ == key);
        } else {
            assert(listed(fewer, rows, written.drop_last())) by {
                assert forall|i: int| 0 <= i < written.drop_last().len() implies {
                    &&& (#[trigger] written.drop_last()[i]).0@ == fewer[i].id@
                    &&& system_row(rows, written.drop_last()[i].0@) matches Some(at)
                        && rows[at].id == written.drop_last()[i].1
                } by {
                    let _ = written[i];
                }
            }
            lemma_listed(fewer, rows, written.drop_last(), key);
            if exists|i: int| 0 <= i < providers.len() && (#[trigger] providers[i]).id@ == key {
                let i = choose|i: int|
                    0 <= i < providers.len() && (#[trigger] providers[i]).id@ == key;
                assert(fewer[i].id@ == key);
            }
            if exists|i: int| 0 <= i < fewer.len() && (#[trigger] fewer[i]).id@ == key {
                let i = choose|i: int| 0 <= i < fewer.len() && (#[trigger] fewer[i]).id@ == key;
                assert(providers[i].id@ == key);
            }
        }
    }
}

/// Writing a provider leaves the others where they are.
proof fn lemma_stays_listed(
    rows: Seq<Entry<Seq<char>, ProviderBody>>,
    new: Entry<Seq<char>, ProviderBody>,
    key: Seq<char>,
)
    requires
        system_row(rows, key) is Some,
    ensures
        system_row(upsert(rows, new), key) == system_row(rows, key),
        upsert(rows, new)[system_row(rows, key)->0].id == rows[system_row(rows, key)->0].id,
{
    let after = upsert(rows, new);
    lemma_system_row(rows, key);
    lemma_system_row(rows, new.key);
    let at = system_row(rows, key)->0;
    assert forall|i: int| 0 <= i < at implies !((#[trigger] after[i]).user_id is None
        && after[i].key == key) by {
        let _ = rows[i];
    }
    lemma_found_at(after, key, at);
}

/// A provider that was just written is found under the id it got.
proof fn lemma_written(
    rows: Seq<Entry<Seq<char>, ProviderBody>>,
    new: Entry<Seq<char>, ProviderBody>,
)
    requires
        new.user_id is None,
    ensures
        system_row(upsert(rows, new), new.key) matches Some(at) && upsert(rows, new)[at].id
            == match system_row(rows, new.key) {
            Some(was) => rows[was].id,
            None => new.id,
        },
{
    let after = upsert(rows, new);
    lemma_system_row(rows, new.key);
    match system_row(rows, new.key) {
        Some(at) => lemma_stays_listed(rows, new, new.key),
        None => {
            assert forall|i: int| 0 <= i < rows.len() implies !((
            #[trigger] after[i]).user_id is None && after[i].key == new.key) by {
                let _ = rows[i];
            }
            lemma_found_at(after, new.key, rows.len() as int);
        },
    }
}

/// Writes the published providers, and lists each with its row's id.
fn replace_providers(
    rows: &mut Vec<ModelProviderRow>,
    providers: &Vec<Provider>,
    ids: &Vec<u128>,
    now: i64,
) -> (r: Vec<(String, u128)>)
    requires
        ids@.len() >= providers@.len(),
    ensures
        provider_entries(final(rows)@) == upserts(
            provider_entries(old(rows)@),
            published_providers(providers@, ids@, now),
        ),
        listed(providers@, provider_entries(final(rows)@), r@),
{
    let ghost start = provider_entries(rows@);
    let ghost all = published_providers(providers@, ids@, now);
    let new = system_providers(providers, ids);
    let mut written: Vec<(String, u128)> = Vec::new();
    let mut i: usize = 0;
    assert(all.take(0) =~= Seq::empty());
    while i < new.len()
        invariant
            i <= new@.len() == providers@.len() <= ids@.len(),
            all == published_providers(providers@, ids@, now),
            forall|k: int|
                0 <= k < new@.len() ==> (#[trigger] new@[k]).publishes(ids@[k], providers@[k]),
            provider_entries(rows@) == upserts(start, all.take(i as int)),
            listed(providers@.take(i as int), provider_entries(rows@), written@),
        decreases new@.len() - i,
    {
        let ghost before = provider_entries(rows@);
        let ghost listing = written@;
        assert(new@[i as int].publishes(ids@[i as int], providers@[i as int]));
        let row = ModelProviderRow {
            id: new[i].id,
            user_id: None,
            provider_id: new[i].provider_id.clone(),
            name: new[i].name.clone(),
            website: copy_opt(&new[i].website),
            api_base_url: copy_opt(&new[i].api_base_url),
            created_at: now,
        };
        let key = new[i].provider_id.clone();
        let ghost entry = provider_entry(row);
        assert(entry == all[i as int]);
        let id: u128 = upsert_provider(rows, row);
        written.push((key, id));
        proof {
            let after = provider_entries(rows@);
            assert(all.take(i + 1).drop_last() =~= all.take(i as int));
            lemma_written(before, entry);
            assert forall|k: int| 0 <= k < written@.len() implies {
                &&& (#[trigger] written@[k]).0@ == providers@.take(i + 1)[k].id@
                &&& system_row(after, written@[k].0@) matches Some(at) && after[at].id
                    == written@[k].1
            } by {
                if k < i {
                    assert(written@[k] == listing[k]);
                    assert(listing[k].0@ == providers@.take(i as int)[k].id@);
                    lemma_stays_listed(before, entry, listing[k].0@);
                }
            }
        }
        i += 1;
    }
    assert(all.take(i as int) =~= all);
    assert(providers@.take(i as int) =~= providers@);
    written
}

/// Brings the system's half of both tables up to date with what the directory
/// publishes. Providers are written first, so that presets are found by the
/// provider rows that already exist and a system preset always points at a
/// system provider. The ids name rows that are new.
pub fn replace_all(
    tables: &mut Tables,
    catalog: &Catalog,
    provider_ids: &Vec<u128>,
    preset_ids: &Vec<u128>,
    now: i64,
)
    requires
        provider_ids@.len() >= catalog.providers@.len(),
        preset_ids@.len() >= catalog.presets@.len(),
    ensures
        provider_entries(final(tables).providers@) == upserts(
            provider_entries(old(tables).providers@),
            published_providers(catalog.providers@, provider_ids@, now),
        ),
        preset_entries(final(tables).presets@) == upserts(
            preset_entries(old(tables).presets@),
            published_presets(
                *catalog,
                provider_entries(final(tables).providers@),
                preset_ids@,
                now,
                catalog.presets@.len(),
            ),
        ),
{
    let ghost start = preset_entries(tables.presets@);
    let written = replace_providers(&mut tables.providers, &catalog.providers, provider_ids, now);
    let ghost rows = provider_entries(tables.providers@);
    let mut i: usize = 0;
    while i < catalog.presets.len()
        invariant
            i <= catalog.presets@.len() <= preset_ids@.len(),
            rows == provider_entries(tables.providers@),
            listed(catalog.providers@, rows, written@),
            preset_entries(tables.presets@) == upserts(
                start,
                published_presets(*catalog, rows, preset_ids@, now, i as nat),
            ),
        decreases catalog.presets@.len() - i,
    {
        let preset = &catalog.presets[i];
        proof {
            lemma_listed(catalog.providers@, rows, written@, preset.provider@);
        }
        let ghost before = published_presets(*catalog, rows, preset_ids@, now, i as nat);
        let ghost after = published_presets(*catalog, rows, preset_ids@, now, (i + 1) as nat);
        if let Some(provider) = find_provider(&written, preset.provider.as_str()) {
            let row = inserted(NewModelPreset::system(preset_ids[i], provider, preset), now);
            assert(preset_entry(row) == published_preset(
                *preset,
                provider,
                preset_ids@[i as int],
                now,
            ));
            assert(after.drop_last() =~= before);
            upsert_preset(&mut tables.presets, row);
        }
        i += 1;
    }
}

/// Every preset that a refresh writes points at one of the system's providers.
pub proof fn a_system_preset_has_a_system_provider(
    catalog: Catalog,
    rows: Seq<Entry<Seq<char>, ProviderBody>>,
    ids: Seq<u128>,
    now: i64,
    n: nat,
    i: int,
)
    requires
        n <= catalog.presets@.len(),
        0 <= i < published_presets(catalog, rows, ids, now, n).len(),
    ensures
        ({
            let written = published_presets(catalog, rows, ids, now, n)[i];
            &&& written.user_id is None
            &&& exists|at: int|
                0 <= at < rows.len() && (#[trigger] rows[at]).user_id is None && rows[at].id
                    == written.key.0
        }),
    decreases n,
{
    if n > 0 {
        let before = published_presets(catalog, rows, ids, now, (n - 1) as nat);
        if i < before.len() {
            a_system_preset_has_a_system_provider(catalog, rows, ids, now, (n - 1) as nat, i);
        } else {
            let key = catalog.presets@[n - 1].provider@;
            lemma_system_row(rows, key);
            let _ = rows[system_row(rows, key)->0];
        }
    }
}

/// A key that the system has no row for gets one, under the id and at the time
/// that were given, behind every row that was there.
pub proof fn a_new_key_gets_a_new_row<K, B>(rows: Seq<Entry<K, B>>, new: Entry<K, B>)
    requires
        forall|i: int|
            0 <= i < rows.len() ==> (#[trigger] rows[i]).user_id is Some || rows[i].key != new.key,
    ensures
        upsert(rows, new) == rows.push(new),
{
    lemma_system_row(rows, new.key);
}

/// A row of the system's that has the key is written over and stays where it
/// is, and no other row changes.
pub proof fn a_known_key_keeps_its_row<K, B>(rows: Seq<Entry<K, B>>, new: Entry<K, B>, at: int)
    requires
        0 <= at < rows.len(),
        rows[at].user_id is None,
        rows[at].key == new.key,
        keyed(rows),
    ensures
        upsert(rows, new).len() == rows.len(),
        upsert(rows, new)[at].body == new.body,
        upsert(rows, new)[at].id == rows[at].id,
        upsert(rows, new)[at].created_at == rows[at].created_at,
        forall|i: int|
            0 <= i < rows.len() && i != at ==> #[trigger] upsert(rows, new)[i] == rows[i],
{
    lemma_system_row(rows, new.key);
    let found = system_row(rows, new.key)->0;
    if found != at {
        assert(rows[found].key != rows[at].key);
    }
}

/// A row stands in the refresh for what it holds, and a published provider or
/// preset for what is published of it.
pub proof fn an_entry_says_what_its_row_says(row: ModelProviderRow, provider: Provider, id: u128, now: i64)
    ensures
        ({
            let entry = provider_entry(row);
            &&& entry.id == row.id && entry.user_id == row.user_id && entry.key == row.provider_id@
            &&& entry.created_at == row.created_at
            &&& entry.body.name == row.name@
            &&& entry.body.website == opt(row.website)
            &&& entry.body.api_base_url == opt(row.api_base_url)
        }),
        ({
            let entry = published_provider(provider, id, now);
            &&& entry.id == id && entry.user_id is None && entry.key == provider.id@
            &&& entry.created_at == now
            &&& entry.body.name == provider.name@
            &&& entry.body.website == opt(provider.website)
            &&& entry.body.api_base_url == opt(provider.api_base_url)
        }),
{
}

/// A preset's row says in the refresh what the preset publishes, just where the
/// row stores it.
pub proof fn a_stored_preset_is_a_published_one(
    row: ModelPresetRow,
    new: NewModelPreset,
    preset: Preset,
)
    requires
        new.describes(preset),
        row.stores(new),
        row.user_id is None,
    ensures
        preset_entry(row) == published_preset(
            preset,
            row.model_provider_id,
            row.id,
            row.created_at,
        ),
        preset_entry(row).key == (row.model_provider_id, preset.id@),
        preset_entry(row).body.capabilities == preset.capabilities,
        preset_entry(row).body.pricing == preset.pricing,
        preset_entry(row).body.limit_context == row.limit_context,
        preset_entry(row).body.limit_input == row.limit_input,
        preset_entry(row).body.limit_output == row.limit_output,
        preset_entry(row).body.modalities_input == row.modalities_input@,
        preset_entry(row).body.modalities_output == row.modalities_output@,
        preset_entry(row).body.release_date == preset.release_date,
        preset_entry(row).body.last_updated == preset.last_updated,
        preset_entry(row).body.knowledge_cutoff == preset.knowledge_cutoff,
        preset_entry(row).body.open_weights == preset.open_weights,
        preset_entry(row).body.name == preset.name@,
{
}

/// Every preset of a published provider is written, under that provider's row
/// and its own id, and nothing else is.
pub proof fn every_published_preset_is_written(
    catalog: Catalog,
    rows: Seq<Entry<Seq<char>, ProviderBody>>,
    ids: Seq<u128>,
    now: i64,
    n: nat,
    at: int,
    i: int,
)
    requires
        n < catalog.presets@.len(),
        keyed(rows),
        0 <= at < rows.len(),
        rows[at].user_id is None,
        rows[at].key == catalog.presets@[n as int].provider@,
        0 <= i < catalog.providers@.len(),
    ensures
        ({
            let preset = catalog.presets@[n as int];
            let before = published_presets(catalog, rows, ids, now, n);
            let after = published_presets(catalog, rows, ids, now, n + 1);
            &&& catalog.providers@[i].id@ == preset.provider@ ==> after == before.push(
                published_preset(preset, rows[at].id, ids[n as int], now),
            )
            &&& (forall|k: int|
                0 <= k < catalog.providers@.len() ==> (#[trigger] catalog.providers@[k]).id@
                    != preset.provider@) ==> after == before
        }),
{
    let preset = catalog.presets@[n as int];
    lemma_system_row(rows, preset.provider@);
    let found = system_row(rows, preset.provider@)->0;
    if found != at {
        assert(rows[found].key != rows[at].key);
    }
}

/// What a refresh reads and writes is taken row by row and in order.
pub proof fn a_refresh_goes_row_by_row(
    rows: Seq<ModelProviderRow>,
    presets: Seq<ModelPresetRow>,
    providers: Seq<Provider>,
    ids: Seq<u128>,
    now: i64,
    i: int,
)
    ensures
        provider_entries(rows).len() == rows.len(),
        preset_entries(presets).len() == presets.len(),
        published_providers(providers, ids, now).len() == providers.len(),
        0 <= i < rows.len() ==> provider_entries(rows)[i] == provider_entry(rows[i]),
        0 <= i < presets.len() ==> preset_entries(presets)[i] == preset_entry(presets[i]),
        0 <= i < providers.len() ==> published_providers(providers, ids, now)[i]
            == published_provider(providers[i], ids[i], now),
{
}

} // verus!
