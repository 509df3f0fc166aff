//! The model presets, owned by a user or by the system.
//!
//! A preset is a third party's description of a model: what it can do and what
//! it costs. A preset without an owner belongs to the catalog that is fetched
//! at boot and shared by every user; one with an owner is private to them.
use vstd::prelude::*;
use crate::json::{models, Json, JsonModel};
use crate::text::texts;

verus! {

/// Rows per `INSERT`. A statement takes 65535 bind parameters; with 27 inserted
/// columns that caps one near 2400 rows, and the directory publishes far more
/// than that.
pub const INSERT_CHUNK: usize = 1000;

/// The columns an inserted preset binds.
pub const INSERT_COLUMNS: usize = 27;

/// The bind parameters one statement takes.
pub const BIND_LIMIT: usize = 65535;

/// A price in dollars, as the bits of a double. It is carried, never computed
/// with.
#[derive(Debug, Clone, Copy, PartialEq, Eq, Structural)]
pub struct Price {
    pub bits: u64,
}

#[derive(Debug, Clone, Copy, PartialEq, Eq, Structural)]
pub struct Capabilities {
    pub vision: bool,
    pub attachment: bool,
    pub reasoning: bool,
    pub tools: bool,
    pub structured_output: bool,
    pub temperature: bool,
}

#[derive(Debug, Clone, Copy, PartialEq, Eq, Structural)]
pub struct Pricing {
    pub input: Option<Price>,
    pub output: Option<Price>,
    pub cache_read: Option<Price>,
    pub cache_write: Option<Price>,
    pub input_audio: Option<Price>,
    pub output_audio: Option<Price>,
    pub reasoning: Option<Price>,
}

#[derive(Debug, Clone, Copy, PartialEq, Eq, Structural)]
pub struct Limits {
    pub context: Option<u64>,
    pub input: Option<u64>,
    pub output: Option<u64>,
}

#[derive(Debug)]
pub struct Modalities {
    pub input: Vec<String>,
    pub output: Vec<String>,
}

/// A preset as it is published.
#[derive(Debug)]
pub struct Preset {
    pub provider: String,
    pub provider_name: String,
    pub id: String,
    pub name: String,
    pub capabilities: Capabilities,
    pub pricing: Pricing,
    pub limits: Limits,
    pub modalities: Modalities,
    pub release_date: Option<i64>,
    pub last_updated: Option<i64>,
    pub knowledge_cutoff: Option<i64>,
    pub open_weights: Option<bool>,
}

/// One preset as stored.
#[derive(Debug)]
pub struct ModelPresetRow {
    pub id: u128,
    pub user_id: Option<u128>,
    pub model_provider_id: u128,
    pub model_id: String,
    pub name: String,
    pub vision: bool,
    pub attachment: bool,
    pub reasoning: bool,
    pub tools: bool,
    pub structured_output: bool,
    pub temperature: bool,
    pub price_input: Option<Price>,
    pub price_output: Option<Price>,
    pub price_cache_read: Option<Price>,
    pub price_cache_write: Option<Price>,
    pub price_input_audio: Option<Price>,
    pub price_output_audio: Option<Price>,
    pub price_reasoning: Option<Price>,
    pub limit_context: Option<i64>,
    pub limit_input: Option<i64>,
    pub limit_output: Option<i64>,
    pub modalities_input: Json,
    pub modalities_output: Json,
    pub release_date: Option<i64>,
    pub last_updated: Option<i64>,
    pub knowledge_cutoff: Option<i64>,
    pub open_weights: Option<bool>,
    pub created_at: i64,
}

/// One preset as it is written.
#[derive(Debug)]
pub struct NewModelPreset {
    pub id: u128,
    pub user_id: Option<u128>,
    pub model_provider_id: u128,
    pub model_id: String,
    pub name: String,
    pub vision: bool,
    pub attachment: bool,
    pub reasoning: bool,
    pub tools: bool,
    pub structured_output: bool,
    pub temperature: bool,
    pub price_input: Option<Price>,
    pub price_output: Option<Price>,
    pub price_cache_read: Option<Price>,
    pub price_cache_write: Option<Price>,
    pub price_input_audio: Option<Price>,
    pub price_output_audio: Option<Price>,
    pub price_reasoning: Option<Price>,
    pub limit_context: Option<i64>,
    pub limit_input: Option<i64>,
    pub limit_output: Option<i64>,
    pub modalities_input: Json,
    pub modalities_output: Json,
    pub release_date: Option<i64>,
    pub last_updated: Option<i64>,
    pub knowledge_cutoff: Option<i64>,
    pub open_weights: Option<bool>,
}

/// A token limit as the table stores it: one that exceeds the column is
/// dropped rather than wrapped.
pub open spec fn stored_limit(limit: Option<u64>) -> Option<i64> {
    match limit {
        Some(tokens) => if tokens <= i64::MAX {
            Some(tokens as i64)
        } else {
            None
        },
        None => None,
    }
}

/// A stored token limit as it is published: a negative one is dropped.
pub open spec fn published_limit(limit: Option<i64>) -> Option<u64> {
    match limit {
        Some(tokens) => if tokens >= 0 {
            Some(tokens as u64)
        } else {
            None
        },
        None => None,
    }
}

/// A token limit as the table stores it.
pub fn limit_to_db(limit: Option<u64>) -> (r: Option<i64>)
    ensures
        r == stored_limit(limit),
{
    match limit {
        Some(tokens) => if tokens <= 9223372036854775807u64 {
            Some(tokens as i64)
        } else {
            None
        },
        None => None,
    }
}

/// A stored token limit as it is published.
pub fn limit_from_db(limit: Option<i64>) -> (r: Option<u64>)
    ensures
        r == published_limit(limit),
{
    match limit {
        Some(tokens) => if tokens >= 0 {
            Some(tokens as u64)
        } else {
            None
        },
        None => None,
    }
}

/// A limit that fits the column is read back unchanged.
pub proof fn a_limit_round_trips(limit: Option<u64>)
    requires
        limit matches Some(tokens) ==> tokens <= i64::MAX,
    ensures
        published_limit(stored_limit(limit)) == limit,
{
}

/// Modalities as the table stores them: a list of strings.
pub open spec fn stored_modalities(modalities: Seq<Seq<char>>) -> JsonModel {
    JsonModel::List(Seq::new(modalities.len(), |i: int| JsonModel::Str(modalities[i])))
}

/// The strings of a list, where every item is one.
pub open spec fn strings_in(list: Seq<JsonModel>) -> Option<Seq<Seq<char>>>
    decreases list.len(),
{
    if list.len() == 0 {
        Some(Seq::empty())
    } else {
        match (strings_in(list.drop_last()), list.last()) {
            (Some(before), JsonModel::Str(text)) => Some(before.push(text)),
            _ => None,
        }
    }
}

/// Stored modalities as they are published: what is not a list of strings
/// reads as none at all.
pub open spec fn published_modalities(value: JsonModel) -> Seq<Seq<char>> {
    match value {
        JsonModel::List(list) => match strings_in(list) {
            Some(strings) => strings,
            None => Seq::empty(),
        },
        _ => Seq::empty(),
    }
}

/// Modalities as the table stores them.
pub fn modalities_to_db(modalities: &[String]) -> (r: Json)
    ensures
        r@ == stored_modalities(texts(modalities@)),
{
    let mut list: Vec<Json> = Vec::new();
    let mut i: usize = 0;
    while i < modalities.len()
        invariant
            i <= modalities@.len(),
            list@.len() == i,
            forall|k: int| 0 <= k < i ==> (#[trigger] list@[k])@ == JsonModel::Str(modalities@[k]@),
        decreases modalities@.len() - i,
    {
        list.push(Json::Str(modalities[i].clone()));
        i += 1;
    }
    assert(models(list@) =~= stored_modalities(texts(modalities@))->List_0);
    Json::list(list)
}

proof fn lemma_strings_fail(list: Seq<JsonModel>, i: int)
    requires
        0 <= i < list.len(),
        !(list[i] is Str),
    ensures
        strings_in(list) is None,
    decreases list.len(),
{
    if i < list.len() - 1 {
        assert(list.drop_last()[i] == list[i]);
        lemma_strings_fail(list.drop_last(), i);
    }
}

/// Stored modalities as they are published.
pub fn modalities_from_db(value: &Json) -> (r: Vec<String>)
    ensures
        texts(r@) == published_modalities(value@),
{
    let mut strings: Vec<String> = Vec::new();
    assert(texts(strings@) =~= Seq::empty());
    if let Some(list) = value.as_list() {
        let ghost all = models(list@);
        let mut i: usize = 0;
        assert(all.take(0) =~= Seq::empty());
        while i < list.len()
            invariant
                i <= list@.len(),
                all == models(list@),
                value@ == JsonModel::List(all),
                strings_in(all.take(i as int)) == Some(texts(strings@)),
            decreases list@.len() - i,
        {
            match &list[i] {
                Json::Str(text) => {
                    let ghost before = texts(strings@);
                    assert(all.take(i + 1).drop_last() =~= all.take(i as int));
                    assert(all[i as int] == JsonModel::Str(text@));
                    strings.push(text.clone());
                    assert(texts(strings@) =~= before.push(text@));
                },
                _ => {
                    let none: Vec<String> = Vec::new();
                    proof {
                        assert(all[i as int] == list@[i as int]@);
                        lemma_strings_fail(all, i as int);
                        assert(texts(none@) =~= Seq::empty());
                    }
                    return none;
                },
            }
            i += 1;
        }
        assert(all.take(i as int) =~= all);
    }
    strings
}

/// Modalities are read back unchanged.
pub proof fn modalities_round_trip(modalities: Seq<Seq<char>>)
    ensures
        published_modalities(stored_modalities(modalities)) == modalities,
    decreases modalities.len(),
{
    let list = stored_modalities(modalities)->List_0;
    if modalities.len() > 0 {
        let shorter = modalities.drop_last();
        modalities_round_trip(shorter);
        assert(list.drop_last() =~= stored_modalities(shorter)->List_0);
        lemma_stored_strings(shorter);
        assert(modalities =~= shorter.push(modalities.last()));
    } else {
        assert(modalities =~= Seq::empty());
    }
}

proof fn lemma_stored_strings(modalities: Seq<Seq<char>>)
    ensures
        strings_in(stored_modalities(modalities)->List_0) is Some,
    decreases modalities.len(),
{
    if modalities.len() > 0 {
        let shorter = modalities.drop_last();
        lemma_stored_strings(shorter);
        assert(stored_modalities(modalities)->List_0.drop_last() =~= stored_modalities(
            shorter,
        )->List_0);
    }
}

impl NewModelPreset {
    /// Whether these columns hold what a preset publishes.
    pub open spec fn describes(&self, preset: Preset) -> bool {
        &&& self.model_id@ == preset.id@
        &&& self.name@ == preset.name@
        &&& self.vision == preset.capabilities.vision
        &&& self.attachment == preset.capabilities.attachment
        &&& self.reasoning == preset.capabilities.reasoning
        &&& self.tools == preset.capabilities.tools
        &&& self.structured_output == preset.capabilities.structured_output
        &&& self.temperature == preset.capabilities.temperature
        &&& self.price_input == preset.pricing.input
        &&& self.price_output == preset.pricing.output
        &&& self.price_cache_read == preset.pricing.cache_read
        &&& self.price_cache_write == preset.pricing.cache_write
        &&& self.price_input_audio == preset.pricing.input_audio
        &&& self.price_output_audio == preset.pricing.output_audio
        &&& self.price_reasoning == preset.pricing.reasoning
        &&& self.limit_context == stored_limit(preset.limits.context)
        &&& self.limit_input == stored_limit(preset.limits.input)
        &&& self.limit_output == stored_limit(preset.limits.output)
        &&& self.modalities_input@ == stored_modalities(texts(preset.modalities.input@))
        &&& self.modalities_output@ == stored_modalities(texts(preset.modalities.output@))
        &&& self.release_date == preset.release_date
        &&& self.last_updated == preset.last_updated
        &&& self.knowledge_cutoff == preset.knowledge_cutoff
        &&& self.open_weights == preset.open_weights
    }
}

impl ModelPresetRow {
    /// Whether this row stores the columns that were written.
    pub open spec fn stores(&self, written: NewModelPreset) -> bool {
        &&& self.model_id@ == written.model_id@
        &&& self.name@ == written.name@
        &&& self.vision == written.vision
        &&& self.attachment == written.attachment
        &&& self.reasoning == written.reasoning
        &&& self.tools == written.tools
        &&& self.structured_output == written.structured_output
        &&& self.temperature == written.temperature
        &&& self.price_input == written.price_input
        &&& self.price_output == written.price_output
        &&& self.price_cache_read == written.price_cache_read
        &&& self.price_cache_write == written.price_cache_write
        &&& self.price_input_audio == written.price_input_audio
        &&& self.price_output_audio == written.price_output_audio
        &&& self.price_reasoning == written.price_reasoning
        &&& self.limit_context == written.limit_context
        &&& self.limit_input == written.limit_input
        &&& self.limit_output == written.limit_output
        &&& self.modalities_input@ == written.modalities_input@
        &&& self.modalities_output@ == written.modalities_output@
        &&& self.release_date == written.release_date
        &&& self.last_updated == written.last_updated
        &&& self.knowledge_cutoff == written.knowledge_cutoff
        &&& self.open_weights == written.open_weights
    }

    /// Whether a preset publishes what this row holds.
    pub open spec fn reads_as(&self, preset: Preset) -> bool {
        &&& preset.id@ == self.model_id@
        &&& preset.name@ == self.name@
        &&& preset.capabilities.vision == self.vision
        &&& preset.capabilities.attachment == self.attachment
        &&& preset.capabilities.reasoning == self.reasoning
        &&& preset.capabilities.tools == self.tools
        &&& preset.capabilities.structured_output == self.structured_output
        &&& preset.capabilities.temperature == self.temperature
        &&& preset.pricing.input == self.price_input
        &&& preset.pricing.output == self.price_output
        &&& preset.pricing.cache_read == self.price_cache_read
        &&& preset.pricing.cache_write == self.price_cache_write
        &&& preset.pricing.input_audio == self.price_input_audio
        &&& preset.pricing.output_audio == self.price_output_audio
        &&& preset.pricing.reasoning == self.price_reasoning
        &&& preset.limits.context == published_limit(self.limit_context)
        &&& preset.limits.input == published_limit(self.limit_input)
        &&& preset.limits.output == published_limit(self.limit_output)
        &&& texts(preset.modalities.input@) == published_modalities(self.modalities_input@)
        &&& texts(preset.modalities.output@) == published_modalities(self.modalities_output@)
        &&& preset.release_date == self.release_date
        &&& preset.last_updated == self.last_updated
        &&& preset.knowledge_cutoff == self.knowledge_cutoff
        &&& preset.open_weights == self.open_weights
    }
}

impl ModelPresetRow {
    /// The published shape, given the provider fields the row joins to. A
    /// preset stores only the provider it references; the key and display name
    /// live on the provider.
    pub fn to_preset(&self, provider: &str, provider_name: &str) -> (r: Preset)
        ensures
            r.provider@ == provider@,
            r.provider_name@ == provider_name@,
            self.reads_as(r),
    {
        Preset {
            provider: provider.to_owned(),
            provider_name: provider_name.to_owned(),
            id: self.model_id.clone(),
            name: self.name.clone(),
            capabilities: Capabilities {
                vision: self.vision,
                attachment: self.attachment,
                reasoning: self.reasoning,
                tools: self.tools,
                structured_output: self.structured_output,
                temperature: self.temperature,
            },
            pricing: Pricing {
                input: self.price_input,
                output: self.price_output,
                cache_read: self.price_cache_read,
                cache_write: self.price_cache_write,
                input_audio: self.price_input_audio,
                output_audio: self.price_output_audio,
                reasoning: self.price_reasoning,
            },
            limits: Limits {
                context: limit_from_db(self.limit_context),
                input: limit_from_db(self.limit_input),
                output: limit_from_db(self.limit_output),
            },
            modalities: Modalities {
                input: modalities_from_db(&self.modalities_input),
                output: modalities_from_db(&self.modalities_output),
            },
            release_date: self.release_date,
            last_updated: self.last_updated,
            knowledge_cutoff: self.knowledge_cutoff,
            open_weights: self.open_weights,
        }
    }
}

impl NewModelPreset {
    /// A system preset: no owner. The id names the row only when it is
    /// inserted; a row the catalog already has keeps its own.
    pub fn system(id: u128, model_provider_id: u128, preset: &Preset) -> (r: NewModelPreset)
        ensures
            r.id == id,
            r.user_id is None,
            r.model_provider_id == model_provider_id,
            r.describes(*preset),
    {
        NewModelPreset::build(id, None, model_provider_id, preset)
    }

    /// A preset the user wrote, under one of their own providers.
    pub fn owned(id: u128, owner: u128, model_provider_id: u128, preset: &Preset) -> (r:
        NewModelPreset)
        ensures
            r.id == id,
            r.user_id == Some(owner),
            r.model_provider_id == model_provider_id,
            r.describes(*preset),
    {
        NewModelPreset::build(id, Some(owner), model_provider_id, preset)
    }

    fn build(
        id: u128,
        user_id: Option<u128>,
        model_provider_id: u128,
        preset: &Preset,
    ) -> (r: NewModelPreset)
        ensures
            r.id == id,
            r.user_id == user_id,
            r.model_provider_id == model_provider_id,
            r.describes(*preset),
    {
        NewModelPreset {
            id,
            user_id,
            model_provider_id,
            model_id: preset.id.clone(),
            name: preset.name.clone(),
            vision: preset.capabilities.vision,
            attachment: preset.capabilities.attachment,
            reasoning: preset.capabilities.reasoning,
            tools: preset.capabilities.tools,
            structured_output: preset.capabilities.structured_output,
            temperature: preset.capabilities.temperature,
            price_input: preset.pricing.input,
            price_output: preset.pricing.output,
            price_cache_read: preset.pricing.cache_read,
            price_cache_write: preset.pricing.cache_write,
            price_input_audio: preset.pricing.input_audio,
            price_output_audio: preset.pricing.output_audio,
            price_reasoning: preset.pricing.reasoning,
            limit_context: limit_to_db(preset.limits.context),
            limit_input: limit_to_db(preset.limits.input),
            limit_output: limit_to_db(preset.limits.output),
            modalities_input: modalities_to_db(preset.modalities.input.as_slice()),
            modalities_output: modalities_to_db(preset.modalities.output.as_slice()),
            release_date: preset.release_date,
            last_updated: preset.last_updated,
            knowledge_cutoff: preset.knowledge_cutoff,
            open_weights: preset.open_weights,
        }
    }
}

/// A preset whose limits fit the table is read back, under its own provider,
/// as the preset that was written.
pub proof fn a_preset_round_trips(
    new: NewModelPreset,
    row: ModelPresetRow,
    written: Preset,
    read: Preset,
)
    requires
        new.describes(written),
        row.stores(new),
        row.reads_as(read),
        written.limits.context matches Some(n) ==> n <= i64::MAX,
        written.limits.input matches Some(n) ==> n <= i64::MAX,
        written.limits.output matches Some(n) ==> n <= i64::MAX,
    ensures
        read.id@ == written.id@,
        read.name@ == written.name@,
        read.capabilities == written.capabilities,
        read.pricing == written.pricing,
        read.limits == written.limits,
        texts(read.modalities.input@) == texts(written.modalities.input@),
        texts(read.modalities.output@) == texts(written.modalities.output@),
        read.release_date == written.release_date,
        read.last_updated == written.last_updated,
        read.knowledge_cutoff == written.knowledge_cutoff,
        read.open_weights == written.open_weights,
{
    modalities_round_trip(texts(written.modalities.input@));
    modalities_round_trip(texts(written.modalities.output@));
}

// ---------------------------------------------------------------------------
// Inserting many
// ---------------------------------------------------------------------------

/// Whether `bounds` cuts `len` rows into consecutive pieces of at most
/// [`INSERT_CHUNK`] rows, none of them empty.
pub open spec fn cuts(bounds: Seq<(usize, usize)>, len: int) -> bool {
    &&& forall|i: int|
        0 <= i < bounds.len() ==> {
            &&& (#[trigger] bounds[i]).0 == i * INSERT_CHUNK
            &&& bounds[i].0 < bounds[i].1
            &&& bounds[i].1 == if (i + 1) * INSERT_CHUNK <= len {
                (i + 1) * INSERT_CHUNK
            } else {
                len
            }
        }
    &&& bounds.len() == (len + INSERT_CHUNK - 1) / (INSERT_CHUNK as int)
}

/// Cuts `len` rows into the pieces they are inserted in.
pub fn insert_chunks(len: usize) -> (r: Vec<(usize, usize)>)
    ensures
        cuts(r@, len as int),
{
    let mut bounds: Vec<(usize, usize)> = Vec::new();
    let mut from: usize = 0;
    while from < len
        invariant
            from <= len,
            from == if bounds@.len() * INSERT_CHUNK <= len {
                bounds@.len() * INSERT_CHUNK
            } else {
                len as int
            },
            from < len ==> from == bounds@.len() * INSERT_CHUNK,
            from == len ==> bounds@.len() == (len + INSERT_CHUNK - 1) / (INSERT_CHUNK as int),
            forall|i: int|
                0 <= i < bounds@.len() ==> {
                    &&& (#[trigger] bounds@[i]).0 == i * INSERT_CHUNK
                    &&& bounds@[i].0 < bounds@[i].1
                    &&& bounds@[i].1 == if (i + 1) * INSERT_CHUNK <= len {
                        (i + 1) * INSERT_CHUNK
                    } else {
                        len as int
                    }
                },
        decreases len - from,
    {
        let to: usize = if len - from > INSERT_CHUNK {
            from + INSERT_CHUNK
        } else {
            len
        };
        bounds.push((from, to));
        from = to;
    }
    bounds
}

/// The pieces cover every row once, in order, and no piece binds more than a
/// statement takes.
pub proof fn chunks_cover_the_rows(bounds: Seq<(usize, usize)>, len: int, row: int)
    requires
        cuts(bounds, len),
        0 <= row < len,
    ensures
        0 <= row / (INSERT_CHUNK as int) < bounds.len(),
        bounds[row / (INSERT_CHUNK as int)].0 <= row < bounds[row / (INSERT_CHUNK as int)].1,
        forall|i: int|
            0 <= i < bounds.len() && (#[trigger] bounds[i]).0 <= row < bounds[i].1 ==> i == row
                / (INSERT_CHUNK as int),
        forall|i: int|
            0 <= i < bounds.len() ==> ((#[trigger] bounds[i]).1 - bounds[i].0) * INSERT_COLUMNS
                <= BIND_LIMIT,
{
    let i = row / 1000;
    assert(0 <= i && i * 1000 <= row < (i + 1) * 1000);
    assert(i < (len + 999) / 1000);
    let _ = bounds[i];
}

/// A limit is stored as the number it is wherever the column takes it, and
/// published as the number that is stored; one that does not fit is left out.
pub proof fn a_limit_is_kept_or_left_out(tokens: u64, stored: i64)
    ensures
        stored_limit(None) is None,
        stored_limit(Some(tokens)) == Some(stored) <==> tokens as int == stored as int,
        stored_limit(Some(tokens)) is None <==> tokens > 0x7fff_ffff_ffff_ffff,
        published_limit(None) is None,
        published_limit(Some(stored)) == Some(tokens) <==> tokens as int == stored as int,
        published_limit(Some(stored)) is None <==> stored < 0,
{
}

/// Stored modalities are published one by one, and not at all where one of them
/// is no text.
pub proof fn modalities_are_published_one_by_one(list: Seq<JsonModel>, i: int)
    requires
        0 <= i < list.len(),
    ensures
        ({
            let published = published_modalities(JsonModel::List(list));
            &&& !(list[i] is Str) ==> published.len() == 0
            &&& published.len() == 0 || published.len() == list.len()
            &&& published.len() > 0 ==> list[i] == JsonModel::Str(published[i])
        }),
{
    if !(list[i] is Str) {
        lemma_strings_fail(list, i);
    }
    lemma_strings_in(list);
}

proof fn lemma_strings_in(list: Seq<JsonModel>)
    ensures
        strings_in(list) matches Some(strings) ==> strings.len() == list.len() && forall|i: int|
            0 <= i < list.len() ==> #[trigger] list[i] == JsonModel::Str(strings[i]),
    decreases list.len(),
{
    if list.len() > 0 && strings_in(list) is Some {
        let before = list.drop_last();
        lemma_strings_in(before);
        let strings = strings_in(list)->0;
        assert forall|i: int| 0 <= i < list.len() implies #[trigger] list[i] == JsonModel::Str(
            strings[i],
        ) by {
            if i < before.len() {
                assert(before[i] == list[i]);
            }
        }
    }
}

/// The columns of a written preset hold what the preset publishes, each under
/// its own name.
pub proof fn a_column_holds_what_it_is_named_for(new: NewModelPreset, preset: Preset)
    requires
        new.describes(preset),
    ensures
        new.model_id@ == preset.id@ && new.name@ == preset.name@,
        preset.capabilities == (Capabilities {
            vision: new.vision,
            attachment: new.attachment,
            reasoning: new.reasoning,
            tools: new.tools,
            structured_output: new.structured_output,
            temperature: new.temperature,
        }),
        preset.pricing == (Pricing {
            input: new.price_input,
            output: new.price_output,
            cache_read: new.price_cache_read,
            cache_write: new.price_cache_write,
            input_audio: new.price_input_audio,
            output_audio: new.price_output_audio,
            reasoning: new.price_reasoning,
        }),
        new.limit_context matches Some(n) ==> preset.limits.context == Some(n as u64),
        new.limit_input matches Some(n) ==> preset.limits.input == Some(n as u64),
        new.limit_output matches Some(n) ==> preset.limits.output == Some(n as u64),
        published_modalities(new.modalities_input@) == texts(preset.modalities.input@),
        published_modalities(new.modalities_output@) == texts(preset.modalities.output@),
        new.release_date == preset.release_date,
        new.last_updated == preset.last_updated,
        new.knowledge_cutoff == preset.knowledge_cutoff,
        new.open_weights == preset.open_weights,
{
    modalities_round_trip(texts(preset.modalities.input@));
    modalities_round_trip(texts(preset.modalities.output@));
}

/// A row publishes what its columns hold, each under its own name.
pub proof fn a_row_publishes_its_columns(row: ModelPresetRow, preset: Preset)
    requires
        row.reads_as(preset),
    ensures
        preset.id@ == row.model_id@ && preset.name@ == row.name@,
        preset.capabilities == (Capabilities {
            vision: row.vision,
            attachment: row.attachment,
            reasoning: row.reasoning,
            tools: row.tools,
            structured_output: row.structured_output,
            temperature: row.temperature,
        }),
        preset.pricing == (Pricing {
            input: row.price_input,
            output: row.price_output,
            cache_read: row.price_cache_read,
            cache_write: row.price_cache_write,
            input_audio: row.price_input_audio,
            output_audio: row.price_output_audio,
            reasoning: row.price_reasoning,
        }),
        preset.limits.context matches Some(n) ==> row.limit_context == Some(n as i64),
        preset.limits.input matches Some(n) ==> row.limit_input == Some(n as i64),
        preset.limits.output matches Some(n) ==> row.limit_output == Some(n as i64),
        preset.release_date == row.release_date,
        preset.last_updated == row.last_updated,
        preset.knowledge_cutoff == row.knowledge_cutoff,
        preset.open_weights == row.open_weights,
{
}

} // verus!
