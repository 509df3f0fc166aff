//! JSON values as the library reads and writes them.
use vstd::prelude::*;
use crate::text::same;

verus! {

/// A JSON value. An object is a list of members, of which a later one replaces
/// an earlier one of the same name; a number that is not an integer keeps its
/// own text.
#[derive(Debug)]
pub enum Json {
    Null,
    Bool(bool),
    Int(i128),
    Decimal(String),
    Str(String),
    List(Vec<Json>),
    Object(Vec<(String, Json)>),
}

/// What a [`Json`] value means.
pub enum JsonModel {
    Null,
    Bool(bool),
    Int(int),
    Decimal(Seq<char>),
    Str(Seq<char>),
    List(Seq<JsonModel>),
    Object(Map<Seq<char>, JsonModel>),
}

/// The mapping that a list of members spells out.
pub open spec fn members_map(members: Seq<(Seq<char>, JsonModel)>) -> Map<Seq<char>, JsonModel>
    decreases members.len(),
{
    if members.len() == 0 {
        Map::empty()
    } else {
        members_map(members.drop_last()).insert(members.last().0, members.last().1)
    }
}

/// The object with the given members.
pub open spec fn object_of(members: Seq<(Seq<char>, JsonModel)>) -> JsonModel {
    JsonModel::Object(members_map(members))
}

impl Json {
    /// The value's mathematical form.
    pub open spec fn model(self) -> JsonModel
        decreases self,
    {
        match self {
            Json::Null => JsonModel::Null,
            Json::Bool(b) => JsonModel::Bool(b),
            Json::Int(n) => JsonModel::Int(n as int),
            Json::Decimal(text) => JsonModel::Decimal(text@),
            Json::Str(text) => JsonModel::Str(text@),
            Json::List(items) => JsonModel::List(
                Seq::new(
                    items@.len(),
                    |i: int|
                        if 0 <= i < items@.len() {
                            items[i].model()
                        } else {
                            JsonModel::Null
                        },
                ),
            ),
            Json::Object(members) => object_of(Json::listed(members)),
        }
    }

    /// The members of an object in their mathematical form.
    pub open spec fn listed(members: Vec<(String, Json)>) -> Seq<(Seq<char>, JsonModel)>
        decreases members,
    {
        Seq::new(
            members@.len(),
            |i: int|
                if 0 <= i < members@.len() {
                    (members[i].0@, members[i].1.model())
                } else {
                    (Seq::empty(), JsonModel::Null)
                },
        )
    }
}

impl View for Json {
    type V = JsonModel;

    open spec fn view(&self) -> JsonModel {
        self.model()
    }
}

/// The models of a list of values.
pub open spec fn models(items: Seq<Json>) -> Seq<JsonModel> {
    Seq::new(items.len(), |i: int| items[i]@)
}

/// The models of a list of members.
pub open spec fn member_models(members: Seq<(String, Json)>) -> Seq<(Seq<char>, JsonModel)> {
    Seq::new(members.len(), |i: int| (members[i].0@, members[i].1@))
}

/// The model of an optional value.
pub open spec fn opt_json(o: Option<Json>) -> Option<JsonModel> {
    match o {
        Some(j) => Some(j@),
        None => None,
    }
}

impl JsonModel {
    /// The member of an object called `key`.
    pub open spec fn get(self, key: Seq<char>) -> Option<JsonModel> {
        match self {
            JsonModel::Object(members) => if members.dom().contains(key) {
                Some(members[key])
            } else {
                None
            },
            _ => None,
        }
    }

    /// Whether every number in the value is an integer that a document keeps
    /// exactly.
    pub open spec fn storable(self) -> bool
        decreases self,
    {
        match self {
            JsonModel::Int(n) => i64::MIN <= n <= u64::MAX,
            JsonModel::Decimal(_) => false,
            JsonModel::List(items) => forall|i: int|
                0 <= i < items.len() ==> (#[trigger] items[i]).storable(),
            JsonModel::Object(members) => forall|key: Seq<char>|
                members.dom().contains(key) ==> (#[trigger] members[key]).storable(),
            _ => true,
        }
    }

    pub open spec fn as_str(self) -> Option<Seq<char>> {
        match self {
            JsonModel::Str(text) => Some(text),
            _ => None,
        }
    }

    /// The text of the member called `key`, where it is a string.
    pub open spec fn str_at(self, key: Seq<char>) -> Option<Seq<char>> {
        match self.get(key) {
            Some(j) => j.as_str(),
            None => None,
        }
    }
}

proof fn lemma_object_model(json: Json)
    ensures
        json matches Json::Object(members) ==> json@ == object_of(member_models(members@)),
        json matches Json::List(items) ==> json@ == JsonModel::List(models(items@)),
{
    if let Json::Object(members) = json {
        assert(Json::listed(members) =~= member_models(members@));
    }
    if let Json::List(items) = json {
        assert(json@->List_0 =~= models(items@));
    }
}

impl Json {
    /// The object with the given members.
    pub fn object(members: Vec<(String, Json)>) -> (r: Json)
        ensures
            r@ == object_of(member_models(members@)),
            r is Object,
    {
        let r = Json::Object(members);
        proof {
            lemma_object_model(r);
        }
        r
    }

    /// The list of the given values.
    pub fn list(items: Vec<Json>) -> (r: Json)
        ensures
            r@ == JsonModel::List(models(items@)),
            r is List,
    {
        let r = Json::List(items);
        proof {
            lemma_object_model(r);
        }
        r
    }

    /// A string value.
    pub fn text(s: &str) -> (r: Json)
        ensures
            r@ == JsonModel::Str(s@),
    {
        Json::Str(s.to_owned())
    }

    /// The member of an object called `key`.
    pub fn get(&self, key: &str) -> (r: Option<&Json>)
        ensures
            match r {
                Some(j) => self@.get(key@) == Some(j@),
                None => self@.get(key@) is None,
            },
    {
        match self {
            Json::Object(members) => {
                let ghost all = member_models(members@);
                proof {
                    lemma_object_model(*self);
                    assert(all.take(all.len() as int) =~= all);
                }
                let mut i: usize = members.len();
                while i > 0
                    invariant
                        i <= members@.len(),
                        all == member_models(members@),
                        self@ == object_of(all),
                        members_map(all).dom().contains(key@) == members_map(
                            all.take(i as int),
                        ).dom().contains(key@),
                        members_map(all).dom().contains(key@) ==> members_map(all)[key@]
                            == members_map(all.take(i as int))[key@],
                    decreases i,
                {
                    i -= 1;
                    assert(all.take(i + 1).drop_last() =~= all.take(i as int));
                    assert(all.take(i + 1).last() == all[i as int]);
                    if same(members[i].0.as_str(), key) {
                        return Some(&members[i].1);
                    }
                }
                None
            },
            _ => None,
        }
    }

    pub fn as_str(&self) -> (r: Option<&str>)
        ensures
            match r {
                Some(s) => self@.as_str() == Some(s@),
                None => self@.as_str() is None,
            },
    {
        match self {
            Json::Str(text) => Some(text.as_str()),
            _ => None,
        }
    }

    /// The text of the member called `key`, where it is a string.
    pub fn str_at(&self, key: &str) -> (r: Option<&str>)
        ensures
            match r {
                Some(s) => self@.str_at(key@) == Some(s@),
                None => self@.str_at(key@) is None,
            },
    {
        match self.get(key) {
            Some(j) => j.as_str(),
            None => None,
        }
    }

    /// The items of a list.
    pub fn as_list(&self) -> (r: Option<&Vec<Json>>)
        ensures
            match r {
                Some(items) => self@ == JsonModel::List(models(items@)),
                None => !(self@ is List),
            },
    {
        proof {
            lemma_object_model(*self);
        }
        match self {
            Json::List(items) => Some(items),
            _ => None,
        }
    }

    /// The members of an object, in the order they were written.
    pub fn as_object(&self) -> (r: Option<&Vec<(String, Json)>>)
        ensures
            match r {
                Some(members) => self@ == object_of(member_models(members@)),
                None => !(self@ is Object),
            },
    {
        proof {
            lemma_object_model(*self);
        }
        match self {
            Json::Object(members) => Some(members),
            _ => None,
        }
    }

    /// A copy of the value.
    #[verifier::loop_isolation(false)]
    pub fn duplicate(&self) -> (r: Json)
        ensures
            r@ == self@,
        decreases self,
    {
        match self {
            Json::Null => Json::Null,
            Json::Bool(b) => Json::Bool(*b),
            Json::Int(n) => Json::Int(*n),
            Json::Decimal(text) => Json::Decimal(text.clone()),
            Json::Str(text) => Json::Str(text.clone()),
            Json::List(items) => {
                let mut copy: Vec<Json> = Vec::new();
                let mut i: usize = 0;
                while i < items.len()
                    invariant
                        i <= items@.len(),
                        copy@.len() == i,
                        forall|k: int| 0 <= k < i ==> copy[k]@ == items[k]@,
                    decreases items@.len() - i,
                {
                    let item = &items[i];
                    assert(decreases_to!(*items => items[i as int]));
                    copy.push(item.duplicate());
                    i += 1;
                }
                proof {
                    lemma_object_model(*self);
                    assert(models(copy@) =~= models(items@));
                }
                Json::list(copy)
            },
            Json::Object(members) => {
                let mut copy: Vec<(String, Json)> = Vec::new();
                let mut i: usize = 0;
                while i < members.len()
                    invariant
                        i <= members@.len(),
                        copy@.len() == i,
                        forall|k: int|
                            0 <= k < i ==> copy[k].0@ == members[k].0@ && copy[k].1@
                                == members[k].1@,
                    decreases members@.len() - i,
                {
                    let member = &members[i];
                    assert(decreases_to!(*members => members[i as int]));
                    copy.push((member.0.clone(), member.1.duplicate()));
                    i += 1;
                }
                proof {
                    lemma_object_model(*self);
                    assert(member_models(copy@) =~= member_models(members@));
                }
                Json::object(copy)
            },
        }
    }
}

/// A copy of an optional value.
pub fn copy_opt_json(o: &Option<Json>) -> (r: Option<Json>)
    ensures
        opt_json(r) == opt_json(*o),
{
    match o {
        Some(j) => Some(j.duplicate()),
        None => None,
    }
}

/// A parsed document of `serde_json`.
#[verifier::external_type_specification]
#[verifier::external_body]
pub struct ExValue(serde_json::Value);

/// The JSON value that a `serde_json::Value` holds. Its numbers are integers
/// between `i64::MIN` and `u64::MAX`, and anything else is kept as text.
pub uninterp spec fn value_model(value: serde_json::Value) -> JsonModel;

/// What `serde_json::from_slice::<serde_json::Value>` reads from a document,
/// or `None` where it refuses it.
pub uninterp spec fn parsed(document: Seq<u8>) -> Option<JsonModel>;

/// The bytes that `serde_json::to_vec` writes for a value.
pub uninterp spec fn encoded(value: JsonModel) -> Seq<u8>;

/// Calls `serde_json::from_slice::<serde_json::Value>`: the result holds what
/// [`parsed`] names, and there is none where the document is refused.
#[verifier::external_body]
fn from_slice(document: &[u8]) -> (r: Option<serde_json::Value>)
    ensures
        match r {
            Some(value) => parsed(document@) == Some(value_model(value)),
            None => parsed(document@) is None,
        },
{
    serde_json::from_slice::<serde_json::Value>(document).ok()
}

/// Takes a `serde_json::Value` apart, variant by variant.
#[verifier::external_body]
fn json_of(value: serde_json::Value) -> (r: Json)
    ensures
        r@ == value_model(value),
{
    match value {
        serde_json::Value::Null => Json::Null,
        serde_json::Value::Bool(b) => Json::Bool(b),
        serde_json::Value::Number(n) => match n.as_i128() {
            Some(i) => Json::Int(i),
            None => Json::Decimal(n.to_string()),
        },
        serde_json::Value::String(text) => Json::Str(text),
        serde_json::Value::Array(items) => Json::List(items.into_iter().map(json_of).collect()),
        serde_json::Value::Object(members) => {
            Json::Object(members.into_iter().map(|m| (m.0, json_of(m.1))).collect())
        },
    }
}

/// What is left of a value once it is a `serde_json::Value`: a number that
/// `serde_json::Number` does not hold becomes null, and one that is not an
/// integer takes the form `serde_json` gives it.
pub uninterp spec fn built(value: JsonModel) -> JsonModel;

/// Builds a `serde_json::Value` variant by variant. `Number::from_i128` takes
/// the integers between `i64::MIN` and `u64::MAX`, and members collect into a
/// map in which a later one replaces an earlier one of the same name, so a
/// storable value comes out as it is.
#[verifier::external_body]
fn value_of(json: &Json) -> (r: serde_json::Value)
    ensures
        value_model(r) == built(json@),
        json@.storable() ==> value_model(r) == json@,
{
    match json {
        Json::Null => serde_json::Value::Null,
        Json::Bool(b) => serde_json::Value::Bool(*b),
        Json::Int(n) => serde_json::Number::from_i128(*n).map_or(serde_json::Value::Null, serde_json::Value::Number),
        Json::Decimal(text) => text.parse().map_or(serde_json::Value::Null, serde_json::Value::Number),
        Json::Str(text) => serde_json::Value::String(text.clone()),
        Json::List(items) => serde_json::Value::Array(items.iter().map(value_of).collect()),
        Json::Object(members) => {
            serde_json::Value::Object(members.iter().map(|m| (m.0.clone(), value_of(&m.1))).collect())
        },
    }
}

/// Calls `serde_json::to_vec`, which does not fail on a `serde_json::Value`:
/// its keys are strings and its numbers finite.
#[verifier::external_body]
fn to_vec(value: &serde_json::Value) -> (r: Vec<u8>)
    ensures
        r@ == encoded(value_model(*value)),
{
    serde_json::to_vec(value).expect("a JSON value always encodes")
}

impl Json {
    /// The bytes of the document that holds this value.
    pub fn encode(&self) -> (r: Vec<u8>)
        ensures
            r@ == encoded(built(self@)),
            self@.storable() ==> r@ == encoded(self@),
    {
        to_vec(&value_of(self))
    }

    /// Reads a document.
    pub fn parse(document: &[u8]) -> (r: Option<Json>)
        ensures
            match r {
                Some(j) => parsed(document@) == Some(j@),
                None => parsed(document@) is None,
            },
    {
        match from_slice(document) {
            Some(value) => Some(json_of(value)),
            None => None,
        }
    }
}

/// An object holds each of its members under its own name, the last one of a
/// name, and nothing else.
pub proof fn the_last_member_of_a_name_counts(
    members: Seq<(Seq<char>, JsonModel)>,
    name: Seq<char>,
    value: JsonModel,
    other: Seq<char>,
)
    requires
        other != name,
    ensures
        object_of(members.push((name, value))).get(name) == Some(value),
        object_of(members.push((name, value))).get(other) == object_of(members).get(other),
        object_of(Seq::empty()).get(name) is None,
{
    assert(members.push((name, value)).drop_last() =~= members);
}

/// A text is read from a member just where the member is a text.
pub proof fn a_text_is_read_from_a_text(value: JsonModel, name: Seq<char>, text: Seq<char>)
    ensures
        value.str_at(name) == Some(text) <==> value.get(name) == Some(JsonModel::Str(text)),
        !(value is Object) ==> value.get(name) is None,
{
}

/// A value means what it is made of.
pub proof fn a_value_means_what_it_is_made_of(value: Json)
    ensures
        match value {
            Json::Null => value@ == JsonModel::Null,
            Json::Bool(b) => value@ == JsonModel::Bool(b),
            Json::Int(n) => value@ == JsonModel::Int(n as int),
            Json::Decimal(text) => value@ == JsonModel::Decimal(text@),
            Json::Str(text) => value@ == JsonModel::Str(text@),
            Json::List(items) => value@ matches JsonModel::List(list) && list.len() == items@.len()
                && forall|i: int| 0 <= i < list.len() ==> #[trigger] list[i] == items@[i]@,
            Json::Object(members) => value@ == object_of(member_models(members@)),
        },
{
    lemma_object_model(value);
}

/// A member whose name comes once, or last, is found under it.
pub proof fn an_object_holds_its_members(members: Seq<(Seq<char>, JsonModel)>, i: int)
    requires
        0 <= i < members.len(),
        forall|j: int| i < j < members.len() ==> (#[trigger] members[j]).0 != members[i].0,
    ensures
        object_of(members).get(members[i].0) == Some(members[i].1),
    decreases members.len(),
{
    let before = members.drop_last();
    if i < members.len() - 1 {
        assert forall|j: int| i < j < before.len() implies (#[trigger] before[j]).0
            != before[i].0 by {
            assert(members[j].0 != members[i].0);
        }
        an_object_holds_its_members(before, i);
        assert(members[members.len() - 1].0 != members[i].0);
    }
}

/// A name that no member has is found under nothing.
pub proof fn an_object_holds_nothing_else(members: Seq<(Seq<char>, JsonModel)>, name: Seq<char>)
    requires
        forall|j: int| 0 <= j < members.len() ==> (#[trigger] members[j]).0 != name,
    ensures
        object_of(members).get(name) is None,
    decreases members.len(),
{
    if members.len() > 0 {
        let before = members.drop_last();
        assert forall|j: int| 0 <= j < before.len() implies (#[trigger] before[j]).0 != name by {
            assert(members[j].0 != name);
        }
        an_object_holds_nothing_else(before, name);
        assert(members[members.len() - 1].0 != name);
    }
}

/// A value can be stored exactly just where every number in it can: a text, a
/// truth and nothing can, a decimal cannot, and a list can where its items can.
pub proof fn a_value_is_storable_part_by_part(items: Seq<JsonModel>, n: int, text: Seq<char>, b: bool)
    ensures
        JsonModel::Int(n).storable() <==> -0x8000_0000_0000_0000 <= n <= 0xffff_ffff_ffff_ffff,
        JsonModel::Str(text).storable() && JsonModel::Bool(b).storable()
            && JsonModel::Null.storable(),
        JsonModel::List(items).storable() <==> forall|i: int|
            0 <= i < items.len() ==> (#[trigger] items[i]).storable(),
        JsonModel::Str(text).as_str() == Some(text),
        JsonModel::Int(n).as_str() is None,
{
    let list = JsonModel::List(items);
    if list.storable() {
        assert forall|i: int| 0 <= i < items.len() implies (#[trigger] items[i]).storable() by {
            assert(list->List_0[i].storable());
        }
    }
    if forall|i: int| 0 <= i < items.len() ==> (#[trigger] items[i]).storable() {
        assert(list.storable());
    }
}

} // verus!
