//! The Engine API calls this library needs, and nothing else: what is sent,
//! and what an answer means.
//!
//! The exec and archive calls are what a bound target runs on. Creating,
//! starting and removing a container, and pulling an image, are for the
//! consumer that *creates* a container on a user's instruction: the user
//! decides what exists and the agent only works inside it.
use vstd::prelude::*;
use crate::encoding::{base64_bytes, base64_decode};
use crate::error::{faulted, Denial, DenialModel, Fault, FaultModel};
use crate::json::{
    an_object_holds_its_members, member_models, members_map, models, object_of, parsed, Json,
    JsonModel,
};
use crate::text::{
    byte_texts, chars_of, decimal, decimal_of, is_before, join2, join3, join4, join5, last_index,
    lemma_last_index, lemma_precedes_total, lemma_precedes_transitive, opt, precedes, rfind,
    split_bytes, split_on, trim, trimmed,
};

verus! {

/// The API version every path is prefixed with. An unversioned path would
/// follow whatever the daemon defaults to.
pub const API: &'static str = "/v1.41";

// ---------------------------------------------------------------------------
// Query strings
// ---------------------------------------------------------------------------

/// Whether a byte stands for itself in a query string.
pub open spec fn unreserved(b: u8) -> bool {
    ||| 0x41 <= b <= 0x5a
    ||| 0x61 <= b <= 0x7a
    ||| 0x30 <= b <= 0x39
    ||| b == 0x2d
    ||| b == 0x5f
    ||| b == 0x2e
    ||| b == 0x7e
}

/// The upper-case hexadecimal digit `d`.
pub open spec fn hex_digit(d: int) -> char {
    if d < 10 {
        ((0x30 + d) as u8) as char
    } else {
        ((0x37 + d) as u8) as char
    }
}

/// How a byte is written in a query string.
pub open spec fn escaped(b: u8) -> Seq<char> {
    if unreserved(b) {
        seq![b as char]
    } else {
        seq!['%', hex_digit(b as int / 16), hex_digit(b as int % 16)]
    }
}

/// How bytes are written in a query string.
pub open spec fn percent_encoded(bytes: Seq<u8>) -> Seq<char>
    decreases bytes.len(),
{
    if bytes.len() == 0 {
        Seq::empty()
    } else {
        percent_encoded(bytes.drop_last()) + escaped(bytes.last())
    }
}

/// The characters of a text in a query string: those of its UTF-8 bytes.
pub open spec fn query_value(value: Seq<char>) -> Seq<char> {
    percent_encoded(vstd::utf8::encode_utf8(value))
}

fn hex_char(d: u8) -> (r: char)
    requires
        d < 16,
    ensures
        r == hex_digit(d as int),
{
    if d < 10 {
        (0x30 + d) as char
    } else {
        (0x37 + d) as char
    }
}

/// Percent-encodes a query value. Container refs and paths both reach here,
/// and a path with a space in it is not a malformed request.
pub fn encode(value: &str) -> (r: String)
    ensures
        r@ == query_value(value@),
{
    let bytes = value.as_bytes();
    let mut out = String::new();
    let mut i: usize = 0;
    assert(bytes@.take(0) =~= Seq::empty());
    while i < bytes.len()
        invariant
            i <= bytes@.len(),
            out@ == percent_encoded(bytes@.take(i as int)),
        decreases bytes@.len() - i,
    {
        let b: u8 = bytes[i];
        let ghost before = out@;
        if (0x41 <= b && b <= 0x5a) || (0x61 <= b && b <= 0x7a) || (0x30 <= b && b <= 0x39) || b
            == 0x2d || b == 0x5f || b == 0x2e || b == 0x7e {
            out.push(b as char);
            assert(out@ =~= before + escaped(b));
        } else {
            out.push('%');
            out.push(hex_char(b / 16));
            out.push(hex_char(b % 16));
            assert(out@ =~= before + escaped(b));
        }
        assert(bytes@.take(i + 1).drop_last() =~= bytes@.take(i as int));
        i += 1;
    }
    assert(bytes@.take(i as int) =~= bytes@);
    out
}

/// The value of a hexadecimal digit.
pub open spec fn hex_value(c: char) -> int {
    if c as u32 <= 0x39 {
        c as u32 - 0x30
    } else {
        c as u32 - 0x37
    }
}

/// The bytes that a query string is read back as.
pub open spec fn percent_decoded(text: Seq<char>) -> Seq<u8>
    decreases text.len(),
{
    if text.len() == 0 {
        Seq::empty()
    } else if text[0] == '%' && text.len() >= 3 {
        seq![(hex_value(text[1]) * 16 + hex_value(text[2])) as u8] + percent_decoded(text.skip(3))
    } else {
        seq![text[0] as u8] + percent_decoded(text.skip(1))
    }
}

proof fn lemma_escaped_decodes(b: u8, rest: Seq<char>)
    ensures
        percent_decoded(escaped(b) + rest) == seq![b] + percent_decoded(rest),
{
    let text = escaped(b) + rest;
    if unreserved(b) {
        assert(text.skip(1) =~= rest);
        assert(text[0] == b as char);
        assert((b as char) as u8 == b);
        assert(b as char != '%');
    } else {
        let high = b as int / 16;
        let low = b as int % 16;
        assert(text.skip(3) =~= rest);
        assert(text[1] == hex_digit(high) && text[2] == hex_digit(low));
        assert(hex_value(hex_digit(high)) == high);
        assert(hex_value(hex_digit(low)) == low);
        assert(high * 16 + low == b);
    }
}

proof fn lemma_decodes(bytes: Seq<u8>, rest: Seq<char>)
    ensures
        percent_decoded(percent_encoded(bytes) + rest) == bytes + percent_decoded(rest),
    decreases bytes.len(),
{
    if bytes.len() == 0 {
        assert(percent_encoded(bytes) + rest =~= rest);
        assert(bytes + percent_decoded(rest) =~= percent_decoded(rest));
    } else {
        let b = bytes.last();
        lemma_decodes(bytes.drop_last(), escaped(b) + rest);
        lemma_escaped_decodes(b, rest);
        assert(percent_encoded(bytes) + rest =~= percent_encoded(bytes.drop_last()) + (escaped(b)
            + rest));
        assert(bytes.drop_last() + (seq![b] + percent_decoded(rest)) =~= bytes + percent_decoded(
            rest,
        ));
    }
}

/// Whatever is encoded survives the query string: it is read back unchanged.
pub proof fn an_encoded_value_survives(value: Seq<char>)
    ensures
        percent_decoded(query_value(value)) == vstd::utf8::encode_utf8(value),
{
    let bytes = vstd::utf8::encode_utf8(value);
    lemma_decodes(bytes, Seq::empty());
    assert(percent_encoded(bytes) + Seq::<char>::empty() =~= percent_encoded(bytes));
    assert(bytes + percent_decoded(Seq::empty()) =~= bytes);
}

proof fn lemma_encoded_concat(a: Seq<u8>, b: Seq<u8>)
    ensures
        percent_encoded(a + b) == percent_encoded(a) + percent_encoded(b),
    decreases b.len(),
{
    if b.len() == 0 {
        assert(a + b =~= a);
        assert(percent_encoded(a) + percent_encoded(b) =~= percent_encoded(a));
    } else {
        lemma_encoded_concat(a, b.drop_last());
        assert((a + b).drop_last() =~= a + b.drop_last());
        assert(percent_encoded(a + b) =~= percent_encoded(a) + percent_encoded(b));
    }
}

proof fn lemma_utf8_concat(a: Seq<char>, b: Seq<char>)
    ensures
        vstd::utf8::encode_utf8(a + b) == vstd::utf8::encode_utf8(a) + vstd::utf8::encode_utf8(b),
    decreases a.len(),
{
    if a.len() == 0 {
        assert(a + b =~= b);
        assert(vstd::utf8::encode_utf8(a) + vstd::utf8::encode_utf8(b)
            =~= vstd::utf8::encode_utf8(b));
    } else {
        lemma_utf8_concat(a.drop_first(), b);
        assert((a + b).drop_first() =~= a.drop_first() + b);
        assert(vstd::utf8::encode_utf8(a + b) =~= vstd::utf8::encode_utf8(a)
            + vstd::utf8::encode_utf8(b));
    }
}

/// Texts are encoded one by one: joined texts encode as their encodings joined.
pub proof fn joined_values_encode_joined(a: Seq<char>, b: Seq<char>)
    ensures
        query_value(a + b) == query_value(a) + query_value(b),
{
    lemma_utf8_concat(a, b);
    lemma_encoded_concat(vstd::utf8::encode_utf8(a), vstd::utf8::encode_utf8(b));
}

/// No two texts are encoded alike.
pub proof fn encoded_values_are_distinct(a: Seq<char>, b: Seq<char>)
    requires
        a != b,
    ensures
        query_value(a) != query_value(b),
{
    an_encoded_value_survives(a);
    an_encoded_value_survives(b);
    vstd::utf8::encode_utf8_decode_utf8(a);
    vstd::utf8::encode_utf8_decode_utf8(b);
}

/// Whether a character is an upper-case hexadecimal digit.
pub open spec fn upper_hex(c: char) -> bool {
    '0' <= c <= '9' || 'A' <= c <= 'F'
}

/// Whether a text is made of characters that stand for themselves in a query
/// string and of `%`s with two upper-case hexadecimal digits behind each.
pub open spec fn query_text(text: Seq<char>) -> bool
    decreases text.len(),
{
    if text.len() == 0 {
        true
    } else if text[0] == '%' {
        text.len() >= 3 && upper_hex(text[1]) && upper_hex(text[2]) && query_text(text.skip(3))
    } else {
        text[0] as u32 <= 0x7f && unreserved(text[0] as u8) && query_text(text.skip(1))
    }
}

proof fn lemma_query_text(bytes: Seq<u8>, rest: Seq<char>)
    requires
        query_text(rest),
    ensures
        query_text(percent_encoded(bytes) + rest),
    decreases bytes.len(),
{
    if bytes.len() == 0 {
        assert(percent_encoded(bytes) + rest =~= rest);
    } else {
        let b = bytes.last();
        let text = escaped(b) + rest;
        if unreserved(b) {
            assert(text.skip(1) =~= rest);
            assert(text[0] == b as char);
            assert((b as char) as u8 == b);
            assert(b as char != '%');
        } else {
            assert(text.skip(3) =~= rest);
            assert(text[1] == hex_digit(b as int / 16) && text[2] == hex_digit(b as int % 16));
        }
        lemma_query_text(bytes.drop_last(), text);
        assert(percent_encoded(bytes) + rest =~= percent_encoded(bytes.drop_last()) + text);
    }
}

/// What is encoded holds nothing that means something else in a query string.
pub proof fn an_encoded_value_is_query_text(value: Seq<char>)
    ensures
        query_text(query_value(value)),
{
    let bytes = vstd::utf8::encode_utf8(value);
    lemma_query_text(bytes, Seq::empty());
    assert(percent_encoded(bytes) + Seq::<char>::empty() =~= percent_encoded(bytes));
}

proof fn lemma_encoded_len(bytes: Seq<u8>)
    ensures
        percent_encoded(bytes).len() >= bytes.len(),
        percent_encoded(bytes).len() == bytes.len() ==> forall|i: int|
            0 <= i < bytes.len() ==> unreserved(#[trigger] bytes[i]),
        (forall|i: int| 0 <= i < bytes.len() ==> unreserved(#[trigger] bytes[i]))
            ==> percent_encoded(bytes) == Seq::new(bytes.len(), |i: int| bytes[i] as char),
    decreases bytes.len(),
{
    if bytes.len() > 0 {
        let before = bytes.drop_last();
        lemma_encoded_len(before);
        let last = bytes[bytes.len() - 1];
        if percent_encoded(bytes).len() == bytes.len() {
            assert(unreserved(last));
            assert forall|i: int| 0 <= i < bytes.len() implies unreserved(#[trigger] bytes[i]) by {
                if i < before.len() {
                    assert(unreserved(before[i]));
                }
            }
        }
        if forall|i: int| 0 <= i < bytes.len() ==> unreserved(#[trigger] bytes[i]) {
            assert forall|i: int| 0 <= i < before.len() implies unreserved(
                #[trigger] before[i],
            ) by {
                assert(unreserved(bytes[i]));
            }
            assert(unreserved(last));
            assert(percent_encoded(bytes) =~= Seq::new(bytes.len(), |i: int| bytes[i] as char));
        }
    } else {
        assert(percent_encoded(bytes) =~= Seq::new(bytes.len(), |i: int| bytes[i] as char));
    }
}

proof fn lemma_utf8_len(value: Seq<char>)
    ensures
        vstd::utf8::encode_utf8(value).len() >= value.len(),
    decreases value.len(),
{
    if value.len() > 0 {
        lemma_utf8_len(value.drop_first());
    }
}

proof fn lemma_wide_leads(c: u32)
    ensures
        vstd::utf8::leading_byte_width_2(c) >= 0x80,
        vstd::utf8::leading_byte_width_3(c) >= 0x80,
        vstd::utf8::leading_byte_width_4(c) >= 0x80,
{
    assert(vstd::utf8::leading_byte_width_2(c) >= 0x80) by (bit_vector);
    assert(vstd::utf8::leading_byte_width_3(c) >= 0x80) by (bit_vector);
    assert(vstd::utf8::leading_byte_width_4(c) >= 0x80) by (bit_vector);
}

proof fn lemma_narrow(c: char)
    requires
        c as u32 <= 0x7f,
    ensures
        '\0' <= c <= '\u{7f}',
{
}

/// A text whose bytes are all in ASCII is in ASCII.
proof fn lemma_ascii_bytes(value: Seq<char>)
    requires
        forall|i: int|
            0 <= i < vstd::utf8::encode_utf8(value).len() ==> (
            #[trigger] vstd::utf8::encode_utf8(value)[i]) < 0x80,
    ensures
        vstd::utf8::is_ascii_chars(value),
    decreases value.len(),
{
    if value.len() > 0 {
        let bytes = vstd::utf8::encode_utf8(value);
        let scalar = value[0] as u32;
        let first = vstd::utf8::encode_scalar(scalar);
        let rest = value.drop_first();
        lemma_wide_leads(scalar);
        assert(bytes[0] == first[0]);
        assert(vstd::utf8::has_width_1_encoding(scalar));
        assert forall|i: int| 0 <= i < vstd::utf8::encode_utf8(rest).len() implies (
        #[trigger] vstd::utf8::encode_utf8(rest)[i]) < 0x80 by {
            assert(bytes[first.len() + i] == vstd::utf8::encode_utf8(rest)[i]);
        }
        lemma_ascii_bytes(rest);
        let head = value[0];
        lemma_narrow(head);
        assert forall|i: int| 0 <= i < value.len() implies '\0' <= #[trigger] value[i]
            <= '\u{7f}' by {
            if i > 0 {
                assert(value[i] == rest[i - 1]);
            } else {
                assert(value[i] == head);
            }
        }
    }
}

/// A text is left as it is just where every byte of it stands for itself.
pub proof fn a_plain_value_is_left_as_it_is(value: Seq<char>)
    ensures
        query_value(value) == value <==> forall|i: int|
            0 <= i < vstd::utf8::encode_utf8(value).len() ==> unreserved(
                #[trigger] vstd::utf8::encode_utf8(value)[i],
            ),
{
    let bytes = vstd::utf8::encode_utf8(value);
    lemma_encoded_len(bytes);
    lemma_utf8_len(value);
    if forall|i: int| 0 <= i < bytes.len() ==> unreserved(#[trigger] bytes[i]) {
        assert forall|i: int| 0 <= i < bytes.len() implies (#[trigger] bytes[i]) < 0x80 by {
            assert(unreserved(bytes[i]));
        }
        lemma_ascii_bytes(value);
        vstd::utf8::is_ascii_chars_encode_utf8(value);
        assert forall|i: int| 0 <= i < value.len() implies query_value(value)[i]
            == value[i] by {
            assert(value[i] as u8 == bytes[i]);
            assert('\0' <= value[i] <= '\u{7f}');
        }
        assert(query_value(value) =~= value);
    }
}

// ---------------------------------------------------------------------------
// Image references
// ---------------------------------------------------------------------------

/// The two halves of an image reference, and whether one was written.
pub open spec fn tag_split(reference: Seq<char>) -> (Seq<char>, Seq<char>) {
    let at = last_index(reference, '@');
    let start = last_index(reference, '/') + 1;
    let colon = start + last_index(reference.skip(start), ':');
    if at >= 0 {
        (reference.take(at), reference.skip(at + 1))
    } else if colon >= start {
        (reference.take(colon), reference.skip(colon + 1))
    } else {
        (reference, "latest"@)
    }
}

/// Splits `repo/name:tag` into its two halves, defaulting to `latest`.
///
/// The colon is searched for after the last `/`, or a registry carrying a port
/// loses its port to the tag. And a digest reference is split on its `@`,
/// since the daemon takes the digest whole as the tag.
pub fn split_tag<'a>(reference: &'a str) -> (r: (&'a str, &'a str))
    ensures
        (r.0@, r.1@) == tag_split(reference@),
{
    let chars = chars_of(reference);
    let len: usize = chars.len();
    proof {
        assert(chars@.skip(0) =~= chars@);
        lemma_last_index(reference@, '@');
        lemma_last_index(reference@, '/');
    }
    if let Some(at) = rfind(&chars, 0, '@') {
        let image = reference.substring_char(0, at);
        let tag = reference.substring_char(at + 1, len);
        assert(image@ =~= reference@.take(at as int));
        assert(tag@ =~= reference@.skip(at + 1));
        return (image, tag);
    }
    let start: usize = match rfind(&chars, 0, '/') {
        Some(at) => at + 1,
        None => 0,
    };
    proof {
        lemma_last_index(reference@.skip(start as int), ':');
    }
    match rfind(&chars, start, ':') {
        Some(at) => {
            let image = reference.substring_char(0, at);
            let tag = reference.substring_char(at + 1, len);
            assert(image@ =~= reference@.take(at as int));
            assert(tag@ =~= reference@.skip(at + 1));
            (image, tag)
        },
        None => (reference, "latest"),
    }
}

/// Splitting loses nothing, and a registry's port is never taken for a tag: a
/// tag that was split off at a colon has no `/` in it.
pub proof fn a_split_reference_rejoins(reference: Seq<char>)
    ensures
        ({
            let (image, tag) = tag_split(reference);
            ||| reference == image + seq!['@'] + tag
            ||| reference == image + seq![':'] + tag && !tag.contains('/')
            ||| reference == image && tag == "latest"@
        }),
{
    lemma_last_index(reference, '@');
    lemma_last_index(reference, '/');
    let at = last_index(reference, '@');
    let start = last_index(reference, '/') + 1;
    lemma_last_index(reference.skip(start), ':');
    let colon = start + last_index(reference.skip(start), ':');
    if at >= 0 {
        assert(reference =~= reference.take(at) + seq!['@'] + reference.skip(at + 1));
    } else if colon >= start {
        assert(reference[colon] == reference.skip(start)[colon - start]);
        assert(reference =~= reference.take(colon) + seq![':'] + reference.skip(colon + 1));
        let tag = reference.skip(colon + 1);
        assert forall|k: int| 0 <= k < tag.len() implies tag[k] != '/' by {
            assert(tag[k] == reference[colon + 1 + k]);
        }
    }
}

// ---------------------------------------------------------------------------
// Requests
// ---------------------------------------------------------------------------

/// One call to the daemon.
#[derive(Debug)]
pub struct Request {
    pub method: &'static str,
    pub target: String,
    pub body: Option<Vec<u8>>,
    /// Whether the connection is taken over once the daemon answers.
    pub hijack: bool,
}

impl Request {
    /// Whether this is the bodiless call of `method` at `target`.
    pub open spec fn calls(&self, method: Seq<char>, target: Seq<char>) -> bool {
        &&& self.method@ == method
        &&& self.target@ == target
        &&& self.body is None
        &&& !self.hijack
    }

    /// Whether this is the call of `method` at `target` that sends `body`.
    pub open spec fn sends(
        &self,
        method: Seq<char>,
        target: Seq<char>,
        body: JsonModel,
        hijack: bool,
    ) -> bool {
        &&& self.method@ == method
        &&& self.target@ == target
        &&& self.body is Some
        &&& self.body->0@ == crate::json::encoded(body)
        &&& self.hijack == hijack
    }
}

/// `/containers/` and an encoded ref, with something behind it.
pub open spec fn container_target(container: Seq<char>, rest: Seq<char>) -> Seq<char> {
    API@ + "/containers/"@ + query_value(container) + rest
}

fn at_container(container: &str, rest: &str) -> (r: String)
    ensures
        r@ == container_target(container@, rest@),
{
    join4(API, "/containers/", encode(container).as_str(), rest)
}

/// `/exec/` and an encoded id, with something behind it.
pub open spec fn exec_target(exec: Seq<char>, rest: Seq<char>) -> Seq<char> {
    API@ + "/exec/"@ + query_value(exec) + rest
}

/// The archive of a path in a container.
pub open spec fn archive_target(container: Seq<char>, path: Seq<char>) -> Seq<char> {
    container_target(container, "/archive?path="@ + query_value(path))
}

/// The texts of a list as JSON.
pub open spec fn strings_json(list: Seq<Seq<char>>) -> JsonModel {
    JsonModel::List(Seq::new(list.len(), |i: int| JsonModel::Str(list[i])))
}

/// The pairs of an environment, written `key=value`.
pub open spec fn env_json(env: Seq<(String, String)>) -> JsonModel {
    JsonModel::List(
        Seq::new(env.len(), |i: int| JsonModel::Str(env[i].0@ + "="@ + env[i].1@)),
    )
}

fn strings_value(list: &[String]) -> (r: Json)
    ensures
        r@ == strings_json(crate::text::texts(list@)),
        r@.storable(),
{
    let mut items: Vec<Json> = Vec::new();
    let mut i: usize = 0;
    while i < list.len()
        invariant
            i <= list@.len(),
            items@.len() == i,
            forall|k: int| 0 <= k < i ==> (#[trigger] items@[k])@ == JsonModel::Str(list@[k]@),
        decreases list@.len() - i,
    {
        items.push(Json::Str(list[i].clone()));
        i += 1;
    }
    assert(models(items@) =~= strings_json(crate::text::texts(list@))->List_0);
    proof {
        lemma_strings_storable(JsonModel::List(models(items@)));
    }
    Json::list(items)
}

fn env_value(env: &[(String, String)]) -> (r: Json)
    ensures
        r@ == env_json(env@),
        r@.storable(),
{
    let mut items: Vec<Json> = Vec::new();
    let mut i: usize = 0;
    while i < env.len()
        invariant
            i <= env@.len(),
            items@.len() == i,
            forall|k: int|
                0 <= k < i ==> (#[trigger] items@[k])@ == JsonModel::Str(
                    env@[k].0@ + "="@ + env@[k].1@,
                ),
        decreases env@.len() - i,
    {
        items.push(Json::Str(join3(env[i].0.as_str(), "=", env[i].1.as_str())));
        i += 1;
    }
    assert(models(items@) =~= env_json(env@)->List_0);
    proof {
        lemma_strings_storable(JsonModel::List(models(items@)));
    }
    Json::list(items)
}

proof fn lemma_member_storable(members: Map<Seq<char>, JsonModel>, key: Seq<char>)
    requires
        JsonModel::Object(members).storable(),
        members.dom().contains(key),
    ensures
        members[key].storable(),
{
    let whole = JsonModel::Object(members);
    assert(whole.storable());
    assert(whole->Object_0 == members);
    assert(forall|k: Seq<char>| members.dom().contains(k) ==> (#[trigger] members[k]).storable());
}

proof fn lemma_strings_storable(value: JsonModel)
    requires
        value matches JsonModel::List(items) && forall|i: int|
            0 <= i < items.len() ==> (#[trigger] items[i]) is Str,
    ensures
        value.storable(),
{
    reveal_with_fuel(JsonModel::storable, 2);
    let items = value->List_0;
    assert forall|i: int| 0 <= i < items.len() implies (#[trigger] items[i]).storable() by {
        assert(items[i] is Str);
    }
}

/// The object of the given members is storable when each of them is.
proof fn lemma_object_storable(members: Seq<(Seq<char>, JsonModel)>)
    requires
        forall|i: int| 0 <= i < members.len() ==> (#[trigger] members[i]).1.storable(),
    ensures
        object_of(members).storable(),
    decreases members.len(),
{
    if members.len() > 0 {
        let shorter = members.drop_last();
        assert forall|i: int| 0 <= i < shorter.len() implies (
        #[trigger] shorter[i]).1.storable() by {
            assert(members[i].1.storable());
        }
        lemma_object_storable(shorter);
        let before = members_map(shorter);
        let now = members_map(members);
        assert forall|key: Seq<char>| now.dom().contains(key) implies (
        #[trigger] now[key]).storable() by {
            if key == members.last().0 {
                assert(members[members.len() - 1].1.storable());
            } else {
                assert(before.dom().contains(key));
                lemma_member_storable(before, key);
            }
        }
    }
}

fn post(target: String, body: Json, hijack: bool) -> (r: Request)
    requires
        body@.storable(),
    ensures
        r.sends("POST"@, target@, body@, hijack),
{
    Request { method: "POST", target, body: Some(body.encode()), hijack }
}

/// What an exec is created from.
pub open spec fn exec_body(
    cmd: Seq<Seq<char>>,
    env: Seq<(String, String)>,
    workdir: Seq<char>,
    tty: bool,
) -> JsonModel {
    object_of(
        seq![
            ("AttachStdin"@, JsonModel::Bool(true)),
            ("AttachStdout"@, JsonModel::Bool(true)),
            ("AttachStderr"@, JsonModel::Bool(true)),
            ("Tty"@, JsonModel::Bool(tty)),
            ("Cmd"@, strings_json(cmd)),
            ("Env"@, env_json(env)),
            ("WorkingDir"@, JsonModel::Str(workdir)),
        ],
    )
}

/// Asks for an exec, which is not started yet.
pub fn exec_create_request(
    container: &str,
    cmd: &[String],
    env: &[(String, String)],
    workdir: &str,
    tty: bool,
) -> (r: Request)
    ensures
        r.sends(
            "POST"@,
            container_target(container@, "/exec"@),
            exec_body(crate::text::texts(cmd@), env@, workdir@, tty),
            false,
        ),
{
    let members = vec![
        ("AttachStdin".to_owned(), Json::Bool(true)),
        ("AttachStdout".to_owned(), Json::Bool(true)),
        ("AttachStderr".to_owned(), Json::Bool(true)),
        ("Tty".to_owned(), Json::Bool(tty)),
        ("Cmd".to_owned(), strings_value(cmd)),
        ("Env".to_owned(), env_value(env)),
        ("WorkingDir".to_owned(), Json::text(workdir)),
    ];
    let ghost listed = seq![
        ("AttachStdin"@, JsonModel::Bool(true)),
        ("AttachStdout"@, JsonModel::Bool(true)),
        ("AttachStderr"@, JsonModel::Bool(true)),
        ("Tty"@, JsonModel::Bool(tty)),
        ("Cmd"@, strings_json(crate::text::texts(cmd@))),
        ("Env"@, env_json(env@)),
        ("WorkingDir"@, JsonModel::Str(workdir@)),
    ];
    proof {
        assert(member_models(members@) =~= listed);
        lemma_object_storable(listed);
    }
    post(at_container(container, "/exec"), Json::object(members), false)
}

/// Asks for an exec to be started on the connection that the call is made on.
pub fn exec_start_request(exec: &str, tty: bool) -> (r: Request)
    ensures
        r.sends(
            "POST"@,
            exec_target(exec@, "/start"@),
            object_of(seq![("Detach"@, JsonModel::Bool(false)), ("Tty"@, JsonModel::Bool(tty))]),
            true,
        ),
{
    let members = vec![
        ("Detach".to_owned(), Json::Bool(false)),
        ("Tty".to_owned(), Json::Bool(tty)),
    ];
    let ghost listed = seq![("Detach"@, JsonModel::Bool(false)), ("Tty"@, JsonModel::Bool(tty))];
    proof {
        assert(member_models(members@) =~= listed);
        lemma_object_storable(listed);
    }
    post(join4(API, "/exec/", encode(exec).as_str(), "/start"), Json::object(members), true)
}

/// Asks what an exec is doing.
pub fn exec_inspect_request(exec: &str) -> (r: Request)
    ensures
        r.calls("GET"@, exec_target(exec@, "/json"@)),
{
    Request {
        method: "GET",
        target: join4(API, "/exec/", encode(exec).as_str(), "/json"),
        body: None,
        hijack: false,
    }
}

/// Asks for a container's state.
pub fn container_networks_request(container: &str) -> (r: Request)
    ensures
        r.calls("GET"@, container_target(container@, "/json"@)),
{
    Request {
        method: "GET",
        target: at_container(container, "/json"),
        body: None,
        hijack: false,
    }
}

fn archive_at(container: &str, path: &str) -> (r: String)
    ensures
        r@ == archive_target(container@, path@),
{
    let query = join2("/archive?path=", encode(path).as_str());
    at_container(container, query.as_str())
}

/// Asks for a path as a tar stream.
pub fn archive_get_request(container: &str, path: &str) -> (r: Request)
    ensures
        r.calls("GET"@, archive_target(container@, path@)),
{
    Request { method: "GET", target: archive_at(container, path), body: None, hijack: false }
}

/// Asks for a tar to be unpacked into a directory that already exists.
pub fn archive_put_request(container: &str, directory: &str, tar: Vec<u8>) -> (r: Request)
    ensures
        r.method@ == "PUT"@,
        r.target@ == archive_target(container@, directory@),
        r.body is Some && r.body->0@ == tar@,
        !r.hijack,
{
    Request {
        method: "PUT",
        target: archive_at(container, directory),
        body: Some(tar),
        hijack: false,
    }
}

/// Asks what the daemon knows about a path, without moving its contents.
pub fn archive_stat_request(container: &str, path: &str) -> (r: Request)
    ensures
        r.calls("HEAD"@, archive_target(container@, path@)),
{
    Request { method: "HEAD", target: archive_at(container, path), body: None, hijack: false }
}

/// One bind mount, as the consumer described it.
///
/// Only bind mounts. A named volume has a lifetime of its own that outlives
/// the container, and offering one would quietly make faber the owner of
/// storage it cannot account for.
#[derive(Debug)]
pub struct Mount {
    /// The path on the machine the daemon runs on.
    pub source: String,
    /// Where it appears inside the container.
    pub target: String,
    pub read_only: bool,
}

/// Everything the daemon needs to create a container.
#[derive(Debug)]
pub struct Create<'a> {
    /// The daemon assigns a random name when this is `None`. Passing one makes
    /// the container findable by a human on the machine it lives on.
    pub name: Option<&'a str>,
    pub image: &'a str,
    /// The process the container runs. It has to be one that stays up: a
    /// container exists here to be exec'd into.
    pub cmd: &'a [String],
    pub env: &'a [(String, String)],
    pub working_dir: &'a str,
    pub mounts: &'a [Mount],
    /// Written onto the container so the machine's owner can tell what created
    /// it.
    pub labels: &'a [(String, String)],
}

/// A mount as the daemon takes it.
pub open spec fn mount_json(mount: Mount) -> JsonModel {
    object_of(
        seq![
            ("Type"@, JsonModel::Str("bind"@)),
            ("Source"@, JsonModel::Str(mount.source@)),
            ("Target"@, JsonModel::Str(mount.target@)),
            ("ReadOnly"@, JsonModel::Bool(mount.read_only)),
        ],
    )
}

/// Labels as the daemon takes them.
pub open spec fn labels_json(labels: Seq<(String, String)>) -> JsonModel {
    object_of(Seq::new(labels.len(), |i: int| (labels[i].0@, JsonModel::Str(labels[i].1@))))
}

/// What a container is created from.
pub open spec fn create_body(create: Create) -> JsonModel {
    object_of(
        seq![
            ("Image"@, JsonModel::Str(create.image@)),
            ("Cmd"@, strings_json(crate::text::texts(create.cmd@))),
            ("Env"@, env_json(create.env@)),
            ("WorkingDir"@, JsonModel::Str(create.working_dir@)),
            ("Labels"@, labels_json(create.labels@)),
            (
                "HostConfig"@,
                object_of(
                    seq![
                        (
                            "Mounts"@,
                            JsonModel::List(
                                Seq::new(
                                    create.mounts@.len(),
                                    |i: int| mount_json(create.mounts@[i]),
                                ),
                            ),
                        ),
                    ],
                ),
            ),
        ],
    )
}

fn mount_value(mount: &Mount) -> (r: Json)
    ensures
        r@ == mount_json(*mount),
        r@.storable(),
{
    let members = vec![
        ("Type".to_owned(), Json::text("bind")),
        ("Source".to_owned(), Json::text(mount.source.as_str())),
        ("Target".to_owned(), Json::text(mount.target.as_str())),
        ("ReadOnly".to_owned(), Json::Bool(mount.read_only)),
    ];
    let ghost listed = seq![
        ("Type"@, JsonModel::Str("bind"@)),
        ("Source"@, JsonModel::Str(mount.source@)),
        ("Target"@, JsonModel::Str(mount.target@)),
        ("ReadOnly"@, JsonModel::Bool(mount.read_only)),
    ];
    proof {
        assert(member_models(members@) =~= listed);
        lemma_object_storable(listed);
    }
    Json::object(members)
}

fn labels_value(labels: &[(String, String)]) -> (r: Json)
    ensures
        r@ == labels_json(labels@),
        r@.storable(),
{
    let mut members: Vec<(String, Json)> = Vec::new();
    let mut i: usize = 0;
    while i < labels.len()
        invariant
            i <= labels@.len(),
            members@.len() == i,
            forall|k: int|
                0 <= k < i ==> (#[trigger] members@[k]).0@ == labels@[k].0@ && members@[k].1@
                    == JsonModel::Str(labels@[k].1@),
        decreases labels@.len() - i,
    {
        members.push((labels[i].0.clone(), Json::Str(labels[i].1.clone())));
        i += 1;
    }
    proof {
        let listed = Seq::new(
            labels@.len(),
            |i: int| (labels@[i].0@, JsonModel::Str(labels@[i].1@)),
        );
        assert(member_models(members@) =~= listed);
        lemma_object_storable(listed);
    }
    Json::object(members)
}

fn mounts_value(mounts: &[Mount]) -> (r: Json)
    ensures
        r@ == JsonModel::List(Seq::new(mounts@.len(), |i: int| mount_json(mounts@[i]))),
        r@.storable(),
{
    let mut items: Vec<Json> = Vec::new();
    let mut i: usize = 0;
    while i < mounts.len()
        invariant
            i <= mounts@.len(),
            items@.len() == i,
            forall|k: int|
                0 <= k < i ==> (#[trigger] items@[k])@ == mount_json(mounts@[k])
                    && items@[k]@.storable(),
        decreases mounts@.len() - i,
    {
        items.push(mount_value(&mounts[i]));
        i += 1;
    }
    proof {
        let all = models(items@);
        assert(all =~= Seq::new(mounts@.len(), |i: int| mount_json(mounts@[i])));
        assert forall|k: int| 0 <= k < all.len() implies (#[trigger] all[k]).storable() by {
            assert(items@[k]@.storable());
        }
    }
    Json::list(items)
}

/// Where a container is created: under its name, where it has one.
pub open spec fn create_target(name: Option<&str>) -> Seq<char> {
    match name {
        Some(text) => API@ + "/containers/create?name="@ + query_value(text@),
        None => API@ + "/containers/create"@,
    }
}

/// Asks for a container, which is not started yet.
pub fn container_create_request(create: &Create) -> (r: Request)
    ensures
        r.sends("POST"@, create_target(create.name), create_body(*create), false),
{
    let target = match create.name {
        Some(name) => join3(API, "/containers/create?name=", encode(name).as_str()),
        None => join2(API, "/containers/create"),
    };
    let mounts = mounts_value(create.mounts);
    let ghost mounts_model = mounts@;
    let host_config = vec![("Mounts".to_owned(), mounts)];
    proof {
        let listed = seq![("Mounts"@, mounts_model)];
        assert(member_models(host_config@) =~= listed);
        lemma_object_storable(listed);
    }
    let members = vec![
        ("Image".to_owned(), Json::text(create.image)),
        ("Cmd".to_owned(), strings_value(create.cmd)),
        ("Env".to_owned(), env_value(create.env)),
        ("WorkingDir".to_owned(), Json::text(create.working_dir)),
        ("Labels".to_owned(), labels_value(create.labels)),
        ("HostConfig".to_owned(), Json::object(host_config)),
    ];
    let ghost listed = seq![
        ("Image"@, JsonModel::Str(create.image@)),
        ("Cmd"@, strings_json(crate::text::texts(create.cmd@))),
        ("Env"@, env_json(create.env@)),
        ("WorkingDir"@, JsonModel::Str(create.working_dir@)),
        ("Labels"@, labels_json(create.labels@)),
        ("HostConfig"@, object_of(seq![("Mounts"@, mounts_model)])),
    ];
    proof {
        assert(member_models(members@) =~= listed);
        lemma_object_storable(listed);
    }
    post(target, Json::object(members), false)
}

/// Asks for a created container to run.
pub fn container_start_request(container: &str) -> (r: Request)
    ensures
        r.calls("POST"@, container_target(container@, "/start"@)),
{
    Request {
        method: "POST",
        target: at_container(container, "/start"),
        body: None,
        hijack: false,
    }
}

/// Asks for a container to be removed, killed first if it is running.
pub fn container_remove_request(container: &str) -> (r: Request)
    ensures
        r.calls("DELETE"@, container_target(container@, "?force=true"@)),
{
    Request {
        method: "DELETE",
        target: at_container(container, "?force=true"),
        body: None,
        hijack: false,
    }
}

/// Where an image is pulled from.
pub open spec fn pull_target(reference: Seq<char>) -> Seq<char> {
    let (image, tag) = tag_split(reference);
    API@ + "/images/create?fromImage="@ + query_value(image) + "&tag="@ + query_value(tag)
}

/// Asks for an image to be pulled.
pub fn image_pull_request(reference: &str) -> (r: Request)
    ensures
        r.calls("POST"@, pull_target(reference@)),
{
    let (image, tag) = split_tag(reference);
    let target = join5(
        API,
        "/images/create?fromImage=",
        encode(image).as_str(),
        "&tag=",
        encode(tag).as_str(),
    );
    Request { method: "POST", target, body: None, hijack: false }
}

// ---------------------------------------------------------------------------
// Answers
// ---------------------------------------------------------------------------

/// The text that a document's member called `key` holds.
pub open spec fn text_at(payload: Seq<u8>, key: Seq<char>) -> Option<Seq<char>> {
    match parsed(payload) {
        Some(value) => value.str_at(key),
        None => None,
    }
}

fn find_text(payload: &[u8], key: &str) -> (r: Option<String>)
    ensures
        opt(r) == text_at(payload@, key@),
{
    match Json::parse(payload) {
        Some(value) => match value.str_at(key) {
            Some(text) => Some(text.to_owned()),
            None => None,
        },
        None => None,
    }
}

/// A refusal of `what`, given what the body says for itself.
pub open spec fn refusal_of(status: u16, said: Option<Seq<char>>, what: Seq<char>) -> FaultModel {
    let message = match said {
        Some(text) => text,
        None => "the daemon answered "@ + decimal(status as nat),
    };
    if status == 404 {
        FaultModel::Denied(DenialModel::NotFound { path: what })
    } else if status == 409 {
        FaultModel::Unreachable("`"@ + what + "` is not running: "@ + message)
    } else if 400 <= status <= 499 {
        FaultModel::Denied(DenialModel::Malformed { what: "docker request"@, reason: message })
    } else {
        FaultModel::Unreachable(message)
    }
}

/// A refusal of `what`, given what the body says for itself.
pub fn refused_saying(status: u16, said: Option<String>, what: &str) -> (r: Fault)
    ensures
        r@ == refusal_of(status, opt(said), what@),
{
    let message = match said {
        Some(text) => text,
        None => join2("the daemon answered ", decimal_of(status as u64).as_str()),
    };
    if status == 404 {
        Fault::Denied(Denial::NotFound { path: what.to_owned() })
    } else if status == 409 {
        // A stopped container cannot exec. It is not gone and the request was
        // not malformed, so the honest answer is that it could not be reached.
        Fault::Unreachable(join4("`", what, "` is not running: ", message.as_str()))
    } else if 400 <= status && status <= 499 {
        Fault::Denied(Denial::Malformed { what: "docker request".to_owned(), reason: message })
    } else {
        Fault::Unreachable(message)
    }
}

/// A daemon's refusal, carried across as the class the agent should act on.
///
/// A 4xx is about the request and a 5xx is about the daemon, which is the same
/// split the agent already knows how to repair.
pub fn refused(status: u16, payload: &[u8], what: &str) -> (r: Fault)
    ensures
        r@ == refusal_of(status, text_at(payload@, "message"@), what@),
{
    refused_saying(status, find_text(payload, "message"), what)
}

/// A stopped container is unreachable rather than denied, and a missing path
/// is not found, whatever the body says.
pub proof fn some_refusals_do_not_listen_to_the_body(said: Option<Seq<char>>, what: Seq<char>)
    ensures
        refusal_of(409, said, what) is Unreachable,
        refusal_of(404, said, what) == FaultModel::Denied(DenialModel::NotFound { path: what }),
{
}

/// Whether a status reports success.
pub open spec fn succeeded(status: u16) -> bool {
    200 <= status <= 299
}

fn ok(status: u16) -> (r: bool)
    ensures
        r == succeeded(status),
{
    200 <= status && status <= 299
}

/// Network facts needed to address a service inside a container.
#[derive(Debug)]
pub struct ContainerNetworks {
    /// Docker's network mode. The caller owns policy for which modes it will
    /// publish.
    pub mode: String,
    /// Attached network name and non-empty address pairs.
    pub addresses: Vec<(String, String)>,
}

/// The mode an inspected container is attached in.
pub open spec fn network_mode(value: JsonModel) -> Seq<char> {
    match value.get("HostConfig"@) {
        Some(config) => match config.str_at("NetworkMode"@) {
            Some(mode) => mode,
            None => Seq::empty(),
        },
        None => Seq::empty(),
    }
}

/// The networks an inspected container is attached to.
pub open spec fn attached(value: JsonModel) -> Map<Seq<char>, JsonModel> {
    match value.get("NetworkSettings"@) {
        Some(settings) => match settings.get("Networks"@) {
            Some(JsonModel::Object(networks)) => networks,
            _ => Map::empty(),
        },
        None => Map::empty(),
    }
}

/// The address a container has in a network.
pub open spec fn address_in(network: JsonModel) -> Option<Seq<char>> {
    match network.str_at("IPAddress"@) {
        Some(text) => if trimmed(text).len() > 0 {
            Some(trimmed(text))
        } else {
            None
        },
        None => None,
    }
}

/// Whether `addresses` lists, by name and each once, the networks that the
/// container has an address in.
pub open spec fn lists_addresses(
    addresses: Seq<(String, String)>,
    networks: Map<Seq<char>, JsonModel>,
) -> bool {
    &&& forall|i: int, j: int|
        0 <= i < j < addresses.len() ==> precedes(
            (#[trigger] addresses[i]).0@,
            (#[trigger] addresses[j]).0@,
        )
    &&& forall|i: int|
        0 <= i < addresses.len() ==> networks.dom().contains((#[trigger] addresses[i]).0@)
            && address_in(networks[addresses[i].0@]) == Some(addresses[i].1@)
    &&& forall|name: Seq<char>| #[trigger]
        networks.dom().contains(name) && address_in(networks[name]) is Some ==> named(
            addresses,
            name,
        )
}

/// Whether one of the pairs goes by `name`.
pub open spec fn named(addresses: Seq<(String, String)>, name: Seq<char>) -> bool {
    exists|i: int| 0 <= i < addresses.len() && (#[trigger] addresses[i]).0@ == name
}

fn address_of(network: &Json) -> (r: Option<String>)
    ensures
        opt(r) == address_in(network@),
{
    match network.str_at("IPAddress") {
        Some(text) => {
            let address = trim(text);
            if address.is_empty() {
                None
            } else {
                Some(address.to_owned())
            }
        },
        None => None,
    }
}

/// Puts a pair where its name belongs.
fn insert_sorted(addresses: &mut Vec<(String, String)>, name: String, address: String)
    requires
        forall|i: int, j: int|
            0 <= i < j < old(addresses)@.len() ==> precedes(
                (#[trigger] old(addresses)@[i]).0@,
                (#[trigger] old(addresses)@[j]).0@,
            ),
        !named(old(addresses)@, name@),
    ensures
        forall|i: int, j: int|
            0 <= i < j < final(addresses)@.len() ==> precedes(
                (#[trigger] final(addresses)@[i]).0@,
                (#[trigger] final(addresses)@[j]).0@,
            ),
        forall|i: int|
            0 <= i < final(addresses)@.len() ==> #[trigger] final(addresses)@[i] == (name, address)
                || old(addresses)@.contains(final(addresses)@[i]),
        forall|pair: (String, String)| #[trigger]
            old(addresses)@.contains(pair) ==> final(addresses)@.contains(pair),
        final(addresses)@.contains((name, address)),
{
    let ghost before = addresses@;
    let ghost pair = (name, address);
    let mut at: usize = 0;
    while at < addresses.len() && is_before(addresses[at].0.as_str(), name.as_str())
        invariant
            at <= addresses@.len(),
            addresses@ == before,
            forall|k: int| 0 <= k < at ==> precedes((#[trigger] before[k]).0@, name@),
        decreases addresses@.len() - at,
    {
        at += 1;
    }
    proof {
        if at < before.len() {
            lemma_precedes_total(before[at as int].0@, name@);
            assert(before[at as int].0@ != name@);
            assert forall|k: int| at < k < before.len() implies precedes(
                name@,
                (#[trigger] before[k]).0@,
            ) by {
                lemma_precedes_transitive(name@, before[at as int].0@, before[k].0@);
            }
        }
        before.insert_ensures(at as int, pair);
    }
    addresses.insert(at, (name, address));
    proof {
        let now = addresses@;
        assert(now =~= before.insert(at as int, pair));
        assert(now[at as int] == pair);
        assert forall|p: (String, String)| #[trigger] before.contains(p) implies now.contains(p) by {
            let k = choose|k: int| 0 <= k < before.len() && before[k] == p;
            if k < at {
                assert(now[k] == p);
            } else {
                assert(now[k + 1] == p);
            }
        }
        assert forall|i: int| 0 <= i < now.len() implies #[trigger] now[i] == pair
            || before.contains(now[i]) by {
            if i < at {
                assert(now[i] == before[i]);
            } else if i > at {
                assert(now[i] == before[i - 1]);
            }
        }
        assert forall|i: int, j: int| 0 <= i < j < now.len() implies precedes(
            (#[trigger] now[i]).0@,
            (#[trigger] now[j]).0@,
        ) by {
            let x = if i < at {
                before[i].0@
            } else if i == at {
                name@
            } else {
                before[i - 1].0@
            };
            let y = if j < at {
                before[j].0@
            } else if j == at {
                name@
            } else {
                before[j - 1].0@
            };
            assert(now[i].0@ == x && now[j].0@ == y);
        }
    }
}

/// Every name that a list of members spells out is among them.
proof fn lemma_members_dom(members: Seq<(Seq<char>, JsonModel)>)
    ensures
        forall|name: Seq<char>| #[trigger]
            members_map(members).dom().contains(name) <==> exists|i: int|
                0 <= i < members.len() && (#[trigger] members[i]).0 == name,
    decreases members.len(),
{
    if members.len() > 0 {
        let shorter = members.drop_last();
        lemma_members_dom(shorter);
        assert forall|name: Seq<char>| #[trigger]
            members_map(members).dom().contains(name) <==> exists|i: int|
                0 <= i < members.len() && (#[trigger] members[i]).0 == name by {
            if members_map(members).dom().contains(name) {
                if name == members.last().0 {
                    assert(members[members.len() - 1].0 == name);
                } else {
                    assert(members_map(shorter).dom().contains(name));
                    let i = choose|i: int|
                        0 <= i < shorter.len() && (#[trigger] shorter[i]).0 == name;
                    assert(members[i].0 == name);
                }
            }
            if exists|i: int| 0 <= i < members.len() && (#[trigger] members[i]).0 == name {
                let i = choose|i: int| 0 <= i < members.len() && (#[trigger] members[i]).0 == name;
                if i < shorter.len() {
                    assert(shorter[i].0 == name);
                    assert(members_map(shorter).dom().contains(name));
                }
            }
        }
    }
}

fn has_name(addresses: &Vec<(String, String)>, name: &str) -> (r: bool)
    ensures
        r == named(addresses@, name@),
{
    let mut i: usize = 0;
    while i < addresses.len()
        invariant
            i <= addresses@.len(),
            forall|k: int| 0 <= k < i ==> (#[trigger] addresses@[k]).0@ != name@,
        decreases addresses@.len() - i,
    {
        if crate::text::same(addresses[i].0.as_str(), name) {
            assert(addresses@[i as int].0@ == name@);
            return true;
        }
        i += 1;
    }
    false
}

fn addresses_of(networks: &Json) -> (r: Vec<(String, String)>)
    requires
        networks@ is Object,
    ensures
        lists_addresses(r@, networks@->Object_0),
{
    let ghost map = networks@->Object_0;
    let mut addresses: Vec<(String, String)> = Vec::new();
    if let Some(members) = networks.as_object() {
        let ghost all = member_models(members@);
        proof {
            lemma_members_dom(all);
        }
        let mut i: usize = 0;
        while i < members.len()
            invariant
                i <= members@.len(),
                all == member_models(members@),
                networks@ == JsonModel::Object(map),
                forall|k: int| 0 <= k < all.len() ==> map.dom().contains((#[trigger] all[k]).0),
                forall|m: int, n: int|
                    0 <= m < n < addresses@.len() ==> precedes(
                        (#[trigger] addresses@[m]).0@,
                        (#[trigger] addresses@[n]).0@,
                    ),
                forall|m: int|
                    0 <= m < addresses@.len() ==> map.dom().contains((#[trigger] addresses@[m]).0@)
                        && address_in(map[addresses@[m].0@]) == Some(addresses@[m].1@),
                forall|k: int|
                    0 <= k < i && address_in(map[(#[trigger] all[k]).0]) is Some ==> named(
                        addresses@,
                        all[k].0,
                    ),
            decreases members@.len() - i,
        {
            let name = &members[i].0;
            assert(all[i as int].0 == name@);
            let ghost before = addresses@;
            if !has_name(&addresses, name.as_str()) {
                if let Some(network) = networks.get(name.as_str()) {
                    if let Some(address) = address_of(network) {
                        let ghost pair = (*name, address);
                        insert_sorted(&mut addresses, name.clone(), address);
                        proof {
                            let now = addresses@;
                            assert forall|m: int| 0 <= m < now.len() implies map.dom().contains(
                                (#[trigger] now[m]).0@,
                            ) && address_in(map[now[m].0@]) == Some(now[m].1@) by {
                                if before.contains(now[m]) {
                                    let k = choose|k: int| 0 <= k < before.len() && before[k] == now[m];
                                    assert(before[k] == now[m]);
                                }
                            }
                            assert forall|k: int|
                                0 <= k < i + 1 && address_in(
                                    map[(#[trigger] all[k]).0],
                                ) is Some implies named(now, all[k].0) by {
                                if k < i {
                                    let m = choose|m: int|
                                        0 <= m < before.len() && (#[trigger] before[m]).0@
                                            == all[k].0;
                                    assert(before.contains(before[m]));
                                    let n = choose|n: int|
                                        0 <= n < now.len() && now[n] == before[m];
                                    assert(now[n].0@ == all[k].0);
                                } else {
                                    let n = choose|n: int| 0 <= n < now.len() && now[n] == pair;
                                    assert(now[n].0@ == all[k].0);
                                }
                            }
                        }
                    }
                }
            }
            i += 1;
        }
        proof {
            assert forall|name: Seq<char>| #[trigger]
                map.dom().contains(name) && address_in(map[name]) is Some implies named(
                addresses@,
                name,
            ) by {
                let k = choose|k: int| 0 <= k < all.len() && (#[trigger] all[k]).0 == name;
                assert(all[k].0 == name);
            }
        }
    }
    addresses
}

/// The network portion of an inspected container.
pub fn networks_of(value: &Json) -> (r: ContainerNetworks)
    ensures
        r.mode@ == network_mode(value@),
        lists_addresses(r.addresses@, attached(value@)),
{
    let mode = match value.get("HostConfig") {
        Some(config) => match config.str_at("NetworkMode") {
            Some(mode) => mode.to_owned(),
            None => String::new(),
        },
        None => String::new(),
    };
    let mut addresses: Vec<(String, String)> = Vec::new();
    if let Some(settings) = value.get("NetworkSettings") {
        if let Some(networks) = settings.get("Networks") {
            if networks.as_object().is_some() {
                addresses = addresses_of(networks);
            }
        }
    }
    ContainerNetworks { mode, addresses }
}

/// Reads only the network portion of one container's inspect response.
pub fn parse_container_networks(payload: &[u8]) -> (r: Result<ContainerNetworks, Fault>)
    ensures
        match parsed(payload@) {
            Some(value) => r matches Ok(networks) && networks.mode@ == network_mode(value)
                && lists_addresses(networks.addresses@, attached(value)),
            None => faulted(r) == Some(
                FaultModel::Unreachable("the daemon sent unreadable container state"@),
            ),
        },
{
    match Json::parse(payload) {
        Some(value) => Ok(networks_of(&value)),
        None => Err(Fault::Unreachable("the daemon sent unreadable container state".to_owned())),
    }
}

/// What an inspected container's networks are.
pub fn container_networks(status: u16, payload: &[u8], container: &str) -> (r: Result<
    ContainerNetworks,
    Fault,
>)
    ensures
        if !succeeded(status) {
            faulted(r) == Some(
                refusal_of(status, text_at(payload@, "message"@), container@),
            )
        } else {
            match parsed(payload@) {
                Some(value) => r matches Ok(networks) && networks.mode@ == network_mode(value)
                    && lists_addresses(networks.addresses@, attached(value)),
                None => faulted(r) == Some(
                    FaultModel::Unreachable("the daemon sent unreadable container state"@),
                ),
            }
        },
{
    if !ok(status) {
        return Err(refused(status, payload, container));
    }
    parse_container_networks(payload)
}

/// The id that a creation was answered with.
pub open spec fn created_id(
    status: u16,
    payload: Seq<u8>,
    what: Seq<char>,
    nameless: Seq<char>,
) -> Result<Seq<char>, FaultModel> {
    if !succeeded(status) {
        Err(refusal_of(status, text_at(payload, "message"@), what))
    } else {
        match text_at(payload, "Id"@) {
            Some(id) => Ok(id),
            None => Err(FaultModel::Unreachable(nameless)),
        }
    }
}

/// Whether a result is the given one.
pub open spec fn gives(r: Result<String, Fault>, expected: Result<Seq<char>, FaultModel>) -> bool {
    match expected {
        Ok(text) => r matches Ok(s) && s@ == text,
        Err(fault) => r matches Err(f) && f@ == fault,
    }
}

/// The id of a created exec.
pub fn exec_create(status: u16, payload: &[u8], container: &str) -> (r: Result<String, Fault>)
    ensures
        gives(
            r,
            created_id(
                status,
                payload@,
                container@,
                "the daemon created an exec with no id"@,
            ),
        ),
{
    if !ok(status) {
        return Err(refused(status, payload, container));
    }
    match find_text(payload, "Id") {
        Some(id) => Ok(id),
        None => Err(Fault::Unreachable("the daemon created an exec with no id".to_owned())),
    }
}

/// Whether an exec was started. 101 is the hijack; some daemons answer 200 and
/// stream instead.
pub fn exec_start(status: u16, payload: &[u8], exec: &str) -> (r: Result<(), Fault>)
    ensures
        faulted(r) == if status == 101 || status == 200 {
            None
        } else {
            Some(refusal_of(status, text_at(payload@, "message"@), exec@))
        },
{
    if status != 101 && status != 200 {
        return Err(refused(status, payload, exec));
    }
    Ok(())
}

/// What an exec is doing, as the daemon sees it.
#[derive(Debug, Clone, Copy, PartialEq, Eq, Structural)]
pub struct ExecState {
    pub running: bool,
    pub exit_code: Option<i64>,
}

/// The state that an inspected exec is in.
pub open spec fn exec_state_of(value: JsonModel) -> ExecState {
    ExecState {
        running: match value.get("Running"@) {
            Some(JsonModel::Bool(b)) => b,
            _ => false,
        },
        exit_code: match value.get("ExitCode"@) {
            Some(JsonModel::Int(n)) => if i64::MIN <= n <= i64::MAX {
                Some(n as i64)
            } else {
                None
            },
            _ => None,
        },
    }
}

/// The state that an inspected exec is in.
pub fn exec_state(value: &Json) -> (r: ExecState)
    ensures
        r == exec_state_of(value@),
{
    let running = match value.get("Running") {
        Some(Json::Bool(b)) => *b,
        _ => false,
    };
    let exit_code = match value.get("ExitCode") {
        Some(Json::Int(n)) => if -9223372036854775808i128 <= *n && *n
            <= 9223372036854775807i128 {
            Some(*n as i64)
        } else {
            None
        },
        _ => None,
    };
    ExecState { running, exit_code }
}

/// What an exec is doing.
pub fn exec_inspect(status: u16, payload: &[u8], exec: &str) -> (r: Result<ExecState, Fault>)
    ensures
        if !succeeded(status) {
            faulted(r) == Some(refusal_of(status, text_at(payload@, "message"@), exec@))
        } else {
            match parsed(payload@) {
                Some(value) => r == Ok::<ExecState, Fault>(exec_state_of(value)),
                None => faulted(r) == Some(
                    FaultModel::Unreachable("the daemon sent an unreadable exec state"@),
                ),
            }
        },
{
    if !ok(status) {
        return Err(refused(status, payload, exec));
    }
    match Json::parse(payload) {
        Some(value) => Ok(exec_state(&value)),
        None => Err(Fault::Unreachable("the daemon sent an unreadable exec state".to_owned())),
    }
}

/// How a call on a container's archive failed, if it did.
pub open spec fn archive_fault(status: u16, payload: Seq<u8>, path: Seq<char>) -> Option<
    FaultModel,
> {
    if status == 200 {
        None
    } else if status == 404 {
        Some(FaultModel::Denied(DenialModel::NotFound { path }))
    } else {
        Some(refusal_of(status, text_at(payload, "message"@), path))
    }
}

/// The tar that a path was answered with.
pub fn archive_get(status: u16, payload: Vec<u8>, path: &str) -> (r: Result<Vec<u8>, Fault>)
    ensures
        faulted(r) == archive_fault(status, payload@, path@),
        r matches Ok(tar) ==> tar@ == payload@,
{
    if status == 200 {
        Ok(payload)
    } else if status == 404 {
        Err(Fault::Denied(Denial::NotFound { path: path.to_owned() }))
    } else {
        Err(refused(status, payload.as_slice(), path))
    }
}

/// Whether a tar was unpacked.
pub fn archive_put(status: u16, payload: &[u8], directory: &str) -> (r: Result<(), Fault>)
    ensures
        faulted(r) == archive_fault(status, payload@, directory@),
{
    if status == 200 {
        Ok(())
    } else if status == 404 {
        Err(Fault::Denied(Denial::NotFound { path: directory.to_owned() }))
    } else {
        Err(refused(status, payload, directory))
    }
}

/// What a path's stat header says, given the bytes it decodes to: nothing
/// where there is no header, or no document in it.
pub open spec fn stat_of(header: Option<Option<Seq<u8>>>) -> Result<Option<JsonModel>, FaultModel> {
    match header {
        None => Ok(None),
        Some(None) => Err(FaultModel::Unreachable("unreadable path stat"@)),
        Some(Some(raw)) => Ok(parsed(raw)),
    }
}

/// What a path's stat header says, given the bytes it decodes to.
pub fn read_stat(header: Option<Option<Vec<u8>>>) -> (r: Result<Option<Json>, Fault>)
    ensures
        ({
            let decoded = match header {
                None => None,
                Some(None) => Some(None),
                Some(Some(raw)) => Some(Some(raw@)),
            };
            match stat_of(decoded) {
                Ok(value) => r matches Ok(v) && crate::json::opt_json(v) == value,
                Err(fault) => r matches Err(f) && f@ == fault,
            }
        }),
{
    match header {
        None => Ok(None),
        Some(None) => Err(Fault::Unreachable("unreadable path stat".to_owned())),
        Some(Some(raw)) => Ok(Json::parse(raw.as_slice())),
    }
}

/// What the daemon knows about one path. The stat rides in a header rather
/// than the body.
pub fn archive_stat(status: u16, header: Option<String>, path: &str) -> (r: Result<
    Option<Json>,
    Fault,
>)
    ensures
        if status == 200 {
            let decoded = match header {
                None => None,
                Some(text) => Some(base64_bytes(text@)),
            };
            match stat_of(decoded) {
                Ok(value) => r matches Ok(v) && crate::json::opt_json(v) == value,
                Err(fault) => r matches Err(f) && f@ == fault,
            }
        } else if status == 404 {
            r matches Ok(v) && v is None
        } else {
            r matches Err(f) && f@ == refusal_of(
                status,
                text_at(Seq::empty(), "message"@),
                path@,
            )
        },
{
    if status == 200 {
        let decoded = match header {
            None => None,
            Some(text) => Some(base64_decode(text.as_str())),
        };
        read_stat(decoded)
    } else if status == 404 {
        Ok(None)
    } else {
        let nothing: Vec<u8> = Vec::new();
        assert(nothing@ =~= Seq::<u8>::empty());
        Err(refused(status, nothing.as_slice(), path))
    }
}

/// The id of a created container. A missing image is reported as not found
/// under its reference, so a caller that wants to pull and retry can tell that
/// case apart.
pub fn container_create(status: u16, payload: &[u8], image: &str) -> (r: Result<String, Fault>)
    ensures
        gives(
            r,
            created_id(
                status,
                payload@,
                image@,
                "the daemon created a container with no id"@,
            ),
        ),
{
    if status == 404 {
        return Err(Fault::Denied(Denial::NotFound { path: image.to_owned() }));
    }
    if !ok(status) {
        return Err(refused(status, payload, image));
    }
    match find_text(payload, "Id") {
        Some(id) => Ok(id),
        None => Err(Fault::Unreachable("the daemon created a container with no id".to_owned())),
    }
}

/// Whether a container runs. Starting one already running is not an error: the
/// caller asked for a running container, which is what it has.
pub fn container_start(status: u16, payload: &[u8], container: &str) -> (r: Result<(), Fault>)
    ensures
        faulted(r) == if status == 200 || status == 204 || status == 304 {
            None
        } else {
            Some(refusal_of(status, text_at(payload@, "message"@), container@))
        },
{
    if status == 200 || status == 204 || status == 304 {
        Ok(())
    } else {
        Err(refused(status, payload, container))
    }
}

/// Whether a container is gone. Already gone is the state the caller asked
/// for.
pub fn container_remove(status: u16, payload: &[u8], container: &str) -> (r: Result<(), Fault>)
    ensures
        faulted(r) == if status == 200 || status == 204 || status == 404 {
            None
        } else {
            Some(refusal_of(status, text_at(payload@, "message"@), container@))
        },
{
    if status == 200 || status == 204 || status == 404 {
        Ok(())
    } else {
        Err(refused(status, payload, container))
    }
}

/// The first error that a list of progress lines reports.
pub open spec fn first_error(lines: Seq<Seq<u8>>) -> Option<Seq<char>>
    decreases lines.len(),
{
    if lines.len() == 0 {
        None
    } else {
        match text_at(lines[0], "error"@) {
            Some(error) => Some(error),
            None => first_error(lines.drop_first()),
        }
    }
}

/// Whether an image was pulled.
///
/// The daemon answers success immediately and then streams progress as JSON
/// lines, reporting a failure *inside* that stream: a pull that could not
/// authenticate looks exactly like a successful one until the body is read to
/// the end.
pub fn image_pull(status: u16, payload: &[u8], reference: &str) -> (r: Result<(), Fault>)
    ensures
        faulted(r) == if !succeeded(status) {
            Some(refusal_of(status, text_at(payload@, "message"@), reference@))
        } else {
            match first_error(split_on(payload@, 10u8)) {
                Some(error) => Some(
                    FaultModel::Denied(
                        DenialModel::Malformed {
                            what: "image reference"@,
                            reason: "could not pull `"@ + reference@ + "`: "@ + error,
                        },
                    ),
                ),
                None => None,
            }
        },
{
    if !ok(status) {
        return Err(refused(status, payload, reference));
    }
    let lines = split_bytes(payload, 10);
    let ghost all = byte_texts(lines@);
    let mut i: usize = 0;
    assert(all.skip(0) =~= all);
    while i < lines.len()
        invariant
            i <= lines@.len(),
            all == byte_texts(lines@),
            all == split_on(payload@, 10u8),
            succeeded(status),
            first_error(all) == first_error(all.skip(i as int)),
        decreases lines@.len() - i,
    {
        assert(all.skip(i as int)[0] == lines@[i as int]@);
        if let Some(error) = find_text(lines[i].as_slice(), "error") {
            return Err(
                Fault::Denied(
                    Denial::Malformed {
                        what: "image reference".to_owned(),
                        reason: join4("could not pull `", reference, "`: ", error.as_str()),
                    },
                ),
            );
        }
        assert(all.skip(i as int).drop_first() =~= all.skip(i + 1));
        i += 1;
    }
    Ok(())
}

// ---------------------------------------------------------------------------
// What is asked and what is answered
// ---------------------------------------------------------------------------

/// A reference with a tag is split into its image and its tag, whatever port
/// its registry has; one with a digest is split at the digest; and one with
/// neither is the latest.
pub proof fn a_reference_is_split_at_its_tag(image: Seq<char>, tag: Seq<char>)
    requires
        !image.contains('@'),
        !tag.contains('/'),
        !tag.contains(':'),
        !tag.contains('@'),
    ensures
        tag_split(image + seq![':'] + tag) == (image, tag),
        tag_split(image + seq!['@'] + tag) == (image, tag),
        tag_split(tag) == (tag, "latest"@),
        tag_split(image + seq!['/'] + tag) == (image + seq!['/'] + tag, "latest"@),
{
    let tagged = image + seq![':'] + tag;
    let digested = image + seq!['@'] + tag;
    let bare = image + seq!['/'] + tag;
    let n = image.len() as int;
    lemma_absent(tag, '@');
    lemma_absent(tag, ':');
    lemma_absent(tag, '/');
    lemma_absent(image, '@');
    // A digest stands behind its `@`.
    lemma_last_of(image, '@', tag);
    assert(digested.take(n) =~= image);
    assert(digested.skip(n + 1) =~= tag);
    // A tag stands behind its `:`.
    assert(!tagged.contains('@')) by {
        if tagged.contains('@') {
            let k = choose|k: int| 0 <= k < tagged.len() && tagged[k] == '@';
            if k < n {
                assert(image.contains(image[k]));
            } else if k > n {
                assert(tag.contains(tag[k - n - 1]));
            }
        }
    }
    lemma_absent(tagged, '@');
    lemma_last_index(tagged, '/');
    let start = last_index(tagged, '/') + 1;
    if start - 1 > n {
        assert(tagged[start - 1] == tag[start - 1 - n - 1]);
        assert(tag.contains(tag[start - 1 - n - 1]));
    }
    assert(tagged[n] == ':');
    assert(start <= n);
    let rest = tagged.skip(start);
    assert(rest =~= image.skip(start) + seq![':'] + tag);
    lemma_last_of(image.skip(start), ':', tag);
    assert(tagged.take(n) =~= image);
    assert(tagged.skip(n + 1) =~= tag);
    // No colon behind the last `/` is no tag.
    assert(tag.skip(0) =~= tag);
    assert(!bare.contains('@')) by {
        if bare.contains('@') {
            let k = choose|k: int| 0 <= k < bare.len() && bare[k] == '@';
            if k < n {
                assert(image.contains(image[k]));
            } else if k > n {
                assert(tag.contains(tag[k - n - 1]));
            }
        }
    }
    lemma_absent(bare, '@');
    lemma_last_of(image, '/', tag);
    assert(bare.skip(n + 1) =~= tag);
}

proof fn lemma_absent(s: Seq<char>, c: char)
    requires
        !s.contains(c),
    ensures
        last_index(s, c) == -1,
{
    lemma_last_index(s, c);
    if last_index(s, c) >= 0 {
        assert(s.contains(s[last_index(s, c)]));
    }
}

proof fn lemma_last_of(head: Seq<char>, c: char, tail: Seq<char>)
    requires
        !tail.contains(c),
    ensures
        last_index(head + seq![c] + tail, c) == head.len(),
{
    let s = head + seq![c] + tail;
    lemma_last_index(s, c);
    let at = last_index(s, c);
    assert(s[head.len() as int] == c);
    if at > head.len() {
        assert(s[at] == tail[at - head.len() - 1]);
        assert(tail.contains(tail[at - head.len() - 1]));
    }
}

/// Lists are asked for item by item: every argument of a command in its place,
/// and every variable of an environment as its name, an equals sign and its
/// value.
pub proof fn a_list_is_asked_for_item_by_item(
    cmd: Seq<Seq<char>>,
    env: Seq<(String, String)>,
    i: int,
)
    ensures
        strings_json(cmd) matches JsonModel::List(items) && items.len() == cmd.len() && (0 <= i
            < cmd.len() ==> items[i] == JsonModel::Str(cmd[i])),
        env_json(env) matches JsonModel::List(items) && items.len() == env.len() && (0 <= i
            < env.len() ==> items[i] == JsonModel::Str(env[i].0@ + seq!['='] + env[i].1@)),
{
    reveal_strlit("=");
    assert("="@ =~= seq!['=']);
}

/// An exec is asked for with what it runs, in what environment, where, and on
/// what; its three streams are attached.
pub proof fn an_exec_is_asked_for_in_full(
    cmd: Seq<Seq<char>>,
    env: Seq<(String, String)>,
    workdir: Seq<char>,
    tty: bool,
)
    ensures
        ({
            let body = exec_body(cmd, env, workdir, tty);
            &&& body.get("Cmd"@) == Some(strings_json(cmd))
            &&& body.get("Env"@) == Some(env_json(env))
            &&& body.get("WorkingDir"@) == Some(JsonModel::Str(workdir))
            &&& body.get("Tty"@) == Some(JsonModel::Bool(tty))
            &&& body.get("AttachStdin"@) == Some(JsonModel::Bool(true))
            &&& body.get("AttachStdout"@) == Some(JsonModel::Bool(true))
            &&& body.get("AttachStderr"@) == Some(JsonModel::Bool(true))
        }),
{
    reveal_strlit("AttachStdin");
    reveal_strlit("AttachStdout");
    reveal_strlit("AttachStderr");
    reveal_strlit("Tty");
    reveal_strlit("Cmd");
    reveal_strlit("Env");
    reveal_strlit("WorkingDir");
    assert("AttachStdin"@.len() == 11 && "AttachStdout"@.len() == 12 && "AttachStderr"@.len()
        == 12 && "WorkingDir"@.len() == 10);
    assert("AttachStdout"@[9] == 'o' && "AttachStderr"@[9] == 'e');
    assert("Tty"@.len() == 3 && "Cmd"@.len() == 3 && "Env"@.len() == 3);
    assert("Tty"@[0] == 'T' && "Cmd"@[0] == 'C' && "Env"@[0] == 'E');
    let members = seq![
        ("AttachStdin"@, JsonModel::Bool(true)),
        ("AttachStdout"@, JsonModel::Bool(true)),
        ("AttachStderr"@, JsonModel::Bool(true)),
        ("Tty"@, JsonModel::Bool(tty)),
        ("Cmd"@, strings_json(cmd)),
        ("Env"@, env_json(env)),
        ("WorkingDir"@, JsonModel::Str(workdir)),
    ];
    an_object_holds_its_members(members, 0);
    an_object_holds_its_members(members, 1);
    an_object_holds_its_members(members, 2);
    an_object_holds_its_members(members, 3);
    an_object_holds_its_members(members, 4);
    an_object_holds_its_members(members, 5);
    an_object_holds_its_members(members, 6);
}

/// A container is asked for with what it is made of: its image, what it runs,
/// in what environment and where, every mount from where to where and whether
/// it can be written to, and every label.
pub proof fn a_container_is_asked_for_in_full(create: Create, i: int)
    ensures
        ({
            let body = create_body(create);
            &&& body.get("Image"@) == Some(JsonModel::Str(create.image@))
            &&& body.get("Cmd"@) == Some(strings_json(crate::text::texts(create.cmd@)))
            &&& body.get("Env"@) == Some(env_json(create.env@))
            &&& body.get("WorkingDir"@) == Some(JsonModel::Str(create.working_dir@))
            &&& body.get("Labels"@) == Some(labels_json(create.labels@))
            &&& body.get("HostConfig"@) matches Some(config) && config.get("Mounts"@) matches Some(
                JsonModel::List(mounts),
            ) && mounts.len() == create.mounts@.len() && (0 <= i < mounts.len() ==> {
                &&& mounts[i].get("Type"@) == Some(JsonModel::Str("bind"@))
                &&& mounts[i].get("Source"@) == Some(JsonModel::Str(create.mounts@[i].source@))
                &&& mounts[i].get("Target"@) == Some(JsonModel::Str(create.mounts@[i].target@))
                &&& mounts[i].get("ReadOnly"@) == Some(
                    JsonModel::Bool(create.mounts@[i].read_only),
                )
            })
        }),
        0 <= i < create.labels@.len() && (forall|j: int|
            i < j < create.labels@.len() ==> (#[trigger] create.labels@[j]).0@
                != create.labels@[i].0@) ==> labels_json(create.labels@).get(
            create.labels@[i].0@,
        ) == Some(JsonModel::Str(create.labels@[i].1@)),
{
    reveal_strlit("Image");
    reveal_strlit("Cmd");
    reveal_strlit("Env");
    reveal_strlit("WorkingDir");
    reveal_strlit("Labels");
    reveal_strlit("HostConfig");
    reveal_strlit("Mounts");
    assert("Image"@.len() == 5 && "Cmd"@.len() == 3 && "Env"@.len() == 3 && "WorkingDir"@.len()
        == 10 && "Labels"@.len() == 6 && "HostConfig"@.len() == 10);
    assert("Cmd"@[0] == 'C' && "Env"@[0] == 'E' && "WorkingDir"@[0] == 'W' && "HostConfig"@[0]
        == 'H');
    let config = seq![
        (
            "Mounts"@,
            JsonModel::List(
                Seq::new(create.mounts@.len(), |i: int| mount_json(create.mounts@[i])),
            ),
        ),
    ];
    let members = seq![
        ("Image"@, JsonModel::Str(create.image@)),
        ("Cmd"@, strings_json(crate::text::texts(create.cmd@))),
        ("Env"@, env_json(create.env@)),
        ("WorkingDir"@, JsonModel::Str(create.working_dir@)),
        ("Labels"@, labels_json(create.labels@)),
        ("HostConfig"@, object_of(config)),
    ];
    an_object_holds_its_members(config, 0);
    an_object_holds_its_members(members, 0);
    an_object_holds_its_members(members, 1);
    an_object_holds_its_members(members, 2);
    an_object_holds_its_members(members, 3);
    an_object_holds_its_members(members, 4);
    an_object_holds_its_members(members, 5);
    if 0 <= i < create.mounts@.len() {
        lemma_mount_members(create.mounts@[i]);
    }
    let labels = Seq::new(
        create.labels@.len(),
        |i: int| (create.labels@[i].0@, JsonModel::Str(create.labels@[i].1@)),
    );
    if 0 <= i < create.labels@.len() && forall|j: int|
        i < j < create.labels@.len() ==> (#[trigger] create.labels@[j]).0@
            != create.labels@[i].0@ {
        assert forall|j: int| i < j < labels.len() implies (#[trigger] labels[j]).0
            != labels[i].0 by {
            assert(create.labels@[j].0@ != create.labels@[i].0@);
        }
        an_object_holds_its_members(labels, i);
    }
}

proof fn lemma_mount_members(mount: Mount)
    ensures
        mount_json(mount).get("Type"@) == Some(JsonModel::Str("bind"@)),
        mount_json(mount).get("Source"@) == Some(JsonModel::Str(mount.source@)),
        mount_json(mount).get("Target"@) == Some(JsonModel::Str(mount.target@)),
        mount_json(mount).get("ReadOnly"@) == Some(JsonModel::Bool(mount.read_only)),
{
    reveal_strlit("Type");
    reveal_strlit("Source");
    reveal_strlit("Target");
    reveal_strlit("ReadOnly");
    assert("Type"@.len() == 4 && "Source"@.len() == 6 && "Target"@.len() == 6 && "ReadOnly"@.len()
        == 8);
    assert("Source"@[0] == 'S' && "Target"@[0] == 'T');
    let members = seq![
        ("Type"@, JsonModel::Str("bind"@)),
        ("Source"@, JsonModel::Str(mount.source@)),
        ("Target"@, JsonModel::Str(mount.target@)),
        ("ReadOnly"@, JsonModel::Bool(mount.read_only)),
    ];
    an_object_holds_its_members(members, 0);
    an_object_holds_its_members(members, 1);
    an_object_holds_its_members(members, 2);
    an_object_holds_its_members(members, 3);
}

/// Where a call goes tells what it is about: two containers, two execs, two
/// paths or two images are never asked for at one place.
pub proof fn a_target_tells_what_it_is_about(a: Seq<char>, b: Seq<char>, rest: Seq<char>)
    requires
        a != b,
    ensures
        container_target(a, rest) != container_target(b, rest),
        exec_target(a, rest) != exec_target(b, rest),
        archive_target(rest, a) != archive_target(rest, b),
{
    encoded_values_are_distinct(a, b);
    let (x, y) = (query_value(a), query_value(b));
    let head = API@ + "/containers/"@;
    lemma_middle(head, x, y, rest);
    lemma_middle(API@ + "/exec/"@, x, y, rest);
    let archive = head + query_value(rest) + "/archive?path="@;
    lemma_middle(archive, x, y, Seq::empty());
    assert(archive_target(rest, a) =~= archive + x + Seq::<char>::empty());
    assert(archive_target(rest, b) =~= archive + y + Seq::<char>::empty());
}

proof fn lemma_middle(head: Seq<char>, x: Seq<char>, y: Seq<char>, tail: Seq<char>)
    requires
        x != y,
    ensures
        head + x + tail != head + y + tail,
{
    let (p, q) = (head + x + tail, head + y + tail);
    assert(p.len() == head.len() + x.len() + tail.len());
    assert(q.len() == head.len() + y.len() + tail.len());
    if p == q {
        assert(x.len() == y.len());
        assert(p.subrange(head.len() as int, (head.len() + x.len()) as int) =~= x);
        assert(q.subrange(head.len() as int, (head.len() + y.len()) as int) =~= y);
    }
}

/// A refusal is of the class that its status is of: what is about the request
/// is a denial, what is about the daemon is not, and it is told in the daemon's
/// own words where it has any.
pub proof fn a_refusal_is_of_its_status_class(
    status: u16,
    said: Option<Seq<char>>,
    what: Seq<char>,
)
    ensures
        status / 100 == 4 && status != 409 <==> refusal_of(status, said, what) is Denied,
        status / 100 == 4 && status != 404 && status != 409 ==> (said matches Some(words)
            ==> refusal_of(status, said, what) == FaultModel::Denied(
            DenialModel::Malformed { what: "docker request"@, reason: words },
        )),
        status / 100 != 4 ==> (said matches Some(words) ==> refusal_of(status, said, what)
            == FaultModel::Unreachable(words)),
        status == 409 ==> (said matches Some(words) ==> (refusal_of(status, said, what)
            matches FaultModel::Unreachable(told) && words.is_suffix_of(told))),
        succeeded(status) <==> status / 100 == 2,
        archive_fault(200, Seq::empty(), what) is None,
        status != 200 ==> archive_fault(status, Seq::empty(), what) is Some,
{
    if let Some(words) = said {
        let told = "`"@ + what + "` is not running: "@ + words;
        assert(told.subrange(told.len() - words.len(), told.len() as int) =~= words);
    }
}

/// A pull fails by the first of its lines that reports an error, and succeeds
/// where none does.
pub proof fn the_first_error_counts(lines: Seq<Seq<u8>>, i: int)
    requires
        forall|j: int| 0 <= j < i ==> text_at(#[trigger] lines[j], "error"@) is None,
        0 <= i <= lines.len(),
    ensures
        i < lines.len() && text_at(lines[i], "error"@) is Some ==> first_error(lines) == text_at(
            lines[i],
            "error"@,
        ),
        i == lines.len() ==> first_error(lines) is None,
    decreases i,
{
    if i > 0 {
        let rest = lines.drop_first();
        assert(text_at(lines[0], "error"@) is None);
        assert forall|j: int| 0 <= j < i - 1 implies text_at(#[trigger] rest[j], "error"@)
            is None by {
            assert(text_at(lines[j + 1], "error"@) is None);
        }
        the_first_error_counts(rest, i - 1);
        if i < lines.len() {
            assert(rest[i - 1] == lines[i]);
        }
    }
}

/// An exec's state is read as the daemon gives it: every code that fits, and
/// running only where it says so.
pub proof fn an_exec_state_is_read_as_given(value: JsonModel, running: bool, code: i64)
    ensures
        value.get("Running"@) == Some(JsonModel::Bool(running)) ==> exec_state_of(value).running
            == running,
        value.get("Running"@) is None ==> !exec_state_of(value).running,
        value.get("ExitCode"@) == Some(JsonModel::Int(code as int)) ==> exec_state_of(
            value,
        ).exit_code == Some(code),
        value.get("ExitCode"@) is None || value.get("ExitCode"@) == Some(JsonModel::Null)
            ==> exec_state_of(value).exit_code is None,
{
}

/// A container's networks are read from where the daemon puts them, and its
/// address in one without the white space around it.
pub proof fn a_network_is_read_as_given(
    value: JsonModel,
    settings: JsonModel,
    networks: Map<Seq<char>, JsonModel>,
    network: JsonModel,
    text: Seq<char>,
)
    ensures
        value.get("NetworkSettings"@) == Some(settings) && settings.get("Networks"@) == Some(
            JsonModel::Object(networks),
        ) ==> attached(value) == networks,
        value.get("HostConfig"@) == Some(settings) && settings.str_at("NetworkMode"@) == Some(text)
            ==> network_mode(value) == text,
        network.str_at("IPAddress"@) == Some(text) ==> address_in(network) == if trimmed(
            text,
        ).len() > 0 {
            Some(trimmed(text))
        } else {
            None
        },
        network.str_at("IPAddress"@) is None ==> address_in(network) is None,
{
}

/// The number an upper-case hexadecimal digit stands for.
pub open spec fn upper_digit(c: char) -> int {
    if '0' <= c <= '9' {
        c as int - '0' as int
    } else {
        c as int - 'A' as int + 10
    }
}

/// A byte of a value stands for itself where it is a letter, a digit or one of
/// `-`, `_`, `.` and `~`, and is else written as `%` and its two digits; one more
/// byte is written behind the others.
pub proof fn a_byte_is_written_so_that_it_is_read_back(bytes: Seq<u8>, b: u8)
    ensures
        ({
            let c = b as char;
            let written = escaped(b);
            let plain = 'a' <= c <= 'z' || 'A' <= c <= 'Z' || '0' <= c <= '9' || c == '-' || c
                == '_' || c == '.' || c == '~';
            &&& plain ==> written == seq![c]
            &&& !plain ==> {
                &&& written.len() == 3 && written[0] == '%'
                &&& 16 * upper_digit(written[1]) + upper_digit(written[2]) == b
            }
        }),
        percent_encoded(bytes.push(b)) == percent_encoded(bytes) + escaped(b),
        percent_encoded(Seq::empty()).len() == 0,
{
    assert(bytes.push(b).drop_last() =~= bytes);
}

/// A mount is asked for as a bind of its source at its target, writable unless
/// it says otherwise.
pub proof fn a_mount_is_asked_for_as_it_is(mount: Mount)
    ensures
        mount_json(mount).get("Type"@) == Some(JsonModel::Str("bind"@)),
        mount_json(mount).get("Source"@) == Some(JsonModel::Str(mount.source@)),
        mount_json(mount).get("Target"@) == Some(JsonModel::Str(mount.target@)),
        mount_json(mount).get("ReadOnly"@) == Some(JsonModel::Bool(mount.read_only)),
{
    reveal_strlit("Type");
    reveal_strlit("Source");
    reveal_strlit("Target");
    reveal_strlit("ReadOnly");
    assert("Type"@.len() == 4 && "Source"@.len() == 6 && "Target"@.len() == 6 && "ReadOnly"@.len()
        == 8 && "Source"@[0] == 'S' && "Target"@[0] == 'T');
    let members = seq![
        ("Type"@, JsonModel::Str("bind"@)),
        ("Source"@, JsonModel::Str(mount.source@)),
        ("Target"@, JsonModel::Str(mount.target@)),
        ("ReadOnly"@, JsonModel::Bool(mount.read_only)),
    ];
    an_object_holds_its_members(members, 0);
    an_object_holds_its_members(members, 1);
    an_object_holds_its_members(members, 2);
    an_object_holds_its_members(members, 3);
}

/// A container is created under its name where it has one, and an image is
/// pulled by its name and its tag, each written so that it is read back.
pub proof fn a_call_is_made_by_name(name: &str, reference: Seq<char>)
    ensures
        create_target(Some(name)) == "/v1.41"@ + "/containers/create?name="@ + query_value(name@),
        create_target(None) == "/v1.41"@ + "/containers/create"@,
        pull_target(reference) == "/v1.41"@ + "/images/create?fromImage="@ + query_value(
            tag_split(reference).0,
        ) + "&tag="@ + query_value(tag_split(reference).1),
{
}

/// A call has the method and the target it is made with, and the body it sends.
pub proof fn a_request_is_what_it_is_made_with(
    request: Request,
    method: Seq<char>,
    target: Seq<char>,
    body: JsonModel,
    hijack: bool,
)
    ensures
        request.calls(method, target) ==> request.method@ == method && request.target@ == target
            && request.body is None && !request.hijack,
        request.sends(method, target, body, hijack) ==> request.method@ == method
            && request.target@ == target && request.hijack == hijack && (
        request.body matches Some(bytes) && bytes@ == crate::json::encoded(body)),
{
}

/// What was created is known by the id the daemon gave it, where the daemon
/// says that it did and gives one.
pub proof fn what_was_created_has_the_id_it_was_given(
    status: u16,
    payload: Seq<u8>,
    what: Seq<char>,
    nameless: Seq<char>,
    id: Seq<char>,
)
    ensures
        created_id(status, payload, what, nameless) == Ok::<Seq<char>, FaultModel>(id) <==> 200
            <= status < 300 && text_at(payload, "Id"@) == Some(id),
        200 <= status < 300 && text_at(payload, "Id"@) is None ==> created_id(
            status,
            payload,
            what,
            nameless,
        ) == Err::<Seq<char>, FaultModel>(FaultModel::Unreachable(nameless)),
{
}

/// What is said of a path is what its header holds: nothing where there is no
/// header, and a header that cannot be decoded is no stat.
pub proof fn a_stat_is_what_its_header_holds(raw: Seq<u8>)
    ensures
        stat_of(Some(Some(raw))) == Ok::<Option<JsonModel>, FaultModel>(parsed(raw)),
        stat_of(None) == Ok::<Option<JsonModel>, FaultModel>(None),
        stat_of(Some(None)) is Err,
{
}

/// The addresses of a container are listed each once and by name: every network
/// it has an address in, with the address it has there, and nothing else.
pub proof fn every_address_is_listed_once(
    addresses: Seq<(String, String)>,
    networks: Map<Seq<char>, JsonModel>,
    name: Seq<char>,
    i: int,
    j: int,
)
    requires
        lists_addresses(addresses, networks),
    ensures
        0 <= i < addresses.len() ==> networks.dom().contains(addresses[i].0@) && address_in(
            networks[addresses[i].0@],
        ) == Some(addresses[i].1@),
        0 <= i < j < addresses.len() ==> precedes(addresses[i].0@, addresses[j].0@)
            && addresses[i].0@ != addresses[j].0@,
        networks.dom().contains(name) && address_in(networks[name]) is Some ==> exists|k: int|
            0 <= k < addresses.len() && (#[trigger] addresses[k]).0@ == name && Some(
                addresses[k].1@,
            ) == address_in(networks[name]),
{
    if 0 <= i < j < addresses.len() {
        assert(precedes(addresses[i].0@, addresses[j].0@));
        crate::text::no_text_precedes_itself(addresses[i].0@);
    }
    if networks.dom().contains(name) && address_in(networks[name]) is Some {
        assert(named(addresses, name));
        let k = choose|k: int| 0 <= k < addresses.len() && (#[trigger] addresses[k]).0@ == name;
        assert(addresses[k].0@ == name);
    }
}

} // verus!
