//! JSON values, as `serde_json` holds, reads and writes them.
//!
//! Everything that this module takes from `serde_json` without proof stands
//! here: what a value holds ([`json`]), and what reading and writing one gives.

use crate::text::decimal;
use vstd::prelude::*;

verus! {

/// What a JSON value holds.
pub enum Json {
    /// `null`.
    Null,
    /// `true` or `false`.
    Bool(bool),
    /// A number, by the text that it is written with.
    Number(Seq<char>),
    /// A string.
    Text(Seq<char>),
    /// An array.
    Array(Seq<Json>),
    /// An object, by its members.
    Object(Map<Seq<char>, Json>),
}

/// `serde_json::Value`, opaque but for what [`json`] says that it holds.
#[verifier::external_type_specification]
#[verifier::external_body]
pub struct ExValue(serde_json::Value);

/// `serde_json::Error`, opaque but for its text.
#[verifier::external_type_specification]
#[verifier::external_body]
pub struct ExError(serde_json::Error);

/// What a `serde_json::Value` holds.
pub uninterp spec fn json(v: serde_json::Value) -> Json;

/// What `serde_json::from_str` reads from a text, if it is JSON.
pub uninterp spec fn json_of_text(text: Seq<char>) -> Option<Json>;

/// What `serde_json::from_slice` reads from bytes, if they are JSON.
pub uninterp spec fn json_of_bytes(bytes: Seq<u8>) -> Option<Json>;

/// The bytes that `serde_json::to_vec` writes for a value.
pub uninterp spec fn bytes_of_json(j: Json) -> Seq<u8>;

/// The indented text that `serde_json::to_string_pretty` writes for a value.
pub uninterp spec fn pretty_of_json(j: Json) -> Seq<char>;

/// The text that a `serde_json::Error` displays.
pub uninterp spec fn error_text(e: serde_json::Error) -> Seq<char>;

// ─── meaning ────────────────────────────────────────────────────────────────
/// The member of `j` under `key`, if `j` is an object that has it.
pub open spec fn member(j: Json, key: Seq<char>) -> Option<Json> {
    match j {
        Json::Object(m) => if m.contains_key(key) {
            Some(m[key])
        } else {
            None
        },
        _ => None,
    }
}

/// What the string `j` says, if it is one.
pub open spec fn text_in(j: Json) -> Option<Seq<char>> {
    match j {
        Json::Text(s) => Some(s),
        _ => None,
    }
}

/// What the boolean `j` is, if it is one.
pub open spec fn bool_in(j: Json) -> Option<bool> {
    match j {
        Json::Bool(b) => Some(b),
        _ => None,
    }
}

/// The members of an object that is filled with the pairs in turn.
pub open spec fn filled(pairs: Seq<(Seq<char>, Json)>) -> Map<Seq<char>, Json>
    decreases pairs.len(),
{
    if pairs.len() == 0 {
        Map::empty()
    } else {
        filled(pairs.drop_last()).insert(pairs.last().0, pairs.last().1)
    }
}

/// The object that is filled with the pairs in turn.
pub open spec fn object(pairs: Seq<(Seq<char>, Json)>) -> Json {
    Json::Object(filled(pairs))
}

/// Whether no key occurs twice.
pub open spec fn keys_differ(pairs: Seq<(Seq<char>, Json)>) -> bool {
    forall|i: int, j: int|
        0 <= i < j < pairs.len() ==> (#[trigger] pairs[i]).0 != (#[trigger] pairs[j]).0
}

/// The number `n` as a JSON value.
pub open spec fn number(n: nat) -> Json {
    Json::Number(decimal(n))
}

/// What pairs of a string and a value hold.
pub open spec fn pairs_in(pairs: Seq<(String, serde_json::Value)>) -> Seq<(Seq<char>, Json)> {
    Seq::new(pairs.len(), |i: int| (pairs[i].0@, json(pairs[i].1)))
}

/// What ends a line.
pub const LINE_FEED: u8 = 10;

/// Whether no line ends among the bytes.
pub open spec fn one_line(bytes: Seq<u8>) -> bool {
    forall|i: int| 0 <= i < bytes.len() ==> (#[trigger] bytes[i]) != LINE_FEED
}

/// How deep arrays and objects may be nested in what `serde_json` reads.
pub const NESTING_LIMIT: u32 = 127;

/// Whether a number is written without a fraction or an exponent, and fits 64 bits.
pub open spec fn whole(text: Seq<char>) -> bool {
    ||| exists|n: nat| n <= u64::MAX && text == #[trigger] decimal(n)
    ||| exists|n: nat|
        0 < n <= 0x8000_0000_0000_0000 && text == seq!['-'] + #[trigger] decimal(n)
}

/// Whether `j` has only whole numbers, and nests arrays and objects at most `depth`
/// deep.
pub open spec fn plain(j: Json, depth: nat) -> bool
    decreases depth,
{
    match j {
        Json::Number(text) => whole(text),
        Json::Array(items) => depth > 0 && forall|i: int|
            0 <= i < items.len() ==> plain(#[trigger] items[i], (depth - 1) as nat),
        Json::Object(members) => depth > 0 && forall|key: Seq<char>| #[trigger]
            members.contains_key(key) ==> plain(members[key], (depth - 1) as nat),
        _ => true,
    }
}

// ─── reading ────────────────────────────────────────────────────────────────
/// `serde_json::from_str` into a `Value`: the value that the text spells, or an
/// error. Which texts are JSON, and what they spell, is [`json_of_text`].
#[verifier::external_body]
pub(crate) fn parse_text(text: &str) -> (r: Result<serde_json::Value, serde_json::Error>)
    ensures
        match r {
            Ok(v) => json_of_text(text@) == Some(json(v)),
            Err(_) => json_of_text(text@) is None,
        },
{
    serde_json::from_str(text)
}

/// `serde_json::from_slice` into a `Value`: the value that the bytes spell, or
/// an error. Which bytes are JSON, and what they spell, is [`json_of_bytes`].
#[verifier::external_body]
pub(crate) fn parse_bytes(bytes: &[u8]) -> (r: Result<serde_json::Value, serde_json::Error>)
    ensures
        match r {
            Ok(v) => json_of_bytes(bytes@) == Some(json(v)),
            Err(_) => json_of_bytes(bytes@) is None,
        },
{
    serde_json::from_slice(bytes)
}

/// `Value::get` with a string: the member of an object under that key, and
/// nothing for a value that is no object.
#[verifier::external_body]
pub(crate) fn get<'a>(v: &'a serde_json::Value, key: &str) -> (r: Option<&'a serde_json::Value>)
    ensures
        match r {
            Some(w) => member(json(*v), key@) == Some(json(*w)),
            None => member(json(*v), key@) is None,
        },
{
    v.get(key)
}

/// `Value::as_str`: the string, if the value is one.
pub assume_specification[ serde_json::Value::as_str ](v: &serde_json::Value) -> (r: Option<&str>)
    ensures
        match r {
            Some(s) => text_in(json(*v)) == Some(s@),
            None => text_in(json(*v)) is None,
        },
;

/// `Value::as_bool`: the boolean, if the value is one.
pub assume_specification[ serde_json::Value::as_bool ](v: &serde_json::Value) -> (r: Option<bool>)
    ensures
        r == bool_in(json(*v)),
;

/// `Value::clone`: a value that holds the same.
pub assume_specification[ <serde_json::Value as Clone>::clone ](
    v: &serde_json::Value,
) -> (r: serde_json::Value)
    ensures
        json(r) == json(*v),
;

// ─── building ───────────────────────────────────────────────────────────────
/// `Value::Null`.
#[verifier::external_body]
pub(crate) fn null() -> (r: serde_json::Value)
    ensures
        json(r) == Json::Null,
{
    serde_json::Value::Null
}

/// `Value::Bool`.
#[verifier::external_body]
pub(crate) fn from_bool(b: bool) -> (r: serde_json::Value)
    ensures
        json(r) == Json::Bool(b),
{
    serde_json::Value::Bool(b)
}

/// `Value::String`.
#[verifier::external_body]
pub(crate) fn from_text(s: String) -> (r: serde_json::Value)
    ensures
        json(r) == Json::Text(s@),
{
    serde_json::Value::String(s)
}

/// `Value::from` for an unsigned integer: a number that is written in decimal,
/// without leading zeros.
#[verifier::external_body]
pub(crate) fn from_number(n: u64) -> (r: serde_json::Value)
    ensures
        json(r) == number(n as nat),
{
    serde_json::Value::from(n)
}

/// `Value::from_iter` over pairs of a key and a value: an object that has each value
/// under its key. Which of two values with one key it would have is not said.
#[verifier::external_body]
pub(crate) fn from_pairs(pairs: Vec<(String, serde_json::Value)>) -> (r: serde_json::Value)
    requires
        keys_differ(pairs_in(pairs@)),
    ensures
        json(r) == object(pairs_in(pairs@)),
{
    serde_json::Value::from_iter(pairs)
}

// ─── writing ────────────────────────────────────────────────────────────────
/// `serde_json::to_vec` of a `Value`: its bytes, which are [`bytes_of_json`].
///
/// It fails only where a key is no string, where a type refuses to be written, or
/// where the writer fails; a `Value` has string keys, writes itself, and a vector
/// takes all bytes, so an error never comes. There is no line feed among the bytes:
/// nothing stands between the tokens, and strings have theirs escaped. What was
/// written reads back as the same value, if its numbers are whole and it is not
/// nested deeper than the reader goes; a number with a fraction may come back off by
/// one in its last place.
#[verifier::external_body]
pub(crate) fn write_bytes(v: &serde_json::Value) -> (r: Result<Vec<u8>, serde_json::Error>)
    ensures
        r is Ok,
        r->Ok_0@ == bytes_of_json(json(*v)),
        one_line(r->Ok_0@),
        plain(json(*v), NESTING_LIMIT as nat) ==> json_of_bytes(r->Ok_0@) == Some(json(*v)),
{
    serde_json::to_vec(v)
}

/// `serde_json::to_string_pretty` of a `Value`: its indented text, which is
/// [`pretty_of_json`]. As with `to_vec`, an error never comes.
#[verifier::external_body]
pub(crate) fn write_pretty(v: &serde_json::Value) -> (r: Result<String, serde_json::Error>)
    ensures
        r is Ok,
        r->Ok_0@ == pretty_of_json(json(*v)),
{
    serde_json::to_string_pretty(v)
}

/// The `Display` text of a `serde_json::Error`.
#[verifier::external_body]
pub(crate) fn describe(e: &serde_json::Error) -> (s: String)
    ensures
        s@ == error_text(*e),
{
    format!("{}", e)
}

// ─── objects with their members in a given order ────────────────────────────
/// `{`
pub const OPEN_BRACE: u8 = 123;

/// `}`
pub const CLOSE_BRACE: u8 = 125;

/// `,`
pub const COMMA: u8 = 44;

/// `:`
pub const COLON: u8 = 58;

/// The members of an object in the given order, as they stand between its braces.
pub open spec fn members_bytes(fields: Seq<(Seq<char>, Json)>) -> Seq<u8>
    decreases fields.len(),
{
    if fields.len() == 0 {
        seq![]
    } else {
        let member = bytes_of_json(Json::Text(fields.last().0)) + seq![COLON] + bytes_of_json(
            fields.last().1,
        );
        if fields.len() == 1 {
            member
        } else {
            members_bytes(fields.drop_last()) + seq![COMMA] + member
        }
    }
}

/// An object with its members in the given order, in bytes.
pub open spec fn ordered_bytes(fields: Seq<(Seq<char>, Json)>) -> Seq<u8> {
    seq![OPEN_BRACE] + members_bytes(fields) + seq![CLOSE_BRACE]
}

/// `Serializer::collect_map` of a `serde_json::Serializer` that writes to a vector:
/// an object with the pairs as its members, in their order, each key and value as
/// `serde_json::to_vec` writes it by itself.
///
/// As with `to_vec`, an error never comes, and what was written reads back, if no key
/// occurs twice, the numbers are whole and nothing is nested deeper than the reader
/// goes.
#[verifier::external_body]
pub(crate) fn write_members(pairs: Vec<(String, serde_json::Value)>) -> (r: Result<
    Vec<u8>,
    serde_json::Error,
>)
    ensures
        r is Ok,
        r->Ok_0@ == ordered_bytes(pairs_in(pairs@)),
        keys_differ(pairs_in(pairs@)) && plain(object(pairs_in(pairs@)), NESTING_LIMIT as nat)
            ==> json_of_bytes(r->Ok_0@) == Some(object(pairs_in(pairs@))),
{
    let mut out: Vec<u8> = Vec::new();
    let mut serializer = serde_json::Serializer::new(&mut out);
    match serde::Serializer::collect_map(&mut serializer, pairs) {
        Ok(()) => Ok(out),
        Err(e) => Err(e),
    }
}

// ─── laws ───────────────────────────────────────────────────────────────────
/// A member of an object is what stands under its key; nothing else has members.
pub proof fn members_stand_under_their_keys(j: Json, key: Seq<char>)
    ensures
        member(j, key) is Some <==> j is Object && j->Object_0.contains_key(key),
        member(j, key) is Some ==> member(j, key)->0 == j->Object_0[key],
{
}

/// An object that is filled with pairs has each value under its key, and nothing else.
pub proof fn objects_hold_their_pairs(pairs: Seq<(Seq<char>, Json)>)
    requires
        keys_differ(pairs),
    ensures
        object(pairs) is Object,
        forall|i: int|
            0 <= i < pairs.len() ==> object(pairs)->Object_0.contains_key((#[trigger] pairs[i]).0)
                && object(pairs)->Object_0[pairs[i].0] == pairs[i].1,
        forall|key: Seq<char>| #[trigger]
            object(pairs)->Object_0.contains_key(key) ==> exists|i: int|
                0 <= i < pairs.len() && (#[trigger] pairs[i]).0 == key,
    decreases pairs.len(),
{
    if pairs.len() > 0 {
        let front = pairs.drop_last();
        let last = pairs.len() - 1;
        assert forall|i: int, j: int| 0 <= i < j < front.len() implies (#[trigger] front[i]).0 != (
        #[trigger] front[j]).0 by {
            assert(pairs[i].0 != pairs[j].0);
        }
        objects_hold_their_pairs(front);
        assert forall|i: int| 0 <= i < pairs.len() implies filled(pairs).contains_key(
            (#[trigger] pairs[i]).0,
        ) && filled(pairs)[pairs[i].0] == pairs[i].1 by {
            if i < last {
                assert(front[i] == pairs[i]);
                assert(pairs[i].0 != pairs[last].0);
                assert(object(front)->Object_0.contains_key(front[i].0));
            }
        }
        assert forall|key: Seq<char>| #[trigger] filled(pairs).contains_key(key) implies exists|
            i: int,
        |
            0 <= i < pairs.len() && (#[trigger] pairs[i]).0 == key by {
            if key != pairs[last].0 {
                assert(object(front)->Object_0.contains_key(key));
                let i = choose|i: int| 0 <= i < front.len() && (#[trigger] front[i]).0 == key;
                assert(pairs[i] == front[i]);
            }
        }
    }
}

/// Pairs are taken one by one, in their order.
pub proof fn pairs_are_taken_one_by_one(pairs: Seq<(String, serde_json::Value)>)
    ensures
        pairs_in(pairs).len() == pairs.len(),
        forall|i: int|
            0 <= i < pairs.len() ==> (#[trigger] pairs_in(pairs)[i]).0 == pairs[i].0@ && pairs_in(
                pairs,
            )[i].1 == json(pairs[i].1),
{
}

/// An object is written as its members between braces, with commas between them, and each
/// member as its key, a colon and its value.
pub proof fn objects_are_written_member_by_member(
    fields: Seq<(Seq<char>, Json)>,
    key: Seq<char>,
    value: Json,
)
    ensures
        ({
            let member = bytes_of_json(Json::Text(key)) + seq![58u8] + bytes_of_json(value);
            &&& members_bytes(Seq::empty()) == Seq::<u8>::empty()
            &&& members_bytes(seq![(key, value)]) == member
            &&& fields.len() > 0 ==> members_bytes(fields.push((key, value))) == members_bytes(
                fields,
            ) + seq![44u8] + member
            &&& ordered_bytes(fields) == seq![123u8] + members_bytes(fields) + seq![125u8]
        }),
{
    assert(fields.push((key, value)).drop_last() =~= fields);
}

proof fn lemma_plain_items(items: Seq<Json>, depth: nat)
    ensures
        plain(Json::Array(items), depth + 1) <==> forall|i: int|
            0 <= i < items.len() ==> plain(#[trigger] items[i], depth),
{
    let deeper: nat = depth + 1;
    assert((deeper - 1) as nat == depth);
    if plain(Json::Array(items), deeper) {
        let j = Json::Array(items);
        assert forall|i: int| 0 <= i < items.len() implies plain(#[trigger] items[i], depth) by {
            assert(j->Array_0[i] == items[i]);
            assert(plain(j->Array_0[i], (deeper - 1) as nat));
        }
    }
    if forall|i: int| 0 <= i < items.len() ==> plain(#[trigger] items[i], depth) {
        assert forall|i: int| 0 <= i < items.len() implies plain(
            #[trigger] items[i],
            (deeper - 1) as nat,
        ) by {
            assert(plain(items[i], depth));
        }
        assert(plain(Json::Array(items), deeper));
    }
}

proof fn lemma_plain_members(members: Map<Seq<char>, Json>, depth: nat)
    ensures
        plain(Json::Object(members), depth + 1) <==> forall|key: Seq<char>| #[trigger]
            members.contains_key(key) ==> plain(members[key], depth),
{
    let deeper: nat = depth + 1;
    assert((deeper - 1) as nat == depth);
    if plain(Json::Object(members), deeper) {
        let j = Json::Object(members);
        assert forall|key: Seq<char>| #[trigger] members.contains_key(key) implies plain(
            members[key],
            depth,
        ) by {
            assert(j->Object_0.contains_key(key));
            assert(plain(j->Object_0[key], (deeper - 1) as nat));
        }
    }
    if forall|key: Seq<char>| #[trigger] members.contains_key(key) ==> plain(members[key], depth) {
        assert forall|key: Seq<char>| #[trigger] members.contains_key(key) implies plain(
            members[key],
            (deeper - 1) as nat,
        ) by {
            assert(plain(members[key], depth));
        }
        assert(plain(Json::Object(members), deeper));
    }
}

/// What is plain: `null`, truth values, strings, and whole numbers of 64 bits; and arrays
/// and objects of what is plain, as deep as is allowed.
pub proof fn what_is_plain(
    items: Seq<Json>,
    members: Map<Seq<char>, Json>,
    text: Seq<char>,
    b: bool,
    n: nat,
    depth: nat,
)
    ensures
        plain(Json::Null, depth),
        plain(Json::Bool(b), depth),
        plain(Json::Text(text), depth),
        n <= u64::MAX ==> plain(Json::Number(decimal(n)), depth),
        0 < n <= 0x8000_0000_0000_0000 ==> plain(Json::Number(seq!['-'] + decimal(n)), depth),
        !plain(Json::Array(items), 0),
        !plain(Json::Object(members), 0),
        plain(Json::Array(items), depth + 1) <==> forall|i: int|
            0 <= i < items.len() ==> plain(#[trigger] items[i], depth),
        plain(Json::Object(members), depth + 1) <==> forall|key: Seq<char>| #[trigger]
            members.contains_key(key) ==> plain(members[key], depth),
{
    lemma_plain_items(items, depth);
    lemma_plain_members(members, depth);
    if n <= u64::MAX {
        assert(whole(decimal(n)));
    }
    if 0 < n <= 0x8000_0000_0000_0000 {
        assert(whole(seq!['-'] + decimal(n)));
    }
}

// ─── errors ─────────────────────────────────────────────────────────────────
/// Something could not be written as JSON.
#[derive(Debug, Clone)]
pub struct EncodeError {
    /// What was being done.
    pub what: String,
    /// What went wrong.
    pub cause: String,
}

impl EncodeError {
    pub(crate) fn new(what: &str, e: &serde_json::Error) -> (r: EncodeError)
        ensures
            r.what@ == what@,
            r.cause@ == error_text(*e),
    {
        EncodeError { what: what.to_string(), cause: describe(e) }
    }

    /// What was being done, and what went wrong.
    pub fn to_string(&self) -> (s: String)
        ensures
            s@ == self.what@ + ": "@ + self.cause@,
    {
        let mut s = self.what.clone();
        s.append(": ");
        s.append(self.cause.as_str());
        s
    }
}

} // verus!
