//! JSON: values as trees of the library's own, and the texts that `serde_json` writes.

use vstd::prelude::*;
use vstd::utf8::*;
use crate::message;
use crate::message::ContentBlock;
use crate::number;
use crate::number::single_bits_of;
use crate::text;
use crate::text::{decimal_text, same_text};

verus! {

/// The type `serde_json::Value`, whose inside stays hidden.
#[verifier::external_type_specification]
#[verifier::external_body]
pub struct ExValue(serde_json::Value);

/// What a `serde_json::Value` holds, as the compact text that its `Display` writes.
pub uninterp spec fn compact_text(value: serde_json::Value) -> Seq<char>;

/// The text of a JSON value, by `serde_json::Value::to_string`. The contract gives that text a
/// name and says nothing of the characters in it.
#[verifier::external_body]
fn value_text(value: &serde_json::Value) -> (s: String)
    ensures
        s@ == compact_text(*value),
{
    value.to_string()
}

/// The hexadecimal digit with the value `d`.
pub open spec fn hex_digit(d: nat) -> char {
    if d < 10 { text::digit(d) } else if d == 10 { 'a' } else if d == 11 { 'b' } else if d == 12 { 'c' }
    else if d == 13 { 'd' } else if d == 14 { 'e' } else { 'f' }
}

/// A character as a JSON string holds it: a quote, a backslash and the characters below the blank
/// are escaped.
pub open spec fn escaped_char(c: char) -> Seq<char> {
    let code = c as nat;
    if c == '"' || c == '\\' {
        seq!['\\', c]
    } else if code >= 0x20 {
        seq![c]
    } else if code == 0x08 {
        seq!['\\', 'b']
    } else if code == 0x09 {
        seq!['\\', 't']
    } else if code == 0x0a {
        seq!['\\', 'n']
    } else if code == 0x0c {
        seq!['\\', 'f']
    } else if code == 0x0d {
        seq!['\\', 'r']
    } else {
        seq!['\\', 'u', '0', '0', hex_digit(code / 16), hex_digit(code % 16)]
    }
}

/// The characters of a text as a JSON string holds them.
pub open spec fn escaped(s: Seq<char>) -> Seq<char>
    decreases s.len(),
{
    if s.len() == 0 {
        Seq::empty()
    } else {
        escaped(s.drop_last()) + escaped_char(s.last())
    }
}

/// A text as a JSON string.
pub open spec fn quoted(s: Seq<char>) -> Seq<char> {
    seq!['"'] + escaped(s) + seq!['"']
}

/// The JSON text, without white space, of an object with the one member `key`, which is the string
/// `value`.
pub open spec fn member_object(key: Seq<char>, value: Seq<char>) -> Seq<char> {
    seq!['{'] + quoted(key) + seq![':'] + quoted(value) + seq!['}']
}

/// The bytes of an object with the one member `key`, which is the string `value`, by
/// `serde_json::to_vec`: its JSON text without white space, in UTF-8. The call does not fail: every
/// key is a string.
#[verifier::external_body]
pub(crate) fn member_object_bytes(key: &str, value: &str) -> (bytes: Vec<u8>)
    ensures
        bytes@ == encode_utf8(member_object(key@, value@)),
{
    let mut members = serde_json::Map::new();
    members.insert(key.to_string(), serde_json::Value::from(value));
    serde_json::to_vec(&members).expect("an object with string keys")
}

impl ContentBlock {
    /// A call of the tool `name` with the arguments `input`.
    pub fn tool_use(id: &str, name: &str, input: &serde_json::Value) -> (block: Self)
        ensures
            block@ == (message::BlockView::ToolUse {
                id: id@,
                name: name@,
                input: compact_text(*input),
            }),
    {
        ContentBlock::ToolUse { id: id.to_owned(), name: name.to_owned(), input: value_text(input) }
    }
}

/// A JSON value. A number is held as its text, with the bits of the single-precision number
/// nearest to it.
#[derive(Debug)]
pub enum Json {
    Null,
    Bool(bool),
    Number { text: String, single_bits: u32 },
    Str(String),
    Array(Vec<Json>),
    Object(Vec<(String, Json)>),
}

/// The place of the first member with the key `key`.
pub open spec fn member_place(members: Seq<(String, Json)>, key: Seq<char>) -> Option<int>
    decreases members.len(),
{
    if members.len() == 0 {
        None
    } else {
        match member_place(members.drop_last(), key) {
            Some(i) => Some(i),
            None => if members.last().0@ == key {
                Some(members.len() - 1)
            } else {
                None
            },
        }
    }
}

/// The member `key` of a JSON value, where the value is an object that has one.
pub open spec fn member(value: Json, key: Seq<char>) -> Option<Json> {
    match value {
        Json::Object(members) => match member_place(members@, key) {
            Some(i) => Some(members@[i].1),
            None => None,
        },
        _ => None,
    }
}

/// The text of a JSON value, where the value is a string.
pub open spec fn string_value(value: Json) -> Option<Seq<char>> {
    match value {
        Json::Str(s) => Some(s@),
        _ => None,
    }
}

/// The text of the member `key`, where the value is an object and that member a string.
pub open spec fn string_member(value: Json, key: Seq<char>) -> Option<Seq<char>> {
    match member(value, key) {
        Some(m) => string_value(m),
        None => None,
    }
}

/// The strings among the items of a list, in order.
pub open spec fn strings_among(items: Seq<Json>) -> Seq<Seq<char>>
    decreases items.len(),
{
    if items.len() == 0 {
        Seq::empty()
    } else {
        match string_value(items.last()) {
            Some(s) => strings_among(items.drop_last()).push(s),
            None => strings_among(items.drop_last()),
        }
    }
}

proof fn lemma_member_place_in_range(members: Seq<(String, Json)>, key: Seq<char>)
    ensures
        member_place(members, key) matches Some(i) ==> 0 <= i < members.len()
            && members[i].0@ == key,
        member_place(members, key) is None ==> forall|k: int|
            0 <= k < members.len() ==> (#[trigger] members[k]).0@ != key,
    decreases members.len(),
{
    if members.len() > 0 {
        lemma_member_place_in_range(members.drop_last(), key);
        assert forall|k: int| member_place(members, key) is None && 0 <= k < members.len() implies (
        #[trigger] members[k]).0@ != key by {
            if k < members.len() - 1 {
                assert(members.drop_last()[k] == members[k]);
            }
        }
    }
}

/// The member of an object is the value of the first entry with its key. Where no entry has the
/// key, and in a value that is no object, there is none.
pub proof fn law_member_is_the_first_with_its_key(value: Json, key: Seq<char>)
    ensures
        !(value is Object) ==> member(value, key) is None,
        value matches Json::Object(members) ==> {
            &&& member(value, key) matches Some(m) ==> exists|i: int|
                0 <= i < members@.len() && (#[trigger] members@[i]).0@ == key && members@[i].1 == m
                    && forall|j: int| 0 <= j < i ==> (#[trigger] members@[j]).0@ != key
            &&& member(value, key) is None ==> forall|i: int|
                0 <= i < members@.len() ==> (#[trigger] members@[i]).0@ != key
        },
{
    if let Json::Object(members) = value {
        lemma_member_place_in_range(members@, key);
        lemma_member_place_is_first(members@, key);
    }
}

proof fn lemma_member_place_is_first(members: Seq<(String, Json)>, key: Seq<char>)
    ensures
        member_place(members, key) matches Some(i) ==> forall|j: int|
            0 <= j < i ==> (#[trigger] members[j]).0@ != key,
    decreases members.len(),
{
    if members.len() > 0 {
        let front = members.drop_last();
        lemma_member_place_is_first(front, key);
        lemma_member_place_in_range(front, key);
        if let Some(i) = member_place(members, key) {
            assert forall|j: int| 0 <= j < i implies (#[trigger] members[j]).0@ != key by {
                assert(front[j] == members[j]);
            }
        }
    }
}

/// The text of a member is that of the string which the member is; other members have none.
pub proof fn law_string_member_is_the_string(value: Json, key: Seq<char>)
    ensures
        member(value, key) matches Some(Json::Str(s)) ==> string_member(value, key) == Some(s@),
        !(member(value, key) matches Some(Json::Str(_))) ==> string_member(value, key) is None,
{
}

/// Of the items of a list the strings remain, whole and in their order: a string makes itself,
/// another item nothing, and lists that follow one another make what the two make.
pub proof fn law_strings_are_kept_in_order(items: Seq<Json>, more: Seq<Json>, item: Json)
    ensures
        strings_among(Seq::empty()).len() == 0,
        item matches Json::Str(s) ==> strings_among(seq![item]) == seq![s@],
        !(item is Str) ==> strings_among(seq![item]).len() == 0,
        strings_among(items + more) == strings_among(items) + strings_among(more),
    decreases more.len(),
{
    assert(seq![item].drop_last() =~= Seq::<Json>::empty());
    reveal_with_fuel(strings_among, 2);
    if let Json::Str(s) = item {
        assert(strings_among(seq![item]) =~= seq![s@]);
    }
    if more.len() == 0 {
        assert(items + more =~= items);
        assert(strings_among(items) + strings_among(more) =~= strings_among(items));
    } else {
        law_strings_are_kept_in_order(items, more.drop_last(), item);
        assert((items + more).drop_last() =~= items + more.drop_last());
        let front = strings_among(items);
        let rest = strings_among(more.drop_last());
        if let Some(s) = string_value(more.last()) {
            assert((front + rest).push(s) =~= front + rest.push(s));
        }
    }
}

proof fn lemma_member_place_prefix(members: Seq<(String, Json)>, n: int, key: Seq<char>)
    requires
        0 <= n <= members.len(),
        member_place(members.take(n), key) is Some,
    ensures
        member_place(members, key) == member_place(members.take(n), key),
    decreases members.len(),
{
    if n < members.len() {
        assert(members.drop_last().take(n) =~= members.take(n));
        lemma_member_place_prefix(members.drop_last(), n, key);
    } else {
        assert(members.take(n) =~= members);
    }
}

fn find_member(members: &Vec<(String, Json)>, key: &str) -> (place: Option<usize>)
    ensures
        match place {
            Some(i) => i < members.len() && member_place(members@, key@) == Some(i as int),
            None => member_place(members@, key@) is None,
        },
{
    let mut i: usize = 0;
    while i < members.len()
        invariant
            i <= members.len(),
            member_place(members@.take(i as int), key@) is None,
        decreases members.len() - i,
    {
        assert(members@.take(i + 1).drop_last() =~= members@.take(i as int));
        if same_text(members[i].0.as_str(), key) {
            proof {
                lemma_member_place_prefix(members@, i + 1, key@);
            }
            return Some(i);
        }
        i += 1;
    }
    assert(members@.take(i as int) =~= members@);
    None
}

impl Json {
    /// The member `key`, where the value is an object that has one.
    pub fn get(&self, key: &str) -> (found: Option<&Json>)
        ensures
            match found {
                Some(m) => member(*self, key@) == Some(*m),
                None => member(*self, key@) is None,
            },
    {
        match self {
            Json::Object(members) => match find_member(members, key) {
                Some(i) => Some(&members[i].1),
                None => None,
            },
            _ => None,
        }
    }

    /// The text, where the value is a string.
    pub fn as_str(&self) -> (s: Option<&str>)
        ensures
            match s {
                Some(t) => string_value(*self) == Some(t@),
                None => string_value(*self) is None,
            },
    {
        match self {
            Json::Str(s) => Some(s.as_str()),
            _ => None,
        }
    }

    /// The text of the member `key`, where the value is an object and that member a string.
    pub fn str_member(&self, key: &str) -> (s: Option<&str>)
        ensures
            match s {
                Some(t) => string_member(*self, key@) == Some(t@),
                None => string_member(*self, key@) is None,
            },
    {
        match self.get(key) {
            Some(m) => m.as_str(),
            None => None,
        }
    }
}

/// The strings among the items of a list, in order.
pub fn collect_strings(items: &Vec<Json>) -> (strings: Vec<String>)
    ensures
        text::texts(strings@) == strings_among(items@),
{
    let mut strings: Vec<String> = Vec::new();
    let mut i: usize = 0;
    assert(text::texts(strings@) =~= strings_among(items@.take(0)));
    while i < items.len()
        invariant
            i <= items.len(),
            text::texts(strings@) == strings_among(items@.take(i as int)),
        decreases items.len() - i,
    {
        assert(items@.take(i + 1).drop_last() =~= items@.take(i as int));
        let ghost before = strings@;
        if let Some(s) = items[i].as_str() {
            let owned: String = s.to_owned();
            strings.push(owned);
            assert(text::texts(strings@) =~= text::texts(before).push(owned@));
        }
        i += 1;
    }
    assert(items@.take(i as int) =~= items@);
    strings
}

proof fn lemma_member_place_update(
    members: Seq<(String, Json)>,
    at: int,
    entry: (String, Json),
    key: Seq<char>,
)
    requires
        0 <= at < members.len(),
        entry.0@ == members[at].0@,
    ensures
        member_place(members.update(at, entry), key) == member_place(members, key),
    decreases members.len(),
{
    let after = members.update(at, entry);
    if at < members.len() - 1 {
        assert(after.drop_last() =~= members.drop_last().update(at, entry));
        lemma_member_place_update(members.drop_last(), at, entry, key);
    } else {
        assert(after.drop_last() =~= members.drop_last());
    }
}

/// The members of a JSON value, which only an object has.
pub open spec fn held(value: Json) -> Seq<(String, Json)> {
    match value {
        Json::Object(members) => members@,
        _ => Seq::empty(),
    }
}

/// What a list of members holds: keys and values.
pub open spec fn member_views(members: Seq<(String, Json)>) -> Seq<(Seq<char>, Json)> {
    members.map_values(|m: (String, Json)| (m.0@, m.1))
}

/// A list of members in which the first one with the key `key` has the value `value`, in its place
/// or, where there is none, behind the others.
pub open spec fn with_member(members: Seq<(String, Json)>, key: Seq<char>, value: Json) -> Seq<
    (Seq<char>, Json),
> {
    match member_place(members, key) {
        Some(i) => member_views(members).update(i, (key, value)),
        None => member_views(members).push((key, value)),
    }
}

/// Giving a member a value changes that entry alone: the entries stay in their places, the first
/// one with the key gets the value, and where none has it one more stands behind the others.
pub proof fn law_set_member_changes_one_entry(
    members: Seq<(String, Json)>,
    key: Seq<char>,
    value: Json,
    k: int,
)
    requires
        0 <= k < members.len(),
    ensures
        members[k].0@ != key ==> with_member(members, key, value)[k] == (members[k].0@, members[k].1),
        members[k].0@ == key && (forall|j: int| 0 <= j < k ==> (#[trigger] members[j]).0@ != key)
            ==> with_member(members, key, value)[k] == (key, value) && with_member(
            members,
            key,
            value,
        ).len() == members.len(),
        (forall|j: int| 0 <= j < members.len() ==> (#[trigger] members[j]).0@ != key)
            ==> with_member(members, key, value).len() == members.len() + 1 && with_member(
            members,
            key,
            value,
        ).last() == (key, value),
        members[k].0@ == key && (exists|j: int| 0 <= j < k && (#[trigger] members[j]).0@ == key)
            ==> with_member(members, key, value)[k] == (members[k].0@, members[k].1),
{
    lemma_member_place_in_range(members, key);
    lemma_member_place_is_first(members, key);
}

/// Whether no two members have the same key.
pub open spec fn keys_differ(members: Seq<(Seq<char>, Json)>) -> bool {
    forall|i: int, j: int|
        0 <= i < j < members.len() ==> (#[trigger] members[i]).0 != (#[trigger] members[j]).0
}

/// Giving a member a value keeps the keys of an object apart.
pub proof fn law_set_member_keeps_keys_apart(
    members: Seq<(String, Json)>,
    key: Seq<char>,
    value: Json,
)
    requires
        keys_differ(member_views(members)),
    ensures
        keys_differ(with_member(members, key, value)),
{
    lemma_member_place_in_range(members, key);
    let before = member_views(members);
    let after = with_member(members, key, value);
    assert forall|i: int, j: int| 0 <= i < j < after.len() implies (#[trigger] after[i]).0 != (
    #[trigger] after[j]).0 by {
        assert(after[i].0 == before[i].0);
        if j < before.len() {
            assert(after[j].0 == before[j].0);
        } else {
            assert(members[i].0@ != key);
        }
    }
}

impl Json {
    /// Gives the member `key` the value `value`. On `Null` this makes an object.
    pub fn set_member(&mut self, key: &str, value: Json)
        requires
            *old(self) is Object || *old(self) is Null,
        ensures
            *final(self) is Object,
            member_views(held(*final(self))) == with_member(held(*old(self)), key@, value),
            member(*final(self), key@) == Some(value),
            forall|other: Seq<char>|
                other != key@ ==> #[trigger] member(*final(self), other) == member(
                    *old(self),
                    other,
                ),
    {
        let mut members: Vec<(String, Json)> = Vec::new();
        match self {
            Json::Object(held) => {
                std::mem::swap(&mut members, held);
            },
            _ => {},
        }
        let ghost before = members@;
        match find_member(&members, key) {
            Some(i) => {
                let owned: String = key.to_owned();
                proof {
                    lemma_member_place_in_range(before, key@);
                    assert forall|other: Seq<char>| true implies member_place(
                        before.update(i as int, (owned, value)),
                        other,
                    ) == #[trigger] member_place(before, other) by {
                        lemma_member_place_update(before, i as int, (owned, value), other);
                        lemma_member_place_in_range(before, other);
                    }
                }
                members.set(i, (owned, value));
                assert(member_views(members@) =~= member_views(before).update(
                    i as int,
                    (key@, value),
                ));
            },
            None => {
                let owned: String = key.to_owned();
                members.push((owned, value));
                assert(members@.drop_last() =~= before);
                assert(member_views(members@) =~= member_views(before).push((key@, value)));
            },
        }
        proof {
            assert forall|other: Seq<char>| other != key@ implies #[trigger] member_place(
                members@,
                other,
            ) == member_place(before, other) && (member_place(before, other) matches Some(k)
                ==> members@[k].1 == before[k].1) by {
                lemma_member_place_in_range(before, other);
                lemma_member_place_in_range(before, key@);
            }
        }
        *self = Json::Object(members);
    }
}

impl Json {
    /// The number `n`.
    pub fn integer(n: u32) -> (value: Self)
        ensures
            value matches Json::Number { text, single_bits } && text@ == text::decimal(n as nat)
                && single_bits == number::single_bits(n as nat),
    {
        Json::Number { text: decimal_text(n as u64), single_bits: single_bits_of(n) }
    }
}

} // verus!
