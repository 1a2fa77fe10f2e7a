//! JSON values and their canonical text: objects keep their members ordered
//! by name, so a value renders the same however it was built.

use vstd::prelude::*;
use crate::bytes::{append_slice, seq_lt, text_bytes};

verus! {

/// A JSON value. A number is held as the text that JSON writes for it.
#[derive(Debug, PartialEq, Eq)]
pub enum JsonValue {
    Null,
    Bool(bool),
    Number(String),
    String(String),
    Array(Vec<JsonValue>),
    Object(JsonObject),
}

/// A JSON object: members by name, each name once, kept in increasing order
/// of the names' UTF-8 bytes (the order of `Ord` on strings).
#[derive(Debug, PartialEq, Eq)]
pub struct JsonObject {
    entries: Vec<(String, JsonValue)>,
}

/// Whether the names of `s` strictly increase.
pub open spec fn names_increase(s: Seq<(String, JsonValue)>) -> bool {
    forall|i: int, j: int|
        0 <= i < j < s.len() ==> seq_lt(
            text_bytes((#[trigger] s[i]).0@),
            text_bytes((#[trigger] s[j]).0@),
        )
}

/// The hexadecimal digits, in lower case.
pub open spec fn hex_digits() -> Seq<char> {
    seq!['0', '1', '2', '3', '4', '5', '6', '7', '8', '9', 'a', 'b', 'c', 'd', 'e', 'f']
}

/// How JSON writes one character of a string: a quote and a backslash
/// behind a backslash; backspace, tab, line feed, form feed and carriage
/// return as `\b`, `\t`, `\n`, `\f`, `\r`; the other characters below
/// U+0020 as `\u00` and two lower-case hexadecimal digits; every other
/// character as it is.
pub open spec fn json_escape_char(c: char) -> Seq<char> {
    if c == '"' {
        seq!['\\', '"']
    } else if c == '\\' {
        seq!['\\', '\\']
    } else if c == '\u{8}' {
        seq!['\\', 'b']
    } else if c == '\t' {
        seq!['\\', 't']
    } else if c == '\n' {
        seq!['\\', 'n']
    } else if c == '\u{c}' {
        seq!['\\', 'f']
    } else if c == '\r' {
        seq!['\\', 'r']
    } else if (c as int) < 32 {
        seq!['\\', 'u', '0', '0', hex_digits()[(c as int) / 16], hex_digits()[(c as int) % 16]]
    } else {
        seq![c]
    }
}

/// The characters of a string, each written as JSON writes it.
pub open spec fn json_escape(s: Seq<char>) -> Seq<char>
    decreases s.len(),
{
    if s.len() == 0 {
        Seq::empty()
    } else {
        json_escape(s.drop_last()) + json_escape_char(s.last())
    }
}

/// What JSON writes for a string: the escaped text between quotes.
pub open spec fn json_string_text(s: Seq<char>) -> Seq<char> {
    seq!['"'] + json_escape(s) + seq!['"']
}

/// `serde_json::to_string` on a string.
///
/// Trusted: the result is the JSON text of `s` (`json_string_text`): the
/// string between quotes, with the escapes of serde_json's escape table.
/// Serializing a string into memory cannot fail, so the error arm is never
/// taken.
#[verifier::external_body]
fn json_quote(s: &str) -> (r: String)
    ensures
        r@ == json_string_text(s@),
{
    match serde_json::to_string(s) {
        Ok(text) => text,
        Err(_) => String::new(),
    }
}

/// The members as a map from name to value, later members winning.
pub open spec fn members_map(s: Seq<(String, JsonValue)>) -> Map<Seq<char>, JsonValue>
    decreases s.len(),
{
    if s.len() == 0 {
        Map::empty()
    } else {
        members_map(s.drop_last()).insert(s.last().0@, s.last().1)
    }
}

/// Whether no name occurs twice.
pub open spec fn names_distinct(s: Seq<(String, JsonValue)>) -> bool {
    forall|i: int, j: int| 0 <= i < j < s.len() ==> (#[trigger] s[i]).0@ != (#[trigger] s[j]).0@
}

/// Increasing names are distinct.
pub proof fn lemma_increasing_distinct(s: Seq<(String, JsonValue)>)
    requires
        names_increase(s),
    ensures
        names_distinct(s),
{
    assert forall|i: int, j: int| 0 <= i < j < s.len() implies (#[trigger] s[i]).0@ != (
    #[trigger] s[j]).0@ by {
        if s[i].0@ == s[j].0@ {
            crate::bytes::lemma_seq_lt_irreflexive(text_bytes(s[i].0@));
        }
    }
}

/// With distinct names, the map has exactly the members' names, each with
/// its member's value.
pub proof fn lemma_members_map(s: Seq<(String, JsonValue)>)
    requires
        names_distinct(s),
    ensures
        forall|k: int|
            0 <= k < s.len() ==> #[trigger] members_map(s).contains_key(s[k].0@) && members_map(
                s,
            )[s[k].0@] == s[k].1,
        forall|key: Seq<char>| #[trigger]
            members_map(s).contains_key(key) ==> exists|k: int| 0 <= k < s.len() && s[k].0@ == key,
    decreases s.len(),
{
    if s.len() > 0 {
        let t = s.drop_last();
        assert(names_distinct(t)) by {
            assert forall|i: int, j: int| 0 <= i < j < t.len() implies (#[trigger] t[i]).0@ != (
            #[trigger] t[j]).0@ by {
                assert(t[i] == s[i] && t[j] == s[j]);
            }
        }
        lemma_members_map(t);
        let m = members_map(s);
        assert(m == members_map(t).insert(s[s.len() - 1].0@, s[s.len() - 1].1));
        assert forall|k: int| 0 <= k < s.len() implies #[trigger] members_map(s).contains_key(
            s[k].0@,
        ) && members_map(s)[s[k].0@] == s[k].1 by {
            if k < s.len() - 1 {
                assert(members_map(t).contains_key(t[k].0@));
                assert(t[k] == s[k]);
                assert(s[k].0@ != s[s.len() - 1].0@);
            }
        }
        assert forall|key: Seq<char>| #[trigger]
            members_map(s).contains_key(key) implies exists|k: int|
            0 <= k < s.len() && s[k].0@ == key by {
            if key == s.last().0@ {
                assert(s[s.len() - 1].0@ == key);
            } else {
                assert(members_map(t).contains_key(key));
                let k = choose|k: int| 0 <= k < t.len() && t[k].0@ == key;
                assert(s[k] == t[k]);
            }
        }
    }
}

/// Replacing the value of a member keeps the names increasing and sets
/// that name in the map.
proof fn lemma_replace_member(s: Seq<(String, JsonValue)>, i: int, e: (String, JsonValue))
    requires
        names_increase(s),
        0 <= i < s.len(),
        e.0@ == s[i].0@,
    ensures
        names_increase(s.update(i, e)),
        members_map(s.update(i, e)) == members_map(s).insert(e.0@, e.1),
{
    let r = s.update(i, e);
    assert(names_increase(r)) by {
        assert forall|a: int, b: int| 0 <= a < b < r.len() implies seq_lt(
            text_bytes((#[trigger] r[a]).0@),
            text_bytes((#[trigger] r[b]).0@),
        ) by {
            assert(s[a].0@ == r[a].0@ && s[b].0@ == r[b].0@);
        }
    }
    lemma_increasing_distinct(s);
    lemma_increasing_distinct(r);
    lemma_members_map(s);
    lemma_members_map(r);
    let m = members_map(s).insert(e.0@, e.1);
    assert forall|key: Seq<char>| #[trigger] members_map(r).contains_key(key) <==> m.contains_key(
        key,
    ) by {
        if members_map(r).contains_key(key) {
            let k = choose|k: int| 0 <= k < r.len() && r[k].0@ == key;
            if k != i {
                assert(members_map(s).contains_key(s[k].0@));
            }
        }
        if m.contains_key(key) && key != e.0@ {
            let k = choose|k: int| 0 <= k < s.len() && s[k].0@ == key;
            assert(members_map(r).contains_key(r[k].0@));
        }
        if key == e.0@ {
            assert(members_map(r).contains_key(r[i].0@));
        }
    }
    assert forall|key: Seq<char>| #[trigger] members_map(r).contains_key(key) implies members_map(
        r,
    )[key] == m[key] by {
        let k = choose|k: int| 0 <= k < r.len() && r[k].0@ == key;
        assert(members_map(r).contains_key(r[k].0@));
        if k != i {
            assert(members_map(s).contains_key(s[k].0@));
        }
    }
    assert(members_map(r) =~= m);
}

/// Adding a member at the place that its name takes in the order keeps the
/// names increasing and adds the name to the map.
proof fn lemma_insert_member(s: Seq<(String, JsonValue)>, i: int, e: (String, JsonValue))
    requires
        names_increase(s),
        0 <= i <= s.len(),
        forall|k: int| 0 <= k < i ==> seq_lt(text_bytes((#[trigger] s[k]).0@), text_bytes(e.0@)),
        i < s.len() ==> seq_lt(text_bytes(e.0@), text_bytes(s[i].0@)),
    ensures
        names_increase(s.insert(i, e)),
        members_map(s.insert(i, e)) == members_map(s).insert(e.0@, e.1),
{
    let r = s.insert(i, e);
    assert forall|k: int| i <= k < s.len() implies seq_lt(
        text_bytes(e.0@),
        text_bytes((#[trigger] s[k]).0@),
    ) by {
        if k > i {
            crate::bytes::lemma_seq_lt_transitive(
                text_bytes(e.0@),
                text_bytes(s[i].0@),
                text_bytes(s[k].0@),
            );
        }
    }
    assert(names_increase(r)) by {
        assert forall|a: int, b: int| 0 <= a < b < r.len() implies seq_lt(
            text_bytes((#[trigger] r[a]).0@),
            text_bytes((#[trigger] r[b]).0@),
        ) by {
            if b < i {
                assert(r[a] == s[a] && r[b] == s[b]);
            } else if b == i {
                assert(r[a] == s[a]);
            } else if a < i {
                assert(r[a] == s[a] && r[b] == s[b - 1]);
                crate::bytes::lemma_seq_lt_transitive(
                    text_bytes(s[a].0@),
                    text_bytes(e.0@),
                    text_bytes(s[b - 1].0@),
                );
            } else if a == i {
                assert(r[b] == s[b - 1]);
            } else {
                assert(r[a] == s[a - 1] && r[b] == s[b - 1]);
            }
        }
    }
    lemma_increasing_distinct(s);
    lemma_increasing_distinct(r);
    lemma_members_map(s);
    lemma_members_map(r);
    let m = members_map(s).insert(e.0@, e.1);
    assert forall|k: int| 0 <= k < s.len() implies (#[trigger] s[k]).0@ != e.0@ by {
        if k < i {
            crate::bytes::lemma_seq_lt_irreflexive(text_bytes(e.0@));
        } else {
            crate::bytes::lemma_seq_lt_irreflexive(text_bytes(e.0@));
        }
    }
    assert forall|key: Seq<char>| #[trigger] members_map(r).contains_key(key) <==> m.contains_key(
        key,
    ) by {
        if members_map(r).contains_key(key) {
            let k = choose|k: int| 0 <= k < r.len() && r[k].0@ == key;
            if k < i {
                assert(r[k] == s[k]);
                assert(members_map(s).contains_key(s[k].0@));
            } else if k > i {
                assert(r[k] == s[k - 1]);
                assert(members_map(s).contains_key(s[k - 1].0@));
            }
        }
        if m.contains_key(key) && key != e.0@ {
            let k = choose|k: int| 0 <= k < s.len() && s[k].0@ == key;
            if k < i {
                assert(r[k] == s[k]);
                assert(members_map(r).contains_key(r[k].0@));
            } else {
                assert(r[k + 1] == s[k]);
                assert(members_map(r).contains_key(r[k + 1].0@));
            }
        }
        if key == e.0@ {
            assert(members_map(r).contains_key(r[i].0@));
        }
    }
    assert forall|key: Seq<char>| #[trigger] members_map(r).contains_key(key) implies members_map(
        r,
    )[key] == m[key] by {
        let k = choose|k: int| 0 <= k < r.len() && r[k].0@ == key;
        assert(members_map(r).contains_key(r[k].0@));
        if k < i {
            assert(r[k] == s[k]);
            assert(members_map(s).contains_key(s[k].0@));
        } else if k > i {
            assert(r[k] == s[k - 1]);
            assert(members_map(s).contains_key(s[k - 1].0@));
        }
    }
    assert(members_map(r) =~= m);
}

/// Sets member `name` to `value` among members whose names increase.
fn set_member(entries: &mut Vec<(String, JsonValue)>, name: &str, value: JsonValue)
    requires
        names_increase(old(entries)@),
    ensures
        names_increase(final(entries)@),
        members_map(final(entries)@) == members_map(old(entries)@).insert(name@, value),
{
    proof {
        crate::bytes::lemma_text_bytes(name@);
    }
    let nb = name.as_bytes();
    let ghost s = entries@;
    let mut i: usize = 0;
    while i < entries.len()
        invariant
            0 <= i <= s.len(),
            s == entries@,
            s == old(entries)@,
            names_increase(s),
            nb@ == text_bytes(name@),
            forall|k: int| 0 <= k < i ==> seq_lt(text_bytes((#[trigger] s[k]).0@), nb@),
        decreases s.len() - i,
    {
        let kb = entries[i].0.as_str().as_bytes();
        if crate::bytes::bytes_eq(kb, nb) {
            let key = entries[i].0.clone();
            proof {
                crate::bytes::lemma_text_bytes(s[i as int].0@);
                crate::bytes::lemma_text_bytes(name@);
                assert(s[i as int].0@ == name@);
                lemma_replace_member(s, i as int, (key, value));
            }
            entries.set(i, (key, value));
            return;
        }
        if crate::bytes::bytes_lt(nb, kb) {
            let e = (String::from_str(name), value);
            proof {
                lemma_insert_member(s, i as int, e);
            }
            entries.insert(i, e);
            return;
        }
        proof {
            crate::bytes::lemma_seq_lt_total(kb@, nb@);
        }
        i = i + 1;
    }
    let e = (String::from_str(name), value);
    proof {
        lemma_insert_member(s, s.len() as int, e);
        assert(s.insert(s.len() as int, e) =~= s.push(e));
    }
    entries.push(e);
}

impl JsonObject {
    #[verifier::type_invariant]
    spec fn names_sorted(self) -> bool {
        names_increase(self.entries@)
    }

    /// The members in order.
    pub closed spec fn members(self) -> Seq<(String, JsonValue)> {
        self.entries@
    }

    /// An object with no members.
    pub fn new() -> (r: Self)
        ensures
            r.members().len() == 0,
    {
        JsonObject { entries: Vec::new() }
    }

    /// The members as a map from name to value.
    pub closed spec fn contents(self) -> Map<Seq<char>, JsonValue> {
        members_map(self.entries@)
    }

    /// Sets member `name` to `value`: its value is replaced where the name
    /// is there, else the member is added in its place in the order.
    pub fn insert(&mut self, name: &str, value: JsonValue)
        ensures
            final(self).contents() == old(self).contents().insert(name@, value),
            names_increase(final(self).members()),
    {
        proof {
            use_type_invariant(&*self);
        }
        let mut entries: Vec<(String, JsonValue)> = Vec::new();
        std::mem::swap(&mut entries, &mut self.entries);
        set_member(&mut entries, name, value);
        self.entries = entries;
    }

    /// The member at place `i` in the order.
    pub fn member(&self, i: usize) -> (r: &(String, JsonValue))
        requires
            i < self.members().len(),
        ensures
            *r == self.members()[i as int],
    {
        &self.entries[i]
    }

    /// The number of members.
    pub fn len(&self) -> (r: usize)
        ensures
            r == self.members().len(),
    {
        self.entries.len()
    }
}

/// The canonical JSON text of a value, as bytes: no white space, members of
/// objects in order of name.
pub closed spec fn canonical(v: JsonValue) -> Seq<u8>
    decreases v,
{
    match v {
        JsonValue::Null => text_bytes("null"@),
        JsonValue::Bool(b) => if b {
            text_bytes("true"@)
        } else {
            text_bytes("false"@)
        },
        JsonValue::Number(t) => text_bytes(t@),
        JsonValue::String(s) => text_bytes(json_string_text(s@)),
        JsonValue::Array(items) => seq![91u8] + joined_values(items@) + seq![93u8],
        JsonValue::Object(o) => seq![123u8] + joined_members(o.entries@) + seq![125u8],
    }
}

/// The canonical texts of the values, separated by commas.
pub closed spec fn joined_values(s: Seq<JsonValue>) -> Seq<u8>
    decreases s,
{
    if s.len() == 0 {
        seq![]
    } else if s.len() == 1 {
        canonical(s[0])
    } else {
        joined_values(s.subrange(0, s.len() - 1)) + seq![44u8] + canonical(s[s.len() - 1])
    }
}

/// One member: the JSON text of its name, a colon, the canonical text of
/// its value.
pub closed spec fn member_text(m: (String, JsonValue)) -> Seq<u8>
    decreases m,
{
    text_bytes(json_string_text(m.0@)) + seq![58u8] + canonical(m.1)
}

/// The members' texts, separated by commas.
pub closed spec fn joined_members(s: Seq<(String, JsonValue)>) -> Seq<u8>
    decreases s,
{
    if s.len() == 0 {
        seq![]
    } else if s.len() == 1 {
        member_text(s[0])
    } else {
        joined_members(s.subrange(0, s.len() - 1)) + seq![44u8] + member_text(s[s.len() - 1])
    }
}

/// Members whose names increase are fixed by the map that they make.
pub proof fn lemma_members_determined(a: Seq<(String, JsonValue)>, b: Seq<(String, JsonValue)>)
    requires
        names_increase(a),
        names_increase(b),
        members_map(a) == members_map(b),
    ensures
        a.len() == b.len(),
        forall|k: int| 0 <= k < a.len() ==> (#[trigger] a[k]).0@ == b[k].0@ && a[k].1 == b[k].1,
    decreases a.len(),
{
    lemma_increasing_distinct(a);
    lemma_increasing_distinct(b);
    lemma_members_map(a);
    lemma_members_map(b);
    if a.len() == 0 {
        if b.len() > 0 {
            assert(members_map(b).contains_key(b[0].0@));
        }
    } else {
        if b.len() == 0 {
            assert(members_map(a).contains_key(a[0].0@));
        }
        let ka = a[0].0@;
        let kb = b[0].0@;
        assert(members_map(a).contains_key(a[0].0@));
        assert(members_map(b).contains_key(b[0].0@));
        let j = choose|j: int| 0 <= j < b.len() && b[j].0@ == ka;
        let i = choose|i: int| 0 <= i < a.len() && a[i].0@ == kb;
        if i > 0 && j > 0 {
            assert(seq_lt(text_bytes(a[0].0@), text_bytes(a[i].0@)));
            assert(seq_lt(text_bytes(b[0].0@), text_bytes(b[j].0@)));
            crate::bytes::lemma_seq_lt_total(text_bytes(ka), text_bytes(kb));
        }
        assert(ka == kb);
        let a2 = a.drop_first();
        let b2 = b.drop_first();
        assert(names_increase(a2)) by {
            assert forall|x: int, y: int| 0 <= x < y < a2.len() implies seq_lt(
                text_bytes((#[trigger] a2[x]).0@),
                text_bytes((#[trigger] a2[y]).0@),
            ) by {
                assert(a2[x] == a[x + 1] && a2[y] == a[y + 1]);
            }
        }
        assert(names_increase(b2)) by {
            assert forall|x: int, y: int| 0 <= x < y < b2.len() implies seq_lt(
                text_bytes((#[trigger] b2[x]).0@),
                text_bytes((#[trigger] b2[y]).0@),
            ) by {
                assert(b2[x] == b[x + 1] && b2[y] == b[y + 1]);
            }
        }
        lemma_increasing_distinct(a2);
        lemma_increasing_distinct(b2);
        lemma_members_map(a2);
        lemma_members_map(b2);
        assert forall|key: Seq<char>| #[trigger] members_map(a2).contains_key(key)
            implies members_map(b2).contains_key(key) && members_map(a2)[key] == members_map(b2)[key] by {
            let k = choose|k: int| 0 <= k < a2.len() && a2[k].0@ == key;
            assert(a2[k] == a[k + 1]);
            assert(members_map(a).contains_key(a[k + 1].0@));
            let l = choose|l: int| 0 <= l < b.len() && b[l].0@ == key;
            assert(l != 0);
            assert(b2[l - 1] == b[l]);
            assert(members_map(b2).contains_key(b2[l - 1].0@));
        }
        assert forall|key: Seq<char>| #[trigger] members_map(b2).contains_key(key)
            implies members_map(a2).contains_key(key) by {
            let k = choose|k: int| 0 <= k < b2.len() && b2[k].0@ == key;
            assert(b2[k] == b[k + 1]);
            assert(members_map(b).contains_key(b[k + 1].0@));
            let l = choose|l: int| 0 <= l < a.len() && a[l].0@ == key;
            assert(l != 0);
            assert(a2[l - 1] == a[l]);
            assert(members_map(a2).contains_key(a2[l - 1].0@));
        }
        assert(members_map(a2) =~= members_map(b2));
        lemma_members_determined(a2, b2);
        assert forall|k: int| 0 <= k < a.len() implies (#[trigger] a[k]).0@ == b[k].0@ && a[k].1
            == b[k].1 by {
            if k > 0 {
                assert(a2[k - 1] == a[k] && b2[k - 1] == b[k]);
            }
        }
    }
}

/// Members with the same names and values, in the same order, have the
/// same text.
proof fn lemma_joined_members_same(a: Seq<(String, JsonValue)>, b: Seq<(String, JsonValue)>)
    requires
        a.len() == b.len(),
        forall|k: int| 0 <= k < a.len() ==> (#[trigger] a[k]).0@ == b[k].0@ && a[k].1 == b[k].1,
    ensures
        joined_members(a) == joined_members(b),
    decreases a.len(),
{
    if a.len() > 0 {
        let n = a.len() - 1;
        assert(a[n].0@ == b[n].0@ && a[n].1 == b[n].1);
        assert(member_text(a[n]) == member_text(b[n]));
        if a.len() > 1 {
            let a2 = a.subrange(0, n);
            let b2 = b.subrange(0, n);
            assert forall|k: int| 0 <= k < a2.len() implies (#[trigger] a2[k]).0@ == b2[k].0@
                && a2[k].1 == b2[k].1 by {
                assert(a2[k] == a[k] && b2[k] == b[k]);
            }
            lemma_joined_members_same(a2, b2);
        } else {
            assert(member_text(a[0]) == member_text(b[0]));
        }
    }
}

/// An object's canonical text depends on its contents alone: objects that
/// hold the same names with the same values render the same, in whatever
/// order their members were set.
pub proof fn law_object_text_depends_on_contents(a: JsonObject, b: JsonObject)
    requires
        names_increase(a.members()),
        names_increase(b.members()),
        a.contents() == b.contents(),
    ensures
        canonical(JsonValue::Object(a)) == canonical(JsonValue::Object(b)),
{
    lemma_members_determined(a.entries@, b.entries@);
    lemma_joined_members_same(a.entries@, b.entries@);
}

/// Appends the canonical JSON text of `v`.
pub fn write_canonical(v: &JsonValue, out: &mut Vec<u8>)
    ensures
        final(out)@ == old(out)@ + canonical(*v),
    decreases v,
{
    match v {
        JsonValue::Null => append_slice(out, "null".as_bytes()),
        JsonValue::Bool(b) => {
            if *b {
                append_slice(out, "true".as_bytes());
            } else {
                append_slice(out, "false".as_bytes());
            }
        },
        JsonValue::Number(t) => append_slice(out, t.as_str().as_bytes()),
        JsonValue::String(s) => {
            let q = json_quote(s.as_str());
            append_slice(out, q.as_str().as_bytes());
        },
        JsonValue::Array(items) => {
            let ghost start = out@;
            out.push(91u8);
            let mut i: usize = 0;
            while i < items.len()
                invariant
                    0 <= i <= items@.len(),
                    *v == JsonValue::Array(*items),
                    out@ == start + seq![91u8] + joined_values(items@.subrange(0, i as int)),
                decreases items@.len() - i,
            {
                proof {
                    assert(decreases_to!(*v => (*v)->Array_0));
                    assert(decreases_to!(*items => items@));
                    assert(decreases_to!(items@ => items@[i as int]));
                }
                let ghost before = out@;
                if i > 0 {
                    out.push(44u8);
                }
                write_canonical(&items[i], out);
                proof {
                    let t = items@.subrange(0, i + 1);
                    assert(t.subrange(0, t.len() - 1) =~= items@.subrange(0, i as int));
                    if i == 0 {
                        assert(joined_values(items@.subrange(0, 0)) =~= seq![]);
                    }
                    assert(out@ =~= start + seq![91u8] + joined_values(t));
                }
                i = i + 1;
            }
            assert(items@.subrange(0, items@.len() as int) =~= items@);
            out.push(93u8);
            assert(out@ =~= start + canonical(*v));
        },
        JsonValue::Object(o) => {
            let ghost start = out@;
            out.push(123u8);
            let mut i: usize = 0;
            while i < o.entries.len()
                invariant
                    0 <= i <= o.entries@.len(),
                    *v == JsonValue::Object(*o),
                    out@ == start + seq![123u8] + joined_members(o.entries@.subrange(0, i as int)),
                decreases o.entries@.len() - i,
            {
                proof {
                    assert(decreases_to!(*v => (*v)->Object_0));
                    assert(decreases_to!(*o => o.entries));
                    assert(decreases_to!(o.entries => o.entries@));
                    assert(decreases_to!(o.entries@ => o.entries@[i as int]));
                    assert(decreases_to!(o.entries@[i as int] => o.entries@[i as int].1));
                }
                let ghost before = out@;
                if i > 0 {
                    out.push(44u8);
                }
                let ghost mid = out@;
                let q = json_quote(o.entries[i].0.as_str());
                append_slice(out, q.as_str().as_bytes());
                out.push(58u8);
                write_canonical(&o.entries[i].1, out);
                proof {
                    assert(out@ =~= mid + member_text(o.entries@[i as int]));
                    let t = o.entries@.subrange(0, i + 1);
                    assert(t.subrange(0, t.len() - 1) =~= o.entries@.subrange(0, i as int));
                    if i == 0 {
                        assert(joined_members(o.entries@.subrange(0, 0)) =~= seq![]);
                    }
                    assert(out@ =~= start + seq![123u8] + joined_members(t));
                }
                i = i + 1;
            }
            assert(o.entries@.subrange(0, o.entries@.len() as int) =~= o.entries@);
            out.push(125u8);
            assert(out@ =~= start + canonical(*v));
        },
    }
}

/// The canonical JSON text of `v`.
pub fn canonical_json(v: &JsonValue) -> (r: Vec<u8>)
    ensures
        r@ == canonical(*v),
{
    let mut out: Vec<u8> = Vec::new();
    write_canonical(v, &mut out);
    assert(out@ =~= canonical(*v));
    out
}

/// A copy of `v`.
pub fn clone_value(v: &JsonValue) -> (r: JsonValue)
    ensures
        canonical(r) == canonical(*v),
    decreases v,
{
    match v {
        JsonValue::Null => JsonValue::Null,
        JsonValue::Bool(b) => JsonValue::Bool(*b),
        JsonValue::Number(t) => JsonValue::Number(t.clone()),
        JsonValue::String(t) => JsonValue::String(t.clone()),
        JsonValue::Array(items) => {
            let mut copy: Vec<JsonValue> = Vec::new();
            let mut i: usize = 0;
            while i < items.len()
                invariant
                    0 <= i <= items@.len(),
                    *v == JsonValue::Array(*items),
                    copy@.len() == i,
                    forall|k: int| 0 <= k < i ==> canonical(#[trigger] copy@[k]) == canonical(items@[k]),
                decreases items@.len() - i,
            {
                proof {
                    assert(decreases_to!(*v => (*v)->Array_0));
                    assert(decreases_to!(*items => items@));
                    assert(decreases_to!(items@ => items@[i as int]));
                }
                let c = clone_value(&items[i]);
                copy.push(c);
                i = i + 1;
            }
            proof {
                lemma_joined_values_same(copy@, items@);
            }
            JsonValue::Array(copy)
        },
        JsonValue::Object(o) => JsonValue::Object(clone_object(o)),
    }
}

/// A copy of `o`.
fn clone_object(o: &JsonObject) -> (r: JsonObject)
    ensures
        canonical(JsonValue::Object(r)) == canonical(JsonValue::Object(*o)),
    decreases *o,
{
    proof {
        use_type_invariant(o);
    }
    let mut copy: Vec<(String, JsonValue)> = Vec::new();
    let mut i: usize = 0;
    while i < o.entries.len()
        invariant
            0 <= i <= o.entries@.len(),
            names_increase(o.entries@),
            copy@.len() == i,
            forall|k: int|
                0 <= k < i ==> (#[trigger] copy@[k]).0@ == o.entries@[k].0@ && canonical(copy@[k].1)
                    == canonical(o.entries@[k].1),
        decreases o.entries@.len() - i,
    {
        proof {
            assert(decreases_to!(*o => o.entries));
            assert(decreases_to!(o.entries => o.entries@));
            assert(decreases_to!(o.entries@ => o.entries@[i as int]));
            assert(decreases_to!(o.entries@[i as int] => o.entries@[i as int].1));
        }
        let name = o.entries[i].0.clone();
        let value = clone_value(&o.entries[i].1);
        copy.push((name, value));
        i = i + 1;
    }
    assert(names_increase(copy@)) by {
        assert forall|a: int, b: int| 0 <= a < b < copy@.len() implies seq_lt(
            text_bytes((#[trigger] copy@[a]).0@),
            text_bytes((#[trigger] copy@[b]).0@),
        ) by {
            assert(copy@[a].0@ == o.entries@[a].0@ && copy@[b].0@ == o.entries@[b].0@);
        }
    }
    proof {
        lemma_joined_members_texts(copy@, o.entries@);
    }
    JsonObject { entries: copy }
}

/// Values with the same texts, in the same order, join to the same text.
proof fn lemma_joined_values_same(a: Seq<JsonValue>, b: Seq<JsonValue>)
    requires
        a.len() == b.len(),
        forall|k: int| 0 <= k < a.len() ==> canonical(#[trigger] a[k]) == canonical(b[k]),
    ensures
        joined_values(a) == joined_values(b),
    decreases a.len(),
{
    if a.len() > 0 {
        let n = a.len() - 1;
        assert(canonical(a[n]) == canonical(b[n]));
        if a.len() > 1 {
            let a2 = a.subrange(0, n);
            let b2 = b.subrange(0, n);
            assert forall|k: int| 0 <= k < a2.len() implies canonical(#[trigger] a2[k]) == canonical(
                b2[k],
            ) by {
                assert(a2[k] == a[k] && b2[k] == b[k]);
            }
            lemma_joined_values_same(a2, b2);
        }
    }
}

/// Members with the same names and the same value texts, in the same
/// order, join to the same text.
proof fn lemma_joined_members_texts(a: Seq<(String, JsonValue)>, b: Seq<(String, JsonValue)>)
    requires
        a.len() == b.len(),
        forall|k: int|
            0 <= k < a.len() ==> (#[trigger] a[k]).0@ == b[k].0@ && canonical(a[k].1) == canonical(
                b[k].1,
            ),
    ensures
        joined_members(a) == joined_members(b),
    decreases a.len(),
{
    if a.len() > 0 {
        let n = a.len() - 1;
        assert(a[n].0@ == b[n].0@ && canonical(a[n].1) == canonical(b[n].1));
        assert(member_text(a[n]) == member_text(b[n]));
        if a.len() > 1 {
            let a2 = a.subrange(0, n);
            let b2 = b.subrange(0, n);
            assert forall|k: int| 0 <= k < a2.len() implies (#[trigger] a2[k]).0@ == b2[k].0@
                && canonical(a2[k].1) == canonical(b2[k].1) by {
                assert(a2[k] == a[k] && b2[k] == b[k]);
            }
            lemma_joined_members_texts(a2, b2);
        }
    }
}

impl Clone for JsonValue {
    fn clone(&self) -> (r: Self)
        ensures
            canonical(r) == canonical(*self),
    {
        clone_value(self)
    }
}

impl Clone for JsonObject {
    fn clone(&self) -> (r: Self)
        ensures
            canonical(JsonValue::Object(r)) == canonical(JsonValue::Object(*self)),
    {
        clone_object(self)
    }
}

} // verus!
