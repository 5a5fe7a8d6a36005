//! JSON documents as the registrar handles them, and their canonical text:
//! compact, object keys in ascending order at every level, strings escaped
//! the way serde_json writes them. The history-log hash chain is computed
//! over this text, so the chain never depends on how an object's members
//! happened to be ordered.

use vstd::prelude::*;
use crate::order::{
    key_sorted, keys_distinct, lemma_key_sorted_unique, lemma_text_lt_irreflexive, lemma_text_lt_total, lemma_text_lt_transitive, same_elements,
    sorted_order, text_lt,
};
use crate::text::{append_chars, chars_of, string_of};

verus! {

/// A JSON value. Numbers are carried as the text that serde_json prints
/// for them; objects as their members in any order.
pub enum JsonValue {
    Null,
    Bool(bool),
    Number(String),
    Str(String),
    Array(Vec<JsonValue>),
    Object(Vec<(String, JsonValue)>),
}

/// The lowercase hexadecimal digit for `d` (`d < 16`).
pub open spec fn hex_lower(d: int) -> char {
    if d < 10 {
        (('0' as int) + d) as char
    } else {
        (('a' as int) + d - 10) as char
    }
}

/// How serde_json writes one character inside a string literal.
pub open spec fn escape_char(c: char) -> Seq<char> {
    if c == '"' {
        seq!['\\', '"']
    } else if c == '\\' {
        seq!['\\', '\\']
    } else if c == '\u{8}' {
        seq!['\\', 'b']
    } else if c == '\t' {
        seq!['\\', 't']
    } else if c == '\n' {
        seq!['\\', 'n']
    } else if c == '\u{c}' {
        seq!['\\', 'f']
    } else if c == '\r' {
        seq!['\\', 'r']
    } else if (c as u32) < 0x20 {
        seq!['\\', 'u', '0', '0', hex_lower((c as u32) as int / 16), hex_lower((c as u32) as int % 16)]
    } else {
        seq![c]
    }
}

/// The escaped body of a string literal.
pub open spec fn escaped(s: Seq<char>) -> Seq<char>
    decreases s.len(),
{
    if s.len() == 0 {
        seq![]
    } else {
        escaped(s.drop_last()) + escape_char(s.last())
    }
}

/// A JSON string literal for `s`, quoted and escaped.
pub open spec fn json_string(s: Seq<char>) -> Seq<char> {
    seq!['"'] + escaped(s) + seq!['"']
}

/// The canonical text of a JSON value.
pub open spec fn json_text(v: JsonValue) -> Seq<char>
    decreases v,
{
    match v {
        JsonValue::Null => seq!['n', 'u', 'l', 'l'],
        JsonValue::Bool(b) => if b {
            seq!['t', 'r', 'u', 'e']
        } else {
            seq!['f', 'a', 'l', 's', 'e']
        },
        JsonValue::Number(t) => t@,
        JsonValue::Str(s) => json_string(s@),
        JsonValue::Array(items) => seq!['['] + items_text(items@) + seq![']'],
        JsonValue::Object(members) => seq!['{'] + members_text(
            key_sort(rendered_members(members@)),
        ) + seq!['}'],
    }
}

/// The canonical texts of the items, separated by commas.
pub open spec fn items_text(s: Seq<JsonValue>) -> Seq<char>
    decreases s,
{
    if s.len() == 0 {
        seq![]
    } else if s.len() == 1 {
        json_text(s[0])
    } else {
        items_text(s.drop_last()) + seq![','] + json_text(s.last())
    }
}

/// Each member as its key and the canonical text of its value, in the
/// order given.
pub open spec fn rendered_members(e: Seq<(String, JsonValue)>) -> Seq<(Seq<char>, Seq<char>)>
    decreases e,
{
    if e.len() == 0 {
        seq![]
    } else {
        rendered_members(e.drop_last()).push((e.last().0@, json_text(e.last().1)))
    }
}

/// One member written out: quoted key, colon, value text.
pub open spec fn member_text(m: (Seq<char>, Seq<char>)) -> Seq<char> {
    json_string(m.0) + seq![':'] + m.1
}

/// The members written out in the order given, separated by commas.
pub open spec fn members_text(m: Seq<(Seq<char>, Seq<char>)>) -> Seq<char>
    decreases m.len(),
{
    if m.len() == 0 {
        seq![]
    } else if m.len() == 1 {
        member_text(m[0])
    } else {
        members_text(m.drop_last()) + seq![','] + member_text(m.last())
    }
}

/// Index of an entry whose key no other key sorts before.
pub open spec fn min_key_index<V>(r: Seq<(Seq<char>, V)>) -> int
    decreases r.len(),
{
    if r.len() <= 1 {
        0
    } else {
        let m = min_key_index(r.drop_last());
        if text_lt(r.last().0, r[m].0) {
            r.len() - 1
        } else {
            m
        }
    }
}

/// The entries arranged by ascending key.
pub open spec fn key_sort<V>(r: Seq<(Seq<char>, V)>) -> Seq<(Seq<char>, V)>
    decreases r.len(),
{
    let m = min_key_index(r);
    if r.len() == 0 || m < 0 || m >= r.len() {
        r
    } else {
        seq![r[m]] + key_sort(r.remove(m))
    }
}

/// Every object, at every depth, has pairwise distinct keys (as every
/// serde_json map does).
pub open spec fn well_formed(v: JsonValue) -> bool
    decreases v,
{
    match v {
        JsonValue::Array(items) => items_well_formed(items@),
        JsonValue::Object(members) => members_well_formed(members@) && member_keys_distinct(
            members@,
        ),
        _ => true,
    }
}

pub open spec fn items_well_formed(s: Seq<JsonValue>) -> bool
    decreases s,
{
    if s.len() == 0 {
        true
    } else {
        items_well_formed(s.drop_last()) && well_formed(s.last())
    }
}

pub open spec fn members_well_formed(e: Seq<(String, JsonValue)>) -> bool
    decreases e,
{
    if e.len() == 0 {
        true
    } else {
        members_well_formed(e.drop_last()) && well_formed(e.last().1)
    }
}

/// No two members share a key.
pub open spec fn member_keys_distinct(e: Seq<(String, JsonValue)>) -> bool {
    forall|i: int, j: int| 0 <= i < e.len() && 0 <= j < e.len() && i != j ==> e[i].0@ != e[j].0@
}

impl JsonValue {
    pub open spec fn wf(&self) -> bool {
        well_formed(*self)
    }
}

proof fn lemma_min_key_index<V>(r: Seq<(Seq<char>, V)>)
    requires
        r.len() > 0,
    ensures
        0 <= min_key_index(r) < r.len(),
        forall|j: int| 0 <= j < r.len() ==> !text_lt(#[trigger] r[j].0, r[min_key_index(r)].0),
    decreases r.len(),
{
    if r.len() > 1 {
        let t = r.drop_last();
        lemma_min_key_index(t);
        let m = min_key_index(t);
        assert forall|j: int| 0 <= j < r.len() implies !text_lt(
            #[trigger] r[j].0,
            r[min_key_index(r)].0,
        ) by {
            if text_lt(r.last().0, r[m].0) {
                if j < r.len() - 1 {
                    assert(t[j] == r[j]);
                    if text_lt(r[j].0, r.last().0) {
                        lemma_text_lt_transitive(r[j].0, r.last().0, r[m].0);
                    }
                } else {
                    lemma_text_lt_irreflexive(r.last().0);
                }
            } else {
                if j < r.len() - 1 {
                    assert(t[j] == r[j]);
                }
            }
        }
    } else {
        lemma_text_lt_irreflexive(r[0].0);
    }
}

/// Sorting by key keeps exactly the entries it was given and, for distinct
/// keys, leaves them in strictly ascending key order.
pub proof fn lemma_key_sort<V>(r: Seq<(Seq<char>, V)>)
    requires
        keys_distinct(r),
    ensures
        key_sorted(key_sort(r)),
        same_elements(key_sort(r), r),
        key_sort(r).len() == r.len(),
    decreases r.len(),
{
    if r.len() > 0 {
        let m = min_key_index(r);
        lemma_min_key_index(r);
        let rest = r.remove(m);
        r.remove_ensures(m);
        assert forall|i: int, j: int|
            0 <= i < rest.len() && 0 <= j < rest.len() && i != j implies rest[i].0 != rest[j].0 by {
            let ii = if i < m { i } else { i + 1 };
            let jj = if j < m { j } else { j + 1 };
            assert(rest[i] == r[ii]);
            assert(rest[j] == r[jj]);
        }
        lemma_key_sort(rest);
        let s = key_sort(rest);
        let out = seq![r[m]] + s;
        assert(key_sort(r) == out);
        assert forall|z: (Seq<char>, V)| out.contains(z) <==> r.contains(z) by {
            if out.contains(z) {
                let k = choose|k: int| 0 <= k < out.len() && out[k] == z;
                if k == 0 {
                    assert(r[m] == z);
                } else {
                    assert(s[k - 1] == z);
                    assert(s.contains(z));
                    assert(rest.contains(z));
                    let q = choose|q: int| 0 <= q < rest.len() && rest[q] == z;
                    if q < m {
                        assert(r[q] == z);
                    } else {
                        assert(r[q + 1] == z);
                    }
                }
            }
            if r.contains(z) {
                let q = choose|q: int| 0 <= q < r.len() && r[q] == z;
                if q == m {
                    assert(out[0] == z);
                } else {
                    let qq = if q < m { q } else { q - 1 };
                    assert(rest[qq] == z);
                    assert(rest.contains(z));
                    assert(s.contains(z));
                    let k = choose|k: int| 0 <= k < s.len() && s[k] == z;
                    assert(out[k + 1] == z);
                }
            }
        }
        assert forall|i: int, j: int| 0 <= i < j < out.len() implies text_lt(
            #[trigger] out[i].0,
            #[trigger] out[j].0,
        ) by {
            if i == 0 {
                assert(s.contains(out[j]));
                assert(rest.contains(out[j]));
                let q = choose|q: int| 0 <= q < rest.len() && rest[q] == out[j];
                let qq = if q < m { q } else { q + 1 };
                assert(r[qq] == out[j]);
                assert(qq != m);
                assert(!text_lt(r[qq].0, r[m].0));
                lemma_text_lt_total(r[qq].0, r[m].0);
            } else {
                assert(out[i] == s[i - 1]);
                assert(out[j] == s[j - 1]);
            }
        }
    }
}

pub proof fn lemma_rendered_members(e: Seq<(String, JsonValue)>)
    ensures
        rendered_members(e).len() == e.len(),
        forall|i: int|
            0 <= i < e.len() ==> #[trigger] rendered_members(e)[i] == (e[i].0@, json_text(e[i].1)),
    decreases e.len(),
{
    if e.len() > 0 {
        lemma_rendered_members(e.drop_last());
        assert forall|i: int| 0 <= i < e.len() implies #[trigger] rendered_members(e)[i] == (
            e[i].0@,
            json_text(e[i].1),
        ) by {
            if i < e.len() - 1 {
                assert(e.drop_last()[i] == e[i]);
            }
        }
    }
}

proof fn lemma_items_wf(s: Seq<JsonValue>, i: int)
    requires
        items_well_formed(s),
        0 <= i < s.len(),
    ensures
        well_formed(s[i]),
    decreases s.len(),
{
    if i < s.len() - 1 {
        lemma_items_wf(s.drop_last(), i);
    }
}

proof fn lemma_members_wf(e: Seq<(String, JsonValue)>, i: int)
    requires
        members_well_formed(e),
        0 <= i < e.len(),
    ensures
        well_formed(e[i].1),
    decreases e.len(),
{
    if i < e.len() - 1 {
        lemma_members_wf(e.drop_last(), i);
    }
}

/// Writes the string literal for `s`.
fn write_json_string(s: &Vec<char>, out: &mut Vec<char>)
    ensures
        final(out)@ == old(out)@ + json_string(s@),
{
    let ghost start = old(out)@;
    out.push('"');
    let mut i: usize = 0;
    while i < s.len()
        invariant
            i <= s.len(),
            out@ == start + seq!['"'] + escaped(s@.take(i as int)),
        decreases s.len() - i,
    {
        let c = s[i];
        let ghost before = out@;
        if c == '"' {
            out.push('\\');
            out.push('"');
        } else if c == '\\' {
            out.push('\\');
            out.push('\\');
        } else if c == '\u{8}' {
            out.push('\\');
            out.push('b');
        } else if c == '\t' {
            out.push('\\');
            out.push('t');
        } else if c == '\n' {
            out.push('\\');
            out.push('n');
        } else if c == '\u{c}' {
            out.push('\\');
            out.push('f');
        } else if c == '\r' {
            out.push('\\');
            out.push('r');
        } else if (c as u32) < 0x20 {
            let code = c as u32;
            let hi = code / 16;
            let lo = code % 16;
            out.push('\\');
            out.push('u');
            out.push('0');
            out.push('0');
            out.push(hex_digit_lower(hi));
            out.push(hex_digit_lower(lo));
        } else {
            out.push(c);
        }
        proof {
            assert(out@ =~= before + escape_char(c));
            assert(s@.take(i + 1).drop_last() =~= s@.take(i as int));
            assert(s@.take(i + 1).last() == c);
        }
        i += 1;
    }
    out.push('"');
    assert(s@.take(s.len() as int) =~= s@);
    assert(out@ =~= start + json_string(s@));
}

fn hex_digit_lower(d: u32) -> (c: char)
    requires
        d < 16,
    ensures
        c == hex_lower(d as int),
{
    if d < 10 {
        let v: u8 = 48 + d as u8;
        assert(v as u32 == ('0' as int) + d);
        (v as char)
    } else {
        let v: u8 = 87 + d as u8;
        assert(v as u32 == ('a' as int) + d - 10);
        (v as char)
    }
}

/// Writes the canonical text of `v`.
#[verifier::spinoff_prover]
fn write_canonical(v: &JsonValue, out: &mut Vec<char>)
    requires
        v.wf(),
    ensures
        final(out)@ == old(out)@ + json_text(*v),
    decreases v,
{
    let ghost start = old(out)@;
    match v {
        JsonValue::Null => {
            out.push('n');
            out.push('u');
            out.push('l');
            out.push('l');
            assert(out@ =~= start + json_text(*v));
        },
        JsonValue::Bool(b) => {
            if *b {
                out.push('t');
                out.push('r');
                out.push('u');
                out.push('e');
            } else {
                out.push('f');
                out.push('a');
                out.push('l');
                out.push('s');
                out.push('e');
            }
            assert(out@ =~= start + json_text(*v));
        },
        JsonValue::Number(t) => {
            let cs = chars_of(t.as_str());
            append_chars(out, &cs);
        },
        JsonValue::Str(s) => {
            let cs = chars_of(s.as_str());
            write_json_string(&cs, out);
        },
        JsonValue::Array(items) => {
            out.push('[');
            let mut i: usize = 0;
            while i < items.len()
                invariant
                    i <= items.len(),
                    *v == JsonValue::Array(*items),
                    items_well_formed(items@),
                    out@ == start + seq!['['] + items_text(items@.take(i as int)),
                decreases items.len() - i,
            {
                proof {
                    lemma_items_wf(items@, i as int);
                    assert(decreases_to!(*v => (*v)->Array_0));
                    assert(decreases_to!((*v)->Array_0 => items@));
                    assert(decreases_to!(items@ => items@[i as int]));
                }
                let ghost before = out@;
                if i > 0 {
                    out.push(',');
                }
                write_canonical(&items[i], out);
                proof {
                    let t = items@.take(i + 1);
                    assert(t.drop_last() =~= items@.take(i as int));
                    assert(t.last() == items@[i as int]);
                    if i == 0 {
                        assert(out@ =~= start + seq!['['] + items_text(t));
                    } else {
                        assert(out@ =~= start + seq!['['] + items_text(t));
                    }
                }
                i += 1;
            }
            out.push(']');
            assert(items@.take(items.len() as int) =~= items@);
            assert(out@ =~= start + json_text(*v));
        },
        JsonValue::Object(members) => {
            let n = members.len();
            let mut keys: Vec<Vec<char>> = Vec::new();
            let mut texts: Vec<Vec<char>> = Vec::new();
            let mut i: usize = 0;
            while i < n
                invariant
                    i <= n,
                    n == members.len(),
                    *v == JsonValue::Object(*members),
                    members_well_formed(members@),
                    keys.len() == i,
                    texts.len() == i,
                    forall|k: int| 0 <= k < i ==> (#[trigger] keys@[k])@ == members@[k].0@,
                    forall|k: int| 0 <= k < i ==> (#[trigger] texts@[k])@ == json_text(
                        members@[k].1,
                    ),
                decreases n - i,
            {
                proof {
                    lemma_members_wf(members@, i as int);
                    assert(decreases_to!(*v => (*v)->Object_0));
                    assert(decreases_to!((*v)->Object_0 => members@));
                    assert(decreases_to!(members@ => members@[i as int]));
                    assert(decreases_to!(members@[i as int] => members@[i as int].1));
                }
                let key = chars_of(members[i].0.as_str());
                let mut text: Vec<char> = Vec::new();
                write_canonical(&members[i].1, &mut text);
                assert(text@ =~= json_text(members@[i as int].1));
                keys.push(key);
                texts.push(text);
                i += 1;
            }
            proof {
                assert forall|a: int, b: int|
                    0 <= a < keys.len() && 0 <= b < keys.len() && a != b implies keys@[a]@
                    != keys@[b]@ by {
                    assert(members@[a].0@ == keys@[a]@);
                    assert(members@[b].0@ == keys@[b]@);
                }
            }
            let order = sorted_order(&keys);
            let ghost rendered = rendered_members(members@);
            let ghost sorted = Seq::new(
                n as nat,
                |k: int| (keys@[order@[k] as int]@, texts@[order@[k] as int]@),
            );
            proof {
                lemma_rendered_members(members@);
                assert(keys_distinct(rendered)) by {
                    assert forall|a: int, b: int|
                        0 <= a < rendered.len() && 0 <= b < rendered.len() && a
                            != b implies rendered[a].0 != rendered[b].0 by {
                        assert(rendered[a].0 == keys@[a]@);
                        assert(rendered[b].0 == keys@[b]@);
                    }
                }
                assert(key_sorted(sorted)) by {
                    assert forall|a: int, b: int| 0 <= a < b < sorted.len() implies text_lt(
                        #[trigger] sorted[a].0,
                        #[trigger] sorted[b].0,
                    ) by {
                        assert(text_lt(
                            keys@[order@[a] as int]@,
                            keys@[order@[b] as int]@,
                        ));
                    }
                }
                assert forall|z: (Seq<char>, Seq<char>)| sorted.contains(z) <==> rendered.contains(
                    z,
                ) by {
                    if sorted.contains(z) {
                        let k = choose|k: int| 0 <= k < sorted.len() && sorted[k] == z;
                        let j = order@[k] as int;
                        assert(rendered[j] == z);
                    }
                    if rendered.contains(z) {
                        let j = choose|j: int| 0 <= j < rendered.len() && rendered[j] == z;
                        assert(order@.contains(j as usize));
                        let k = choose|k: int| 0 <= k < order.len() && order@[k] == j as usize;
                        assert(sorted[k] == z);
                    }
                }
                lemma_key_sort(rendered);
                lemma_key_sorted_unique(sorted, key_sort(rendered));
            }
            out.push('{');
            let mut k: usize = 0;
            while k < n
                invariant
                    k <= n,
                    n == members.len(),
                    n == order.len(),
                    n == keys.len(),
                    n == texts.len(),
                    forall|q: int| 0 <= q < n ==> order@[q] < n,
                    sorted.len() == n,
                    forall|q: int|
                        0 <= q < n ==> #[trigger] sorted[q] == (
                            keys@[order@[q] as int]@,
                            texts@[order@[q] as int]@,
                        ),
                    out@ == start + seq!['{'] + members_text(sorted.take(k as int)),
                decreases n - k,
            {
                if k > 0 {
                    out.push(',');
                }
                let j = order[k];
                write_json_string(&keys[j], out);
                out.push(':');
                append_chars(out, &texts[j]);
                proof {
                    let t = sorted.take(k + 1);
                    assert(t.drop_last() =~= sorted.take(k as int));
                    assert(t.last() == sorted[k as int]);
                    assert(out@ =~= start + seq!['{'] + members_text(t));
                }
                k += 1;
            }
            out.push('}');
            assert(sorted.take(n as int) =~= sorted);
            assert(out@ =~= start + json_text(*v));
        },
    }
}

/// The canonical text of a JSON value: compact, with the members of every
/// object in ascending key order (code point order, as `String` sorts).
pub fn canonical_json(v: &JsonValue) -> (s: String)
    requires
        v.wf(),
    ensures
        s@ == json_text(*v),
{
    let mut out: Vec<char> = Vec::new();
    write_canonical(v, &mut out);
    assert(out@ =~= json_text(*v));
    string_of(&out)
}

/// The JSON string literal for `s`, as serde_json writes a string value.
pub fn quote_json(s: &str) -> (q: String)
    ensures
        q@ == json_string(s@),
{
    let cs = chars_of(s);
    let mut out: Vec<char> = Vec::new();
    write_json_string(&cs, &mut out);
    assert(out@ =~= json_string(s@));
    string_of(&out)
}

/// The canonical text of an object does not depend on the order in which
/// its members are listed: any two member lists with the same members
/// (and no key listed twice) produce the same text.
pub proof fn law_canonical_ignores_member_order(
    a: Vec<(String, JsonValue)>,
    b: Vec<(String, JsonValue)>,
)
    requires
        same_elements(a@, b@),
        member_keys_distinct(a@),
        member_keys_distinct(b@),
    ensures
        json_text(JsonValue::Object(a)) == json_text(JsonValue::Object(b)),
{
    let ra = rendered_members(a@);
    let rb = rendered_members(b@);
    lemma_rendered_members(a@);
    lemma_rendered_members(b@);
    assert(keys_distinct(ra)) by {
        assert forall|i: int, j: int|
            0 <= i < ra.len() && 0 <= j < ra.len() && i != j implies ra[i].0 != ra[j].0 by {
            assert(a@[i].0@ == ra[i].0);
            assert(a@[j].0@ == ra[j].0);
        }
    }
    assert(keys_distinct(rb)) by {
        assert forall|i: int, j: int|
            0 <= i < rb.len() && 0 <= j < rb.len() && i != j implies rb[i].0 != rb[j].0 by {
            assert(b@[i].0@ == rb[i].0);
            assert(b@[j].0@ == rb[j].0);
        }
    }
    assert forall|z: (Seq<char>, Seq<char>)| ra.contains(z) <==> rb.contains(z) by {
        if ra.contains(z) {
            let i = choose|i: int| 0 <= i < ra.len() && ra[i] == z;
            assert(a@.contains(a@[i]));
            assert(b@.contains(a@[i]));
            let j = choose|j: int| 0 <= j < b@.len() && b@[j] == a@[i];
            assert(rb[j] == z);
        }
        if rb.contains(z) {
            let j = choose|j: int| 0 <= j < rb.len() && rb[j] == z;
            assert(b@.contains(b@[j]));
            assert(a@.contains(b@[j]));
            let i = choose|i: int| 0 <= i < a@.len() && a@[i] == b@[j];
            assert(ra[i] == z);
        }
    }
    lemma_key_sort(ra);
    lemma_key_sort(rb);
    assert forall|z: (Seq<char>, Seq<char>)| key_sort(ra).contains(z) <==> key_sort(rb).contains(
        z,
    ) by {}
    lemma_key_sorted_unique(key_sort(ra), key_sort(rb));
}

/// Members whose values are all well formed form a well-formed list.
pub proof fn lemma_members_all_wf(e: Seq<(String, JsonValue)>)
    requires
        forall|i: int| 0 <= i < e.len() ==> well_formed(#[trigger] e[i].1),
    ensures
        members_well_formed(e),
    decreases e.len(),
{
    if e.len() > 0 {
        assert forall|i: int| 0 <= i < e.drop_last().len() implies well_formed(
            #[trigger] e.drop_last()[i].1,
        ) by {
            assert(e.drop_last()[i] == e[i]);
        }
        lemma_members_all_wf(e.drop_last());
        assert(well_formed(e[e.len() - 1].1));
    }
}

/// Keys that ascend from each entry to the next ascend throughout.
pub proof fn lemma_chain_sorted<V>(s: Seq<(Seq<char>, V)>, i: int, j: int)
    requires
        forall|k: int| 0 <= k < s.len() - 1 ==> text_lt(#[trigger] s[k].0, s[k + 1].0),
        0 <= i < j < s.len(),
    ensures
        text_lt(s[i].0, s[j].0),
    decreases j - i,
{
    if j > i + 1 {
        lemma_chain_sorted(s, i + 1, j);
        assert(text_lt(s[i].0, s[i + 1].0));
        lemma_text_lt_transitive(s[i].0, s[i + 1].0, s[j].0);
    } else {
        assert(text_lt(s[i].0, s[i + 1].0));
    }
}

/// The value of the first member named `key`.
pub open spec fn member_value(ms: Seq<(String, JsonValue)>, key: Seq<char>) -> Option<JsonValue>
    decreases ms.len(),
{
    if ms.len() == 0 {
        None
    } else if ms[0].0@ == key {
        Some(ms[0].1)
    } else {
        member_value(ms.drop_first(), key)
    }
}

/// What `Value::get(key)` finds: the member named `key` of an object;
/// nothing for any other value.
pub open spec fn json_get(v: JsonValue, key: Seq<char>) -> Option<JsonValue> {
    match v {
        JsonValue::Object(ms) => member_value(ms@, key),
        _ => None,
    }
}

/// The text of a string value; nothing for any other value.
pub open spec fn json_str(v: Option<JsonValue>) -> Option<Seq<char>> {
    match v {
        Some(JsonValue::Str(s)) => Some(s@),
        _ => None,
    }
}

/// The member of an object named `key` (as `Value::get` finds it).
pub fn get<'a>(v: &'a JsonValue, key: &str) -> (r: Option<&'a JsonValue>)
    ensures
        match json_get(*v, key@) {
            Some(x) => r matches Some(y) && *y == x,
            None => r is None,
        },
{
    match v {
        JsonValue::Object(ms) => {
            let k = chars_of(key);
            let mut i: usize = 0;
            assert(ms@.skip(0) =~= ms@);
            while i < ms.len()
                invariant
                    i <= ms.len(),
                    *v == JsonValue::Object(*ms),
                    k@ == key@,
                    member_value(ms@, key@) == member_value(ms@.skip(i as int), key@),
                decreases ms.len() - i,
            {
                assert(ms@.skip(i as int).drop_first() =~= ms@.skip(i + 1));
                let name = chars_of(ms[i].0.as_str());
                if crate::text::chars_eq(&name, &k) {
                    return Some(&ms[i].1);
                }
                i += 1;
            }
            None
        },
        _ => None,
    }
}

/// The text of a string value (as `Value::as_str` gives it).
pub fn as_str<'a>(v: Option<&'a JsonValue>) -> (r: Option<&'a str>)
    ensures
        match v {
            Some(x) => match json_str(Some(*x)) {
                Some(t) => r matches Some(s) && s@ == t,
                None => r is None,
            },
            None => r is None,
        },
{
    match v {
        Some(JsonValue::Str(s)) => Some(s.as_str()),
        _ => None,
    }
}

/// Members listed in strictly ascending key order, with well-formed
/// values, make a well-formed object.
pub proof fn lemma_ascending_members_wf(m: Seq<(String, JsonValue)>)
    requires
        forall|k: int| 0 <= k < m.len() - 1 ==> text_lt(#[trigger] m[k].0@, m[k + 1].0@),
        forall|i: int| 0 <= i < m.len() ==> well_formed(#[trigger] m[i].1),
    ensures
        members_well_formed(m),
        member_keys_distinct(m),
{
    lemma_members_all_wf(m);
    let r = Seq::new(m.len(), |i: int| (m[i].0@, i));
    assert forall|i: int, j: int|
        0 <= i < m.len() && 0 <= j < m.len() && i != j implies m[i].0@ != m[j].0@ by {
        assert forall|k: int| 0 <= k < r.len() - 1 implies text_lt(#[trigger] r[k].0, r[k + 1].0) by {
            assert(text_lt(m[k].0@, m[k + 1].0@));
        }
        if i < j {
            lemma_chain_sorted(r, i, j);
            lemma_text_lt_irreflexive(r[i].0);
        } else {
            lemma_chain_sorted(r, j, i);
            lemma_text_lt_irreflexive(r[j].0);
        }
    }
}

/// A member named by a literal key.
pub fn member(key: &str, v: JsonValue) -> (m: (String, JsonValue))
    ensures
        m.0@ == key@,
        m.1 == v,
{
    (crate::text::owned(key), v)
}

/// A string value.
pub fn json_str_value(s: &str) -> (v: JsonValue)
    ensures
        v matches JsonValue::Str(t) && t@ == s@,
        v.wf(),
{
    JsonValue::Str(crate::text::owned(s))
}

/// An optional string as JSON: the string, or null.
pub fn json_opt_str(s: &Option<String>) -> (v: JsonValue)
    ensures
        v.wf(),
        match s {
            Some(t) => v matches JsonValue::Str(u) && u@ == t@,
            None => v is Null,
        },
{
    match s {
        Some(t) => JsonValue::Str(t.clone()),
        None => JsonValue::Null,
    }
}

/// An object written out from its members' keys and value texts, in the
/// order given.
pub open spec fn object_text(m: Seq<(Seq<char>, Seq<char>)>) -> Seq<char> {
    seq!['{'] + members_text(m) + seq!['}']
}

/// Each member's key with the canonical text of its value.
pub open spec fn member_texts(m: Seq<(String, JsonValue)>) -> Seq<(Seq<char>, Seq<char>)> {
    Seq::new(m.len(), |i: int| (m[i].0@, json_text(m[i].1)))
}

/// Entries already in strictly ascending key order are their own sort.
pub proof fn lemma_sorted_is_key_sort<V>(r: Seq<(Seq<char>, V)>)
    requires
        key_sorted(r),
    ensures
        key_sort(r) == r,
{
    assert(keys_distinct(r)) by {
        assert forall|i: int, j: int|
            0 <= i < r.len() && 0 <= j < r.len() && i != j implies r[i].0 != r[j].0 by {
            if i < j {
                lemma_text_lt_irreflexive(r[i].0);
            } else {
                lemma_text_lt_irreflexive(r[j].0);
            }
        }
    }
    lemma_key_sort(r);
    lemma_key_sorted_unique(key_sort(r), r);
}

/// An object whose members are listed in strictly ascending key order is
/// well formed (given well-formed values), and its canonical text lists
/// the members in that same order.
pub proof fn lemma_ascending_object(ms: Vec<(String, JsonValue)>)
    requires
        forall|k: int| 0 <= k < ms@.len() - 1 ==> text_lt(#[trigger] ms@[k].0@, ms@[k + 1].0@),
        forall|i: int| 0 <= i < ms@.len() ==> well_formed(#[trigger] ms@[i].1),
    ensures
        well_formed(JsonValue::Object(ms)),
        json_text(JsonValue::Object(ms)) == object_text(member_texts(ms@)),
{
    let m = ms@;
    lemma_ascending_members_wf(m);
    lemma_rendered_members(m);
    let r = rendered_members(m);
    assert(r =~= member_texts(m));
    assert forall|k: int| 0 <= k < r.len() - 1 implies text_lt(#[trigger] r[k].0, r[k + 1].0) by {
        assert(text_lt(m[k].0@, m[k + 1].0@));
    }
    assert(key_sorted(r)) by {
        assert forall|i: int, j: int| 0 <= i < j < r.len() implies text_lt(
            #[trigger] r[i].0,
            #[trigger] r[j].0,
        ) by {
            lemma_chain_sorted(r, i, j);
        }
    }
    lemma_sorted_is_key_sort(r);
}

proof fn lemma_items_pointwise(a: Seq<JsonValue>, b: Seq<JsonValue>)
    requires
        a.len() == b.len(),
        forall|i: int|
            0 <= i < a.len() ==> json_text(#[trigger] a[i]) == json_text(b[i]) && (well_formed(
                a[i],
            ) ==> well_formed(b[i])),
    ensures
        items_text(a) == items_text(b),
        items_well_formed(a) ==> items_well_formed(b),
    decreases a.len(),
{
    if a.len() > 0 {
        let (ta, tb) = (a.drop_last(), b.drop_last());
        assert forall|i: int| 0 <= i < ta.len() implies json_text(#[trigger] ta[i]) == json_text(
            tb[i],
        ) && (well_formed(ta[i]) ==> well_formed(tb[i])) by {
            assert(ta[i] == a[i] && tb[i] == b[i]);
        }
        lemma_items_pointwise(ta, tb);
        assert(json_text(a[a.len() - 1]) == json_text(b[b.len() - 1]));
        assert(json_text(a[0]) == json_text(b[0]));
    }
}

proof fn lemma_members_pointwise(a: Seq<(String, JsonValue)>, b: Seq<(String, JsonValue)>)
    requires
        a.len() == b.len(),
        forall|i: int|
            0 <= i < a.len() ==> (#[trigger] a[i]).0@ == b[i].0@ && json_text(a[i].1) == json_text(
                b[i].1,
            ) && (well_formed(a[i].1) ==> well_formed(b[i].1)),
    ensures
        rendered_members(a) == rendered_members(b),
        members_well_formed(a) ==> members_well_formed(b),
        member_keys_distinct(a) ==> member_keys_distinct(b),
    decreases a.len(),
{
    if a.len() > 0 {
        let (ta, tb) = (a.drop_last(), b.drop_last());
        assert forall|i: int| 0 <= i < ta.len() implies (#[trigger] ta[i]).0@ == tb[i].0@
            && json_text(ta[i].1) == json_text(tb[i].1) && (well_formed(ta[i].1) ==> well_formed(
            tb[i].1,
        )) by {
            assert(ta[i] == a[i] && tb[i] == b[i]);
        }
        lemma_members_pointwise(ta, tb);
        assert(a[a.len() - 1].0@ == b[b.len() - 1].0@);
    }
    if member_keys_distinct(a) {
        assert forall|i: int, j: int|
            0 <= i < b.len() && 0 <= j < b.len() && i != j implies b[i].0@ != b[j].0@ by {
            assert(a[i].0@ == b[i].0@);
            assert(a[j].0@ == b[j].0@);
        }
    }
}

proof fn lemma_member_value_found(ms: Seq<(String, JsonValue)>, key: Seq<char>)
    ensures
        member_value(ms, key) matches Some(x) ==> exists|i: int| 0 <= i < ms.len() && ms[i].1 == x,
    decreases ms.len(),
{
    if ms.len() > 0 && ms[0].0@ != key {
        lemma_member_value_found(ms.drop_first(), key);
        if let Some(x) = member_value(ms, key) {
            let i = choose|i: int| 0 <= i < ms.drop_first().len() && ms.drop_first()[i].1 == x;
            assert(ms[i + 1].1 == x);
        }
    }
}

/// What `get` finds in a well-formed value is well formed.
pub proof fn lemma_get_wf(v: JsonValue, key: Seq<char>)
    requires
        well_formed(v),
    ensures
        json_get(v, key) matches Some(x) ==> well_formed(x),
{
    if let JsonValue::Object(ms) = v {
        lemma_member_value_found(ms@, key);
        if let Some(x) = json_get(v, key) {
            let i = choose|i: int| 0 <= i < ms@.len() && ms@[i].1 == x;
            lemma_members_wf(ms@, i);
        }
    }
}

/// A copy of a JSON value: the same canonical text, and well formed
/// wherever the value copied is.
pub(crate) fn copy_value(v: &JsonValue) -> (r: JsonValue)
    ensures
        json_text(r) == json_text(*v),
        v.wf() ==> r.wf(),
    decreases v,
{
    match v {
        JsonValue::Null => JsonValue::Null,
        JsonValue::Bool(b) => JsonValue::Bool(*b),
        JsonValue::Number(t) => JsonValue::Number(t.clone()),
        JsonValue::Str(s) => JsonValue::Str(s.clone()),
        JsonValue::Array(items) => {
            let mut out: Vec<JsonValue> = Vec::new();
            let mut i: usize = 0;
            while i < items.len()
                invariant
                    i <= items.len(),
                    *v == JsonValue::Array(*items),
                    out@.len() == i,
                    forall|k: int|
                        0 <= k < i ==> json_text(#[trigger] out@[k]) == json_text(items@[k]) && (
                        well_formed(items@[k]) ==> well_formed(out@[k])),
                decreases items.len() - i,
            {
                proof {
                    assert(decreases_to!(*v => (*v)->Array_0));
                    assert(decreases_to!((*v)->Array_0 => items@));
                    assert(decreases_to!(items@ => items@[i as int]));
                }
                let c = copy_value(&items[i]);
                out.push(c);
                i += 1;
            }
            proof {
                lemma_items_pointwise(items@, out@);
            }
            JsonValue::Array(out)
        },
        JsonValue::Object(ms) => {
            let mut out: Vec<(String, JsonValue)> = Vec::new();
            let mut i: usize = 0;
            while i < ms.len()
                invariant
                    i <= ms.len(),
                    *v == JsonValue::Object(*ms),
                    out@.len() == i,
                    forall|k: int|
                        0 <= k < i ==> (#[trigger] ms@[k]).0@ == out@[k].0@ && json_text(ms@[k].1)
                            == json_text(out@[k].1) && (well_formed(ms@[k].1) ==> well_formed(
                            out@[k].1,
                        )),
                decreases ms.len() - i,
            {
                proof {
                    assert(decreases_to!(*v => (*v)->Object_0));
                    assert(decreases_to!((*v)->Object_0 => ms@));
                    assert(decreases_to!(ms@ => ms@[i as int]));
                    assert(decreases_to!(ms@[i as int] => ms@[i as int].1));
                }
                let c = copy_value(&ms[i].1);
                let k = ms[i].0.clone();
                out.push((k, c));
                i += 1;
            }
            proof {
                lemma_members_pointwise(ms@, out@);
            }
            JsonValue::Object(out)
        },
    }
}

/// An array of one value.
pub fn array_of_one(v: JsonValue) -> (a: JsonValue)
    requires
        v.wf(),
    ensures
        a.wf(),
        json_text(a) == seq!['['] + json_text(v) + seq![']'],
{
    let ghost g = v;
    let mut items: Vec<JsonValue> = Vec::new();
    items.push(v);
    proof {
        reveal_with_fuel(items_well_formed, 2);
        assert(items@.drop_last() =~= Seq::<JsonValue>::empty());
        assert(items_well_formed(items@.drop_last()));
        assert(items@[0] == g);
        assert(items@.last() == g);
        assert(items_well_formed(items@));
    }
    JsonValue::Array(items)
}

/// The empty array.
pub fn empty_array() -> (a: JsonValue)
    ensures
        a.wf(),
        json_text(a) == seq!['[', ']'],
{
    let items: Vec<JsonValue> = Vec::new();
    let a = JsonValue::Array(items);
    assert(json_text(a) =~= seq!['[', ']']);
    a
}

// ---------------------------------------------------------------------------
// Escaping is injective

proof fn lemma_escaped_concat(a: Seq<char>, b: Seq<char>)
    ensures
        escaped(a + b) == escaped(a) + escaped(b),
    decreases b.len(),
{
    if b.len() == 0 {
        assert(a + b =~= a);
        assert(escaped(a) + escaped(b) =~= escaped(a));
    } else {
        assert((a + b).drop_last() =~= a + b.drop_last());
        assert((a + b).last() == b.last());
        lemma_escaped_concat(a, b.drop_last());
        assert(escaped(a + b) =~= escaped(a) + escaped(b));
    }
}

proof fn lemma_escaped_front(s: Seq<char>)
    requires
        s.len() > 0,
    ensures
        escaped(s) == escape_char(s[0]) + escaped(s.drop_first()),
{
    let one = seq![s[0]];
    lemma_escaped_concat(one, s.drop_first());
    assert(one + s.drop_first() =~= s);
    assert(one.drop_last() =~= Seq::<char>::empty());
    assert(one.last() == s[0]);
    assert(escaped(Seq::<char>::empty()) =~= Seq::<char>::empty());
    assert(escaped(one) =~= escape_char(s[0]));
}

/// Characters written as an escape sequence rather than as themselves.
pub open spec fn needs_escape(c: char) -> bool {
    c == '"' || c == '\\' || (c as u32) < 0x20
}

spec fn unescape_named(x: char) -> char {
    if x == 'b' {
        '\u{8}'
    } else if x == 't' {
        '\t'
    } else if x == 'n' {
        '\n'
    } else if x == 'f' {
        '\u{c}'
    } else if x == 'r' {
        '\r'
    } else {
        x
    }
}

proof fn lemma_escape_char_shape(c: char)
    ensures
        needs_escape(c) && escape_char(c)[1] != 'u' ==> c == unescape_named(escape_char(c)[1]),
        !needs_escape(c) ==> escape_char(c) == seq![c],
        needs_escape(c) ==> escape_char(c).len() >= 2 && escape_char(c)[0] == '\\',
        needs_escape(c) && escape_char(c)[1] == 'u' ==> escape_char(c).len() == 6,
        needs_escape(c) && escape_char(c)[1] != 'u' ==> escape_char(c).len() == 2,
{
}

proof fn lemma_hex_lower_injective(a: int, b: int)
    requires
        0 <= a < 16,
        0 <= b < 16,
        hex_lower(a) == hex_lower(b),
    ensures
        a == b,
{
    assert((hex_lower(a) as u32) == (hex_lower(b) as u32));
}

proof fn lemma_escape_char_injective(c: char, d: char)
    requires
        escape_char(c) == escape_char(d),
    ensures
        c == d,
{
    lemma_escape_char_shape(c);
    lemma_escape_char_shape(d);
    if needs_escape(c) && escape_char(c)[1] == 'u' {
        let x = (c as u32) as int;
        let y = (d as u32) as int;
        assert(escape_char(c)[4] == hex_lower(x / 16));
        assert(escape_char(d)[4] == hex_lower(y / 16));
        assert(escape_char(c)[5] == hex_lower(x % 16));
        assert(escape_char(d)[5] == hex_lower(y % 16));
        lemma_hex_lower_injective(x / 16, y / 16);
        lemma_hex_lower_injective(x % 16, y % 16);
        assert(x == y);
        vstd::utf8::char_u32_cast(c, c as u32);
        vstd::utf8::char_u32_cast(d, d as u32);
        assert(c == d);
    } else if needs_escape(c) {
        assert(escape_char(c)[1] == escape_char(d)[1]);
        assert(needs_escape(d));
        assert(c == d);
    } else {
        assert(escape_char(c)[0] == escape_char(d)[0]);
        assert(!needs_escape(d));
        assert(escape_char(c) == seq![c]);
        assert(escape_char(d) == seq![d]);
        assert(seq![c][0] == c);
        assert(seq![d][0] == d);
        assert(c == d);
    }
}

/// Two texts are equal when their escaped forms are: escaping is a
/// prefix-free code.
pub proof fn lemma_escaped_injective(a: Seq<char>, b: Seq<char>)
    requires
        escaped(a) == escaped(b),
    ensures
        a == b,
    decreases a.len(),
{
    if a.len() == 0 && b.len() == 0 {
        assert(a =~= b);
    } else if a.len() == 0 {
        lemma_escaped_front(b);
        lemma_escape_char_shape(b[0]);
        assert(escaped(a).len() == 0);
    } else if b.len() == 0 {
        lemma_escaped_front(a);
        lemma_escape_char_shape(a[0]);
        assert(escaped(b).len() == 0);
    } else {
        lemma_escaped_front(a);
        lemma_escaped_front(b);
        let (ca, cb) = (escape_char(a[0]), escape_char(b[0]));
        let t = escaped(a);
        lemma_escape_char_shape(a[0]);
        lemma_escape_char_shape(b[0]);
        assert(t[0] == ca[0] && t[0] == cb[0]);
        if needs_escape(a[0]) {
            assert(t[1] == ca[1] && t[1] == cb[1]);
        }
        assert(ca.len() == cb.len());
        assert(ca =~= t.take(ca.len() as int));
        assert(cb =~= t.take(cb.len() as int));
        lemma_escape_char_injective(a[0], b[0]);
        assert(escaped(a.drop_first()) =~= t.skip(ca.len() as int));
        assert(escaped(b.drop_first()) =~= t.skip(cb.len() as int));
        lemma_escaped_injective(a.drop_first(), b.drop_first());
        assert(a =~= seq![a[0]] + a.drop_first());
        assert(b =~= seq![b[0]] + b.drop_first());
    }
}

/// Distinct texts have distinct JSON string literals.
pub proof fn lemma_json_string_injective(a: Seq<char>, b: Seq<char>)
    requires
        json_string(a) == json_string(b),
    ensures
        a == b,
{
    let (ja, jb) = (json_string(a), json_string(b));
    assert(escaped(a) =~= ja.subrange(1, ja.len() - 1));
    assert(escaped(b) =~= jb.subrange(1, jb.len() - 1));
    lemma_escaped_injective(a, b);
}

/// The members written out split at any inner boundary: the part before,
/// a comma, the part after.
pub proof fn lemma_members_text_split(m: Seq<(Seq<char>, Seq<char>)>, k: int)
    requires
        0 < k < m.len(),
    ensures
        members_text(m) == members_text(m.take(k)) + seq![','] + members_text(m.skip(k)),
    decreases m.len(),
{
    if k == m.len() - 1 {
        assert(m.take(k) =~= m.drop_last());
        assert(m.skip(k) =~= seq![m.last()]);
    } else {
        let d = m.drop_last();
        lemma_members_text_split(d, k);
        assert(d.take(k) =~= m.take(k));
        let r = m.skip(k);
        assert(r.len() >= 2);
        assert(r.drop_last() =~= d.skip(k));
        assert(r.last() == m.last());
        assert(members_text(r) == members_text(d.skip(k)) + seq![','] + member_text(m.last()));
        assert(members_text(m) =~= members_text(m.take(k)) + seq![','] + members_text(m.skip(k)));
    }
}

proof fn lemma_cancel(p: Seq<char>, x: Seq<char>, y: Seq<char>, s: Seq<char>)
    requires
        p + x + s == p + y + s,
    ensures
        x == y,
{
    let (l, r) = (p + x + s, p + y + s);
    assert(l.len() == r.len());
    assert(x.len() == y.len());
    assert forall|i: int| 0 <= i < x.len() implies x[i] == y[i] by {
        assert(l[p.len() + i] == x[i]);
        assert(r[p.len() + i] == y[i]);
    }
    assert(x =~= y);
}

spec fn members_before(m: Seq<(Seq<char>, Seq<char>)>, k: int) -> Seq<char> {
    if k > 0 {
        members_text(m.take(k)) + seq![',']
    } else {
        Seq::<char>::empty()
    }
}

spec fn members_after(m: Seq<(Seq<char>, Seq<char>)>, k: int) -> Seq<char> {
    if k < m.len() - 1 {
        seq![','] + members_text(m.skip(k + 1))
    } else {
        Seq::<char>::empty()
    }
}

proof fn lemma_members_text_around(m: Seq<(Seq<char>, Seq<char>)>, k: int)
    requires
        0 <= k < m.len(),
    ensures
        members_text(m) == members_before(m, k) + member_text(m[k]) + members_after(m, k),
{
    let n = m.len();
    if k > 0 {
        lemma_members_text_split(m, k);
        if k < n - 1 {
            let r = m.skip(k);
            lemma_members_text_split(r, 1);
            assert(r.take(1) =~= seq![m[k]]);
            assert(r.skip(1) =~= m.skip(k + 1));
        } else {
            assert(m.skip(k) =~= seq![m[k]]);
        }
    } else {
        if k < n - 1 {
            lemma_members_text_split(m, 1);
            assert(m.take(1) =~= seq![m[0]]);
        }
    }
    assert(members_text(m) =~= members_before(m, k) + member_text(m[k]) + members_after(m, k));
}

/// Two objects written out from members that agree everywhere but in the
/// string value of one member: equal texts mean equal strings there too.
#[verifier::rlimit(60)]
pub proof fn lemma_object_text_fixes_string(
    m1: Seq<(Seq<char>, Seq<char>)>,
    m2: Seq<(Seq<char>, Seq<char>)>,
    k: int,
    x: Seq<char>,
    y: Seq<char>,
)
    requires
        m1.len() == m2.len(),
        0 <= k < m1.len(),
        forall|i: int| 0 <= i < m1.len() && i != k ==> m1[i] == m2[i],
        m1[k] == (m1[k].0, json_string(x)),
        m2[k] == (m1[k].0, json_string(y)),
        object_text(m1) == object_text(m2),
    ensures
        x == y,
{
    lemma_members_text_around(m1, k);
    lemma_members_text_around(m2, k);
    let before = members_before(m1, k);
    let after = members_after(m1, k);
    assert(members_before(m2, k) == before) by {
        assert(m1.take(k) =~= m2.take(k));
    }
    assert(members_after(m2, k) == after) by {
        assert(m1.skip(k + 1) =~= m2.skip(k + 1));
    }
    let key = json_string(m1[k].0);
    let (jx, jy) = (json_string(x), json_string(y));
    let p = seq!['{'] + before + key + seq![':'];
    let q = after + seq!['}'];
    assert(member_text(m1[k]) == key + seq![':'] + jx);
    assert(member_text(m2[k]) == key + seq![':'] + jy);
    assert(object_text(m1) == p + jx + q) by {
        assert(seq!['{'] + (before + (key + seq![':'] + jx) + after) + seq!['}'] =~= p + jx + q);
    }
    assert(object_text(m2) == p + jy + q) by {
        assert(seq!['{'] + (before + (key + seq![':'] + jy) + after) + seq!['}'] =~= p + jy + q);
    }
    lemma_cancel(p, jx, jy, q);
    lemma_json_string_injective(x, y);
}

} // verus!
