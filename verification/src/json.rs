//! JSON values and their canonical text: compact JSON whose object keys are
//! listed in sorted order. For values whose objects have distinct keys this is
//! also the compact serialisation of a JSON map that keeps its keys sorted.
use vstd::prelude::*;
use crate::order::{
    insert_sorted, isort, lemma_insert_sorted_at, lemma_insert_sorted_contains, lemma_isort_multiset,
    lemma_isort_sorted, sorted_by, total_preorder,
};
use crate::text::{
    append, chars_le, chars_less, chars_lt, chars_of, lemma_chars_le_total_order, lemma_chars_lt_asymmetric,
    lemma_chars_lt_total, owned, push_char,
};

verus! {

broadcast use vstd::seq_lib::group_seq_properties;

/// A JSON value. Numbers keep their JSON text; objects keep their entries in
/// the order given.
pub enum JsonValue {
    Null,
    Bool(bool),
    Number(String),
    String(String),
    Array(Vec<JsonValue>),
    Object(Vec<(String, JsonValue)>),
}

/// How serde_json writes one character inside a string literal: `"` and `\`
/// behind a backslash; backspace, form feed, line feed, carriage return and
/// tab as `\b \f \n \r \t`; any other character below U+0020 as `\u00xx`
/// with lower-case hex digits; every other character as itself.
pub open spec fn json_char_escape(c: char) -> Seq<char> {
    if c == '"' {
        seq!['\\', '"']
    } else if c == '\\' {
        seq!['\\', '\\']
    } else if c == '\u{8}' {
        seq!['\\', 'b']
    } else if c == '\u{c}' {
        seq!['\\', 'f']
    } else if c == '\n' {
        seq!['\\', 'n']
    } else if c == '\r' {
        seq!['\\', 'r']
    } else if c == '\t' {
        seq!['\\', 't']
    } else if (c as int) < 0x20 {
        seq!['\\', 'u', '0', '0', crate::hooks::hex_digit((c as int) / 16), crate::hooks::hex_digit((c as int) % 16)]
    } else {
        seq![c]
    }
}

/// The characters of `s`, each escaped as serde_json writes it.
pub open spec fn json_escape(s: Seq<char>) -> Seq<char>
    decreases s.len(),
{
    if s.len() == 0 {
        Seq::empty()
    } else {
        json_escape(s.drop_last()) + json_char_escape(s.last())
    }
}

/// The JSON string literal for `s` as serde_json writes it: the escaped
/// characters between double quotes.
pub open spec fn json_string_literal(s: Seq<char>) -> Seq<char> {
    seq!['"'] + json_escape(s) + seq!['"']
}

/// `serde_json::to_string(s)` for a string: its JSON string literal, quoted
/// and escaped as `format_escaped_str` writes it with the compact formatter.
/// Writing a string into memory cannot fail, so the `Err` arm (which would
/// give an empty string) never occurs.
#[verifier::external_body]
pub(crate) fn quote_json(s: &str) -> (r: String)
    ensures
        r@ == json_string_literal(s@),
{
    serde_json::to_string(s).unwrap_or_default()
}

/// serde_json's own JSON value type, carried only through the parse below.
#[verifier::external_type_specification]
#[verifier::external_body]
pub struct ExSerdeValue(serde_json::Value);

/// The library's value for a serde_json value, variant by variant: numbers by
/// the text serde_json writes for them, objects in the order serde_json's map
/// holds their entries.
#[verifier::external_body]
fn from_serde(v: serde_json::Value) -> JsonValue {
    match v {
        serde_json::Value::Null => JsonValue::Null,
        serde_json::Value::Bool(b) => JsonValue::Bool(b),
        serde_json::Value::Number(n) => JsonValue::Number(n.to_string()),
        serde_json::Value::String(t) => JsonValue::String(t),
        serde_json::Value::Array(items) => JsonValue::Array(items.into_iter().map(from_serde).collect()),
        serde_json::Value::Object(map) => JsonValue::Object(map.into_iter().map(|(k, x)| (k, from_serde(x))).collect()),
    }
}

/// What `serde_json::from_str::<serde_json::Value>` reads from a text, as the
/// library's value (`None` when the text is not JSON).
pub uninterp spec fn parsed_json(text: Seq<char>) -> Option<JsonValue>;

/// `serde_json::from_str::<serde_json::Value>(text)`, the error mapped to
/// `None` and the value converted variant by variant. The contract names the
/// result: which texts parse, and to what, is left to serde_json.
#[verifier::external_body]
pub fn parse_json(text: &str) -> (r: Option<JsonValue>)
    ensures
        r == parsed_json(text@),
{
    serde_json::from_str::<serde_json::Value>(text).ok().map(from_serde)
}

pub open spec fn null_text() -> Seq<char> {
    seq!['n', 'u', 'l', 'l']
}

pub open spec fn true_text() -> Seq<char> {
    seq!['t', 'r', 'u', 'e']
}

pub open spec fn false_text() -> Seq<char> {
    seq!['f', 'a', 'l', 's', 'e']
}

/// The keys of a list of object entries.
pub open spec fn keys_of(es: Seq<(String, JsonValue)>) -> Seq<Seq<char>> {
    Seq::new(es.len(), |i: int| es[i].0@)
}

/// Orders positions by the key stored there.
pub open spec fn key_le(ks: Seq<Seq<char>>) -> spec_fn(usize, usize) -> bool {
    |i: usize, j: usize| chars_le(ks[i as int], ks[j as int])
}

/// The positions `0..n` of the given keys, stably sorted by key.
pub open spec fn key_order(ks: Seq<Seq<char>>) -> Seq<usize> {
    isort(Seq::new(ks.len(), |i: int| i as usize), key_le(ks))
}

/// Canonical text of a JSON value.
pub open spec fn canonical_json(v: JsonValue) -> Seq<char>
    decreases v, 0nat,
{
    match v {
        JsonValue::Null => null_text(),
        JsonValue::Bool(b) => if b {
            true_text()
        } else {
            false_text()
        },
        JsonValue::Number(t) => t@,
        JsonValue::String(s) => json_string_literal(s@),
        JsonValue::Array(items) => seq!['['] + items_text(items@, items@.len()) + seq![']'],
        JsonValue::Object(es) => seq!['{'] + entries_text(
            es@,
            key_order(keys_of(es@)),
            es@.len(),
        ) + seq!['}'],
    }
}

/// The first `k` items, in canonical text, separated by commas.
pub open spec fn items_text(items: Seq<JsonValue>, k: nat) -> Seq<char>
    decreases items, k,
{
    if k == 0 || k > items.len() {
        Seq::empty()
    } else {
        let prev = items_text(items, (k - 1) as nat);
        let sep = if k == 1 {
            Seq::<char>::empty()
        } else {
            seq![',']
        };
        prev + sep + canonical_json(items[k - 1])
    }
}

/// `"key":value` for the entry at position `j`.
pub open spec fn entry_text(es: Seq<(String, JsonValue)>, j: int) -> Seq<char>
    decreases es, 0nat,
{
    if 0 <= j < es.len() {
        json_string_literal(es[j].0@) + seq![':'] + canonical_json(es[j].1)
    } else {
        Seq::empty()
    }
}

/// The entries at the first `k` positions of `order`, separated by commas.
pub open spec fn entries_text(es: Seq<(String, JsonValue)>, order: Seq<usize>, k: nat) -> Seq<
    char,
>
    decreases es, k,
{
    if k == 0 || k > order.len() {
        Seq::empty()
    } else {
        let prev = entries_text(es, order, (k - 1) as nat);
        let sep = if k == 1 {
            Seq::<char>::empty()
        } else {
            seq![',']
        };
        prev + sep + entry_text(es, order[k - 1] as int)
    }
}


/// `chars_le(a, b)` holds exactly when `b` does not sort strictly before `a`.
pub proof fn lemma_chars_le_not_lt(a: Seq<char>, b: Seq<char>)
    ensures
        chars_le(a, b) <==> !chars_lt(b, a),
{
    if a == b {
        crate::text::lemma_chars_lt_irreflexive(a);
    } else {
        lemma_chars_lt_total(a, b);
        if chars_lt(a, b) {
            lemma_chars_lt_asymmetric(a, b);
        }
    }
}

/// The positions of `keys`, stably sorted by key.
pub fn sorted_key_positions(keys: &Vec<Vec<char>>) -> (order: Vec<usize>)
    ensures
        order@ == key_order(Seq::new(keys@.len(), |i: int| keys@[i]@)),
        forall|t: int| 0 <= t < order@.len() ==> order@[t] < keys@.len(),
{
    let ghost ks = Seq::new(keys@.len(), |i: int| keys@[i]@);
    let ghost le = key_le(ks);
    let mut order: Vec<usize> = Vec::new();
    for i in 0..keys.len()
        invariant
            ks == Seq::new(keys@.len(), |i: int| keys@[i]@),
            le == key_le(ks),
            order@ == isort(Seq::new(i as nat, |k: int| k as usize), le),
            order@.len() == i,
            forall|t: int| 0 <= t < order@.len() ==> order@[t] < i,
    {
        let ghost prev = order@;
        let mut p: usize = order.len();
        while p > 0 && chars_less(&keys[i], &keys[order[p - 1]])
            invariant
                prev == order@,
                p <= order@.len(),
                order@.len() == i,
                i < keys@.len(),
                ks == Seq::new(keys@.len(), |i: int| keys@[i]@),
                le == key_le(ks),
                forall|t: int| 0 <= t < order@.len() ==> order@[t] < i,
                forall|k: int| p <= k < order@.len() ==> !le(#[trigger] order@[k], i),
            decreases p,
        {
            proof {
                lemma_chars_le_not_lt(ks[order@[p - 1] as int], ks[i as int]);
            }
            p = p - 1;
        }
        proof {
            if p > 0 {
                lemma_chars_le_not_lt(ks[order@[p - 1] as int], ks[i as int]);
            }
            let s = Seq::new((i + 1) as nat, |k: int| k as usize);
            assert(s.drop_last() =~= Seq::new(i as nat, |k: int| k as usize));
            assert(s.last() == i);
            lemma_insert_sorted_at(prev, i, le, p as int);
        }
        order.insert(p, i);
        assert(order@ =~= prev.take(p as int).push(i) + prev.skip(p as int));
        assert forall|t: int| 0 <= t < order@.len() implies order@[t] < i + 1 by {
            if t < p {
                assert(order@[t] == prev[t]);
            } else if t > p {
                assert(order@[t] == prev[t - 1]);
            }
        }
    }
    order
}

/// The canonical text of `v`: compact JSON with each object's keys in sorted
/// order (entries with equal keys keep their order).
pub fn canonical(v: &JsonValue) -> (r: String)
    ensures
        r@ == canonical_json(*v),
    decreases v,
{
    match v {
        JsonValue::Null => {
            let r = owned("null");
            proof {
                reveal_strlit("null");
            }
            r
        },
        JsonValue::Bool(b) => {
            if *b {
                let r = owned("true");
                proof {
                    reveal_strlit("true");
                }
                r
            } else {
                let r = owned("false");
                proof {
                    reveal_strlit("false");
                }
                r
            }
        },
        JsonValue::Number(t) => t.clone(),
        JsonValue::String(s) => quote_json(s.as_str()),
        JsonValue::Array(items) => {
            let mut r = String::new();
            push_char(&mut r, '[');
            for k in 0..items.len()
                invariant
                    *v == JsonValue::Array(*items),
                    r@ == seq!['['] + items_text(items@, k as nat),
            {
                proof {
                    vstd::std_specs::vec::axiom_vec_index_decreases(*items, k as int);
                    assert(decreases_to!(*v => (*v)->Array_0));
                }
                if k > 0 {
                    push_char(&mut r, ',');
                }
                let piece = canonical(&items[k]);
                append(&mut r, piece.as_str());
                assert(r@ == seq!['['] + items_text(items@, (k + 1) as nat));
            }
            push_char(&mut r, ']');
            r
        },
        JsonValue::Object(es) => {
            let mut keys: Vec<Vec<char>> = Vec::new();
            for i in 0..es.len()
                invariant
                    keys@.len() == i,
                    forall|j: int| 0 <= j < i ==> #[trigger] keys@[j]@ == es@[j].0@,
            {
                keys.push(chars_of(es[i].0.as_str()));
            }
            let order = sorted_key_positions(&keys);
            assert(Seq::new(keys@.len(), |i: int| keys@[i]@) =~= keys_of(es@));
            proof {
                lemma_isort_multiset(Seq::new(es@.len(), |i: int| i as usize), key_le(keys_of(es@)));
            }
            let mut r = String::new();
            push_char(&mut r, '{');
            for t in 0..order.len()
                invariant
                    order@ == key_order(keys_of(es@)),
                    order@.len() == es@.len(),
                    forall|u: int| 0 <= u < order@.len() ==> order@[u] < es@.len(),
                    r@ == seq!['{'] + entries_text(es@, order@, t as nat),
                    *v == JsonValue::Object(*es),
            {
                if t > 0 {
                    push_char(&mut r, ',');
                }
                let j = order[t];
                let key = quote_json(es[j].0.as_str());
                append(&mut r, key.as_str());
                push_char(&mut r, ':');
                proof {
                    vstd::std_specs::vec::axiom_vec_index_decreases(*es, j as int);
                    assert(decreases_to!(*v => (*v)->Object_0));
                    assert(decreases_to!(es[j as int] => es[j as int].1));
                }
                let piece = canonical(&es[j].1);
                append(&mut r, piece.as_str());
                assert(entry_text(es@, j as int) == key@ + seq![':'] + piece@);
                assert(r@ == seq!['{'] + entries_text(es@, order@, (t + 1) as nat));
            }
            push_char(&mut r, '}');
            r
        },
    }
}


/// No two entries share a key.
pub open spec fn distinct_keys(es: Seq<(String, JsonValue)>) -> bool {
    forall|i: int, j: int|
        0 <= i < es.len() && 0 <= j < es.len() && i != j ==> #[trigger] es[i].0@ != #[trigger] es[j].0@
}

/// Keys strictly increase along `s`.
pub open spec fn strictly_by_key(s: Seq<(String, JsonValue)>) -> bool {
    forall|i: int, j: int| 0 <= i < j < s.len() ==> chars_lt(#[trigger] s[i].0@, #[trigger] s[j].0@)
}

/// The entries of `es` in the order that `key_order` gives.
pub open spec fn entries_in_key_order(es: Seq<(String, JsonValue)>) -> Seq<(String, JsonValue)> {
    key_order(keys_of(es)).map_values(|j: usize| es[j as int])
}

/// Two key-increasing sequences with the same elements are equal.
proof fn lemma_strictly_sorted_unique(s1: Seq<(String, JsonValue)>, s2: Seq<(String, JsonValue)>)
    requires
        strictly_by_key(s1),
        strictly_by_key(s2),
        forall|x: (String, JsonValue)| s1.contains(x) <==> s2.contains(x),
    ensures
        s1 == s2,
    decreases s1.len(),
{
    if s1.len() == 0 {
        if s2.len() > 0 {
            assert(s2.contains(s2[0]));
        }
        assert(s1 =~= s2);
    } else {
        assert(s1.contains(s1[0]));
        assert(s2.contains(s1[0]));
        let j = choose|j: int| 0 <= j < s2.len() && s2[j] == s1[0];
        assert(s2.contains(s2[0]));
        assert(s1.contains(s2[0]));
        let i = choose|i: int| 0 <= i < s1.len() && s1[i] == s2[0];
        if j > 0 {
            assert(chars_lt(s2[0].0@, s2[j].0@));
            if i > 0 {
                assert(chars_lt(s1[0].0@, s1[i].0@));
                lemma_chars_lt_asymmetric(s1[0].0@, s1[i].0@);
            } else {
                crate::text::lemma_chars_lt_irreflexive(s2[0].0@);
            }
        }
        assert(s1[0] == s2[0]);
        let t1 = s1.drop_first();
        let t2 = s2.drop_first();
        assert forall|x: (String, JsonValue)| t1.contains(x) <==> t2.contains(x) by {
            if t1.contains(x) {
                let k = choose|k: int| 0 <= k < t1.len() && t1[k] == x;
                assert(s1[k + 1] == x);
                assert(s1.contains(x));
                let m = choose|m: int| 0 <= m < s2.len() && s2[m] == x;
                assert(chars_lt(s1[0].0@, s1[k + 1].0@));
                if m == 0 {
                    crate::text::lemma_chars_lt_irreflexive(x.0@);
                }
                assert(t2[m - 1] == x);
            }
            if t2.contains(x) {
                let k = choose|k: int| 0 <= k < t2.len() && t2[k] == x;
                assert(s2[k + 1] == x);
                assert(s2.contains(x));
                let m = choose|m: int| 0 <= m < s1.len() && s1[m] == x;
                assert(chars_lt(s2[0].0@, s2[k + 1].0@));
                if m == 0 {
                    crate::text::lemma_chars_lt_irreflexive(x.0@);
                }
                assert(t1[m - 1] == x);
            }
        }
        lemma_strictly_sorted_unique(t1, t2);
        assert(s1 =~= seq![s1[0]] + t1);
        assert(s2 =~= seq![s2[0]] + t2);
    }
}

/// Facts about `key_order`: it lists every position once, in key order.
pub proof fn lemma_key_order(ks: Seq<Seq<char>>)
    requires
        ks.len() <= usize::MAX,
    ensures
        key_order(ks).len() == ks.len(),
        key_order(ks).no_duplicates(),
        forall|t: int| 0 <= t < ks.len() ==> #[trigger] key_order(ks)[t] < ks.len(),
        forall|i: usize| i < ks.len() ==> #[trigger] key_order(ks).contains(i),
        sorted_by(key_order(ks), key_le(ks)),
{
    broadcast use vstd::seq_lib::group_to_multiset_ensures;
    let idn = Seq::new(ks.len(), |i: int| i as usize);
    let le = key_le(ks);
    let o = key_order(ks);
    lemma_isort_multiset(idn, le);
    lemma_chars_le_total_order();
    assert(total_preorder(le)) by {
        assert forall|a: usize, b: usize| #[trigger] le(a, b) || le(b, a) by {
            assert(chars_le(ks[a as int], ks[b as int]) || chars_le(ks[b as int], ks[a as int]));
        }
        assert forall|a: usize, b: usize, c: usize| #[trigger] le(a, b) && #[trigger] le(b, c) implies le(a, c) by {
            assert(chars_le(ks[a as int], ks[b as int]) && chars_le(ks[b as int], ks[c as int]));
        }
    }
    lemma_isort_sorted(idn, le);
    assert(idn.no_duplicates()) by {
        assert forall|i: int, j: int| 0 <= i < idn.len() && 0 <= j < idn.len() && i != j implies idn[i] != idn[j] by {
            assert(idn[i] as int == i && idn[j] as int == j);
        }
    }
    idn.lemma_multiset_has_no_duplicates();
    o.lemma_multiset_has_no_duplicates_conv();
    assert forall|t: int| 0 <= t < ks.len() implies #[trigger] o[t] < ks.len() by {
        assert(o.contains(o[t]));
        assert(o.to_multiset().count(o[t]) > 0);
        assert(idn.contains(o[t]));
    }
    assert forall|i: usize| i < ks.len() implies #[trigger] o.contains(i) by {
        assert(idn[i as int] == i);
        assert(idn.contains(i));
        assert(idn.to_multiset().count(i) > 0);
    }
}

/// For distinct keys, the entries in key order strictly increase by key and
/// are exactly the entries of `es`.
pub proof fn lemma_entries_in_key_order(es: Seq<(String, JsonValue)>)
    requires
        distinct_keys(es),
        es.len() <= usize::MAX,
    ensures
        strictly_by_key(entries_in_key_order(es)),
        forall|x: (String, JsonValue)| entries_in_key_order(es).contains(x) <==> es.contains(x),
        entries_in_key_order(es).len() == es.len(),
{
    let ks = keys_of(es);
    let o = key_order(ks);
    let sa = entries_in_key_order(es);
    lemma_key_order(ks);
    assert forall|i: int, j: int| 0 <= i < j < sa.len() implies chars_lt(#[trigger] sa[i].0@, #[trigger] sa[j].0@) by {
        assert(key_le(ks)(o[i], o[j]));
        assert(o[i] != o[j]);
        assert(es[o[i] as int].0@ != es[o[j] as int].0@);
    }
    assert forall|x: (String, JsonValue)| sa.contains(x) <==> es.contains(x) by {
        if sa.contains(x) {
            let t = choose|t: int| 0 <= t < sa.len() && sa[t] == x;
            assert(es[o[t] as int] == x);
        }
        if es.contains(x) {
            let i = choose|i: int| 0 <= i < es.len() && es[i] == x;
            let iu = i as usize;
            assert(iu as int == i);
            assert(o.contains(iu));
            let t = choose|t: int| 0 <= t < o.len() && o[t] == iu;
            assert(sa[t] == es[iu as int]);
        }
    }
}

/// `entries_text` depends only on the entries it visits.
proof fn lemma_entries_text_same(
    ea: Seq<(String, JsonValue)>,
    oa: Seq<usize>,
    eb: Seq<(String, JsonValue)>,
    ob: Seq<usize>,
    k: nat,
)
    requires
        oa.len() == ob.len(),
        k <= oa.len(),
        forall|t: int|
            0 <= t < oa.len() ==> oa[t] < ea.len() && ob[t] < eb.len() && entry_text(ea, oa[t] as int)
                == entry_text(eb, ob[t] as int),
    ensures
        entries_text(ea, oa, k) == entries_text(eb, ob, k),
    decreases k,
{
    if k > 0 {
        lemma_entries_text_same(ea, oa, eb, ob, (k - 1) as nat);
        assert(entry_text(ea, oa[k - 1] as int) == entry_text(eb, ob[k - 1] as int));
    }
}

/// Objects with distinct keys that hold the same set of key/value entries
/// have the same canonical text, whatever order the entries come in.
pub proof fn lemma_canonical_ignores_entry_order(a: JsonValue, b: JsonValue)
    requires
        a is Object,
        b is Object,
        distinct_keys(a->Object_0@),
        distinct_keys(b->Object_0@),
        forall|x: (String, JsonValue)| a->Object_0@.contains(x) <==> b->Object_0@.contains(x),
    ensures
        canonical_json(a) == canonical_json(b),
{
    let ea = a->Object_0@;
    let eb = b->Object_0@;
    assert(ea.len() == a->Object_0.len());
    assert(eb.len() == b->Object_0.len());
    lemma_entries_in_key_order(ea);
    lemma_entries_in_key_order(eb);
    let sa = entries_in_key_order(ea);
    let sb = entries_in_key_order(eb);
    assert forall|x: (String, JsonValue)| sa.contains(x) <==> sb.contains(x) by {
        assert(sa.contains(x) <==> ea.contains(x));
        assert(sb.contains(x) <==> eb.contains(x));
    }
    lemma_strictly_sorted_unique(sa, sb);
    let oa = key_order(keys_of(ea));
    let ob = key_order(keys_of(eb));
    lemma_key_order(keys_of(ea));
    lemma_key_order(keys_of(eb));
    assert forall|t: int| 0 <= t < oa.len() implies oa[t] < ea.len() && ob[t] < eb.len()
        && entry_text(ea, oa[t] as int) == entry_text(eb, ob[t] as int) by {
        assert(sa[t] == sb[t]);
    }
    lemma_entries_text_same(ea, oa, eb, ob, ea.len());
}

/// `items_text` depends only on the canonical texts of the items.
proof fn lemma_items_text_same(a: Seq<JsonValue>, b: Seq<JsonValue>, k: nat)
    requires
        a.len() == b.len(),
        forall|i: int| 0 <= i < a.len() ==> canonical_json(#[trigger] a[i]) == canonical_json(b[i]),
    ensures
        items_text(a, k) == items_text(b, k),
    decreases k,
{
    if k > 0 && k <= a.len() {
        lemma_items_text_same(a, b, (k - 1) as nat);
        assert(canonical_json(a[k - 1]) == canonical_json(b[k - 1]));
    }
}

/// Arrays whose items have pairwise equal canonical texts have equal
/// canonical texts.
pub proof fn lemma_canonical_array_congruent(a: JsonValue, b: JsonValue)
    requires
        a is Array,
        b is Array,
        a->Array_0@.len() == b->Array_0@.len(),
        forall|i: int|
            0 <= i < a->Array_0@.len() ==> canonical_json(#[trigger] a->Array_0@[i]) == canonical_json(
                b->Array_0@[i],
            ),
    ensures
        canonical_json(a) == canonical_json(b),
{
    lemma_items_text_same(a->Array_0@, b->Array_0@, a->Array_0@.len());
}

/// Objects with the same keys in the same order, whose values have pairwise
/// equal canonical texts, have equal canonical texts.
pub proof fn lemma_canonical_object_congruent(a: JsonValue, b: JsonValue)
    requires
        a is Object,
        b is Object,
        a->Object_0@.len() == b->Object_0@.len(),
        forall|i: int|
            0 <= i < a->Object_0@.len() ==> (#[trigger] a->Object_0@[i]).0@ == b->Object_0@[i].0@
                && canonical_json(a->Object_0@[i].1) == canonical_json(b->Object_0@[i].1),
    ensures
        canonical_json(a) == canonical_json(b),
{
    let ea = a->Object_0@;
    let eb = b->Object_0@;
    assert(keys_of(ea) =~= keys_of(eb)) by {
        assert forall|i: int| 0 <= i < ea.len() implies keys_of(ea)[i] == keys_of(eb)[i] by {
            assert(ea[i].0@ == eb[i].0@);
        }
    }
    let o = key_order(keys_of(ea));
    assert(ea.len() == a->Object_0.len());
    lemma_key_order(keys_of(ea));
    assert forall|t: int| 0 <= t < o.len() implies o[t] < ea.len() && o[t] < eb.len()
        && entry_text(ea, o[t] as int) == entry_text(eb, o[t] as int) by {
        let j = o[t] as int;
        assert(ea[j].0@ == eb[j].0@);
    }
    lemma_entries_text_same(ea, o, eb, o, ea.len());
}


/// The value of the first entry of `es`, from position `i` on, with key `key`.
pub open spec fn find_entry(es: Seq<(String, JsonValue)>, key: Seq<char>, i: int) -> Option<JsonValue>
    decreases es.len() - i,
{
    if i < 0 || i >= es.len() {
        None
    } else if es[i].0@ == key {
        Some(es[i].1)
    } else {
        find_entry(es, key, i + 1)
    }
}

/// `v[key]` for an object `v`: the value stored under `key`; `None` when `v`
/// is not an object or has no such key.
pub open spec fn lookup(v: JsonValue, key: Seq<char>) -> Option<JsonValue> {
    match v {
        JsonValue::Object(es) => find_entry(es@, key, 0),
        _ => None,
    }
}

/// `v[key].as_str()`: the text stored under `key` when it is a string.
pub open spec fn field_str(v: JsonValue, key: Seq<char>) -> Option<Seq<char>> {
    match lookup(v, key) {
        Some(JsonValue::String(s)) => Some(s@),
        _ => None,
    }
}

/// `field_str(v, key)`, or `default` when absent.
pub open spec fn str_or(v: JsonValue, key: Seq<char>, default: Seq<char>) -> Seq<char> {
    match field_str(v, key) {
        Some(s) => s,
        None => default,
    }
}

/// `v[key]`: the value stored under `key`, `Null` when there is none.
pub open spec fn field_or_null(v: JsonValue, key: Seq<char>) -> JsonValue {
    match lookup(v, key) {
        Some(x) => x,
        None => JsonValue::Null,
    }
}

/// The value of the first entry of `es` with key `key`.
pub fn find_in_entries<'a>(es: &'a Vec<(String, JsonValue)>, key: &str) -> (r: Option<&'a JsonValue>)
    ensures
        r is None <==> find_entry(es@, key@, 0) is None,
        r matches Some(x) ==> find_entry(es@, key@, 0) == Some(*x),
{
    let kv = chars_of(key);
    let mut i: usize = 0;
    while i < es.len()
        invariant
            kv@ == key@,
            i <= es@.len(),
            find_entry(es@, key@, 0) == find_entry(es@, key@, i as int),
        decreases es.len() - i,
    {
        let ev = chars_of(es[i].0.as_str());
        if crate::text::chars_equal(&ev, &kv) {
            return Some(&es[i].1);
        }
        i = i + 1;
    }
    None
}

/// The value stored under `key` in the object `v` (`v.get(key)`).
pub fn get<'a>(v: &'a JsonValue, key: &str) -> (r: Option<&'a JsonValue>)
    ensures
        r is None <==> lookup(*v, key@) is None,
        r matches Some(x) ==> lookup(*v, key@) == Some(*x),
{
    match v {
        JsonValue::Object(es) => find_in_entries(es, key),
        _ => None,
    }
}

/// The text stored under `key` when it is a string (`v[key].as_str()`).
pub fn get_str<'a>(v: &'a JsonValue, key: &str) -> (r: Option<&'a String>)
    ensures
        r is None <==> field_str(*v, key@) is None,
        r matches Some(s) ==> field_str(*v, key@) == Some(s@),
{
    match get(v, key) {
        Some(JsonValue::String(s)) => Some(s),
        _ => None,
    }
}

/// The text stored under `key` when it is a string, else `default`.
pub fn get_str_or(v: &JsonValue, key: &str, default: &str) -> (r: String)
    ensures
        r@ == str_or(*v, key@, default@),
{
    match get_str(v, key) {
        Some(s) => s.clone(),
        None => owned(default),
    }
}

/// A JSON string value holding `s`.
pub fn string_value(s: &str) -> (r: JsonValue)
    ensures
        r == JsonValue::String(r->String_0) && r->String_0@ == s@,
{
    JsonValue::String(owned(s))
}

/// A JSON number value for the integer `n`.
pub fn integer_value(n: i64) -> (r: JsonValue)
    ensures
        r is Number && r->Number_0@ == crate::text::decimal(n as int),
{
    JsonValue::Number(crate::text::decimal_string(n))
}


/// A copy of `v` with the same canonical text.
pub fn copy_json(v: &JsonValue) -> (r: JsonValue)
    ensures
        canonical_json(r) == canonical_json(*v),
        r is Null <==> v is Null,
    decreases v,
{
    match v {
        JsonValue::Null => JsonValue::Null,
        JsonValue::Bool(b) => JsonValue::Bool(*b),
        JsonValue::Number(t) => JsonValue::Number(t.clone()),
        JsonValue::String(s) => JsonValue::String(s.clone()),
        JsonValue::Array(items) => {
            let mut out: Vec<JsonValue> = Vec::new();
            for k in 0..items.len()
                invariant
                    *v == JsonValue::Array(*items),
                    out@.len() == k,
                    forall|i: int| 0 <= i < k ==> canonical_json(#[trigger] out@[i]) == canonical_json(items@[i]),
            {
                proof {
                    vstd::std_specs::vec::axiom_vec_index_decreases(*items, k as int);
                    assert(decreases_to!(*v => (*v)->Array_0));
                }
                out.push(copy_json(&items[k]));
            }
            let r = JsonValue::Array(out);
            proof {
                lemma_canonical_array_congruent(r, *v);
            }
            r
        },
        JsonValue::Object(es) => {
            let mut out: Vec<(String, JsonValue)> = Vec::new();
            for k in 0..es.len()
                invariant
                    *v == JsonValue::Object(*es),
                    out@.len() == k,
                    forall|i: int|
                        0 <= i < k ==> (#[trigger] out@[i]).0@ == es@[i].0@ && canonical_json(out@[i].1)
                            == canonical_json(es@[i].1),
            {
                proof {
                    vstd::std_specs::vec::axiom_vec_index_decreases(*es, k as int);
                    assert(decreases_to!(*v => (*v)->Object_0));
                    assert(decreases_to!(es[k as int] => es[k as int].1));
                }
                let value = copy_json(&es[k].1);
                out.push((es[k].0.clone(), value));
            }
            let r = JsonValue::Object(out);
            proof {
                lemma_canonical_object_congruent(r, *v);
            }
            r
        },
    }
}

} // verus!
