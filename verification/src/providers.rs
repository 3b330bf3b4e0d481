//! Optional optimiser providers: their manifests, the order in which they are
//! considered, and the choice of a compatible active set.
use vstd::prelude::*;
use crate::json::{find_entry, find_in_entries, lookup, JsonValue};
use vstd::pervasive::VecAdditionalExecFns;
use crate::order::{
    insert_sorted, isort, lemma_insert_sorted_at, lemma_isort_multiset, lemma_isort_sorted,
    lemma_map_values_multiset, sorted_by, total_preorder,
};
use crate::text::{append, chars_le, chars_less, chars_of, owned, str_equal};

verus! {

broadcast use vstd::seq_lib::group_seq_properties;

/// A provider manifest.
pub struct Provider {
    pub id: String,
    pub name: String,
    pub trust: String,
    pub capabilities: Vec<String>,
    pub conflicts: Vec<String>,
    pub priority: i64,
    /// How to detect an installation: entries such as `"which"`, `"skill"`
    /// or `"mcp"` mapped to a name.
    pub detect: Vec<(String, JsonValue)>,
    pub install: String,
    pub repo: String,
    pub fixed_context_tax_tokens: i64,
}

/// `a` is considered no later than `b`: higher priority first, then by id.
pub open spec fn provider_le(a: &Provider, b: &Provider) -> bool {
    a.priority > b.priority || (a.priority == b.priority && chars_le(a.id@, b.id@))
}

/// The order relation as a value.
pub open spec fn provider_order<'a>() -> spec_fn(&'a Provider, &'a Provider) -> bool {
    |a: &'a Provider, b: &'a Provider| provider_le(a, b)
}

/// Providers in the order they are considered (stable).
pub open spec fn priority_order<'a>(ps: Seq<&'a Provider>) -> Seq<&'a Provider> {
    isort(ps, provider_order::<'a>())
}

/// Some string of `v` has the text `t`.
pub open spec fn has_text(v: Seq<String>, t: Seq<char>) -> bool {
    exists|i: int| 0 <= i < v.len() && (#[trigger] v[i])@ == t
}

/// Capabilities that at most one active provider may hold.
pub open spec fn is_exclusive(cap: Seq<char>) -> bool {
    cap == "compression.document"@ || cap == "compression.output"@ || cap == "request_proxy"@
        || cap == "compaction.manager"@
}

/// Whether `cap` is one that at most one active provider may hold.
pub fn is_exclusive_capability(cap: &str) -> (r: bool)
    ensures
        r == is_exclusive(cap@),
{
    str_equal(cap, "compression.document") || str_equal(cap, "compression.output") || str_equal(
        cap,
        "request_proxy",
    ) || str_equal(cap, "compaction.manager")
}

/// Whether some string of `v` equals `t`.
pub fn contains_text(v: &Vec<String>, t: &str) -> (r: bool)
    ensures
        r == has_text(v@, t@),
{
    for i in 0..v.len()
        invariant
            forall|k: int| 0 <= k < i ==> (#[trigger] v@[k])@ != t@,
    {
        if str_equal(v[i].as_str(), t) {
            assert((v@[i as int])@ == t@);
            return true;
        }
    }
    false
}

/// The first capability of `caps`, from position `i` on, that is exclusive and
/// also among `others`.
pub open spec fn shared_exclusive_from(caps: Seq<String>, others: Seq<String>, i: int) -> Option<
    Seq<char>,
>
    decreases caps.len() - i,
{
    if i < 0 || i >= caps.len() {
        None
    } else if is_exclusive(caps[i]@) && has_text(others, caps[i]@) {
        Some(caps[i]@)
    } else {
        shared_exclusive_from(caps, others, i + 1)
    }
}

/// Why `p` cannot join a set that holds `other`, if it cannot.
pub open spec fn blocker(other: &Provider, p: &Provider) -> Option<Seq<char>> {
    if has_text(p.conflicts@, other.id@) || has_text(other.conflicts@, p.id@) {
        Some("explicit conflict with "@ + other.id@)
    } else {
        match shared_exclusive_from(p.capabilities@, other.capabilities@, 0) {
            Some(cap) => Some("exclusive capability "@ + cap + " already provided by "@ + other.id@),
            None => None,
        }
    }
}

/// The reason given by the first member of `active`, from position `i` on,
/// that blocks `p`.
pub open spec fn first_blocker(active: Seq<&Provider>, p: &Provider, i: int) -> Option<Seq<char>>
    decreases active.len() - i,
{
    if i < 0 || i >= active.len() {
        None
    } else {
        match blocker(active[i], p) {
            Some(r) => Some(r),
            None => first_blocker(active, p, i + 1),
        }
    }
}

/// Active providers so far, and the (id, reason) of each dropped one.
pub type ResolveState<'a> = (Seq<&'a Provider>, Seq<(Seq<char>, Seq<char>)>);

/// Considers `p` after the providers that led to `st`.
pub open spec fn resolve_step<'a>(st: ResolveState<'a>, p: &'a Provider) -> ResolveState<'a> {
    if p.trust@ == "BLOCKED"@ {
        (st.0, st.1.push((p.id@, "trust class BLOCKED"@)))
    } else {
        match first_blocker(st.0, p, 0) {
            Some(r) => (st.0, st.1.push((p.id@, r))),
            None => (st.0.push(p), st.1),
        }
    }
}

/// Considers the providers of `ps` one by one, in the order given.
pub open spec fn resolve_seq<'a>(ps: Seq<&'a Provider>) -> ResolveState<'a>
    decreases ps.len(),
{
    if ps.len() == 0 {
        (Seq::empty(), Seq::empty())
    } else {
        resolve_step(resolve_seq(ps.drop_last()), ps.last())
    }
}

/// Ids of the active providers, in order.
pub open spec fn ids_of(ps: Seq<&Provider>) -> Seq<Seq<char>> {
    ps.map_values(|p: &Provider| p.id@)
}

/// Whether `a` is considered no later than `b`.
pub fn precedes(a: &Provider, b: &Provider) -> (r: bool)
    ensures
        r == provider_le(a, b),
{
    if a.priority != b.priority {
        a.priority > b.priority
    } else {
        let ai = chars_of(a.id.as_str());
        let bi = chars_of(b.id.as_str());
        proof {
            crate::json::lemma_chars_le_not_lt(a.id@, b.id@);
        }
        !chars_less(&bi, &ai)
    }
}

/// `provider_le` is a total preorder.
pub proof fn lemma_provider_order_total<'a>()
    ensures
        total_preorder(provider_order::<'a>()),
{
    crate::text::lemma_chars_le_total_order();
    let le = provider_order::<'a>();
    assert forall|a: &'a Provider, b: &'a Provider| #[trigger] le(a, b) || le(b, a) by {
        assert(chars_le(a.id@, b.id@) || chars_le(b.id@, a.id@));
    }
    assert forall|a: &'a Provider, b: &'a Provider, c: &'a Provider| #[trigger] le(a, b) && #[trigger] le(b, c) implies le(
        a,
        c,
    ) by {
        if a.priority == b.priority && b.priority == c.priority {
            assert(chars_le(a.id@, b.id@) && chars_le(b.id@, c.id@));
        }
    }
}

/// The providers of `enabled` in the order they are considered.
pub fn sort_by_priority<'a>(enabled: &[&'a Provider]) -> (sorted: Vec<&'a Provider>)
    ensures
        sorted@ == priority_order(enabled@),
{
    let ghost le = provider_order::<'a>();
    let mut sorted: Vec<&Provider> = Vec::new();
    for i in 0..enabled.len()
        invariant
            le == provider_order::<'a>(),
            sorted@ == isort(enabled@.take(i as int), le),
    {
        let x = enabled[i];
        let ghost prev = sorted@;
        let mut p: usize = sorted.len();
        while p > 0 && !precedes(sorted[p - 1], x)
            invariant
                prev == sorted@,
                p <= sorted@.len(),
                le == provider_order::<'a>(),
                forall|k: int| p <= k < sorted@.len() ==> !le(#[trigger] sorted@[k], x),
            decreases p,
        {
            p = p - 1;
        }
        proof {
            lemma_insert_sorted_at(prev, x, le, p as int);
            assert(enabled@.take(i + 1).drop_last() =~= enabled@.take(i as int));
            assert(enabled@.take(i + 1).last() == x);
        }
        sorted.insert(p, x);
        assert(sorted@ =~= prev.take(p as int).push(x) + prev.skip(p as int));
    }
    assert(enabled@.take(enabled.len() as int) =~= enabled@);
    sorted
}


/// The text held by an optional string.
pub open spec fn opt_text(o: Option<String>) -> Option<Seq<char>> {
    match o {
        Some(s) => Some(s@),
        None => None,
    }
}

/// The first capability of `caps` that is exclusive and also among `others`.
fn shared_exclusive(caps: &Vec<String>, others: &Vec<String>) -> (r: Option<String>)
    ensures
        opt_text(r) == shared_exclusive_from(caps@, others@, 0),
{
    let mut i: usize = 0;
    while i < caps.len()
        invariant
            i <= caps@.len(),
            shared_exclusive_from(caps@, others@, 0) == shared_exclusive_from(caps@, others@, i as int),
        decreases caps.len() - i,
    {
        if is_exclusive_capability(caps[i].as_str()) && contains_text(others, caps[i].as_str()) {
            return Some(caps[i].clone());
        }
        i = i + 1;
    }
    None
}

/// Why `p` cannot join a set that holds `other`, if it cannot.
pub fn find_blocker(other: &Provider, p: &Provider) -> (r: Option<String>)
    ensures
        opt_text(r) == blocker(other, p),
{
    if contains_text(&p.conflicts, other.id.as_str()) || contains_text(&other.conflicts, p.id.as_str()) {
        let mut m = owned("explicit conflict with ");
        append(&mut m, other.id.as_str());
        return Some(m);
    }
    match shared_exclusive(&p.capabilities, &other.capabilities) {
        Some(cap) => {
            let mut m = owned("exclusive capability ");
            append(&mut m, cap.as_str());
            append(&mut m, " already provided by ");
            append(&mut m, other.id.as_str());
            Some(m)
        },
        None => None,
    }
}

/// The reason given by the first provider of `active` that blocks `p`.
fn first_active_blocker(active: &Vec<&Provider>, p: &Provider) -> (r: Option<String>)
    ensures
        opt_text(r) == first_blocker(active@, p, 0),
{
    let mut j: usize = 0;
    while j < active.len()
        invariant
            j <= active@.len(),
            first_blocker(active@, p, 0) == first_blocker(active@, p, j as int),
        decreases active.len() - j,
    {
        let b = find_blocker(active[j], p);
        if b.is_some() {
            return b;
        }
        j = j + 1;
    }
    None
}

/// Active-set validation: providers are considered by priority (then id);
/// a BLOCKED provider is dropped, as is one that conflicts with an active
/// provider or shares an exclusive capability with one. Returns the ids of
/// the active providers and the (id, reason) of each dropped one.
pub fn resolve(enabled: &[&Provider]) -> (r: (Vec<String>, Vec<(String, String)>))
    ensures
        r.0@.map_values(|s: String| s@) == ids_of(resolve_seq(priority_order(enabled@)).0),
        r.1@.map_values(|d: (String, String)| (d.0@, d.1@)) == resolve_seq(priority_order(enabled@)).1,
{
    let sorted = sort_by_priority(enabled);
    let mut active: Vec<&Provider> = Vec::new();
    let mut dropped: Vec<(String, String)> = Vec::new();
    for k in 0..sorted.len()
        invariant
            active@ == resolve_seq(sorted@.take(k as int)).0,
            dropped@.map_values(|d: (String, String)| (d.0@, d.1@)) == resolve_seq(sorted@.take(k as int)).1,
    {
        let p = sorted[k];
        let ghost pre = resolve_seq(sorted@.take(k as int));
        assert(sorted@.take(k + 1).drop_last() =~= sorted@.take(k as int));
        assert(sorted@.take(k + 1).last() == p);
        if str_equal(p.trust.as_str(), "BLOCKED") {
            dropped.push((p.id.clone(), owned("trust class BLOCKED")));
            assert(dropped@.map_values(|d: (String, String)| (d.0@, d.1@)) =~= pre.1.push(
                (p.id@, "trust class BLOCKED"@),
            ));
        } else {
            let reason = first_active_blocker(&active, p);
            match reason {
                Some(why) => {
                    dropped.push((p.id.clone(), why));
                    assert(dropped@.map_values(|d: (String, String)| (d.0@, d.1@)) =~= pre.1.push(
                        (p.id@, first_blocker(pre.0, p, 0)->0),
                    ));
                },
                None => {
                    active.push(p);
                },
            }
        }
    }
    assert(sorted@.take(sorted.len() as int) =~= sorted@);
    let mut ids: Vec<String> = Vec::new();
    for i in 0..active.len()
        invariant
            ids@.map_values(|s: String| s@) == ids_of(active@.take(i as int)),
    {
        let ghost before = ids@;
        let id = active[i].id.clone();
        ids.push(id);
        assert(active@.take(i + 1) =~= active@.take(i as int).push(active@[i as int]));
        assert(ids@ =~= before.push(id));
        assert(ids@.map_values(|s: String| s@) =~= before.map_values(|s: String| s@).push(id@));
        assert(ids@.map_values(|s: String| s@) =~= ids_of(active@.take(i + 1)));
    }
    assert(active@.take(active.len() as int) =~= active@);
    (ids, dropped)
}


/// Neither lists the other as a conflict, and no exclusive capability is held
/// by both.
pub open spec fn compatible(a: &Provider, b: &Provider) -> bool {
    &&& !has_text(a.conflicts@, b.id@)
    &&& !has_text(b.conflicts@, a.id@)
    &&& forall|c: Seq<char>|
        #[trigger] is_exclusive(c) ==> !(has_text(a.capabilities@, c) && has_text(b.capabilities@, c))
}

proof fn lemma_no_shared_exclusive(caps: Seq<String>, others: Seq<String>, i: int)
    requires
        0 <= i,
        shared_exclusive_from(caps, others, i) is None,
    ensures
        forall|k: int| i <= k < caps.len() ==> !(is_exclusive(#[trigger] caps[k]@) && has_text(others, caps[k]@)),
    decreases caps.len() - i,
{
    if i < caps.len() {
        lemma_no_shared_exclusive(caps, others, i + 1);
    }
}

/// A provider that nothing blocks is compatible with the blocker's subject.
proof fn lemma_unblocked_compatible(other: &Provider, p: &Provider)
    requires
        blocker(other, p) is None,
    ensures
        compatible(other, p),
{
    lemma_no_shared_exclusive(p.capabilities@, other.capabilities@, 0);
    assert forall|c: Seq<char>| #[trigger] is_exclusive(c) implies !(has_text(other.capabilities@, c) && has_text(
        p.capabilities@,
        c,
    )) by {
        if has_text(p.capabilities@, c) && has_text(other.capabilities@, c) {
            let k = choose|k: int| 0 <= k < p.capabilities@.len() && (#[trigger] p.capabilities@[k])@ == c;
            assert(!(is_exclusive(p.capabilities@[k]@) && has_text(other.capabilities@, p.capabilities@[k]@)));
        }
    }
}

proof fn lemma_first_blocker_none(active: Seq<&Provider>, p: &Provider, i: int)
    requires
        0 <= i,
        first_blocker(active, p, i) is None,
    ensures
        forall|k: int| i <= k < active.len() ==> blocker(#[trigger] active[k], p) is None,
    decreases active.len() - i,
{
    if i < active.len() {
        lemma_first_blocker_none(active, p, i + 1);
    }
}

/// The active set never holds a BLOCKED provider, and its members are
/// pairwise compatible: no explicit conflict, and each exclusive capability
/// provided at most once.
pub proof fn lemma_resolve_active_compatible(ps: Seq<&Provider>)
    ensures
        forall|i: int| 0 <= i < resolve_seq(ps).0.len() ==> (#[trigger] resolve_seq(ps).0[i]).trust@ != "BLOCKED"@,
        forall|i: int, j: int|
            0 <= i < resolve_seq(ps).0.len() && 0 <= j < resolve_seq(ps).0.len() && i != j ==> compatible(
                #[trigger] resolve_seq(ps).0[i],
                #[trigger] resolve_seq(ps).0[j],
            ),
    decreases ps.len(),
{
    if ps.len() > 0 {
        let prev = resolve_seq(ps.drop_last());
        let p = ps.last();
        lemma_resolve_active_compatible(ps.drop_last());
        if p.trust@ != "BLOCKED"@ && first_blocker(prev.0, p, 0) is None {
            lemma_first_blocker_none(prev.0, p, 0);
            let act = resolve_seq(ps).0;
            assert(act == prev.0.push(p));
            assert forall|i: int, j: int|
                0 <= i < act.len() && 0 <= j < act.len() && i != j implies compatible(
                #[trigger] act[i],
                #[trigger] act[j],
            ) by {
                if i == act.len() - 1 {
                    lemma_unblocked_compatible(prev.0[j], p);
                } else if j == act.len() - 1 {
                    lemma_unblocked_compatible(prev.0[i], p);
                } else {
                    assert(act[i] == prev.0[i] && act[j] == prev.0[j]);
                }
            }
        }
    }
}

/// Every active provider comes from the input.
pub proof fn lemma_resolve_active_from_input(ps: Seq<&Provider>)
    ensures
        forall|i: int| 0 <= i < resolve_seq(ps).0.len() ==> ps.contains(#[trigger] resolve_seq(ps).0[i]),
    decreases ps.len(),
{
    if ps.len() > 0 {
        lemma_resolve_active_from_input(ps.drop_last());
        let prev = resolve_seq(ps.drop_last()).0;
        let act = resolve_seq(ps).0;
        assert forall|i: int| 0 <= i < act.len() implies ps.contains(#[trigger] act[i]) by {
            if i < prev.len() {
                assert(act[i] == prev[i]);
                assert(ps.drop_last().contains(prev[i]));
                let k = choose|k: int| 0 <= k < ps.drop_last().len() && ps.drop_last()[k] == prev[i];
                assert(ps[k] == act[i]);
            } else {
                assert(act[i] == ps.last());
                assert(ps[ps.len() - 1] == act[i]);
            }
        }
    }
}

/// Considering providers in a sorted order leaves the active set sorted the
/// same way: a higher-priority provider is never displaced by a lower one.
pub proof fn lemma_resolve_active_sorted(ps: Seq<&Provider>)
    requires
        sorted_by(ps, provider_order()),
    ensures
        sorted_by(resolve_seq(ps).0, provider_order()),
    decreases ps.len(),
{
    if ps.len() > 0 {
        let d = ps.drop_last();
        assert(sorted_by(d, provider_order())) by {
            assert forall|i: int, j: int| 0 <= i < j < d.len() implies provider_order()(#[trigger] d[i], #[trigger] d[j]) by {
                assert(d[i] == ps[i] && d[j] == ps[j]);
            }
        }
        lemma_resolve_active_sorted(d);
        lemma_resolve_active_from_input(d);
        let prev = resolve_seq(d).0;
        let act = resolve_seq(ps).0;
        assert forall|i: int, j: int| 0 <= i < j < act.len() implies provider_order()(#[trigger] act[i], #[trigger] act[j]) by {
            if j < prev.len() {
                assert(act[i] == prev[i] && act[j] == prev[j]);
            } else {
                assert(act[i] == prev[i]);
                assert(d.contains(prev[i]));
                let k = choose|k: int| 0 <= k < d.len() && d[k] == prev[i];
                assert(ps[k] == act[i]);
                assert(act[j] == ps[ps.len() - 1]);
            }
        }
    }
}

/// Every considered provider ends up exactly once among the active ones or
/// the dropped ones: their ids together are the input ids.
pub proof fn lemma_resolve_partition(ps: Seq<&Provider>)
    ensures
        (ids_of(resolve_seq(ps).0) + resolve_seq(ps).1.map_values(|d: (Seq<char>, Seq<char>)| d.0)).to_multiset()
            =~= ids_of(ps).to_multiset(),
    decreases ps.len(),
{
    broadcast use vstd::seq_lib::group_to_multiset_ensures;
    broadcast use vstd::multiset::group_multiset_axioms;
    if ps.len() == 0 {
        assert(ids_of(resolve_seq(ps).0) + resolve_seq(ps).1.map_values(|d: (Seq<char>, Seq<char>)| d.0)
            =~= Seq::<Seq<char>>::empty());
        assert(ids_of(ps) =~= Seq::<Seq<char>>::empty());
    } else {
        let d = ps.drop_last();
        let p = ps.last();
        lemma_resolve_partition(d);
        let prev = resolve_seq(d);
        let cur = resolve_seq(ps);
        let fd = |x: (Seq<char>, Seq<char>)| x.0;
        let before = ids_of(prev.0) + prev.1.map_values(fd);
        let after = ids_of(cur.0) + cur.1.map_values(fd);
        assert(ids_of(ps) =~= ids_of(d).push(p.id@));
        if cur.0.len() == prev.0.len() + 1 {
            assert(cur.0 == prev.0.push(p));
            assert(cur.1 == prev.1);
            assert(ids_of(cur.0) =~= ids_of(prev.0).push(p.id@));
            assert(after.to_multiset() =~= before.to_multiset().insert(p.id@)) by {
                vstd::seq_lib::lemma_multiset_commutative(ids_of(cur.0), cur.1.map_values(fd));
                vstd::seq_lib::lemma_multiset_commutative(ids_of(prev.0), prev.1.map_values(fd));
            }
        } else {
            assert(cur.0 == prev.0);
            assert(cur.1.len() == prev.1.len() + 1 && cur.1.drop_last() == prev.1 && cur.1.last().0 == p.id@);
            assert(cur.1.map_values(fd) =~= prev.1.map_values(fd).push(p.id@));
            assert(after =~= before.push(p.id@));
        }
    }
}


/// What `resolve` promises as a whole: each enabled provider's id appears
/// exactly once among the active ids and the dropped ids; the active
/// providers are in priority order, none is BLOCKED, and they are pairwise
/// compatible.
pub proof fn lemma_resolve_laws(enabled: Seq<&Provider>)
    ensures
        ({
            let r = resolve_seq(priority_order(enabled));
            &&& (ids_of(r.0) + r.1.map_values(|d: (Seq<char>, Seq<char>)| d.0)).to_multiset()
                =~= ids_of(enabled).to_multiset()
            &&& sorted_by(r.0, provider_order())
            &&& forall|i: int| 0 <= i < r.0.len() ==> (#[trigger] r.0[i]).trust@ != "BLOCKED"@
            &&& forall|i: int, j: int|
                0 <= i < r.0.len() && 0 <= j < r.0.len() && i != j ==> compatible(
                    #[trigger] r.0[i],
                    #[trigger] r.0[j],
                )
        }),
{
    let sorted = priority_order(enabled);
    lemma_resolve_partition(sorted);
    lemma_isort_multiset(enabled, provider_order());
    lemma_map_values_multiset(sorted, enabled, |p: &Provider| p.id@);
    lemma_provider_order_total();
    lemma_isort_sorted(enabled, provider_order());
    lemma_resolve_active_sorted(sorted);
    lemma_resolve_active_compatible(sorted);
}


/// The capabilities of which at most one active provider may hold any:
/// document compression, output compression, the request proxy and the
/// compaction manager.
pub open spec fn single_holder_capability(c: Seq<char>) -> bool {
    c == "compression.document"@ || c == "compression.output"@ || c == "request_proxy"@
        || c == "compaction.manager"@
}

/// Of any two active providers, none is BLOCKED, neither names the other as
/// a conflict, and they do not both hold document compression, output
/// compression, the request proxy or the compaction manager.
pub proof fn lemma_resolve_one_holder_per_exclusive(enabled: Seq<&Provider>)
    ensures
        ({
            let a = resolve_seq(priority_order(enabled)).0;
            &&& forall|i: int| 0 <= i < a.len() ==> (#[trigger] a[i]).trust@ != "BLOCKED"@
            &&& forall|i: int, j: int, c: Seq<char>|
                #![trigger has_text(a[i].capabilities@, c), has_text(a[j].capabilities@, c)]
                0 <= i < a.len() && 0 <= j < a.len() && i != j && single_holder_capability(c) ==> !(
                has_text(a[i].capabilities@, c) && has_text(a[j].capabilities@, c))
            &&& forall|i: int, j: int|
                0 <= i < a.len() && 0 <= j < a.len() && i != j ==> !has_text(
                    (#[trigger] a[i]).conflicts@,
                    (#[trigger] a[j]).id@,
                )
        }),
{
    lemma_resolve_laws(enabled);
    let a = resolve_seq(priority_order(enabled)).0;
    assert forall|i: int, j: int, c: Seq<char>|
        #![trigger has_text(a[i].capabilities@, c), has_text(a[j].capabilities@, c)]
        0 <= i < a.len() && 0 <= j < a.len() && i != j && single_holder_capability(c) implies !(
        has_text(a[i].capabilities@, c) && has_text(a[j].capabilities@, c)) by {
        assert(compatible(a[i], a[j]));
        assert(is_exclusive(c));
    }
    assert forall|i: int, j: int|
        0 <= i < a.len() && 0 <= j < a.len() && i != j implies !has_text(
            (#[trigger] a[i]).conflicts@,
            (#[trigger] a[j]).id@,
        ) by {
        assert(compatible(a[i], a[j]));
    }
}

/// Each of the four single-holder capabilities is treated as exclusive, and
/// a capability outside them is not.
pub proof fn lemma_exclusive_capabilities(c: Seq<char>)
    ensures
        is_exclusive(c) <==> single_holder_capability(c),
        is_exclusive("compaction.manager"@),
        is_exclusive("request_proxy"@),
        is_exclusive("compression.document"@),
        is_exclusive("compression.output"@),
{
}

/// `other` and `p` name each other as a conflict (either way round), and the
/// reason is `explicit conflict with <other's id>`.
pub open spec fn conflict_reason(other: &Provider, p: &Provider, reason: Seq<char>) -> bool {
    reason == "explicit conflict with "@ + other.id@ && (has_text(p.conflicts@, other.id@) || has_text(
        other.conflicts@,
        p.id@,
    ))
}

/// `other` and `p` both hold a single-holder capability `c`, and the reason
/// is `exclusive capability <c> already provided by <other's id>`.
pub open spec fn exclusive_reason(other: &Provider, p: &Provider, reason: Seq<char>) -> bool {
    exists|c: Seq<char>|
        single_holder_capability(c) && #[trigger] has_text(p.capabilities@, c) && has_text(other.capabilities@, c)
            && reason == "exclusive capability "@ + c + " already provided by "@ + other.id@
}

/// Why `p` may be left out next to the providers of `active`: it is BLOCKED
/// and the reason says so; or, not BLOCKED, it conflicts with an active
/// provider or shares a single-holder capability with one, as the reason says.
pub open spec fn drop_justified(active: Seq<&Provider>, p: &Provider, reason: Seq<char>) -> bool {
    ||| (p.trust@ == "BLOCKED"@ && reason == "trust class BLOCKED"@)
    ||| (p.trust@ != "BLOCKED"@ && exists|j: int|
        0 <= j < active.len() && (conflict_reason(#[trigger] active[j], p, reason) || exclusive_reason(
            active[j],
            p,
            reason,
        )))
}

proof fn lemma_shared_exclusive_some(caps: Seq<String>, others: Seq<String>, i: int)
    requires
        shared_exclusive_from(caps, others, i) is Some,
    ensures
        ({
            let c = shared_exclusive_from(caps, others, i)->0;
            is_exclusive(c) && has_text(caps, c) && has_text(others, c)
        }),
    decreases caps.len() - i,
{
    if !(is_exclusive(caps[i]@) && has_text(others, caps[i]@)) {
        lemma_shared_exclusive_some(caps, others, i + 1);
    } else {
        assert(caps[i]@ == caps[i]@);
    }
}

proof fn lemma_first_blocker_some(active: Seq<&Provider>, p: &Provider, i: int)
    requires
        0 <= i,
        first_blocker(active, p, i) is Some,
    ensures
        exists|j: int| i <= j < active.len() && blocker(#[trigger] active[j], p) == first_blocker(active, p, i),
    decreases active.len() - i,
{
    if blocker(active[i], p) is None {
        lemma_first_blocker_some(active, p, i + 1);
    } else {
        assert(blocker(active[i], p) == first_blocker(active, p, i));
    }
}

proof fn lemma_justified_grows(active: Seq<&Provider>, x: &Provider, p: &Provider, reason: Seq<char>)
    requires
        drop_justified(active, p, reason),
    ensures
        drop_justified(active.push(x), p, reason),
{
    if p.trust@ != "BLOCKED"@ {
        let j = choose|j: int|
            0 <= j < active.len() && (conflict_reason(#[trigger] active[j], p, reason) || exclusive_reason(
                active[j],
                p,
                reason,
            ));
        assert(active.push(x)[j] == active[j]);
    }
}

/// Each provider dropped while considering `ps` in order is one of them, and
/// its reason is justified by the providers active at the end.
pub proof fn lemma_resolve_drops_justified(ps: Seq<&Provider>)
    ensures
        forall|k: int|
            0 <= k < resolve_seq(ps).1.len() ==> exists|i: int|
                0 <= i < ps.len() && (#[trigger] ps[i]).id@ == (#[trigger] resolve_seq(ps).1[k]).0
                    && drop_justified(resolve_seq(ps).0, ps[i], resolve_seq(ps).1[k].1),
    decreases ps.len(),
{
    if ps.len() > 0 {
        let d = ps.drop_last();
        let p = ps.last();
        lemma_resolve_drops_justified(d);
        let prev = resolve_seq(d);
        let cur = resolve_seq(ps);
        assert forall|k: int| 0 <= k < cur.1.len() implies exists|i: int|
            0 <= i < ps.len() && (#[trigger] ps[i]).id@ == (#[trigger] cur.1[k]).0 && drop_justified(
                cur.0,
                ps[i],
                cur.1[k].1,
            ) by {
            if k < prev.1.len() {
                assert(cur.1[k] == prev.1[k]);
                let i = choose|i: int|
                    0 <= i < d.len() && (#[trigger] d[i]).id@ == (#[trigger] prev.1[k]).0 && drop_justified(
                        prev.0,
                        d[i],
                        prev.1[k].1,
                    );
                assert(ps[i] == d[i]);
                if cur.0 != prev.0 {
                    assert(cur.0 == prev.0.push(p));
                    lemma_justified_grows(prev.0, p, d[i], prev.1[k].1);
                }
            } else {
                let n = ps.len() - 1;
                assert(ps[n] == p);
                assert(cur.0 == prev.0);
                assert(cur.1[k] == (p.id@, cur.1[k].1));
                if p.trust@ != "BLOCKED"@ {
                    lemma_first_blocker_some(prev.0, p, 0);
                    let r = first_blocker(prev.0, p, 0)->0;
                    assert(cur.1[k].1 == r);
                    let j = choose|j: int| 0 <= j < prev.0.len() && blocker(#[trigger] prev.0[j], p) == first_blocker(prev.0, p, 0);
                    let o = prev.0[j];
                    if !(has_text(p.conflicts@, o.id@) || has_text(o.conflicts@, p.id@)) {
                        lemma_shared_exclusive_some(p.capabilities@, o.capabilities@, 0);
                        let c = shared_exclusive_from(p.capabilities@, o.capabilities@, 0)->0;
                        lemma_exclusive_capabilities(c);
                        assert(single_holder_capability(c) && has_text(p.capabilities@, c) && has_text(
                            o.capabilities@,
                            c,
                        ) && r == "exclusive capability "@ + c + " already provided by "@ + o.id@);
                        assert(exclusive_reason(o, p, r));
                    } else {
                        assert(conflict_reason(o, p, r));
                    }
                    assert(drop_justified(cur.0, p, r));
                }
            }
        }
    }
}

/// Why `resolve` drops a provider: each dropped (id, reason) belongs to an
/// enabled provider that is BLOCKED, or conflicts with an active provider,
/// or shares a single-holder capability with one; the reason says which.
pub proof fn lemma_resolve_drop_reasons(enabled: Seq<&Provider>)
    ensures
        ({
            let r = resolve_seq(priority_order(enabled));
            forall|k: int|
                0 <= k < r.1.len() ==> exists|i: int|
                    0 <= i < enabled.len() && (#[trigger] enabled[i]).id@ == (#[trigger] r.1[k]).0
                        && drop_justified(r.0, enabled[i], r.1[k].1)
        }),
{
    broadcast use vstd::seq_lib::group_to_multiset_ensures;
    let sorted = priority_order(enabled);
    lemma_resolve_drops_justified(sorted);
    lemma_isort_multiset(enabled, provider_order());
    let r = resolve_seq(sorted);
    assert forall|k: int| 0 <= k < r.1.len() implies exists|i: int|
        0 <= i < enabled.len() && (#[trigger] enabled[i]).id@ == (#[trigger] r.1[k]).0 && drop_justified(
            r.0,
            enabled[i],
            r.1[k].1,
        ) by {
        let i = choose|i: int|
            0 <= i < sorted.len() && (#[trigger] sorted[i]).id@ == (#[trigger] r.1[k]).0 && drop_justified(
                r.0,
                sorted[i],
                r.1[k].1,
            );
        assert(sorted.to_multiset().count(sorted[i]) > 0);
        assert(enabled.contains(sorted[i]));
        let i2 = choose|i2: int| 0 <= i2 < enabled.len() && enabled[i2] == sorted[i];
        assert(enabled[i2] == sorted[i]);
    }
}

/// Active providers come highest priority first, and by id among equal
/// priorities.
pub proof fn lemma_resolve_active_by_priority(enabled: Seq<&Provider>)
    ensures
        ({
            let a = resolve_seq(priority_order(enabled)).0;
            forall|i: int, j: int|
                0 <= i < j < a.len() ==> (#[trigger] a[i]).priority > (#[trigger] a[j]).priority || (a[i].priority
                    == a[j].priority && chars_le(a[i].id@, a[j].id@))
        }),
{
    lemma_resolve_laws(enabled);
}

/// No two providers of `s` share an id.
pub open spec fn distinct_enabled_ids(s: Seq<&Provider>) -> bool {
    forall|i: int, j: int| 0 <= i < s.len() && 0 <= j < s.len() && i != j ==> (#[trigger] s[i]).id@ != (#[trigger] s[j]).id@
}

/// Resolution does not depend on the order in which the enabled providers
/// are given: when their ids are distinct, any permutation is considered in
/// the same order and keeps and drops the same providers for the same
/// reasons.
pub proof fn lemma_resolve_ignores_input_order<'a>(e1: Seq<&'a Provider>, e2: Seq<&'a Provider>)
    requires
        distinct_enabled_ids(e1),
        e1.to_multiset() == e2.to_multiset(),
    ensures
        priority_order(e1) == priority_order(e2),
        resolve_seq(priority_order(e1)) == resolve_seq(priority_order(e2)),
{
    broadcast use vstd::seq_lib::group_to_multiset_ensures;
    let le = provider_order::<'a>();
    lemma_provider_order_total();
    crate::text::lemma_chars_le_total_order();
    lemma_isort_sorted(e1, le);
    lemma_isort_sorted(e2, le);
    lemma_isort_multiset(e1, le);
    lemma_isort_multiset(e2, le);
    let s1 = priority_order(e1);
    let s2 = priority_order(e2);
    assert forall|x: &'a Provider, y: &'a Provider|
        s1.contains(x) && s1.contains(y) && #[trigger] le(x, y) && #[trigger] le(y, x) implies x == y by {
        assert(chars_le(x.id@, y.id@) && chars_le(y.id@, x.id@));
        assert(x.id@ == y.id@);
        assert(s1.to_multiset().count(x) > 0 && s1.to_multiset().count(y) > 0);
        assert(e1.contains(x) && e1.contains(y));
        let i = choose|i: int| 0 <= i < e1.len() && e1[i] == x;
        let j = choose|j: int| 0 <= j < e1.len() && e1[j] == y;
        assert(e1[i].id@ == e1[j].id@);
    }
    crate::order::lemma_sorted_unique(s1, s2, le);
}

/// The order on provider values.
pub open spec fn provider_value_order() -> spec_fn(Provider, Provider) -> bool {
    |a: Provider, b: Provider| provider_le(&a, &b)
}

/// Position of the first provider of `s`, from `i` on, with id `id`.
pub open spec fn position_of_id(s: Seq<Provider>, id: Seq<char>, i: int) -> Option<int>
    decreases s.len() - i,
{
    if i < 0 || i >= s.len() {
        None
    } else if s[i].id@ == id {
        Some(i)
    } else {
        position_of_id(s, id, i + 1)
    }
}

/// `s` with `p` in place of the provider with the same id, or with `p` added.
pub open spec fn upsert(s: Seq<Provider>, p: Provider) -> Seq<Provider> {
    match position_of_id(s, p.id@, 0) {
        Some(k) => s.update(k, p),
        None => s.push(p),
    }
}

/// The manifests of all layers keyed by id, a later layer overriding an
/// earlier one with the same id.
pub open spec fn merge_by_id(s: Seq<Provider>) -> Seq<Provider>
    decreases s.len(),
{
    if s.len() == 0 {
        Seq::empty()
    } else {
        upsert(merge_by_id(s.drop_last()), s.last())
    }
}

/// The registry built from manifest layers: merged by id, in priority order.
pub open spec fn registry_of(layers: Seq<Provider>) -> Seq<Provider> {
    isort(merge_by_id(layers), provider_value_order())
}

/// Position of the provider of `v` with the same id as `id`.
fn position_of(v: &Vec<Provider>, id: &str) -> (r: Option<usize>)
    ensures
        r matches Some(k) ==> position_of_id(v@, id@, 0) == Some(k as int) && k < v@.len(),
        r is None ==> position_of_id(v@, id@, 0) is None,
{
    let mut i: usize = 0;
    while i < v.len()
        invariant
            i <= v@.len(),
            position_of_id(v@, id@, 0) == position_of_id(v@, id@, i as int),
        decreases v.len() - i,
    {
        if str_equal(v[i].id.as_str(), id) {
            return Some(i);
        }
        i = i + 1;
    }
    None
}

/// `v` stably sorted into priority order.
pub fn sort_providers(v: Vec<Provider>) -> (r: Vec<Provider>)
    ensures
        r@ == isort(v@, provider_value_order()),
{
    let ghost orig = v@;
    let ghost le = provider_value_order();
    let mut rest = v;
    let mut sorted: Vec<Provider> = Vec::new();
    let ghost mut k: int = 0;
    while rest.len() > 0
        invariant
            0 <= k <= orig.len(),
            rest@ == orig.skip(k),
            sorted@ == isort(orig.take(k), le),
            le == provider_value_order(),
        decreases rest.len(),
    {
        let x = rest.remove(0);
        let ghost prev = sorted@;
        let mut p: usize = sorted.len();
        while p > 0 && !precedes(&sorted[p - 1], &x)
            invariant
                prev == sorted@,
                p <= sorted@.len(),
                le == provider_value_order(),
                forall|j: int| p <= j < sorted@.len() ==> !le(#[trigger] sorted@[j], x),
            decreases p,
        {
            p = p - 1;
        }
        proof {
            lemma_insert_sorted_at(prev, x, le, p as int);
            assert(orig.take(k + 1).drop_last() =~= orig.take(k));
            assert(orig.take(k + 1).last() == x);
        }
        sorted.insert(p, x);
        assert(sorted@ =~= prev.take(p as int).push(x) + prev.skip(p as int));
        proof {
            k = k + 1;
        }
        assert(rest@ =~= orig.skip(k));
    }
    assert(orig.take(k) =~= orig);
    sorted
}

/// Builds the registry from manifest layers given lowest precedence first:
/// one provider per id, the last layer's manifest winning, in priority order.
pub fn merge_registry(layers: Vec<Provider>) -> (r: Vec<Provider>)
    ensures
        r@ == registry_of(layers@),
{
    let ghost orig = layers@;
    let mut rest = layers;
    let mut merged: Vec<Provider> = Vec::new();
    let ghost mut k: int = 0;
    while rest.len() > 0
        invariant
            0 <= k <= orig.len(),
            rest@ == orig.skip(k),
            merged@ == merge_by_id(orig.take(k)),
        decreases rest.len(),
    {
        let p = rest.remove(0);
        proof {
            assert(orig.take(k + 1).drop_last() =~= orig.take(k));
            assert(orig.take(k + 1).last() == p);
        }
        match position_of(&merged, p.id.as_str()) {
            Some(i) => merged.set(i, p),
            None => merged.push(p),
        }
        proof {
            k = k + 1;
        }
        assert(rest@ =~= orig.skip(k));
    }
    assert(orig.take(k) =~= orig);
    sort_providers(merged)
}

/// The text stored under `key` in a provider's detection entries, when it is
/// a string.
pub open spec fn detect_str(p: &Provider, key: Seq<char>) -> Option<Seq<char>> {
    match find_entry(p.detect@, key, 0) {
        Some(JsonValue::String(s)) => Some(s@),
        _ => None,
    }
}

/// How to tell whether a provider is installed.
pub enum Probe {
    /// An executable of this name on the search path.
    Which(String),
    /// A skill directory of this name.
    Skill(String),
    /// An MCP server of this name in the assistant's configuration.
    Mcp(String),
}

/// The probe a provider's manifest asks for: `which`, else `skill`, else
/// `mcp`; `None` (not installed) when it names none.
pub fn detection_probe(p: &Provider) -> (r: Option<Probe>)
    ensures
        detect_str(p, "which"@) is Some ==> (r matches Some(Probe::Which(x)) && x@ == detect_str(
            p,
            "which"@,
        )->0),
        (detect_str(p, "which"@) is None && detect_str(p, "skill"@) is Some) ==> (r matches Some(
            Probe::Skill(x),
        ) && x@ == detect_str(p, "skill"@)->0),
        (detect_str(p, "which"@) is None && detect_str(p, "skill"@) is None && detect_str(p, "mcp"@) is Some)
            ==> (r matches Some(Probe::Mcp(x)) && x@ == detect_str(p, "mcp"@)->0),
        (detect_str(p, "which"@) is None && detect_str(p, "skill"@) is None && detect_str(p, "mcp"@) is None)
            ==> r is None,
{
    if let Some(JsonValue::String(cmd)) = find_in_entries(&p.detect, "which") {
        return Some(Probe::Which(cmd.clone()));
    }
    if let Some(JsonValue::String(skill)) = find_in_entries(&p.detect, "skill") {
        return Some(Probe::Skill(skill.clone()));
    }
    if let Some(JsonValue::String(name)) = find_in_entries(&p.detect, "mcp") {
        return Some(Probe::Mcp(name.clone()));
    }
    None
}

/// `config["mcpServers"]` lists `server` directly.
pub open spec fn lists_server(v: JsonValue, server: Seq<char>) -> bool {
    match lookup(v, "mcpServers"@) {
        Some(servers) => lookup(servers, server) is Some,
        None => false,
    }
}

/// Some project entry lists `server`.
pub open spec fn some_project_lists(projects: Seq<(String, JsonValue)>, server: Seq<char>) -> bool {
    exists|i: int| 0 <= i < projects.len() && lists_server(#[trigger] projects[i].1, server)
}

/// An MCP configuration lists `server`, at its top level or in any project.
pub open spec fn mcp_config_lists(config: JsonValue, server: Seq<char>) -> bool {
    lists_server(config, server) || match lookup(config, "projects"@) {
        Some(JsonValue::Object(projects)) => some_project_lists(projects@, server),
        _ => false,
    }
}

fn lists_server_exec(v: &JsonValue, server: &str) -> (r: bool)
    ensures
        r == lists_server(*v, server@),
{
    match crate::json::get(v, "mcpServers") {
        Some(servers) => crate::json::get(servers, server).is_some(),
        None => false,
    }
}

/// A configuration lists `server` exactly when its top-level `mcpServers`
/// has the key `server`, or some entry of its `projects` object has an
/// `mcpServers` with that key; a project entry counts whatever the top level
/// holds.
pub proof fn lemma_mcp_config_lists_where(config: JsonValue, server: Seq<char>)
    ensures
        mcp_config_lists(config, server) <==> (
        (lookup(config, "mcpServers"@) matches Some(top) && lookup(top, server) is Some)
        || (lookup(config, "projects"@) matches Some(JsonValue::Object(ps)) && exists|k: int|
            0 <= k < ps@.len() && (lookup(#[trigger] ps@[k].1, "mcpServers"@) matches Some(m) && lookup(m, server) is Some))),
{
    match lookup(config, "projects"@) {
        Some(JsonValue::Object(ps)) => {
            if some_project_lists(ps@, server) {
                let k = choose|k: int| 0 <= k < ps@.len() && lists_server(#[trigger] ps@[k].1, server);
                assert(lookup(ps@[k].1, "mcpServers"@) matches Some(m) && lookup(m, server) is Some);
            }
            if exists|k: int|
                0 <= k < ps@.len() && (lookup(#[trigger] ps@[k].1, "mcpServers"@) matches Some(m) && lookup(m, server) is Some) {
                let k = choose|k: int|
                    0 <= k < ps@.len() && (lookup(#[trigger] ps@[k].1, "mcpServers"@) matches Some(m) && lookup(m, server) is Some);
                assert(lists_server(ps@[k].1, server));
            }
        },
        _ => {},
    }
}

/// Whether the text of an MCP configuration file lists `server`: false when
/// the text is not JSON.
pub fn mcp_configured_text(text: &str, server: &str) -> (r: bool)
    ensures
        crate::json::parsed_json(text@) matches Some(v) ==> r == mcp_config_lists(v, server@),
        crate::json::parsed_json(text@) is None ==> !r,
{
    match crate::json::parse_json(text) {
        Some(config) => mcp_configured_in(&config, server),
        None => false,
    }
}

/// Whether a parsed MCP configuration lists `server`, at its top level or
/// under any project.
pub fn mcp_configured_in(config: &JsonValue, server: &str) -> (r: bool)
    ensures
        r == mcp_config_lists(*config, server@),
{
    if lists_server_exec(config, server) {
        return true;
    }
    match crate::json::get(config, "projects") {
        Some(JsonValue::Object(projects)) => {
            for i in 0..projects.len()
                invariant
                    lookup(*config, "projects"@) == Some(JsonValue::Object(*projects)),
                    !lists_server(*config, server@),
                    forall|k: int| 0 <= k < i ==> !lists_server(#[trigger] projects@[k].1, server@),
            {
                if lists_server_exec(&projects[i].1, server) {
                    assert(lists_server(projects@[i as int].1, server@));
                    assert(some_project_lists(projects@, server@));
                    assert(mcp_config_lists(*config, server@));
                    return true;
                }
            }
            false
        },
        _ => false,
    }
}


proof fn lemma_position_of_id(s: Seq<Provider>, id: Seq<char>, i: int)
    requires
        0 <= i,
    ensures
        position_of_id(s, id, i) matches Some(k) ==> i <= k < s.len() && s[k].id@ == id,
        position_of_id(s, id, i) is None ==> forall|k: int| i <= k < s.len() ==> (#[trigger] s[k]).id@ != id,
    decreases s.len() - i,
{
    if i < s.len() {
        lemma_position_of_id(s, id, i + 1);
    }
}

/// No two providers of `s` share an id.
pub open spec fn distinct_ids(s: Seq<Provider>) -> bool {
    forall|i: int, j: int| 0 <= i < s.len() && 0 <= j < s.len() && i != j ==> (#[trigger] s[i]).id@ != (#[trigger] s[j]).id@
}

/// No provider after position `j` of `s` has the id of `s[j]`.
pub open spec fn last_with_its_id(s: Seq<Provider>, j: int) -> bool {
    forall|j2: int| j < j2 < s.len() ==> (#[trigger] s[j2]).id@ != s[j].id@
}

/// Merging by id leaves no two manifests with the same id.
pub proof fn lemma_merge_distinct(s: Seq<Provider>)
    ensures
        distinct_ids(merge_by_id(s)),
    decreases s.len(),
{
    if s.len() > 0 {
        let p = s.last();
        let m = merge_by_id(s.drop_last());
        lemma_merge_distinct(s.drop_last());
        lemma_position_of_id(m, p.id@, 0);
        let m2 = merge_by_id(s);
        let pos = position_of_id(m, p.id@, 0);
        assert forall|i: int, j: int| 0 <= i < m2.len() && 0 <= j < m2.len() && i != j implies (#[trigger] m2[i]).id@
            != (#[trigger] m2[j]).id@ by {
            if let Some(q) = pos {
                if i == q {
                    assert(m2[j] == m[j]);
                } else if j == q {
                    assert(m2[i] == m[i]);
                } else {
                    assert(m2[i] == m[i] && m2[j] == m[j]);
                }
            } else {
                if i == m.len() {
                    assert(m2[j] == m[j]);
                } else if j == m.len() {
                    assert(m2[i] == m[i]);
                } else {
                    assert(m2[i] == m[i] && m2[j] == m[j]);
                }
            }
        }
    }
}

/// Merging by id keeps every id.
pub proof fn lemma_merge_keeps_ids(s: Seq<Provider>)
    ensures
        forall|j: int|
            0 <= j < s.len() ==> exists|k: int|
                0 <= k < merge_by_id(s).len() && (#[trigger] merge_by_id(s)[k]).id@ == (#[trigger] s[j]).id@,
    decreases s.len(),
{
    if s.len() > 0 {
        let d = s.drop_last();
        let p = s.last();
        let n = s.len() - 1;
        let m = merge_by_id(d);
        lemma_merge_keeps_ids(d);
        lemma_position_of_id(m, p.id@, 0);
        let m2 = merge_by_id(s);
        let pos = position_of_id(m, p.id@, 0);
        assert forall|j: int| 0 <= j < s.len() implies exists|k: int| 0 <= k < m2.len() && (#[trigger] m2[k]).id@ == (#[trigger] s[j]).id@ by {
            if j == n {
                if let Some(q) = pos {
                    assert(m2[q].id@ == s[j].id@);
                } else {
                    assert(m2[m.len() as int].id@ == s[j].id@);
                }
            } else {
                assert(s[j] == d[j]);
                let k = choose|k: int| 0 <= k < m.len() && (#[trigger] m[k]).id@ == (#[trigger] d[j]).id@;
                if pos is None || k != pos->0 {
                    assert(m2[k] == m[k]);
                }
                assert(m2[k].id@ == s[j].id@);
            }
        }
    }
}

/// Merging by id keeps, for each id, the manifest of the last layer with it.
pub proof fn lemma_merge_last_wins(s: Seq<Provider>)
    ensures
        forall|k: int|
            0 <= k < merge_by_id(s).len() ==> exists|j: int|
                0 <= j < s.len() && #[trigger] s[j] == #[trigger] merge_by_id(s)[k] && last_with_its_id(s, j),
    decreases s.len(),
{
    if s.len() > 0 {
        let d = s.drop_last();
        let p = s.last();
        let n = s.len() - 1;
        let m = merge_by_id(d);
        lemma_merge_last_wins(d);
        lemma_merge_distinct(d);
        lemma_position_of_id(m, p.id@, 0);
        let m2 = merge_by_id(s);
        let pos = position_of_id(m, p.id@, 0);
        assert forall|k: int| 0 <= k < m2.len() implies exists|j: int|
            0 <= j < s.len() && #[trigger] s[j] == #[trigger] m2[k] && last_with_its_id(s, j) by {
            if (pos is Some && k == pos->0) || (pos is None && k == m.len()) {
                assert(m2[k] == p);
                assert(s[n] == m2[k] && last_with_its_id(s, n));
            } else {
                assert(m2[k] == m[k]);
                let j = choose|j: int| 0 <= j < d.len() && #[trigger] d[j] == #[trigger] m[k] && last_with_its_id(d, j);
                assert(s[j] == d[j]);
                assert(m[k].id@ != p.id@);
                assert forall|j2: int| j < j2 < s.len() implies (#[trigger] s[j2]).id@ != s[j].id@ by {
                    if j2 < n {
                        assert(s[j2] == d[j2]);
                    }
                }
                assert(s[j] == m2[k] && last_with_its_id(s, j));
            }
        }
    }
}

/// The order on provider values is a total preorder.
pub proof fn lemma_value_order_total()
    ensures
        total_preorder(provider_value_order()),
{
    let le = provider_value_order();
    crate::text::lemma_chars_le_total_order();
    assert forall|a: Provider, b: Provider| #[trigger] le(a, b) || le(b, a) by {
        assert(chars_le(a.id@, b.id@) || chars_le(b.id@, a.id@));
    }
    assert forall|a: Provider, b: Provider, c: Provider| #[trigger] le(a, b) && #[trigger] le(b, c) implies le(a, c) by {
        if a.priority == b.priority && b.priority == c.priority {
            assert(chars_le(a.id@, b.id@) && chars_le(b.id@, c.id@));
        }
    }
}

/// A permutation of a sequence with distinct ids has the same elements and
/// distinct ids.
proof fn lemma_permutation_same_elements(m: Seq<Provider>, r: Seq<Provider>)
    requires
        r.to_multiset() == m.to_multiset(),
        distinct_ids(m),
    ensures
        forall|x: Provider| r.contains(x) <==> m.contains(x),
        distinct_ids(r),
{
    broadcast use vstd::seq_lib::group_to_multiset_ensures;
    assert forall|x: Provider| r.contains(x) <==> m.contains(x) by {
        assert(r.contains(x) <==> r.to_multiset().count(x) > 0);
        assert(m.contains(x) <==> m.to_multiset().count(x) > 0);
    }
    assert(m.no_duplicates()) by {
        assert forall|i: int, j: int| 0 <= i < m.len() && 0 <= j < m.len() && i != j implies m[i] != m[j] by {
            assert(m[i].id@ != m[j].id@);
        }
    }
    m.lemma_multiset_has_no_duplicates();
    r.lemma_multiset_has_no_duplicates_conv();
    assert forall|i: int, j: int| 0 <= i < r.len() && 0 <= j < r.len() && i != j implies (#[trigger] r[i]).id@
        != (#[trigger] r[j]).id@ by {
        assert(r.contains(r[i]) && r.contains(r[j]));
        let p = choose|p: int| 0 <= p < m.len() && m[p] == r[i];
        let q = choose|q: int| 0 <= q < m.len() && m[q] == r[j];
        assert(r[i] != r[j]);
        assert(p != q);
    }
}

/// The registry of manifest layers (later layers overriding earlier ones by
/// id): it is in priority order, holds one manifest per id, each being the
/// last layer's manifest with that id, and keeps every id of every layer.
pub proof fn lemma_registry_laws(layers: Seq<Provider>)
    ensures
        sorted_by(registry_of(layers), provider_value_order()),
        distinct_ids(registry_of(layers)),
        forall|k: int|
            0 <= k < registry_of(layers).len() ==> exists|j: int|
                0 <= j < layers.len() && #[trigger] layers[j] == #[trigger] registry_of(layers)[k]
                    && last_with_its_id(layers, j),
        forall|j: int|
            0 <= j < layers.len() ==> exists|k: int|
                0 <= k < registry_of(layers).len() && (#[trigger] registry_of(layers)[k]).id@ == (
                #[trigger] layers[j]).id@,
{
    let m = merge_by_id(layers);
    let r = registry_of(layers);
    let le = provider_value_order();
    assert(sorted_by(r, le)) by {
        lemma_value_order_total();
        lemma_isort_sorted(m, le);
    }
    assert(forall|x: Provider| r.contains(x) <==> m.contains(x)) by {
        lemma_merge_distinct(layers);
        lemma_isort_multiset(m, le);
        lemma_permutation_same_elements(m, r);
    }
    assert(distinct_ids(r)) by {
        lemma_merge_distinct(layers);
        lemma_isort_multiset(m, le);
        lemma_permutation_same_elements(m, r);
    }
    lemma_registry_last_wins(layers, m, r);
    lemma_registry_keeps_ids(layers, m, r);
}

proof fn lemma_registry_last_wins(layers: Seq<Provider>, m: Seq<Provider>, r: Seq<Provider>)
    requires
        m == merge_by_id(layers),
        forall|x: Provider| r.contains(x) <==> m.contains(x),
    ensures
        forall|k: int|
            0 <= k < r.len() ==> exists|j: int|
                0 <= j < layers.len() && #[trigger] layers[j] == #[trigger] r[k] && last_with_its_id(layers, j),
{
    lemma_merge_last_wins(layers);
    assert forall|k: int| 0 <= k < r.len() implies exists|j: int|
        0 <= j < layers.len() && #[trigger] layers[j] == #[trigger] r[k] && last_with_its_id(layers, j) by {
        assert(r.contains(r[k]));
        let p = choose|p: int| 0 <= p < m.len() && m[p] == r[k];
        let j = choose|j: int| 0 <= j < layers.len() && #[trigger] layers[j] == #[trigger] m[p] && last_with_its_id(layers, j);
        assert(layers[j] == r[k]);
    }
}

proof fn lemma_registry_keeps_ids(layers: Seq<Provider>, m: Seq<Provider>, r: Seq<Provider>)
    requires
        m == merge_by_id(layers),
        forall|x: Provider| r.contains(x) <==> m.contains(x),
    ensures
        forall|j: int|
            0 <= j < layers.len() ==> exists|k: int| 0 <= k < r.len() && (#[trigger] r[k]).id@ == (#[trigger] layers[j]).id@,
{
    lemma_merge_keeps_ids(layers);
    assert forall|j: int| 0 <= j < layers.len() implies exists|k: int|
        0 <= k < r.len() && (#[trigger] r[k]).id@ == (#[trigger] layers[j]).id@ by {
        let p = choose|p: int| 0 <= p < m.len() && (#[trigger] m[p]).id@ == (#[trigger] layers[j]).id@;
        assert(m.contains(m[p]));
        let k = choose|k: int| 0 <= k < r.len() && r[k] == m[p];
        assert(r[k].id@ == layers[j].id@);
    }
}

/// Why a provider lookup failed.
pub enum ProviderError {
    /// No provider has this id.
    UnknownProvider(String),
}

impl ProviderError {
    /// The error message: `unknown provider "<id>"`.
    pub fn message(&self) -> (r: String)
        ensures
            self matches ProviderError::UnknownProvider(id) ==> r@ == "unknown provider "@
                + crate::text::debug_literal(id@),
    {
        match self {
            ProviderError::UnknownProvider(id) => {
                let mut m = owned("unknown provider ");
                let q = crate::text::debug_quoted(id.as_str());
                append(&mut m, q.as_str());
                m
            },
        }
    }
}

/// The provider of `registry` with id `id` (the first such).
pub fn find_result(registry: Vec<Provider>, id: &str) -> (r: Result<Provider, ProviderError>)
    ensures
        position_of_id(registry@, id@, 0) matches Some(k) ==> r == Ok::<Provider, ProviderError>(registry@[k]),
        position_of_id(registry@, id@, 0) is None ==> (r matches Err(ProviderError::UnknownProvider(x)) && x@ == id@),
{
    let mut registry = registry;
    match position_of(&registry, id) {
        Some(k) => Ok(registry.remove(k)),
        None => Err(ProviderError::UnknownProvider(owned(id))),
    }
}

} // verus!
