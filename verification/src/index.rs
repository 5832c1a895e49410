//! The usage index: a mapping from interface name to the set of
//! (participant, location) pairs that expose it, with a commutative,
//! associative, idempotent merge used to combine the partial indexes that
//! concurrently running crawl branches produce.

use crate::location::ObjectLocation;
use vstd::prelude::*;

verus! {

/// One fact: the interface under whose name this pair is keyed is exposed
/// by participant `bus` at location `object`.
pub struct InterfaceUse {
    pub bus: String,
    pub object: ObjectLocation,
}

impl InterfaceUse {
    /// The pair of participant name and location path.
    pub open spec fn view(&self) -> (Seq<char>, Seq<char>) {
        (self.bus@, self.object@)
    }

    pub open spec fn wf(&self) -> bool {
        self.object.wf()
    }

    pub fn new(bus: String, object: ObjectLocation) -> (r: InterfaceUse)
        ensures
            r@ == (bus@, object@),
            object.wf() ==> r.wf(),
    {
        InterfaceUse { bus, object }
    }

    /// A copy of this usage.
    pub fn duplicate(&self) -> (r: InterfaceUse)
        ensures
            r@ == self@,
            self.wf() ==> r.wf(),
    {
        InterfaceUse { bus: self.bus.clone(), object: self.object.duplicate() }
    }
}

impl PartialEq for InterfaceUse {
    fn eq(&self, other: &InterfaceUse) -> (r: bool) {
        self.bus == other.bus && self.object == other.object
    }
}

impl vstd::std_specs::cmp::PartialEqSpecImpl for InterfaceUse {
    open spec fn obeys_eq_spec() -> bool {
        true
    }

    open spec fn eq_spec(&self, other: &InterfaceUse) -> bool {
        self@ == other@
    }
}

impl Eq for InterfaceUse {

}

/// The set of (participant, location) pairs recorded under one interface
/// name.  Duplicate facts collapse: the underlying sequence never holds two
/// usages with the same participant and location.
pub struct InterfaceUses {
    uses: Vec<InterfaceUse>,
}

impl InterfaceUses {
    /// The set of (participant, location) pairs this value holds.
    pub closed spec fn view(&self) -> Set<(Seq<char>, Seq<char>)> {
        self.uses@.map_values(|u: InterfaceUse| u@).to_set()
    }

    pub closed spec fn wf(&self) -> bool {
        &&& forall|i: int|
            0 <= i < self.uses@.len() ==> (#[trigger] self.uses@[i]).wf()
        &&& self.uses@.map_values(|u: InterfaceUse| u@).no_duplicates()
    }

    pub fn new() -> (r: InterfaceUses)
        ensures
            r.wf(),
            r@ == Set::<(Seq<char>, Seq<char>)>::empty(),
    {
        let r = InterfaceUses { uses: Vec::new() };
        proof {
            assert(r@ =~= Set::<(Seq<char>, Seq<char>)>::empty());
        }
        r
    }

    /// Whether this set already records the given usage.
    pub fn contains(&self, u: &InterfaceUse) -> (r: bool)
        ensures
            r == self@.contains(u@),
    {
        let ghost views = self.uses@.map_values(|x: InterfaceUse| x@);
        let n = self.uses.len();
        let mut i: usize = 0;
        while i < n
            invariant
                n == self.uses@.len(),
                i <= n,
                views == self.uses@.map_values(|x: InterfaceUse| x@),
                forall|j: int| 0 <= j < i ==> views[j] != u@,
            decreases n - i,
        {
            if self.uses[i] == *u {
                assert(views[i as int] == u@);
                assert(views.contains(u@));
                return true;
            }
            assert(views[i as int] != u@);
            i = i + 1;
        }
        proof {
            assert(forall|j: int| 0 <= j < views.len() ==> views[j] != u@);
            assert(!views.contains(u@));
        }
        false
    }

    /// Record one usage; a fact already present collapses into the set.
    pub fn insert(&mut self, u: InterfaceUse)
        requires
            old(self).wf(),
            u.wf(),
        ensures
            final(self).wf(),
            final(self)@ == old(self)@.insert(u@),
    {
        let ghost old_views = self.uses@.map_values(|x: InterfaceUse| x@);
        if self.contains(&u) {
            proof {
                assert(old(self)@.insert(u@) =~= old(self)@);
            }
        } else {
            let ghost uv = u@;
            self.uses.push(u);
            proof {
                let views = self.uses@.map_values(|x: InterfaceUse| x@);
                assert(views =~= old_views.push(uv));
                assert(!old_views.contains(uv));
                assert forall|p: (Seq<char>, Seq<char>)|
                    #[trigger] views.to_set().contains(p) implies old_views.to_set().insert(
                    uv,
                ).contains(p) by {
                    let k = choose|k: int| 0 <= k < views.len() && views[k] == p;
                    if k < old_views.len() {
                        assert(old_views[k] == p);
                        assert(old_views.contains(p));
                    } else {
                        assert(p == uv);
                    }
                }
                assert forall|p: (Seq<char>, Seq<char>)|
                    old_views.to_set().insert(uv).contains(p) implies #[trigger] views.to_set()
                    .contains(p) by {
                    if p == uv {
                        assert(views[views.len() - 1] == p);
                    } else {
                        let k = choose|k: int| 0 <= k < old_views.len() && old_views[k] == p;
                        assert(views[k] == p);
                    }
                }
                assert(views.to_set() =~= old_views.to_set().insert(uv));
            }
        }
    }

    /// Union the other set into this one.
    pub fn merge(&mut self, other: InterfaceUses)
        requires
            old(self).wf(),
            other.wf(),
        ensures
            final(self).wf(),
            final(self)@ == old(self)@.union(other@),
    {
        let n = other.uses.len();
        let ghost other_views = other.uses@.map_values(|x: InterfaceUse| x@);
        let mut i: usize = 0;
        while i < n
            invariant
                n == other.uses@.len(),
                i <= n,
                self.wf(),
                other.wf(),
                other_views == other.uses@.map_values(|x: InterfaceUse| x@),
                forall|p: (Seq<char>, Seq<char>)|
                    #[trigger] self@.contains(p) <==> (old(self)@.contains(p) || (exists|j: int|
                        0 <= j < i && other_views[j] == p)),
            decreases n - i,
        {
            let u = other.uses[i].duplicate();
            assert(other.uses@[i as int].wf());
            let ghost pre = self@;
            let ghost uv = other_views[i as int];
            assert(u@ == uv);
            self.insert(u);
            proof {
                assert(self@ == pre.insert(uv));
                assert forall|p: (Seq<char>, Seq<char>)| #[trigger] self@.contains(p) implies (old(
                    self,
                )@.contains(p) || (exists|j: int| 0 <= j < i + 1 && other_views[j] == p)) by {
                    if p == uv {
                        assert(0 <= i < i + 1 && other_views[i as int] == p);
                    } else {
                        assert(pre.contains(p));
                    }
                }
                assert forall|p: (Seq<char>, Seq<char>)|
                    old(self)@.contains(p) || (exists|j: int|
                        0 <= j < i + 1 && other_views[j] == p) implies #[trigger] self@.contains(
                    p,
                ) by {
                    if old(self)@.contains(p) {
                        assert(pre.contains(p));
                    } else {
                        let j = choose|j: int| 0 <= j < i + 1 && other_views[j] == p;
                        if j < i {
                            assert(pre.contains(p));
                        } else {
                            assert(p == uv);
                        }
                    }
                }
            }
            i = i + 1;
        }
        proof {
            assert forall|p: (Seq<char>, Seq<char>)| #[trigger] other@.contains(p) implies (exists|
                j: int,
            | 0 <= j < n && other_views[j] == p) by {
            }
            assert(self@ =~= old(self)@.union(other@));
        }
    }

    /// How many distinct facts this set holds.
    pub fn len(&self) -> (r: usize)
        requires
            self.wf(),
        ensures
            r == self@.len(),
    {
        proof {
            self.uses@.map_values(|x: InterfaceUse| x@).unique_seq_to_set();
        }
        self.uses.len()
    }
}

/// The usage set recorded under key `k`, or the empty set where the key is
/// absent.
pub open spec fn usage_set(
    m: Map<Seq<char>, Set<(Seq<char>, Seq<char>)>>,
    k: Seq<char>,
) -> Set<(Seq<char>, Seq<char>)> {
    if m.contains_key(k) {
        m[k]
    } else {
        Set::empty()
    }
}

/// The merge of two indexes: every key of either side, mapped to the union
/// of the usage sets both sides record under it.
pub open spec fn spec_merge(
    a: Map<Seq<char>, Set<(Seq<char>, Seq<char>)>>,
    b: Map<Seq<char>, Set<(Seq<char>, Seq<char>)>>,
) -> Map<Seq<char>, Set<(Seq<char>, Seq<char>)>> {
    Map::new(
        |k: Seq<char>| a.contains_key(k) || b.contains_key(k),
        |k: Seq<char>| usage_set(a, k).union(usage_set(b, k)),
    )
}

/// One key's uses joined into an index: `k` now maps to whatever it mapped
/// to before, united with `u`.
pub open spec fn spec_add_uses(
    m: Map<Seq<char>, Set<(Seq<char>, Seq<char>)>>,
    k: Seq<char>,
    u: Set<(Seq<char>, Seq<char>)>,
) -> Map<Seq<char>, Set<(Seq<char>, Seq<char>)>> {
    m.insert(k, usage_set(m, k).union(u))
}

/// One usage recorded in an index under key `k`.
pub open spec fn spec_record(
    m: Map<Seq<char>, Set<(Seq<char>, Seq<char>)>>,
    k: Seq<char>,
    p: (Seq<char>, Seq<char>),
) -> Map<Seq<char>, Set<(Seq<char>, Seq<char>)>> {
    m.insert(k, usage_set(m, k).insert(p))
}

/// Whether any usage in the index names the participant `bus`.
pub open spec fn has_participant(
    m: Map<Seq<char>, Set<(Seq<char>, Seq<char>)>>,
    bus: Seq<char>,
) -> bool {
    exists|k: Seq<char>, p: (Seq<char>, Seq<char>)|
        m.contains_key(k) && (#[trigger] m[k].contains(p)) && p.0 == bus
}

/// The empty index — the contribution of a failed or timed-out branch —
/// names no participant at all.
pub proof fn lemma_empty_has_no_participant(bus: Seq<char>)
    ensures
        !has_participant(Map::<Seq<char>, Set<(Seq<char>, Seq<char>)>>::empty(), bus),
{
}

/// Merging is commutative: the merged index does not depend on which side a
/// partial result arrived from.
pub proof fn lemma_merge_commutative(
    a: Map<Seq<char>, Set<(Seq<char>, Seq<char>)>>,
    b: Map<Seq<char>, Set<(Seq<char>, Seq<char>)>>,
)
    ensures
        spec_merge(a, b) == spec_merge(b, a),
{
    assert(spec_merge(a, b) =~~= spec_merge(b, a));
}

/// Merging is associative: combining partial results in any grouping yields
/// the same index.
pub proof fn lemma_merge_associative(
    a: Map<Seq<char>, Set<(Seq<char>, Seq<char>)>>,
    b: Map<Seq<char>, Set<(Seq<char>, Seq<char>)>>,
    c: Map<Seq<char>, Set<(Seq<char>, Seq<char>)>>,
)
    ensures
        spec_merge(spec_merge(a, b), c) == spec_merge(a, spec_merge(b, c)),
{
    assert forall|k: Seq<char>|
        #[trigger] spec_merge(spec_merge(a, b), c).contains_key(k) implies spec_merge(
        spec_merge(a, b),
        c,
    )[k] =~= spec_merge(a, spec_merge(b, c))[k] by {
        assert(usage_set(spec_merge(a, b), k) =~= usage_set(a, k).union(usage_set(b, k)));
        assert(usage_set(spec_merge(b, c), k) =~= usage_set(b, k).union(usage_set(c, k)));
    }
    assert(spec_merge(spec_merge(a, b), c) =~~= spec_merge(a, spec_merge(b, c)));
}

/// The empty index is the unit of merging: merging with it changes nothing.
pub proof fn lemma_merge_identity(a: Map<Seq<char>, Set<(Seq<char>, Seq<char>)>>)
    ensures
        spec_merge(a, Map::<Seq<char>, Set<(Seq<char>, Seq<char>)>>::empty()) == a,
        spec_merge(Map::<Seq<char>, Set<(Seq<char>, Seq<char>)>>::empty(), a) == a,
{
    assert(spec_merge(a, Map::<Seq<char>, Set<(Seq<char>, Seq<char>)>>::empty()) =~~= a);
    assert(spec_merge(Map::<Seq<char>, Set<(Seq<char>, Seq<char>)>>::empty(), a) =~~= a);
}

/// Merging an index with itself yields itself: re-merging the same partial
/// result introduces no duplicate usages.
pub proof fn lemma_merge_idempotent(a: Map<Seq<char>, Set<(Seq<char>, Seq<char>)>>)
    ensures
        spec_merge(a, a) == a,
{
    assert(spec_merge(a, a) =~~= a);
}

/// A participant named in no partial index is named nowhere in their merge:
/// a branch that contributed nothing stays absent from the final index.
pub proof fn lemma_merge_preserves_absence(
    a: Map<Seq<char>, Set<(Seq<char>, Seq<char>)>>,
    b: Map<Seq<char>, Set<(Seq<char>, Seq<char>)>>,
    bus: Seq<char>,
)
    requires
        !has_participant(a, bus),
        !has_participant(b, bus),
    ensures
        !has_participant(spec_merge(a, b), bus),
{
    let m = spec_merge(a, b);
    if has_participant(m, bus) {
        let (k, p) = choose|k: Seq<char>, p: (Seq<char>, Seq<char>)|
            m.contains_key(k) && (#[trigger] m[k].contains(p)) && p.0 == bus;
        assert(m[k].contains(p));
        assert(usage_set(a, k).contains(p) || usage_set(b, k).contains(p));
        if usage_set(a, k).contains(p) {
            assert(a.contains_key(k) && a[k].contains(p) && p.0 == bus);
        } else {
            assert(b.contains_key(k) && b[k].contains(p) && p.0 == bus);
        }
    }
}

impl Default for InterfaceUses {
    fn default() -> (r: InterfaceUses)
        ensures
            r.wf(),
            r@ == Set::<(Seq<char>, Seq<char>)>::empty(),
    {
        InterfaceUses::new()
    }
}

/// The map an entry sequence stands for, later entries shadowing earlier
/// ones (well-formed sequences have no two entries under one key).
spec fn entries_map(s: Seq<(String, InterfaceUses)>) -> Map<
    Seq<char>,
    Set<(Seq<char>, Seq<char>)>,
>
    decreases s.len(),
{
    if s.len() == 0 {
        Map::empty()
    } else {
        entries_map(s.drop_last()).insert(s.last().0@, s.last().1@)
    }
}

/// Distinct keys, and a well-formed usage set under each.
spec fn entries_wf(s: Seq<(String, InterfaceUses)>) -> bool {
    &&& forall|i: int, j: int|
        #![trigger s[i], s[j]]
        0 <= i < s.len() && 0 <= j < s.len() && i != j ==> s[i].0@ != s[j].0@
    &&& forall|i: int| 0 <= i < s.len() ==> (#[trigger] s[i]).1.wf()
}

/// Some entry of `s` carries key `k`.
spec fn seq_has_key(s: Seq<(String, InterfaceUses)>, k: Seq<char>) -> bool {
    exists|i: int| 0 <= i < s.len() && (#[trigger] s[i]).0@ == k
}

/// The map a well-formed entry sequence stands for has exactly the keys of
/// its entries, each mapped to that entry's usage set.
proof fn lemma_entries_map_characterize(s: Seq<(String, InterfaceUses)>)
    requires
        entries_wf(s),
    ensures
        forall|k: Seq<char>| #[trigger] entries_map(s).contains_key(k) == seq_has_key(s, k),
        forall|i: int|
            0 <= i < s.len() ==> entries_map(s)[(#[trigger] s[i]).0@] == s[i].1@,
    decreases s.len(),
{
    if s.len() > 0 {
        let t = s.drop_last();
        assert(entries_wf(t));
        lemma_entries_map_characterize(t);
        assert forall|k: Seq<char>| #[trigger] entries_map(s).contains_key(k) == seq_has_key(
            s,
            k,
        ) by {
            if entries_map(s).contains_key(k) {
                if k == s.last().0@ {
                    assert((#[trigger] s[s.len() - 1]).0@ == k);
                } else {
                    assert(entries_map(t).contains_key(k));
                    assert(seq_has_key(t, k));
                    let i = choose|i: int| 0 <= i < t.len() && (#[trigger] t[i]).0@ == k;
                    assert(s[i].0@ == k);
                }
            }
            if seq_has_key(s, k) {
                let i = choose|i: int| 0 <= i < s.len() && (#[trigger] s[i]).0@ == k;
                if i < s.len() - 1 {
                    assert(t[i].0@ == k);
                    assert(seq_has_key(t, k));
                }
            }
        }
        assert forall|i: int| 0 <= i < s.len() implies entries_map(s)[(#[trigger] s[i]).0@]
            == s[i].1@ by {
            if i < s.len() - 1 {
                assert(t[i] == s[i]);
                assert(s[i].0@ != s[s.len() - 1].0@);
                assert(entries_map(t)[s[i].0@] == s[i].1@);
            }
        }
    }
}

/// The accumulator: a mapping from interface name to the set of
/// (participant, location) pairs that expose it.
pub struct UsageIndex {
    entries: Vec<(String, InterfaceUses)>,
}

impl UsageIndex {
    /// The mapping this index stands for.
    pub closed spec fn view(&self) -> Map<Seq<char>, Set<(Seq<char>, Seq<char>)>> {
        entries_map(self.entries@)
    }

    pub closed spec fn wf(&self) -> bool {
        entries_wf(self.entries@)
    }

    /// The empty index.
    pub fn new() -> (r: UsageIndex)
        ensures
            r.wf(),
            r@ == Map::<Seq<char>, Set<(Seq<char>, Seq<char>)>>::empty(),
    {
        UsageIndex { entries: Vec::new() }
    }

    /// The position of the entry keyed `key`, if one exists.
    fn find_key(&self, key: &String) -> (r: Option<usize>)
        ensures
            r matches Some(i) ==> i < self.entries@.len() && self.entries@[i as int].0@ == key@,
            r is None ==> forall|j: int|
                0 <= j < self.entries@.len() ==> (#[trigger] self.entries@[j]).0@ != key@,
    {
        let n = self.entries.len();
        let mut i: usize = 0;
        while i < n
            invariant
                n == self.entries@.len(),
                i <= n,
                forall|j: int| 0 <= j < i ==> (#[trigger] self.entries@[j]).0@ != key@,
            decreases n - i,
        {
            if self.entries[i].0 == *key {
                return Some(i);
            }
            i = i + 1;
        }
        None
    }

    /// Whether the index has an entry for the given interface name.
    pub fn contains_interface(&self, interface: &String) -> (r: bool)
        requires
            self.wf(),
        ensures
            r == self@.contains_key(interface@),
    {
        proof {
            lemma_entries_map_characterize(self.entries@);
        }
        match self.find_key(interface) {
            Some(i) => {
                assert(seq_has_key(self.entries@, interface@));
                true
            },
            None => {
                assert(!seq_has_key(self.entries@, interface@));
                false
            },
        }
    }

    /// The usage set recorded for the given interface name, if any.
    pub fn get(&self, interface: &String) -> (r: Option<&InterfaceUses>)
        requires
            self.wf(),
        ensures
            r is Some <==> self@.contains_key(interface@),
            r matches Some(u) ==> u@ == self@[interface@] && u.wf(),
    {
        proof {
            lemma_entries_map_characterize(self.entries@);
        }
        match self.find_key(interface) {
            Some(i) => {
                assert(seq_has_key(self.entries@, interface@));
                Some(&self.entries[i].1)
            },
            None => {
                assert(!seq_has_key(self.entries@, interface@));
                None
            },
        }
    }

    /// How many interface names the index has entries for.
    pub fn len(&self) -> (r: usize)
        requires
            self.wf(),
        ensures
            r == self@.dom().len(),
    {
        proof {
            lemma_entries_map_dom_len(self.entries@);
        }
        self.entries.len()
    }

    /// Join the uses in `uses` into the entry keyed `key`, creating the
    /// entry if it is absent.
    fn merge_into(&mut self, key: String, uses: InterfaceUses)
        requires
            old(self).wf(),
            uses.wf(),
        ensures
            final(self).wf(),
            final(self)@ == spec_add_uses(old(self)@, key@, uses@),
    {
        proof {
            lemma_entries_map_characterize(old(self).entries@);
        }
        match self.find_key(&key) {
            None => {
                assert(!seq_has_key(self.entries@, key@));
                let ghost s0 = self.entries@;
                self.entries.push((key, uses));
                proof {
                    assert(self.entries@.drop_last() =~= s0);
                    assert(entries_map(self.entries@) == entries_map(s0).insert(key@, uses@));
                    assert(!entries_map(s0).contains_key(key@));
                    assert(usage_set(entries_map(s0), key@).union(uses@) =~= uses@);
                    assert(entries_wf(self.entries@));
                }
            },
            Some(i) => {
                let ghost s0 = self.entries@;
                let ghost m0 = entries_map(s0);
                let mut e = self.entries.remove(i);
                let ghost s1 = self.entries@;
                e.1.merge(uses);
                let ghost merged = e.1@;
                self.entries.push(e);
                proof {
                    let s2 = self.entries@;
                    assert(m0.contains_key(key@));
                    assert(m0[key@] == s0[i as int].1@);
                    assert(merged =~= m0[key@].union(uses@));
                    // the removed sequence keeps well-formedness: its
                    // entries are entries of s0
                    assert forall|a: int, b: int|
                        #![trigger s1[a], s1[b]]
                        0 <= a < s1.len() && 0 <= b < s1.len() && a != b implies s1[a].0@
                        != s1[b].0@ by {
                        let a0: int = if a < i { a } else { a + 1 };
                        let b0: int = if b < i { b } else { b + 1 };
                        assert(s1[a] == s0[a0]);
                        assert(s1[b] == s0[b0]);
                    }
                    assert forall|a: int| 0 <= a < s1.len() implies (#[trigger] s1[a]).1.wf() by {
                        let a0: int = if a < i { a } else { a + 1 };
                        assert(s1[a] == s0[a0]);
                    }
                    assert(entries_wf(s1));
                    // no entry of the removed sequence carries the key
                    assert forall|a: int| 0 <= a < s1.len() implies (#[trigger] s1[a]).0@
                        != key@ by {
                        let a0: int = if a < i { a } else { a + 1 };
                        assert(s1[a] == s0[a0]);
                        assert(s0[a0].0@ != s0[i as int].0@);
                    }
                    lemma_entries_map_characterize(s1);
                    assert(s2.drop_last() =~= s1);
                    assert(entries_map(s2) == entries_map(s1).insert(key@, merged));
                    assert(entries_wf(s2));
                    // pointwise: the new map is the old one with `key`
                    // rebound to the joined set
                    assert forall|k: Seq<char>| #[trigger] entries_map(s2).contains_key(
                        k,
                    ) implies spec_add_uses(m0, key@, uses@).contains_key(k) && entries_map(s2)[k]
                        == spec_add_uses(m0, key@, uses@)[k] by {
                        if k == key@ {
                        } else {
                            assert(entries_map(s1).contains_key(k));
                            assert(seq_has_key(s1, k));
                            let a = choose|a: int| 0 <= a < s1.len() && (#[trigger] s1[a]).0@ == k;
                            let a0: int = if a < i { a } else { a + 1 };
                            assert(s1[a] == s0[a0]);
                            assert(seq_has_key(s0, k));
                            assert(entries_map(s1)[k] == s1[a].1@);
                            lemma_entries_map_characterize(s0);
                            assert(m0[k] == s0[a0].1@);
                        }
                    }
                    assert forall|k: Seq<char>| #[trigger] spec_add_uses(m0, key@, uses@)
                        .contains_key(k) implies entries_map(s2).contains_key(k) by {
                        if k == key@ {
                        } else {
                            assert(m0.contains_key(k));
                            assert(seq_has_key(s0, k));
                            let a0 = choose|a0: int|
                                0 <= a0 < s0.len() && (#[trigger] s0[a0]).0@ == k;
                            assert(a0 != i);
                            let a: int = if a0 < i {
                                a0
                            } else {
                                a0 - 1
                            };
                            assert(s1[a] == s0[a0]);
                            assert(seq_has_key(s1, k));
                        }
                    }
                    assert(entries_map(s2) =~= spec_add_uses(m0, key@, uses@));
                }
            },
        }
    }

    /// Record one usage under the given interface name.
    pub fn insert(&mut self, interface: String, usage: InterfaceUse)
        requires
            old(self).wf(),
            usage.wf(),
        ensures
            final(self).wf(),
            final(self)@ == spec_record(old(self)@, interface@, usage@),
    {
        let mut us = InterfaceUses::new();
        let ghost uv = usage@;
        us.insert(usage);
        proof {
            assert(us@ =~= Set::<(Seq<char>, Seq<char>)>::empty().insert(uv));
        }
        self.merge_into(interface, us);
        proof {
            assert(usage_set(old(self)@, interface@).union(us@) =~= usage_set(
                old(self)@,
                interface@,
            ).insert(uv));
        }
    }

    /// Union every entry of the other index into this one.
    pub fn merge(&mut self, other: UsageIndex)
        requires
            old(self).wf(),
            other.wf(),
        ensures
            final(self).wf(),
            final(self)@ == spec_merge(old(self)@, other@),
    {
        let UsageIndex { entries: mut rest } = other;
        let ghost goal = spec_merge(old(self)@, entries_map(rest@));
        while rest.len() > 0
            invariant
                self.wf(),
                entries_wf(rest@),
                spec_merge(self@, entries_map(rest@)) == goal,
            decreases rest@.len(),
        {
            let ghost r0 = rest@;
            let e = rest.remove(0);
            proof {
                assert(rest@ =~= r0.skip(1));
                assert forall|a: int, b: int|
                    #![trigger rest@[a], rest@[b]]
                    0 <= a < rest@.len() && 0 <= b < rest@.len() && a != b implies rest@[a].0@
                    != rest@[b].0@ by {
                    assert(rest@[a] == r0[a + 1]);
                    assert(rest@[b] == r0[b + 1]);
                }
                assert forall|a: int| 0 <= a < rest@.len() implies (#[trigger] rest@[a]).1.wf() by {
                    assert(rest@[a] == r0[a + 1]);
                }
                assert(entries_wf(rest@));
                assert((#[trigger] r0[0]).1.wf());
                // the key removed from the front occurs nowhere in the rest
                assert forall|a: int| 0 <= a < rest@.len() implies (#[trigger] rest@[a]).0@
                    != e.0@ by {
                    assert(rest@[a] == r0[a + 1]);
                    assert(r0[a + 1].0@ != r0[0].0@);
                }
                lemma_entries_map_characterize(rest@);
                assert(!entries_map(rest@).contains_key(e.0@));
                lemma_entries_map_cons(r0);
                lemma_merge_step(self@, entries_map(rest@), e.0@, e.1@);
            }
            self.merge_into(e.0, e.1);
        }
        proof {
            assert(entries_map(rest@) =~= Map::<Seq<char>, Set<(Seq<char>, Seq<char>)>>::empty());
            lemma_merge_identity(self@);
        }
    }
}

/// Peeling the front entry off a well-formed sequence: the map is the rest's
/// map with the front entry bound.
proof fn lemma_entries_map_cons(s: Seq<(String, InterfaceUses)>)
    requires
        entries_wf(s),
        s.len() > 0,
    ensures
        entries_map(s) == entries_map(s.skip(1)).insert(s[0].0@, s[0].1@),
{
    let t = s.skip(1);
    assert forall|a: int, b: int|
        #![trigger t[a], t[b]]
        0 <= a < t.len() && 0 <= b < t.len() && a != b implies t[a].0@ != t[b].0@ by {
        assert(t[a] == s[a + 1]);
        assert(t[b] == s[b + 1]);
    }
    assert forall|a: int| 0 <= a < t.len() implies (#[trigger] t[a]).1.wf() by {
        assert(t[a] == s[a + 1]);
    }
    assert(entries_wf(t));
    lemma_entries_map_characterize(s);
    lemma_entries_map_characterize(t);
    let lhs = entries_map(s);
    let rhs = entries_map(t).insert(s[0].0@, s[0].1@);
    assert forall|k: Seq<char>| #[trigger] lhs.contains_key(k) implies rhs.contains_key(k)
        && lhs[k] == rhs[k] by {
        let i = choose|i: int| 0 <= i < s.len() && (#[trigger] s[i]).0@ == k;
        if i == 0 {
            assert(lhs[k] == s[0].1@);
        } else {
            assert(t[i - 1] == s[i]);
            assert(seq_has_key(t, k));
            assert(entries_map(t)[k] == t[i - 1].1@);
            assert(lhs[k] == s[i].1@);
            assert(s[i].0@ != s[0].0@);
        }
    }
    assert forall|k: Seq<char>| #[trigger] rhs.contains_key(k) implies lhs.contains_key(k) by {
        if k == s[0].0@ {
            assert((#[trigger] s[0]).0@ == k);
            assert(seq_has_key(s, k));
        } else {
            assert(entries_map(t).contains_key(k));
            let a = choose|a: int| 0 <= a < t.len() && (#[trigger] t[a]).0@ == k;
            assert(t[a] == s[a + 1]);
            assert(seq_has_key(s, k));
        }
    }
    assert(lhs =~= rhs);
}

/// Joining one key's uses into the left side of a merge is the same as
/// binding that key on the right side, provided the right side does not
/// carry the key.
proof fn lemma_merge_step(
    m: Map<Seq<char>, Set<(Seq<char>, Seq<char>)>>,
    m2: Map<Seq<char>, Set<(Seq<char>, Seq<char>)>>,
    k: Seq<char>,
    u: Set<(Seq<char>, Seq<char>)>,
)
    requires
        !m2.contains_key(k),
    ensures
        spec_merge(spec_add_uses(m, k, u), m2) == spec_merge(m, m2.insert(k, u)),
{
    let lhs = spec_merge(spec_add_uses(m, k, u), m2);
    let rhs = spec_merge(m, m2.insert(k, u));
    assert forall|k2: Seq<char>| #[trigger] lhs.contains_key(k2) implies lhs[k2] =~= rhs[k2] by {
        if k2 == k {
            assert(usage_set(m2, k) =~= Set::<(Seq<char>, Seq<char>)>::empty());
        }
    }
    assert(lhs =~~= rhs);
}

/// A well-formed entry sequence has as many entries as its map has keys.
proof fn lemma_entries_map_dom_len(s: Seq<(String, InterfaceUses)>)
    requires
        entries_wf(s),
    ensures
        entries_map(s).dom().len() == s.len(),
        entries_map(s).dom().finite(),
    decreases s.len(),
{
    if s.len() > 0 {
        let t = s.drop_last();
        assert(entries_wf(t));
        lemma_entries_map_dom_len(t);
        lemma_entries_map_characterize(t);
        assert forall|a: int| 0 <= a < t.len() implies (#[trigger] t[a]).0@ != s.last().0@ by {
            assert(t[a] == s[a]);
            assert(s[a].0@ != s[s.len() - 1].0@);
        }
        assert(!seq_has_key(t, s.last().0@));
        assert(!entries_map(t).contains_key(s.last().0@));
        assert(entries_map(s).dom() =~= entries_map(t).dom().insert(s.last().0@));
    } else {
        assert(entries_map(s).dom() =~= Set::<Seq<char>>::empty());
    }
}

} // verus!
