//! The per-node step of the recursive crawler.
//!
//! A crawl of one (participant, location) pair fetches that location's
//! descriptor, records one usage per declared interface, and derives the
//! child locations to crawl next.  The fetch itself is bus I/O and happens
//! outside this crate; this step takes the fetch outcome as a value, so a
//! failed or timed-out fetch is an empty contribution by construction.

use crate::descriptor::{parse_descriptor, parsed_descriptor, NodeDescriptor};
use crate::index::{has_participant, spec_record, usage_set, InterfaceUse, UsageIndex};
use crate::location::{is_valid_segment, spec_child_location, ObjectLocation};
use vstd::prelude::*;

verus! {

/// The index fragment one visited node contributes: each interface name it
/// declares, mapped to the single usage at this (participant, location).
pub open spec fn spec_fragment(bus: Seq<char>, loc: Seq<char>, interfaces: Seq<Seq<char>>) -> Map<
    Seq<char>,
    Set<(Seq<char>, Seq<char>)>,
> {
    Map::new(
        |k: Seq<char>| interfaces.contains(k),
        |k: Seq<char>| Set::<(Seq<char>, Seq<char>)>::empty().insert((bus, loc)),
    )
}

/// The child locations a node's descriptor leads to: one normalized
/// concatenation per named child whose segment validates, in order;
/// nameless children and malformed segments are skipped.
pub open spec fn spec_valid_children(
    parent: Seq<char>,
    children: Seq<Option<Seq<char>>>,
) -> Seq<Seq<char>>
    decreases children.len(),
{
    if children.len() == 0 {
        Seq::empty()
    } else {
        let init = spec_valid_children(parent, children.drop_last());
        match children.last() {
            Option::Some(seg) => if is_valid_segment(seg) {
                init.push(spec_child_location(parent, seg))
            } else {
                init
            },
            Option::None => init,
        }
    }
}

/// Recording a node's usage under one more interface name extends the
/// fragment by that name.
proof fn lemma_fragment_step(bus: Seq<char>, loc: Seq<char>, s: Seq<Seq<char>>, k: Seq<char>)
    ensures
        spec_record(spec_fragment(bus, loc, s), k, (bus, loc)) == spec_fragment(
            bus,
            loc,
            s.push(k),
        ),
{
    let lhs = spec_record(spec_fragment(bus, loc, s), k, (bus, loc));
    let rhs = spec_fragment(bus, loc, s.push(k));
    assert forall|k2: Seq<char>| #[trigger] lhs.contains_key(k2) implies rhs.contains_key(k2) by {
        if k2 == k {
            assert(s.push(k)[s.len() as int] == k);
            assert(s.push(k).contains(k));
        } else {
            let i = choose|i: int| 0 <= i < s.len() && s[i] == k2;
            assert(s.push(k)[i] == k2);
            assert(s.push(k).contains(k2));
        }
    }
    assert forall|k2: Seq<char>| #[trigger] rhs.contains_key(k2) implies lhs.contains_key(k2) by {
        if k2 != k {
            let i = choose|i: int| 0 <= i < s.push(k).len() && s.push(k)[i] == k2;
            assert(s[i] == k2);
            assert(s.contains(k2));
        }
    }
    assert forall|k2: Seq<char>| #[trigger] lhs.contains_key(k2) implies lhs[k2] =~= rhs[k2] by {
        if k2 == k {
            if spec_fragment(bus, loc, s).contains_key(k) {
                assert(usage_set(spec_fragment(bus, loc, s), k) == Set::<
                    (Seq<char>, Seq<char>),
                >::empty().insert((bus, loc)));
            } else {
                assert(usage_set(spec_fragment(bus, loc, s), k) == Set::<
                    (Seq<char>, Seq<char>),
                >::empty());
            }
        }
    }
    assert(lhs =~~= rhs);
}

/// A node's fragment attributes usages to its own participant alone, so no
/// crawl branch can attribute a usage to a participant whose own branches
/// all failed.
pub proof fn lemma_fragment_names_only_its_participant(
    bus: Seq<char>,
    loc: Seq<char>,
    interfaces: Seq<Seq<char>>,
    other: Seq<char>,
)
    requires
        other != bus,
    ensures
        !has_participant(spec_fragment(bus, loc, interfaces), other),
{
    let m = spec_fragment(bus, loc, interfaces);
    if has_participant(m, other) {
        let (k, p) = choose|k: Seq<char>, p: (Seq<char>, Seq<char>)|
            m.contains_key(k) && (#[trigger] m[k].contains(p)) && p.0 == other;
        assert(m[k].contains(p));
        assert(p == (bus, loc));
    }
}

/// What one crawl visit yields: this node's index fragment and the child
/// locations to crawl next.
pub struct CrawlStep {
    pub index: UsageIndex,
    pub children: Vec<ObjectLocation>,
}

/// Process the outcome of fetching one node's descriptor.
///
/// A failed fetch (`None`) or a malformed document contributes an empty
/// index and no children — the error is absorbed at this branch.  A parsed
/// descriptor contributes one usage per declared interface at this exact
/// (participant, location), and one child location per named child whose
/// segment validates.
pub fn crawl_step(bus: &str, location: &ObjectLocation, fetched: Option<&str>) -> (r: CrawlStep)
    requires
        location.wf(),
    ensures
        r.index.wf(),
        forall|i: int| 0 <= i < r.children@.len() ==> (#[trigger] r.children@[i]).wf(),
        match fetched {
            Option::None => r.index@ == Map::<Seq<char>, Set<(Seq<char>, Seq<char>)>>::empty()
                && r.children@.len() == 0,
            Option::Some(xml) => match parsed_descriptor(xml@) {
                Option::None => r.index@ == Map::<
                    Seq<char>,
                    Set<(Seq<char>, Seq<char>)>,
                >::empty() && r.children@.len() == 0,
                Option::Some(d) => r.index@ == spec_fragment(bus@, location@, d.interfaces)
                    && r.children@.map_values(|c: ObjectLocation| c@) == spec_valid_children(
                    location@,
                    d.children,
                ),
            },
        },
{
    let xml = match fetched {
        None => {
            return CrawlStep { index: UsageIndex::new(), children: Vec::new() };
        },
        Some(xml) => xml,
    };
    let d: NodeDescriptor = match parse_descriptor(xml) {
        None => {
            return CrawlStep { index: UsageIndex::new(), children: Vec::new() };
        },
        Some(d) => d,
    };
    let mut idx = UsageIndex::new();
    let n = d.interfaces.len();
    let mut i: usize = 0;
    proof {
        assert(d@.interfaces.take(0) =~= Seq::<Seq<char>>::empty());
        assert(idx@ =~~= spec_fragment(bus@, location@, d@.interfaces.take(0)));
    }
    while i < n
        invariant
            location.wf(),
            idx.wf(),
            n == d.interfaces@.len(),
            i <= n,
            idx@ == spec_fragment(bus@, location@, d@.interfaces.take(i as int)),
        decreases n - i,
    {
        let name = d.interfaces[i].clone();
        let usage = InterfaceUse::new(String::from_str(bus), location.duplicate());
        idx.insert(name, usage);
        proof {
            assert(d@.interfaces[i as int] == name@);
            lemma_fragment_step(bus@, location@, d@.interfaces.take(i as int), name@);
            assert(d@.interfaces.take(i + 1) =~= d@.interfaces.take(i as int).push(name@));
        }
        i = i + 1;
    }
    proof {
        assert(d@.interfaces.take(n as int) =~= d@.interfaces);
    }
    let mut children: Vec<ObjectLocation> = Vec::new();
    let m = d.children.len();
    let mut j: usize = 0;
    proof {
        assert(d@.children.take(0) =~= Seq::<Option<Seq<char>>>::empty());
        assert(children@.map_values(|c: ObjectLocation| c@) =~= spec_valid_children(
            location@,
            d@.children.take(0),
        ));
    }
    while j < m
        invariant
            location.wf(),
            m == d.children@.len(),
            j <= m,
            forall|a: int| 0 <= a < children@.len() ==> (#[trigger] children@[a]).wf(),
            children@.map_values(|c: ObjectLocation| c@) == spec_valid_children(
                location@,
                d@.children.take(j as int),
            ),
        decreases m - j,
    {
        match &d.children[j] {
            Some(name) => {
                match location.child(name.as_str()) {
                    Some(c) => {
                        children.push(c);
                    },
                    None => {
                    },
                }
            },
            None => {
            },
        }
        proof {
            let taken = d@.children.take(j as int);
            assert(d@.children.take(j + 1) =~= taken.push(d@.children[j as int]));
            assert(d@.children.take(j + 1).drop_last() =~= taken);
            assert(children@.map_values(|c: ObjectLocation| c@) =~= spec_valid_children(
                location@,
                d@.children.take(j + 1),
            ));
        }
        j = j + 1;
    }
    proof {
        assert(d@.children.take(m as int) =~= d@.children);
    }
    CrawlStep { index: idx, children }
}

} // verus!
