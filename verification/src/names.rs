//! Filtering the bus directory: of all names the bus reports, keep only the
//! bus-assigned unique identities (they begin with `:`), so each physical
//! process appears exactly once regardless of how many aliases it owns.

use vstd::prelude::*;

verus! {

/// A bus-assigned unique identity, as opposed to a human-assigned alias:
/// unique connection names begin with a colon.
pub open spec fn is_unique_name(s: Seq<char>) -> bool {
    s.len() > 0 && s[0] == ':'
}

/// The subsequence of names that are unique identities, in order.
pub open spec fn spec_unique_names(names: Seq<Seq<char>>) -> Seq<Seq<char>>
    decreases names.len(),
{
    if names.len() == 0 {
        Seq::empty()
    } else {
        let init = spec_unique_names(names.drop_last());
        if is_unique_name(names.last()) {
            init.push(names.last())
        } else {
            init
        }
    }
}

/// Whether one name is a bus-assigned unique identity.
pub fn check_unique_name(name: &str) -> (r: bool)
    ensures
        r == is_unique_name(name@),
{
    if name.unicode_len() == 0 {
        return false;
    }
    name.get_char(0) == ':'
}

/// Keep only the unique identities among the reported names.
pub fn filter_unique_names(names: Vec<String>) -> (r: Vec<String>)
    ensures
        r@.map_values(|s: String| s@) == spec_unique_names(names@.map_values(|s: String| s@)),
{
    let n = names.len();
    let mut out: Vec<String> = Vec::new();
    let mut i: usize = 0;
    proof {
        assert(names@.map_values(|s: String| s@).take(0) =~= Seq::<Seq<char>>::empty());
        assert(out@.map_values(|s: String| s@) =~= spec_unique_names(
            names@.map_values(|s: String| s@).take(0),
        ));
    }
    while i < n
        invariant
            n == names@.len(),
            i <= n,
            out@.map_values(|s: String| s@) == spec_unique_names(
                names@.map_values(|s: String| s@).take(i as int),
            ),
        decreases n - i,
    {
        if check_unique_name(names[i].as_str()) {
            out.push(names[i].clone());
        }
        proof {
            let all = names@.map_values(|s: String| s@);
            assert(all.take(i + 1) =~= all.take(i as int).push(all[i as int]));
            assert(all.take(i + 1).drop_last() =~= all.take(i as int));
            assert(out@.map_values(|s: String| s@) =~= spec_unique_names(all.take(i + 1)));
        }
        i = i + 1;
    }
    proof {
        let all = names@.map_values(|s: String| s@);
        assert(all.take(n as int) =~= all);
    }
    out
}

} // verus!
