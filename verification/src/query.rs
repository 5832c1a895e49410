//! The query endpoint's single operation: a purely syntactic transform from
//! an interface name to a location, replacing each dot with a slash and
//! prefixing the root separator.  It does not consult the built usage
//! index.

use crate::text::string_from_chars;
use vstd::prelude::*;

verus! {

/// Each dot of the interface name replaced by a slash, behind a leading
/// root separator.
pub open spec fn spec_query_path(s: Seq<char>) -> Seq<char> {
    seq!['/'] + s.map_values(
        (|c: char|
            if c == '.' {
                '/'
            } else {
                c
            }),
    )
}

/// The query service other bus participants call.
pub struct DRoute;

impl DRoute {
    /// Transform a dot-separated interface name into a slash-separated
    /// location, regardless of whether any participant exposes that
    /// interface.
    pub fn query_interface(&self, interface: &str) -> (r: String)
        ensures
            r@ == spec_query_path(interface@),
    {
        let n = interface.unicode_len();
        let mut out: Vec<char> = Vec::new();
        out.push('/');
        let mut i: usize = 0;
        proof {
            assert(out@ =~= seq!['/'] + interface@.take(0).map_values(
                (|c: char|
                    if c == '.' {
                        '/'
                    } else {
                        c
                    }),
            ));
        }
        while i < n
            invariant
                n == interface@.len(),
                i <= n,
                out@ == seq!['/'] + interface@.take(i as int).map_values(
                    (|c: char|
                        if c == '.' {
                            '/'
                        } else {
                            c
                        }),
                ),
            decreases n - i,
        {
            let c = interface.get_char(i);
            if c == '.' {
                out.push('/');
            } else {
                out.push(c);
            }
            proof {
                let f = (|c: char|
                    if c == '.' {
                        '/'
                    } else {
                        c
                    });
                assert(interface@.take(i + 1) =~= interface@.take(i as int).push(
                    interface@[i as int],
                ));
                assert(out@ =~= seq!['/'] + interface@.take(i + 1).map_values(f));
            }
            i = i + 1;
        }
        proof {
            assert(interface@.take(n as int) =~= interface@);
        }
        string_from_chars(&out)
    }
}

} // verus!
