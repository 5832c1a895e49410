//! Hierarchical object locations within a bus participant's object tree.
//!
//! A location is a slash-delimited path rooted at `/`.  Child locations are
//! formed by appending a segment to a parent location; the concatenation is
//! normalized so that appending `x` to `/` yields `/x` and never `//x`.

use vstd::prelude::*;

verus! {

/// A character that may appear inside a location segment: ASCII letters,
/// digits and underscore.
pub open spec fn is_segment_char(c: char) -> bool {
    ||| ('A' as u32) <= (c as u32) && (c as u32) <= ('Z' as u32)
    ||| ('a' as u32) <= (c as u32) && (c as u32) <= ('z' as u32)
    ||| ('0' as u32) <= (c as u32) && (c as u32) <= ('9' as u32)
    ||| c == '_'
}

/// A valid segment is non-empty and made of segment characters only.
pub open spec fn is_valid_segment(s: Seq<char>) -> bool {
    &&& s.len() > 0
    &&& forall|i: int| 0 <= i < s.len() ==> is_segment_char(#[trigger] s[i])
}

/// A valid location starts with `/`, holds only segment characters and
/// separators, never two separators in a row, and does not end with a
/// separator unless it is the root `/` itself.
pub open spec fn is_valid_location(s: Seq<char>) -> bool {
    &&& s.len() >= 1
    &&& s[0] == '/'
    &&& forall|i: int| 1 <= i < s.len() ==> is_segment_char(#[trigger] s[i]) || s[i] == '/'
    &&& forall|i: int| 1 <= i < s.len() ==> !(s[i - 1] == '/' && (#[trigger] s[i]) == '/')
    &&& s.len() > 1 ==> s[s.len() - 1] != '/'
}

/// The normalized concatenation of a parent location and a child segment:
/// appending `x` to the root `/` yields `/x`; appending `b` to `/a` yields
/// `/a/b`.
pub open spec fn spec_child_location(parent: Seq<char>, segment: Seq<char>) -> Seq<char> {
    if parent.len() == 1 {
        parent + segment
    } else {
        parent + seq!['/'] + segment
    }
}

/// Normalized concatenation of a valid parent and a valid segment always
/// yields a valid location; in particular it never contains a double
/// separator.
pub proof fn lemma_child_location_valid(parent: Seq<char>, segment: Seq<char>)
    requires
        is_valid_location(parent),
        is_valid_segment(segment),
    ensures
        is_valid_location(spec_child_location(parent, segment)),
{
    let s = spec_child_location(parent, segment);
    if parent.len() == 1 {
        assert(s.len() == 1 + segment.len());
        assert(s[0] == parent[0]);
        assert forall|i: int| 1 <= i < s.len() implies is_segment_char(#[trigger] s[i])
            || s[i] == '/' by {
            assert(s[i] == segment[i - 1]);
        }
        assert forall|i: int| 1 <= i < s.len() implies !(s[i - 1] == '/' && (#[trigger] s[i])
            == '/') by {
            assert(s[i] == segment[i - 1]);
            assert(is_segment_char(segment[i - 1]));
        }
        assert(s[s.len() - 1] == segment[segment.len() - 1]);
        assert(is_segment_char(s[s.len() - 1]));
    } else {
        let pl = parent.len() as int;
        assert(s.len() == parent.len() + 1 + segment.len());
        assert(s[0] == parent[0]);
        assert forall|i: int| 1 <= i < s.len() implies is_segment_char(#[trigger] s[i])
            || s[i] == '/' by {
            if i < pl {
                assert(s[i] == parent[i]);
            } else if i == pl {
                assert(s[i] == '/');
            } else {
                assert(s[i] == segment[i - pl - 1]);
            }
        }
        assert forall|i: int| 1 <= i < s.len() implies !(s[i - 1] == '/' && (#[trigger] s[i])
            == '/') by {
            if i < pl {
                assert(s[i] == parent[i]);
                assert(s[i - 1] == parent[i - 1]);
            } else if i == pl {
                assert(s[i - 1] == parent[pl - 1]);
                assert(parent[pl - 1] != '/');
            } else if i == pl + 1 {
                assert(s[i] == segment[0]);
                assert(is_segment_char(segment[0]));
            } else {
                assert(s[i] == segment[i - pl - 1]);
                assert(is_segment_char(segment[i - pl - 1]));
            }
        }
        assert(s[s.len() - 1] == segment[segment.len() - 1]);
        assert(is_segment_char(s[s.len() - 1]));
    }
}

/// Whether a segment proposed by a peer may be appended to a location.
pub fn check_segment(segment: &str) -> (r: bool)
    ensures
        r == is_valid_segment(segment@),
{
    let n = segment.unicode_len();
    if n == 0 {
        return false;
    }
    let mut i: usize = 0;
    while i < n
        invariant
            n == segment@.len(),
            i <= n,
            forall|j: int| 0 <= j < i ==> is_segment_char(#[trigger] segment@[j]),
        decreases n - i,
    {
        let c = segment.get_char(i);
        let u = c as u32;
        let ok = (65 <= u && u <= 90) || (97 <= u && u <= 122) || (48 <= u && u <= 57) || c == '_';
        if !ok {
            assert(!is_segment_char(segment@[i as int]));
            return false;
        }
        i = i + 1;
    }
    true
}

/// A location within one participant's object tree: a slash-delimited path
/// rooted at `/`, kept valid by construction.
pub struct ObjectLocation {
    path: String,
}

impl ObjectLocation {
    /// The sequence of characters of the path.
    pub closed spec fn view(&self) -> Seq<char> {
        self.path@
    }

    /// Every location held by this type is a valid path.
    pub open spec fn wf(&self) -> bool {
        is_valid_location(self@)
    }

    /// The root location `/`.
    pub fn root() -> (r: ObjectLocation)
        ensures
            r.wf(),
            r@ == seq!['/'],
    {
        let p = String::from_str("/");
        proof {
            reveal_strlit("/");
            assert(p@ =~= seq!['/']);
        }
        ObjectLocation { path: p }
    }

    /// Validate an arbitrary path string; `Some` exactly on valid locations.
    pub fn new(path: String) -> (r: Option<ObjectLocation>)
        ensures
            r is Some <==> is_valid_location(path@),
            r matches Some(l) ==> l@ == path@ && l.wf(),
    {
        let n = path.as_str().unicode_len();
        if n == 0 {
            return None;
        }
        if path.as_str().get_char(0) != '/' {
            return None;
        }
        let mut i: usize = 1;
        while i < n
            invariant
                n == path@.len(),
                1 <= i <= n,
                path@[0] == '/',
                forall|j: int| 1 <= j < i ==> is_segment_char(#[trigger] path@[j]) || path@[j]
                    == '/',
                forall|j: int| 1 <= j < i ==> !(path@[j - 1] == '/' && (#[trigger] path@[j])
                    == '/'),
            decreases n - i,
        {
            let c = path.as_str().get_char(i);
            let u = c as u32;
            let seg_ok = (65 <= u && u <= 90) || (97 <= u && u <= 122) || (48 <= u && u <= 57)
                || c == '_';
            if !seg_ok && c != '/' {
                return None;
            }
            if c == '/' && path.as_str().get_char(i - 1) == '/' {
                return None;
            }
            i = i + 1;
        }
        if n > 1 && path.as_str().get_char(n - 1) == '/' {
            return None;
        }
        Some(ObjectLocation { path })
    }

    /// The path as a string slice.
    pub fn as_str(&self) -> (r: &str)
        ensures
            r@ == self@,
    {
        self.path.as_str()
    }

    /// A copy of this location.
    pub fn duplicate(&self) -> (r: ObjectLocation)
        ensures
            r@ == self@,
    {
        ObjectLocation { path: self.path.clone() }
    }

    /// The child of this location named by `segment`, formed by normalized
    /// concatenation; `None` exactly when the segment is malformed.
    pub fn child(&self, segment: &str) -> (r: Option<ObjectLocation>)
        requires
            self.wf(),
        ensures
            r is Some <==> is_valid_segment(segment@),
            r matches Some(c) ==> c@ == spec_child_location(self@, segment@) && c.wf(),
    {
        if !check_segment(segment) {
            return None;
        }
        let mut p = self.path.clone();
        if p.as_str().unicode_len() > 1 {
            p.append("/");
        }
        p.append(segment);
        proof {
            reveal_strlit("/");
            lemma_child_location_valid(self@, segment@);
            assert(p@ =~= spec_child_location(self@, segment@));
        }
        Some(ObjectLocation { path: p })
    }
}

impl PartialEq for ObjectLocation {
    fn eq(&self, other: &ObjectLocation) -> (r: bool) {
        self.path == other.path
    }
}

impl vstd::std_specs::cmp::PartialEqSpecImpl for ObjectLocation {
    open spec fn obeys_eq_spec() -> bool {
        true
    }

    open spec fn eq_spec(&self, other: &ObjectLocation) -> bool {
        self@ == other@
    }
}

impl Eq for ObjectLocation {

}

} // verus!
