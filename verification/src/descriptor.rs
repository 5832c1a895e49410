//! Node descriptors: what one fetch of a (participant, location) pair
//! yields — the interface names declared at that location and the names of
//! its direct child nodes.
//!
//! The descriptor wire format is an external collaborator: an introspection
//! document is parsed by `zbus_xml`, and only the parsed names are handed
//! to the verified logic as plain values.

use vstd::prelude::*;

verus! {

/// The mathematical content of a parsed descriptor: the declared interface
/// names, and the name of each direct child node (a child element may lack
/// a name).
pub ghost struct NodeDescriptorView {
    pub interfaces: Seq<Seq<char>>,
    pub children: Seq<Option<Seq<char>>>,
}

/// What parsing an introspection document yields: `None` on a malformed
/// document, otherwise the declared interface names and child node names,
/// in document order.  The result is a function of the document text alone.
pub uninterp spec fn parsed_descriptor(xml: Seq<char>) -> Option<NodeDescriptorView>;

/// The result of fetching one (participant, location) pair: the interface
/// names declared at that exact location, and the segment names of the
/// direct children to recurse into.
pub struct NodeDescriptor {
    pub interfaces: Vec<String>,
    pub children: Vec<Option<String>>,
}

impl NodeDescriptor {
    pub open spec fn view(&self) -> NodeDescriptorView {
        NodeDescriptorView {
            interfaces: self.interfaces@.map_values(|s: String| s@),
            children: self.children@.map_values(
                (|c: Option<String>|
                    match c {
                        Option::Some(s) => Option::Some(s@),
                        Option::None => Option::None,
                    }),
            ),
        }
    }
}

/// Relies on `zbus_xml::Node::from_reader`: parsing an introspection
/// document either fails or yields a node whose declared interfaces and
/// child nodes are listed in document order; the outcome depends on the
/// document text alone.  The parsed names are handed over as plain strings.
#[verifier::external_body]
pub(crate) fn parse_descriptor(xml: &str) -> (r: Option<NodeDescriptor>)
    ensures
        r is Some <==> parsed_descriptor(xml@) is Some,
        r matches Some(d) ==> parsed_descriptor(xml@) matches Some(v) && d@ == v,
{
    let node = match zbus_xml::Node::from_reader(xml.as_bytes()) {
        Ok(n) => n,
        Err(_) => return None,
    };
    let interfaces = node.interfaces().iter().map(|i| i.name().as_str().to_string()).collect();
    let children = node.nodes().iter().map(|n| n.name().map(|s| s.to_string())).collect();
    Some(NodeDescriptor { interfaces, children })
}

} // verus!
