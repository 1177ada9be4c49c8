//! The markup front end of the descriptor parser. The one outside call of
//! the library is made here: roxmltree turns the descriptor text into its
//! nodes, and everything after that point is verified against the name
//! `doc_nodes` given to that call's result.

use vstd::prelude::*;

verus! {

/// One node of a parsed document: its tag name (empty for non-element
/// nodes) and its attributes as (name, value) pairs, in document order.
pub struct RawNode {
    pub tag: String,
    pub attrs: Vec<(String, String)>,
}

impl View for RawNode {
    type V = (Seq<char>, Seq<(Seq<char>, Seq<char>)>);

    open spec fn view(&self) -> Self::V {
        (self.tag@, self.attrs.deep_view())
    }
}

impl DeepView for RawNode {
    type V = (Seq<char>, Seq<(Seq<char>, Seq<char>)>);

    open spec fn deep_view(&self) -> Self::V {
        self.view()
    }
}

/// The nodes of the document that `text` spells, in document order, each as
/// its tag name and attribute (name, value) pairs; nothing when `text` is
/// not a well-formed document. What counts as well-formed, and the exact
/// node walk, belong to the markup library and are left unstated: every
/// contract of this crate speaks of the outcome through this name.
pub uninterp spec fn doc_nodes(text: Seq<char>) -> Option<Seq<(Seq<char>, Seq<(Seq<char>, Seq<char>)>)>>;

/// Relies on roxmltree: `Document::parse` accepts exactly the well-formed
/// documents, and `descendants` walks all nodes of the document tree in
/// document order. Each node is handed out as its local tag name
/// (`Node::tag_name`, the empty string for non-element nodes) and its
/// attribute (name, value) pairs (`Attribute::name`, `Attribute::value`).
#[verifier::external_body]
pub(crate) fn parse_document_nodes(text: &str) -> (r: Option<Vec<RawNode>>)
    ensures
        r is Some <==> doc_nodes(text@) is Some,
        r is Some ==> r->Some_0.deep_view() == doc_nodes(text@)->Some_0,
{
    match roxmltree::Document::parse(text) {
        Ok(doc) => Some(
            doc.descendants()
                .map(|n| RawNode {
                    tag: n.tag_name().name().to_string(),
                    attrs: n
                        .attributes()
                        .map(|a| (a.name().to_string(), a.value().to_string()))
                        .collect(),
                })
                .collect(),
        ),
        Err(_) => None,
    }
}

} // verus!
