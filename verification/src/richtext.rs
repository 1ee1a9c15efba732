//! The tracker's rich-text description trees and their linearization to
//! plain text with minimal structural hints.

use vstd::prelude::*;
use crate::text::trim;
use crate::text::trimmed;

verus! {

/// The node kinds that contribute structure of their own; every other kind
/// an upstream schema may add maps to `Unknown` and degrades gracefully.
#[derive(Clone, Copy, Debug)]
pub enum AdfNodeKind {
    Paragraph,
    BulletList,
    OrderedList,
    ListItem,
    Text,
    Unknown,
}

/// One node of a rich-text document tree: a kind, an optional literal text
/// payload, and the ordered child nodes.
pub struct JiraADFNode {
    pub node_type: AdfNodeKind,
    pub text: Option<String>,
    pub content: Vec<JiraADFNode>,
}

/// A rich-text document: the ordered top-level nodes.
pub struct JiraADF {
    pub content: Vec<JiraADFNode>,
}

/// The structural suffix a node appends after its children, determined
/// solely by its kind.
pub open spec fn structural_suffix(kind: AdfNodeKind) -> Seq<char> {
    match kind {
        AdfNodeKind::Paragraph => "\n\n"@,
        AdfNodeKind::BulletList => "\n"@,
        AdfNodeKind::OrderedList => "\n"@,
        AdfNodeKind::ListItem => "\n- "@,
        AdfNodeKind::Text => Seq::empty(),
        AdfNodeKind::Unknown => Seq::empty(),
    }
}

/// The literal text payload of a node, if any.
pub open spec fn spec_text_payload(node: JiraADFNode) -> Seq<char> {
    match node.text {
        Some(t) => t@,
        None => Seq::empty(),
    }
}

/// Text extracted from one node, depth-first and pre-order: its payload,
/// then its children, then its structural suffix.
pub open spec fn spec_extract_node(node: JiraADFNode) -> Seq<char>
    decreases node, 0int,
{
    spec_text_payload(node) + spec_extract_nodes(node.content@, 0) + structural_suffix(
        node.node_type,
    )
}

/// Text extracted from the nodes of `nodes` from index `i` on, concatenated
/// in document order.
pub open spec fn spec_extract_nodes(nodes: Seq<JiraADFNode>, i: int) -> Seq<char>
    decreases nodes, nodes.len() - i,
{
    if i < 0 || i >= nodes.len() {
        Seq::empty()
    } else {
        spec_extract_node(nodes[i]) + spec_extract_nodes(nodes, i + 1)
    }
}

/// Text extracted from a whole document: the accumulated walk, trimmed,
/// with the placeholder taking the place of an empty result.
pub open spec fn spec_extract_adf(adf: JiraADF) -> Seq<char> {
    let acc = trimmed(spec_extract_nodes(adf.content@, 0));
    if acc.len() == 0 {
        "No description provided."@
    } else {
        acc
    }
}

/// Extraction of an optional document: an absent description yields the
/// placeholder.
pub open spec fn spec_extract_description(desc: Option<JiraADF>) -> Seq<char> {
    match desc {
        Some(adf) => spec_extract_adf(adf),
        None => "No description provided."@,
    }
}

/// Appends to `out` the text extracted from `node`: its payload, its
/// children in order, and the structural suffix of its kind.
pub fn extract_text_from_node(node: &JiraADFNode, out: &mut String)
    ensures
        final(out)@ == old(out)@ + spec_extract_node(*node),
    decreases *node, 0int,
{
    match &node.text {
        Some(t) => out.append(t.as_str()),
        None => {},
    }
    let n = node.content.len();
    let mut j: usize = 0;
    while j < n
        invariant
            n == node.content@.len(),
            0 <= j <= n,
            out@ + spec_extract_nodes(node.content@, j as int) == old(out)@ + spec_text_payload(
                *node,
            ) + spec_extract_nodes(node.content@, 0),
        decreases n - j,
    {
        proof {
            assert(decreases_to!(*node, 0int => node.content@[j as int], 0int));
        }
        extract_text_from_node(&node.content[j], out);
        proof {
            assert(out@ + spec_extract_nodes(node.content@, j + 1) == old(out)@
                + spec_text_payload(*node) + spec_extract_nodes(node.content@, 0)) by {
                assert(spec_extract_nodes(node.content@, j as int) == spec_extract_node(
                    node.content@[j as int],
                ) + spec_extract_nodes(node.content@, j + 1));
            }
        }
        j += 1;
    }
    match node.node_type {
        AdfNodeKind::Paragraph => out.append("\n\n"),
        AdfNodeKind::BulletList => out.append("\n"),
        AdfNodeKind::OrderedList => out.append("\n"),
        AdfNodeKind::ListItem => out.append("\n- "),
        AdfNodeKind::Text => {},
        AdfNodeKind::Unknown => {},
    }
}

/// Extracts the full text of a rich-text document, trimmed, falling back
/// to the placeholder when nothing remains. The result is never empty.
pub fn extract_text_from_adf(adf: &JiraADF) -> (r: String)
    ensures
        r@ == spec_extract_adf(*adf),
        r@.len() > 0,
{
    let mut acc = String::new();
    let n = adf.content.len();
    let mut j: usize = 0;
    while j < n
        invariant
            n == adf.content@.len(),
            0 <= j <= n,
            acc@ + spec_extract_nodes(adf.content@, j as int) == spec_extract_nodes(
                adf.content@,
                0,
            ),
        decreases n - j,
    {
        extract_text_from_node(&adf.content[j], &mut acc);
        proof {
            assert(acc@ + spec_extract_nodes(adf.content@, j + 1) == spec_extract_nodes(
                adf.content@,
                0,
            )) by {
                assert(spec_extract_nodes(adf.content@, j as int) == spec_extract_node(
                    adf.content@[j as int],
                ) + spec_extract_nodes(adf.content@, j + 1));
            }
        }
        j += 1;
    }
    let t = trim(acc.as_str());
    if t.as_str().is_empty() {
        proof {
            reveal_strlit("No description provided.");
        }
        String::from_str("No description provided.")
    } else {
        t
    }
}

/// Extracts the Markdown-ready text of an optional description; an absent
/// tree yields the placeholder. The result is never empty.
pub fn extract_description(desc: Option<&JiraADF>) -> (r: String)
    ensures
        r@ == spec_extract_description(
            match desc {
                Some(adf) => Some(*adf),
                None => None,
            },
        ),
        r@.len() > 0,
{
    match desc {
        Some(adf) => extract_text_from_adf(adf),
        None => {
            proof {
                reveal_strlit("No description provided.");
            }
            String::from_str("No description provided.")
        },
    }
}

} // verus!
