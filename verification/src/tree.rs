//! The document tree the collector walks: fenced code blocks carrying an
//! optional info string and their literal text, and transparent containers
//! standing for every other Markdown construct.

use vstd::prelude::*;
use crate::directive::spec_extract;

verus! {

/// One node of a parsed Markdown document, reduced to what extraction
/// reads. A code node never recurses; a container contributes nothing of
/// its own and is walked for its children in document order.
pub enum MdNode {
    Code { meta: Option<String>, value: String },
    Container { children: Vec<MdNode> },
}

/// The (destination path, block text) pairs a code node's info string
/// contributes: one pair when a `file:` directive resolves, none otherwise.
pub open spec fn code_pairs(meta: Option<String>, value: String) -> Seq<(Seq<char>, Seq<char>)> {
    match meta {
        Some(m) => match spec_extract(m@) {
            Some(p) => seq![(p, value@)],
            None => Seq::empty(),
        },
        None => Seq::empty(),
    }
}

/// All (destination path, block text) pairs below `n`, in pre-order
/// document order.
pub open spec fn collected(n: MdNode) -> Seq<(Seq<char>, Seq<char>)>
    decreases n,
{
    match n {
        MdNode::Code { meta, value } => code_pairs(meta, value),
        MdNode::Container { children } => collected_seq(children@),
    }
}

/// The pairs of a forest of sibling nodes, left to right.
pub open spec fn collected_seq(cs: Seq<MdNode>) -> Seq<(Seq<char>, Seq<char>)>
    decreases cs,
{
    if cs.len() == 0 {
        Seq::empty()
    } else {
        collected(cs[0]) + collected_seq(cs.subrange(1, cs.len() as int))
    }
}

/// A transparent container never hides a block: wrapping any node as the
/// only child of a container leaves the collected pairs unchanged, so a
/// fenced block is found at any nesting depth.
pub proof fn lemma_container_transparent(wrapper: MdNode, inner: MdNode)
    requires
        wrapper matches MdNode::Container { children } && children@ == seq![inner],
    ensures
        collected(wrapper) == collected(inner),
{
    let cs = seq![inner];
    assert(cs[0] == inner);
    assert(cs.subrange(1, 1) =~= Seq::<MdNode>::empty());
    assert(collected_seq(Seq::<MdNode>::empty()) == Seq::<(Seq<char>, Seq<char>)>::empty());
    assert(collected(inner) + Seq::<(Seq<char>, Seq<char>)>::empty() =~= collected(inner));
}

/// Number of nodes in the tree below and including `n`.
pub open spec fn size(n: MdNode) -> nat
    decreases n,
{
    match n {
        MdNode::Code { .. } => 1,
        MdNode::Container { children } => 1 + size_seq(children@),
    }
}

/// Number of nodes in a forest of sibling trees.
pub open spec fn size_seq(cs: Seq<MdNode>) -> nat
    decreases cs,
{
    if cs.len() == 0 {
        0
    } else {
        size(cs[0]) + size_seq(cs.subrange(1, cs.len() as int))
    }
}

} // verus!
