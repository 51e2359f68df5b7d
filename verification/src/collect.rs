//! The tree collector: walks every node of a document tree with an
//! explicit work stack (pre-order, depth-first) and accumulates each
//! annotated fenced code block into the extracted-files map.

use vstd::prelude::*;
use crate::directive::extract_file_path;
use crate::filemap::{spec_collect, FileMap};
use crate::tree::{code_pairs, collected, collected_seq, size, size_seq, MdNode};

verus! {

/// The pairs still owed by a pending work stack, topmost node's first.
pub open spec fn stack_collected(st: Seq<&MdNode>) -> Seq<(Seq<char>, Seq<char>)>
    decreases st.len(),
{
    if st.len() == 0 {
        Seq::empty()
    } else {
        collected(*st.last()) + stack_collected(st.drop_last())
    }
}

/// Total node count still on a pending work stack, for termination.
pub open spec fn stack_size(st: Seq<&MdNode>) -> nat
    decreases st.len(),
{
    if st.len() == 0 {
        0
    } else {
        size(*st.last()) + stack_size(st.drop_last())
    }
}

proof fn lemma_stack_push(st: Seq<&MdNode>, r: &MdNode)
    ensures
        stack_collected(st.push(r)) == collected(*r) + stack_collected(st),
        stack_size(st.push(r)) == size(*r) + stack_size(st),
{
    assert(st.push(r).last() == r);
    assert(st.push(r).drop_last() =~= st);
}

proof fn lemma_seq_head(cs: Seq<MdNode>, j: int)
    requires
        0 <= j < cs.len(),
    ensures
        collected_seq(cs.subrange(j, cs.len() as int)) == collected(cs[j]) + collected_seq(
            cs.subrange(j + 1, cs.len() as int),
        ),
        size_seq(cs.subrange(j, cs.len() as int)) == size(cs[j]) + size_seq(
            cs.subrange(j + 1, cs.len() as int),
        ),
{
    let tail = cs.subrange(j, cs.len() as int);
    assert(tail[0] == cs[j]);
    assert(tail.subrange(1, tail.len() as int) =~= cs.subrange(j + 1, cs.len() as int));
}

/// Visits every node below `node` exactly once, in pre-order document
/// order, and records each fenced code block whose info string names a
/// destination: the resulting map is the fold of the tree's (destination,
/// text) pairs over the map as it stood before the call.
pub fn extract_output_files(node: &MdNode, extracted_files: &mut FileMap)
    requires
        old(extracted_files).wf(),
    ensures
        final(extracted_files)@ == spec_collect(old(extracted_files)@, collected(*node)),
        final(extracted_files).wf(),
{
    let ghost m0 = extracted_files@;
    let mut stack: Vec<&MdNode> = Vec::new();
    stack.push(node);
    proof {
        lemma_stack_push(Seq::empty(), node);
        assert(stack_collected(Seq::<&MdNode>::empty()) == Seq::<(Seq<char>, Seq<char>)>::empty());
        assert(collected(*node) + Seq::<(Seq<char>, Seq<char>)>::empty() =~= collected(*node));
    }
    while stack.len() > 0
        invariant
            extracted_files.wf(),
            m0 == old(extracted_files)@,
            spec_collect(extracted_files@, stack_collected(stack@)) == spec_collect(
                m0,
                collected(*node),
            ),
        decreases stack_size(stack@),
    {
        let ghost st_before = stack@;
        let n = stack.pop().unwrap();
        proof {
            assert(st_before.last() == n);
            assert(st_before.drop_last() =~= stack@);
            assert(stack_collected(st_before) == collected(*n) + stack_collected(stack@));
            assert(stack_size(st_before) == size(*n) + stack_size(stack@));
        }
        match n {
            MdNode::Code { meta, value } => {
                proof {
                    assert(size(*n) == 1);
                }
                if let Some(m) = meta {
                    if let Some(file_path) = extract_file_path(m.as_str()) {
                        proof {
                            assert(code_pairs(*meta, *value) =~= seq![(file_path@, value@)]);
                            let rest = stack_collected(stack@);
                            assert((seq![(file_path@, value@)] + rest)[0] == (
                                file_path@,
                                value@,
                            ));
                            assert((seq![(file_path@, value@)] + rest).subrange(
                                1,
                                (seq![(file_path@, value@)] + rest).len() as int,
                            ) =~= rest);
                        }
                        extracted_files.add_block(file_path, value);
                    } else {
                        proof {
                            assert(code_pairs(*meta, *value) =~= Seq::<
                                (Seq<char>, Seq<char>),
                            >::empty());
                            assert(collected(*n) + stack_collected(stack@) =~= stack_collected(
                                stack@,
                            ));
                        }
                    }
                } else {
                    proof {
                        assert(code_pairs(*meta, *value) =~= Seq::<(Seq<char>, Seq<char>)>::empty());
                        assert(collected(*n) + stack_collected(stack@) =~= stack_collected(stack@));
                    }
                }
            },
            MdNode::Container { children } => {
                let ghost base = stack@;
                let len = children.len();
                let mut j: usize = len;
                proof {
                    assert(children@.subrange(len as int, len as int) =~= Seq::<MdNode>::empty());
                    assert(collected_seq(children@.subrange(len as int, len as int))
                        == Seq::<(Seq<char>, Seq<char>)>::empty());
                    assert(Seq::<(Seq<char>, Seq<char>)>::empty() + stack_collected(base)
                        =~= stack_collected(base));
                }
                while j > 0
                    invariant
                        j <= len,
                        len == children@.len(),
                        stack_collected(stack@) == collected_seq(
                            children@.subrange(j as int, len as int),
                        ) + stack_collected(base),
                        stack_size(stack@) == size_seq(children@.subrange(j as int, len as int))
                            + stack_size(base),
                    decreases j,
                {
                    j = j - 1;
                    let ghost st0 = stack@;
                    let child = &children[j];
                    stack.push(child);
                    proof {
                        lemma_stack_push(st0, child);
                        lemma_seq_head(children@, j as int);
                    }
                }
                proof {
                    assert(children@.subrange(0, len as int) =~= children@);
                    assert(collected(*n) == collected_seq(children@));
                    assert(size(*n) == 1 + size_seq(children@));
                }
            },
        }
    }
    proof {
        assert(stack@.len() == 0);
        assert(stack_collected(stack@) == Seq::<(Seq<char>, Seq<char>)>::empty());
        assert(spec_collect(extracted_files@, Seq::<(Seq<char>, Seq<char>)>::empty())
            == extracted_files@);
    }
}

} // verus!
