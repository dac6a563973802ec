//! Resolution of declared source paths into the flat dependency set.
//!
//! A project declares a list of entries, each a file or a directory.  The
//! resolver expands every directory, depth first with an explicit work
//! stack, down to the leaf files below it, and returns each reachable file
//! exactly once.  The traversal order is deliberately unspecified: callers
//! may rely only on which files the result holds.

use vstd::prelude::*;

use crate::error::Error;
use crate::snapshot::blocked;
use crate::snapshot::first_missing;
use crate::snapshot::has_missing;
use crate::snapshot::id_set;
use crate::snapshot::is_file;
use crate::snapshot::lemma_derived_dir;
use crate::snapshot::lemma_derived_empty;
use crate::snapshot::lemma_derived_leaf;
use crate::snapshot::lemma_derived_push;
use crate::snapshot::lemma_derived_skip;
use crate::snapshot::lemma_first_missing_at;
use crate::snapshot::lemma_first_missing_none;
use crate::snapshot::lemma_id_set_push;
use crate::snapshot::lemma_list_size_push;
use crate::snapshot::lemma_list_size_widen;
use crate::snapshot::list_size;
use crate::snapshot::missing_at;
use crate::snapshot::node_size;
use crate::snapshot::node_wf;
use crate::snapshot::reachable_files;
use crate::snapshot::stack_size;
use crate::snapshot::Node;
use crate::snapshot::Snapshot;

verus! {

/// Expand the declared entries into the set of reachable leaf files.
///
/// Fails with [`Error::PathNotFound`] (naming the first such entry) when a
/// declared path does not exist, and with [`Error::IO`] when a reachable
/// directory cannot be listed; no partial result is returned.  On success
/// the result holds exactly the reachable leaf files, each once, and never
/// a directory.
pub fn resolve_includes(fs: &Snapshot, declared: &Vec<usize>) -> (r: Result<Vec<usize>, Error>)
    requires
        fs.wf(),
        forall|k: int|
            #![trigger declared@[k]]
            0 <= k < declared@.len() ==> (declared@[k] as int) < fs.nodes@.len(),
    ensures
        ({
            let nodes = fs.nodes@;
            match r {
                Ok(files) => {
                    &&& !has_missing(nodes, declared@)
                    &&& !blocked(nodes, declared@)
                    &&& id_set(files@) == reachable_files(nodes, declared@)
                    &&& files@.no_duplicates()
                    &&& forall|q: int|
                        #![trigger files@[q]]
                        0 <= q < files@.len() ==> is_file(nodes, files@[q] as int)
                },
                Err(Error::PathNotFound(p)) => {
                    &&& has_missing(nodes, declared@)
                    &&& p@ == nodes[declared@[first_missing(nodes, declared@)] as int].path_spec()
                },
                Err(Error::IO) => {
                    &&& !has_missing(nodes, declared@)
                    &&& blocked(nodes, declared@)
                },
                _ => false,
            }
        }),
{
    let ghost nodes = fs.nodes@;

    // Declared paths that do not exist are fatal, in declaration order.
    let mut k: usize = 0;
    while k < declared.len()
        invariant
            fs.wf(),
            forall|j: int|
                #![trigger declared@[j]]
                0 <= j < declared@.len() ==> (declared@[j] as int) < nodes.len(),
            nodes == fs.nodes@,
            k <= declared@.len(),
            forall|j: int|
                #![trigger declared@[j]]
                0 <= j < k ==> !missing_at(nodes, declared@[j] as int),
        decreases declared@.len() - k,
    {
        let id = declared[k];
        if matches!(&fs.nodes[id], Node::Missing { .. }) {
            proof {
                lemma_first_missing_at(nodes, declared@, k as int);
            }
            return Err(Error::PathNotFound(fs.nodes[id].path().clone()));
        }
        k += 1;
    }
    proof {
        lemma_first_missing_none(nodes, declared@);
    }

    // Split the declared entries into leaf files and a work stack of
    // directories.
    let mut out: Vec<usize> = Vec::new();
    let mut stack: Vec<usize> = Vec::new();
    let mut k: usize = 0;
    proof {
        lemma_derived_empty(nodes, 0);
        assert(declared@.take(0) =~= Seq::<usize>::empty());
    }
    while k < declared.len()
        invariant
            fs.wf(),
            forall|j: int|
                #![trigger declared@[j]]
                0 <= j < declared@.len() ==> (declared@[j] as int) < nodes.len(),
            nodes == fs.nodes@,
            k <= declared@.len(),
            !has_missing(nodes, declared@),
            forall|q: int|
                #![trigger stack@[q]]
                0 <= q < stack@.len() ==> (stack@[q] as int) < nodes.len() && nodes[stack@[q] as int]
                    is Dir,
            forall|q: int|
                #![trigger out@[q]]
                0 <= q < out@.len() ==> is_file(nodes, out@[q] as int),
            reachable_files(nodes, declared@.take(k as int)) == id_set(out@).union(
                reachable_files(nodes, stack@),
            ),
            blocked(nodes, declared@.take(k as int)) == blocked(nodes, stack@),
        decreases declared@.len() - k,
    {
        let id = declared[k];
        proof {
            assert(declared@.take(k + 1) =~= declared@.take(k as int).push(declared@[k as int]));
            lemma_derived_push(nodes, declared@.take(k as int), id, 0);
        }
        match &fs.nodes[id] {
            Node::File { .. } => {
                proof {
                    lemma_derived_leaf(nodes, id as int, 0);
                    lemma_id_set_push(out@, id);
                    assert(reachable_files(nodes, declared@.take(k + 1)) =~= id_set(
                        out@.push(id),
                    ).union(reachable_files(nodes, stack@)));
                }
                out.push(id);
            },
            Node::Dir { .. } => {
                proof {
                    lemma_derived_push(nodes, stack@, id, 0);
                    assert(reachable_files(nodes, declared@.take(k + 1)) =~= id_set(out@).union(
                        reachable_files(nodes, stack@.push(id)),
                    ));
                }
                stack.push(id);
            },
            Node::UnreadableDir { .. } => {
                proof {
                    lemma_derived_leaf(nodes, id as int, 0);
                    assert(declared@.take(declared@.len() as int) =~= declared@);
                    crate::snapshot::lemma_reach_all_member(nodes, declared@, k as int);
                    assert(crate::snapshot::reach(nodes, id as int).contains(id as int));
                    assert(blocked(nodes, declared@));
                }
                return Err(Error::IO);
            },
            Node::Missing { .. } => {
                proof {
                    assert(missing_at(nodes, declared@[k as int] as int));
                    assert(false);
                }
            },
        }
        k += 1;
    }

    proof {
        assert(declared@.take(declared@.len() as int) =~= declared@);
    }

    // Expand directories until the work stack is empty.
    while stack.len() > 0
        invariant
            fs.wf(),
            nodes == fs.nodes@,
            !has_missing(nodes, declared@),
            forall|q: int|
                #![trigger stack@[q]]
                0 <= q < stack@.len() ==> (stack@[q] as int) < nodes.len() && nodes[stack@[q] as int]
                    is Dir,
            forall|q: int|
                #![trigger out@[q]]
                0 <= q < out@.len() ==> is_file(nodes, out@[q] as int),
            reachable_files(nodes, declared@) == id_set(out@).union(reachable_files(nodes, stack@)),
            blocked(nodes, declared@) == blocked(nodes, stack@),
        decreases stack_size(nodes, stack@),
    {
        let ghost stack0 = stack@;
        let d = match stack.pop() {
            Some(d) => d,
            None => {
                proof {
                    assert(false);
                }
                0
            },
        };
        proof {
            assert(stack0 =~= stack@.push(d));
            lemma_derived_push(nodes, stack@, d, 0);
            lemma_list_size_push(nodes, -1, stack@, d);
            lemma_derived_dir(nodes, d as int, 0);
        }
        let ghost stack_rest = stack@;
        match &fs.nodes[d] {
            Node::Dir { children, .. } => {
                let ghost cseq = children@;
                proof {
                    assert(node_wf(nodes, d as int));
                    assert(cseq.skip(0) =~= cseq);
                    assert(cseq.take(0) =~= Seq::<usize>::empty());
                    assert(reachable_files(nodes, declared@) =~= id_set(out@).union(
                        reachable_files(nodes, stack@),
                    ).union(reachable_files(nodes, cseq)));
                }
                let mut ci: usize = 0;
                while ci < children.len()
                    invariant
                        fs.wf(),
                        nodes == fs.nodes@,
                        !has_missing(nodes, declared@),
                        (d as int) < nodes.len(),
                        nodes[d as int] is Dir,
                        children@ == cseq,
                        cseq == (nodes[d as int]->Dir_children)@,
                        ci <= cseq.len(),
                        forall|q: int|
                            #![trigger stack@[q]]
                            0 <= q < stack@.len() ==> (stack@[q] as int) < nodes.len()
                                && nodes[stack@[q] as int] is Dir,
                        forall|q: int|
                            #![trigger out@[q]]
                            0 <= q < out@.len() ==> is_file(nodes, out@[q] as int),
                        reachable_files(nodes, declared@) == id_set(out@).union(
                            reachable_files(nodes, stack@),
                        ).union(reachable_files(nodes, cseq.skip(ci as int))),
                        blocked(nodes, declared@) == (blocked(nodes, stack@) || blocked(
                            nodes,
                            cseq.skip(ci as int),
                        )),
                        stack_size(nodes, stack@) <= stack_size(nodes, stack_rest) + list_size(
                            nodes,
                            -1,
                            cseq.take(ci as int),
                        ),
                    decreases cseq.len() - ci,
                {
                    let c = children[ci];
                    proof {
                        assert(node_wf(nodes, d as int));
                        lemma_derived_skip(nodes, cseq, ci as int, 0);
                        assert(cseq.take(ci + 1) =~= cseq.take(ci as int).push(c));
                        lemma_list_size_push(nodes, -1, cseq.take(ci as int), c);
                    }
                    match &fs.nodes[c] {
                        Node::File { .. } => {
                            proof {
                                lemma_derived_leaf(nodes, c as int, 0);
                                lemma_id_set_push(out@, c);
                                assert(reachable_files(nodes, declared@) =~= id_set(
                                    out@.push(c),
                                ).union(reachable_files(nodes, stack@)).union(
                                    reachable_files(nodes, cseq.skip(ci + 1)),
                                ));
                            }
                            out.push(c);
                        },
                        Node::Dir { .. } => {
                            proof {
                                lemma_derived_push(nodes, stack@, c, 0);
                                lemma_list_size_push(nodes, -1, stack@, c);
                                assert(reachable_files(nodes, declared@) =~= id_set(out@).union(
                                    reachable_files(nodes, stack@.push(c)),
                                ).union(reachable_files(nodes, cseq.skip(ci + 1))));
                            }
                            stack.push(c);
                        },
                        Node::UnreadableDir { .. } => {
                            proof {
                                lemma_derived_leaf(nodes, c as int, 0);
                                assert(blocked(nodes, declared@));
                            }
                            return Err(Error::IO);
                        },
                        Node::Missing { .. } => {
                            proof {
                                assert(false);
                            }
                        },
                    }
                    ci += 1;
                }
                proof {
                    assert(cseq.take(cseq.len() as int) =~= cseq);
                    assert(cseq.skip(cseq.len() as int) =~= Seq::<usize>::empty());
                    lemma_derived_empty(nodes, 0);
                    assert(reachable_files(nodes, declared@) =~= id_set(out@).union(
                        reachable_files(nodes, stack@),
                    ));
                    lemma_list_size_widen(nodes, -1, d as int, cseq);
                    assert(node_size(nodes, d as int) == 1 + list_size(nodes, d as int, cseq));
                    assert(stack_size(nodes, stack@) < stack_size(nodes, stack0));
                }
            },
            _ => {
                proof {
                    assert(nodes[stack0[stack0.len() - 1] as int] is Dir);
                    assert(false);
                }
            },
        }
    }

    proof {
        lemma_derived_empty(nodes, 0);
        assert(stack@ =~= Seq::<usize>::empty());
        assert(reachable_files(nodes, declared@) =~= id_set(out@));
        assert(!blocked(nodes, declared@));
    }

    // Each file may have been reached along several declared entries; keep
    // the first occurrence of each.
    let mut seen: Vec<bool> = vec![false; fs.nodes.len()];
    let mut result: Vec<usize> = Vec::new();
    let mut i: usize = 0;
    proof {
        assert(out@.take(0) =~= Seq::<usize>::empty());
        assert(id_set(Seq::<usize>::empty()) =~= Set::<int>::empty());
        assert(id_set(result@) =~= Set::<int>::empty());
    }
    while i < out.len()
        invariant
            nodes == fs.nodes@,
            i <= out@.len(),
            seen@.len() == nodes.len(),
            forall|q: int|
                #![trigger out@[q]]
                0 <= q < out@.len() ==> is_file(nodes, out@[q] as int),
            forall|q: int|
                #![trigger result@[q]]
                0 <= q < result@.len() ==> is_file(nodes, result@[q] as int),
            result@.no_duplicates(),
            id_set(result@) == id_set(out@.take(i as int)),
            forall|j: int|
                0 <= j < nodes.len() ==> #[trigger] seen@[j] == id_set(result@).contains(j),
        decreases out@.len() - i,
    {
        let f = out[i];
        proof {
            assert(out@.take(i + 1) =~= out@.take(i as int).push(out@[i as int]));
            lemma_id_set_push(out@.take(i as int), f);
            lemma_id_set_push(result@, f);
        }
        if !seen[f] {
            seen[f] = true;
            proof {
                assert forall|q: int| 0 <= q < result@.push(f).len() implies is_file(
                    nodes,
                    result@.push(f)[q] as int,
                ) by {
                    if q < result@.len() {
                        assert(is_file(nodes, result@[q] as int));
                    }
                }
                assert(result@.push(f).no_duplicates()) by {
                    assert forall|a: int, b: int|
                        0 <= a < b < result@.push(f).len() implies result@.push(f)[a] != result@.push(
                        f,
                    )[b] by {
                        if b < result@.len() {
                            assert(result@[a] != result@[b]);
                        } else {
                            assert(!id_set(result@).contains(f as int));
                            assert(result@.push(f)[a] == result@[a]);
                        }
                    }
                }
            }
            result.push(f);
        } else {
            proof {
                assert(id_set(result@).contains(f as int));
                assert(id_set(result@).insert(f as int) =~= id_set(result@));
            }
        }
        i += 1;
    }
    proof {
        assert(out@.take(out@.len() as int) =~= out@);
    }
    Ok(result)
}

/// A declared leaf file is always in the resolved set.  In particular a
/// project's entry file, which stands among the declared dependencies, is
/// always part of what resolution returns.
pub proof fn lemma_resolved_contains_declared_file(
    nodes: Seq<Node>,
    declared: Seq<usize>,
    k: int,
    files: Vec<usize>,
)
    requires
        0 <= k < declared.len(),
        is_file(nodes, declared[k] as int),
        id_set(files@) == reachable_files(nodes, declared),
    ensures
        id_set(files@).contains(declared[k] as int),
{
    crate::snapshot::lemma_reach_all_member(nodes, declared, k);
    assert(crate::snapshot::reach(nodes, declared[k] as int).contains(declared[k] as int));
    assert(reachable_files(nodes, declared).contains(declared[k] as int));
}

} // verus!
