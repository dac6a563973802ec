//! The staleness oracle: must the project be rebuilt?
//!
//! A rebuild is needed exactly when some dependency file was modified
//! strictly after the artifact was produced, or when the artifact is not
//! there at all.  A dependency modified at exactly the artifact's instant
//! does not force a rebuild.  The oracle walks raw declared paths itself,
//! so it can be asked about a dependency list that was never resolved.

use vstd::prelude::*;

use crate::error::Error;
use crate::snapshot::blocked;
use crate::snapshot::first_missing;
use crate::snapshot::has_missing;
use crate::snapshot::lemma_derived_dir;
use crate::snapshot::lemma_derived_empty;
use crate::snapshot::lemma_derived_leaf;
use crate::snapshot::lemma_derived_push;
use crate::snapshot::lemma_derived_skip;
use crate::snapshot::lemma_first_missing_at;
use crate::snapshot::lemma_first_missing_none;
use crate::snapshot::lemma_list_size_push;
use crate::snapshot::lemma_list_size_widen;
use crate::snapshot::lemma_reach_all_member;
use crate::snapshot::list_size;
use crate::snapshot::meta_blocked;
use crate::snapshot::missing_at;
use crate::snapshot::newer_at;
use crate::snapshot::newer_than;
use crate::snapshot::node_size;
use crate::snapshot::node_wf;
use crate::snapshot::reach;
use crate::snapshot::stack_size;
use crate::snapshot::unknown_mtime_at;
use crate::snapshot::Node;
use crate::snapshot::Snapshot;

verus! {

/// What the staleness oracle must answer on a given snapshot: absent
/// declared paths are reported first, any unreadable directory or
/// modification time is fatal, and otherwise the answer is whether some
/// reachable file is strictly newer than the reference time.
pub open spec fn stale_result(
    nodes: Seq<Node>,
    reference_time: u64,
    deps: Seq<usize>,
    r: Result<bool, Error>,
) -> bool {
    match r {
        Ok(b) => {
            &&& !has_missing(nodes, deps)
            &&& !blocked(nodes, deps)
            &&& !meta_blocked(nodes, deps)
            &&& b == newer_than(nodes, deps, reference_time)
        },
        Err(Error::PathNotFound(p)) => {
            &&& has_missing(nodes, deps)
            &&& p@ == nodes[deps[first_missing(nodes, deps)] as int].path_spec()
        },
        Err(Error::IO) => {
            &&& !has_missing(nodes, deps)
            &&& (blocked(nodes, deps) || meta_blocked(nodes, deps))
        },
        _ => false,
    }
}

/// Is any dependency strictly newer than `reference_time`?
///
/// Directories among the dependencies are expanded on the fly; a directory
/// itself contributes no timestamp.  An absent declared path, an unlistable
/// directory or an unreadable modification time is fatal: the build cannot
/// proceed reliably, so no staleness verdict is produced.
pub fn is_stale(fs: &Snapshot, reference_time: u64, deps: &Vec<usize>) -> (r: Result<bool, Error>)
    requires
        fs.wf(),
        forall|k: int|
            #![trigger deps@[k]]
            0 <= k < deps@.len() ==> (deps@[k] as int) < fs.nodes@.len(),
    ensures
        stale_result(fs.nodes@, reference_time, deps@, r),
{
    let ghost nodes = fs.nodes@;
    let t = reference_time;

    // Declared paths that do not exist are fatal, in declaration order.
    let mut k: usize = 0;
    while k < deps.len()
        invariant
            fs.wf(),
            forall|j: int|
                #![trigger deps@[j]]
                0 <= j < deps@.len() ==> (deps@[j] as int) < nodes.len(),
            nodes == fs.nodes@,
            k <= deps@.len(),
            forall|j: int|
                #![trigger deps@[j]]
                0 <= j < k ==> !missing_at(nodes, deps@[j] as int),
        decreases deps@.len() - k,
    {
        let id = deps[k];
        if matches!(&fs.nodes[id], Node::Missing { .. }) {
            proof {
                lemma_first_missing_at(nodes, deps@, k as int);
            }
            return Err(Error::PathNotFound(fs.nodes[id].path().clone()));
        }
        k += 1;
    }
    proof {
        lemma_first_missing_none(nodes, deps@);
    }

    // Compare the declared files, and queue the declared directories.
    let mut found: bool = false;
    let mut stack: Vec<usize> = Vec::new();
    let mut k: usize = 0;
    proof {
        lemma_derived_empty(nodes, t);
        assert(deps@.take(0) =~= Seq::<usize>::empty());
    }
    while k < deps.len()
        invariant
            fs.wf(),
            forall|j: int|
                #![trigger deps@[j]]
                0 <= j < deps@.len() ==> (deps@[j] as int) < nodes.len(),
            nodes == fs.nodes@,
            k <= deps@.len(),
            !has_missing(nodes, deps@),
            forall|q: int|
                #![trigger stack@[q]]
                0 <= q < stack@.len() ==> (stack@[q] as int) < nodes.len() && nodes[stack@[q] as int]
                    is Dir,
            newer_than(nodes, deps@.take(k as int), t) == (found || newer_than(nodes, stack@, t)),
            blocked(nodes, deps@.take(k as int)) == blocked(nodes, stack@),
            meta_blocked(nodes, deps@.take(k as int)) == meta_blocked(nodes, stack@),
        decreases deps@.len() - k,
    {
        let id = deps[k];
        proof {
            assert(deps@.take(k + 1) =~= deps@.take(k as int).push(deps@[k as int]));
            lemma_derived_push(nodes, deps@.take(k as int), id, t);
        }
        match &fs.nodes[id] {
            Node::File { modified, .. } => {
                proof {
                    lemma_derived_leaf(nodes, id as int, t);
                }
                match modified {
                    Some(m) => {
                        if *m > t {
                            found = true;
                        }
                    },
                    None => {
                        proof {
                            lemma_reach_all_member(nodes, deps@, k as int);
                            assert(reach(nodes, id as int).contains(id as int));
                            assert(unknown_mtime_at(nodes, id as int));
                            assert(meta_blocked(nodes, deps@));
                        }
                        return Err(Error::IO);
                    },
                }
            },
            Node::Dir { .. } => {
                proof {
                    lemma_derived_push(nodes, stack@, id, t);
                }
                stack.push(id);
            },
            Node::UnreadableDir { .. } => {
                proof {
                    lemma_derived_leaf(nodes, id as int, t);
                    lemma_reach_all_member(nodes, deps@, k as int);
                    assert(reach(nodes, id as int).contains(id as int));
                    assert(blocked(nodes, deps@));
                }
                return Err(Error::IO);
            },
            Node::Missing { .. } => {
                proof {
                    assert(missing_at(nodes, deps@[k as int] as int));
                    assert(false);
                }
            },
        }
        k += 1;
    }

    proof {
        assert(deps@.take(deps@.len() as int) =~= deps@);
    }

    // Expand queued directories until none is left.
    while stack.len() > 0
        invariant
            fs.wf(),
            nodes == fs.nodes@,
            !has_missing(nodes, deps@),
            forall|q: int|
                #![trigger stack@[q]]
                0 <= q < stack@.len() ==> (stack@[q] as int) < nodes.len() && nodes[stack@[q] as int]
                    is Dir,
            newer_than(nodes, deps@, t) == (found || newer_than(nodes, stack@, t)),
            blocked(nodes, deps@) == blocked(nodes, stack@),
            meta_blocked(nodes, deps@) == meta_blocked(nodes, stack@),
        decreases stack_size(nodes, stack@),
    {
        let ghost stack0 = stack@;
        let d = match stack.pop() {
            Some(d) => d,
            None => {
                proof {
                    assert(false);
                }
                0
            },
        };
        proof {
            assert(stack0 =~= stack@.push(d));
            lemma_derived_push(nodes, stack@, d, t);
            lemma_list_size_push(nodes, -1, stack@, d);
            lemma_derived_dir(nodes, d as int, t);
        }
        let ghost stack_rest = stack@;
        match &fs.nodes[d] {
            Node::Dir { children, .. } => {
                let ghost cseq = children@;
                proof {
                    assert(node_wf(nodes, d as int));
                    assert(cseq.skip(0) =~= cseq);
                    assert(cseq.take(0) =~= Seq::<usize>::empty());
                }
                let mut ci: usize = 0;
                while ci < children.len()
                    invariant
                        fs.wf(),
                        nodes == fs.nodes@,
                        !has_missing(nodes, deps@),
                        (d as int) < nodes.len(),
                        nodes[d as int] is Dir,
                        children@ == cseq,
                        cseq == (nodes[d as int]->Dir_children)@,
                        ci <= cseq.len(),
                        forall|q: int|
                            #![trigger stack@[q]]
                            0 <= q < stack@.len() ==> (stack@[q] as int) < nodes.len()
                                && nodes[stack@[q] as int] is Dir,
                        newer_than(nodes, deps@, t) == (found || newer_than(nodes, stack@, t)
                            || newer_than(nodes, cseq.skip(ci as int), t)),
                        blocked(nodes, deps@) == (blocked(nodes, stack@) || blocked(
                            nodes,
                            cseq.skip(ci as int),
                        )),
                        meta_blocked(nodes, deps@) == (meta_blocked(nodes, stack@) || meta_blocked(
                            nodes,
                            cseq.skip(ci as int),
                        )),
                        stack_size(nodes, stack@) <= stack_size(nodes, stack_rest) + list_size(
                            nodes,
                            -1,
                            cseq.take(ci as int),
                        ),
                    decreases cseq.len() - ci,
                {
                    let c = children[ci];
                    proof {
                        assert(node_wf(nodes, d as int));
                        lemma_derived_skip(nodes, cseq, ci as int, t);
                        assert(cseq.take(ci + 1) =~= cseq.take(ci as int).push(c));
                        lemma_list_size_push(nodes, -1, cseq.take(ci as int), c);
                    }
                    match &fs.nodes[c] {
                        Node::File { modified, .. } => {
                            proof {
                                lemma_derived_leaf(nodes, c as int, t);
                            }
                            match modified {
                                Some(m) => {
                                    if *m > t {
                                        proof {
                                            assert(newer_at(nodes, c as int, t));
                                        }
                                        found = true;
                                    }
                                },
                                None => {
                                    proof {
                                        assert(unknown_mtime_at(nodes, c as int));
                                        assert(meta_blocked(nodes, deps@));
                                    }
                                    return Err(Error::IO);
                                },
                            }
                        },
                        Node::Dir { .. } => {
                            proof {
                                lemma_derived_push(nodes, stack@, c, t);
                                lemma_list_size_push(nodes, -1, stack@, c);
                            }
                            stack.push(c);
                        },
                        Node::UnreadableDir { .. } => {
                            proof {
                                lemma_derived_leaf(nodes, c as int, t);
                                assert(blocked(nodes, deps@));
                            }
                            return Err(Error::IO);
                        },
                        Node::Missing { .. } => {
                            proof {
                                assert(false);
                            }
                        },
                    }
                    ci += 1;
                }
                proof {
                    assert(cseq.take(cseq.len() as int) =~= cseq);
                    assert(cseq.skip(cseq.len() as int) =~= Seq::<usize>::empty());
                    lemma_derived_empty(nodes, t);
                    lemma_list_size_widen(nodes, -1, d as int, cseq);
                    assert(node_size(nodes, d as int) == 1 + list_size(nodes, d as int, cseq));
                    assert(stack_size(nodes, stack@) < stack_size(nodes, stack0));
                }
            },
            _ => {
                proof {
                    assert(nodes[stack0[stack0.len() - 1] as int] is Dir);
                    assert(false);
                }
            },
        }
    }

    proof {
        lemma_derived_empty(nodes, t);
        assert(stack@ =~= Seq::<usize>::empty());
    }
    Ok(found)
}

/// What the rebuild decision must answer: an absent artifact
/// short-circuits to "rebuild" without any comparison; an artifact whose
/// modification time cannot be read, or that is not a plain file, is
/// fatal; otherwise the staleness oracle answers against the artifact's
/// modification time.
pub open spec fn rebuild_result(
    nodes: Seq<Node>,
    artifact: usize,
    deps: Seq<usize>,
    r: Result<bool, Error>,
) -> bool {
    match nodes[artifact as int] {
        Node::Missing { .. } => r == Ok::<bool, Error>(true),
        Node::File { modified, .. } => match modified {
            Some(t) => stale_result(nodes, t, deps, r),
            None => r == Err::<bool, Error>(Error::IO),
        },
        _ => r == Err::<bool, Error>(Error::IO),
    }
}

/// Must the project be rebuilt, given the artifact's arena index?
pub fn needs_rebuild(fs: &Snapshot, artifact: usize, deps: &Vec<usize>) -> (r: Result<bool, Error>)
    requires
        fs.wf(),
        (artifact as int) < fs.nodes@.len(),
        forall|k: int|
            #![trigger deps@[k]]
            0 <= k < deps@.len() ==> (deps@[k] as int) < fs.nodes@.len(),
    ensures
        rebuild_result(fs.nodes@, artifact, deps@, r),
{
    match &fs.nodes[artifact] {
        Node::Missing { .. } => Ok(true),
        Node::File { modified, .. } => match modified {
            Some(t) => is_stale(fs, *t, deps),
            None => Err(Error::IO),
        },
        _ => Err(Error::IO),
    }
}

/// Two staleness results for one snapshot and one reference time agree.
pub open spec fn stale_agrees(r1: Result<bool, Error>, r2: Result<bool, Error>) -> bool {
    match (r1, r2) {
        (Ok(a), Ok(b)) => a == b,
        (Err(Error::PathNotFound(p1)), Err(Error::PathNotFound(p2))) => p1@ == p2@,
        (Err(Error::IO), Err(Error::IO)) => true,
        _ => false,
    }
}

/// Staleness is idempotent: as long as no dependency's modification time
/// changes — the snapshot is the same value — asking twice with the same
/// reference time gives the same verdict.
pub proof fn lemma_is_stale_idempotent(
    nodes: Seq<Node>,
    reference_time: u64,
    deps: Seq<usize>,
    r1: Result<bool, Error>,
    r2: Result<bool, Error>,
)
    requires
        stale_result(nodes, reference_time, deps, r1),
        stale_result(nodes, reference_time, deps, r2),
    ensures
        stale_agrees(r1, r2),
{
}

/// The tie-break rule, stated for a single declared file: the oracle says
/// "stale" exactly when the file's modification time is strictly greater
/// than the reference time, so a file modified at exactly the reference
/// instant does not force a rebuild, and one a single tick later does.
pub proof fn lemma_tie_break(nodes: Seq<Node>, f: usize, m: u64, reference_time: u64)
    requires
        0 <= f < nodes.len(),
        nodes[f as int] is File,
        nodes[f as int]->File_modified == Some(m),
    ensures
        !has_missing(nodes, seq![f]),
        !blocked(nodes, seq![f]),
        !meta_blocked(nodes, seq![f]),
        newer_than(nodes, seq![f], reference_time) == (m > reference_time),
        forall|r: Result<bool, Error>|
            stale_result(nodes, reference_time, seq![f], r) ==> r == Ok::<bool, Error>(
                m > reference_time,
            ),
{
    let t = reference_time;
    lemma_derived_empty(nodes, t);
    lemma_derived_push(nodes, Seq::<usize>::empty(), f, t);
    lemma_derived_leaf(nodes, f as int, t);
    assert(Seq::<usize>::empty().push(f) =~= seq![f]);
    assert(newer_at(nodes, f as int, t) == (m > t));
    assert forall|j: int| 0 <= j < seq![f].len() implies !missing_at(
        nodes,
        seq![f][j] as int,
    ) by {}
    lemma_first_missing_none(nodes, seq![f]);
}

} // verus!
