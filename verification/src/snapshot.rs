//! A plain-value picture of the part of the filesystem the build engine reads.
//!
//! The engine never touches the disk itself.  The surrounding process walks
//! the declared paths once, canonicalises them, and records what it found as
//! a [`Snapshot`]: an arena of [`Node`]s, one per distinct canonical path.
//! Every decision the engine makes is then a pure function of this value.
//!
//! A well-formed snapshot ([`Snapshot::wf`]) orders the arena topologically:
//! the children of a directory always have larger indices than the directory
//! itself, and only paths that were declared at top level may be recorded as
//! absent.  Both come for free when the arena is filled in preorder.

use vstd::prelude::*;

verus! {

/// What one canonical path turned out to be when the snapshot was taken.
pub enum Node {
    /// A leaf file; `modified` is its last-modification time (nanoseconds
    /// since some fixed epoch), or `None` when the metadata could not be
    /// read.
    File { path: String, modified: Option<u64> },
    /// A directory, with the arena indices of its immediate children.
    Dir { path: String, children: Vec<usize> },
    /// A directory that exists but whose contents could not be listed.
    UnreadableDir { path: String },
    /// A declared path with no filesystem object behind it.
    Missing { path: String },
}

impl Node {
    /// The canonical path this node stands for.
    pub fn path(&self) -> (r: &String)
        ensures
            r@ == self.path_spec(),
    {
        match self {
            Node::File { path, .. } => path,
            Node::Dir { path, .. } => path,
            Node::UnreadableDir { path } => path,
            Node::Missing { path } => path,
        }
    }

    /// The canonical path this node stands for.
    pub open spec fn path_spec(self) -> Seq<char> {
        match self {
            Node::File { path, .. } => path@,
            Node::Dir { path, .. } => path@,
            Node::UnreadableDir { path } => path@,
            Node::Missing { path } => path@,
        }
    }
}

/// A point-in-time picture of every path the build engine may consult.
pub struct Snapshot {
    pub nodes: Vec<Node>,
}

/// One node keeps the topological order: a directory's children lie strictly
/// between its own index and the end of the arena, and none of them is an
/// absent path.
pub open spec fn node_wf(nodes: Seq<Node>, i: int) -> bool {
    match nodes[i] {
        Node::Dir { children, .. } => forall|k: int|
            #![trigger children@[k]]
            0 <= k < children@.len() ==> i < (children@[k] as int) && (children@[k] as int)
                < nodes.len() && !(nodes[children@[k] as int] is Missing),
        _ => true,
    }
}

impl Snapshot {
    /// The whole arena is topologically ordered.
    pub open spec fn wf(self) -> bool {
        forall|i: int| 0 <= i < self.nodes@.len() ==> node_wf(self.nodes@, i)
    }

    /// The canonical path strings behind a list of arena indices, in the
    /// same order.
    pub fn paths_of(&self, ids: &Vec<usize>) -> (r: Vec<String>)
        requires
            forall|k: int|
                #![trigger ids@[k]]
                0 <= k < ids@.len() ==> (ids@[k] as int) < self.nodes@.len(),
        ensures
            r@.len() == ids@.len(),
            forall|k: int|
                #![trigger r@[k]]
                0 <= k < ids@.len() ==> r@[k]@ == self.nodes@[ids@[k] as int].path_spec(),
    {
        let mut r: Vec<String> = Vec::new();
        let mut k: usize = 0;
        while k < ids.len()
            invariant
                forall|j: int|
                    #![trigger ids@[j]]
                    0 <= j < ids@.len() ==> (ids@[j] as int) < self.nodes@.len(),
                k <= ids@.len(),
                r@.len() == k,
                forall|j: int|
                    #![trigger r@[j]]
                    0 <= j < k ==> r@[j]@ == self.nodes@[ids@[j] as int].path_spec(),
            decreases ids@.len() - k,
        {
            r.push(self.nodes[ids[k]].path().clone());
            k += 1;
        }
        r
    }
}

/// Every arena index reachable from index `i`: `i` itself, and everything
/// below `i` if it is a directory.  A child entry that does not respect the
/// topological order is ignored; a well-formed snapshot has none.
pub open spec fn reach(nodes: Seq<Node>, i: int) -> Set<int>
    decreases nodes.len() - i,
{
    if 0 <= i < nodes.len() {
        match nodes[i] {
            Node::Dir { children, .. } => set![i].union(
                Set::new(
                    |j: int|
                        exists|k: int|
                            #![trigger children@[k]]
                            0 <= k < children@.len() && i < children@[k] as int && (children@[k]
                                as int) < nodes.len() && reach(nodes, children@[k] as int).contains(
                                j,
                            ),
                ),
            ),
            _ => set![i],
        }
    } else {
        set![i]
    }
}

/// Every arena index reachable from a list of top-level ids.
pub open spec fn reach_all(nodes: Seq<Node>, ids: Seq<usize>) -> Set<int> {
    Set::new(
        |j: int|
            exists|k: int|
                #![trigger ids[k]]
                0 <= k < ids.len() && reach(nodes, ids[k] as int).contains(j),
    )
}

/// The indices a list of ids holds, as a set.
pub open spec fn id_set(ids: Seq<usize>) -> Set<int> {
    Set::new(
        |j: int|
            exists|k: int|
                #![trigger ids[k]]
                0 <= k < ids.len() && ids[k] as int == j,
    )
}

/// The index holds a leaf file.
pub open spec fn is_file(nodes: Seq<Node>, i: int) -> bool {
    0 <= i < nodes.len() && nodes[i] is File
}

/// The index holds a directory that could not be listed.
pub open spec fn unreadable_at(nodes: Seq<Node>, i: int) -> bool {
    0 <= i < nodes.len() && nodes[i] is UnreadableDir
}

/// The index holds a declared path with nothing behind it.
pub open spec fn missing_at(nodes: Seq<Node>, i: int) -> bool {
    0 <= i < nodes.len() && nodes[i] is Missing
}

/// The index holds a file whose modification time could not be read.
pub open spec fn unknown_mtime_at(nodes: Seq<Node>, i: int) -> bool {
    0 <= i < nodes.len() && (nodes[i] matches Node::File { modified: Option::None, .. })
}

/// The index holds a file modified strictly after `t`.
pub open spec fn newer_at(nodes: Seq<Node>, i: int, t: u64) -> bool {
    0 <= i < nodes.len() && (nodes[i] matches Node::File { modified: Option::Some(m), .. } && m
        > t)
}

/// The set of leaf files reachable from a list of top-level ids: exactly
/// what resolution must return.
pub open spec fn reachable_files(nodes: Seq<Node>, ids: Seq<usize>) -> Set<int> {
    Set::new(|j: int| reach_all(nodes, ids).contains(j) && is_file(nodes, j))
}

/// The set of leaf files reachable from one id.
pub open spec fn reach_files(nodes: Seq<Node>, i: int) -> Set<int> {
    Set::new(|j: int| reach(nodes, i).contains(j) && is_file(nodes, j))
}

/// Some reachable directory cannot be listed: resolution and staleness both
/// fail on it.
pub open spec fn blocked(nodes: Seq<Node>, ids: Seq<usize>) -> bool {
    exists|j: int| #[trigger] reach_all(nodes, ids).contains(j) && unreadable_at(nodes, j)
}

/// Some reachable file has an unreadable modification time: staleness fails
/// on it.
pub open spec fn meta_blocked(nodes: Seq<Node>, ids: Seq<usize>) -> bool {
    exists|j: int| #[trigger] reach_all(nodes, ids).contains(j) && unknown_mtime_at(nodes, j)
}

/// Some reachable file was modified strictly after `t`: the staleness
/// answer, when nothing blocks it.
pub open spec fn newer_than(nodes: Seq<Node>, ids: Seq<usize>, t: u64) -> bool {
    exists|j: int| #[trigger] reach_all(nodes, ids).contains(j) && newer_at(nodes, j, t)
}

/// A directory below index `i` cannot be listed.
pub open spec fn blocked_from(nodes: Seq<Node>, i: int) -> bool {
    exists|j: int| #[trigger] reach(nodes, i).contains(j) && unreadable_at(nodes, j)
}

/// A file below index `i` has an unreadable modification time.
pub open spec fn meta_blocked_from(nodes: Seq<Node>, i: int) -> bool {
    exists|j: int| #[trigger] reach(nodes, i).contains(j) && unknown_mtime_at(nodes, j)
}

/// A file below index `i` was modified strictly after `t`.
pub open spec fn newer_from(nodes: Seq<Node>, i: int, t: u64) -> bool {
    exists|j: int| #[trigger] reach(nodes, i).contains(j) && newer_at(nodes, j, t)
}

/// A declared id names an absent path.
pub open spec fn has_missing(nodes: Seq<Node>, ids: Seq<usize>) -> bool {
    exists|k: int|
        #![trigger ids[k]]
        0 <= k < ids.len() && missing_at(nodes, ids[k] as int)
}

/// The position of the first declared id naming an absent path, or -1.
pub open spec fn first_missing(nodes: Seq<Node>, ids: Seq<usize>) -> int
    decreases ids.len(),
{
    if ids.len() == 0 {
        -1
    } else if missing_at(nodes, ids[0] as int) {
        0
    } else {
        let rest = first_missing(nodes, ids.drop_first());
        if rest == -1 {
            -1
        } else {
            rest + 1
        }
    }
}

/// How much work expanding index `i` can still take; the termination measure
/// of the traversal loops.
pub open spec fn node_size(nodes: Seq<Node>, i: int) -> nat
    decreases nodes.len() - i, 1int, 0int,
{
    if 0 <= i < nodes.len() {
        match nodes[i] {
            Node::Dir { children, .. } => 1 + list_size(nodes, i, children@),
            _ => 1,
        }
    } else {
        1
    }
}

/// The work a list of ids, all beyond `parent`, can still take.
pub open spec fn list_size(nodes: Seq<Node>, parent: int, ids: Seq<usize>) -> nat
    decreases nodes.len() - parent, 0int, ids.len(),
{
    if ids.len() == 0 {
        0
    } else if parent < ids[0] as int && (ids[0] as int) < nodes.len() {
        node_size(nodes, ids[0] as int) + list_size(nodes, parent, ids.drop_first())
    } else {
        1 + list_size(nodes, parent, ids.drop_first())
    }
}

/// The work a whole traversal stack can still take.
pub open spec fn stack_size(nodes: Seq<Node>, ids: Seq<usize>) -> nat {
    list_size(nodes, -1, ids)
}

/// Appending an id to a list adds exactly its indices to the list's set.
pub proof fn lemma_id_set_push(ids: Seq<usize>, x: usize)
    ensures
        id_set(ids.push(x)) =~= id_set(ids).insert(x as int),
{
    assert forall|j: int| id_set(ids.push(x)).contains(j) implies id_set(ids).insert(
        x as int,
    ).contains(j) by {
        let k = choose|k: int|
            #![trigger ids.push(x)[k]]
            0 <= k < ids.push(x).len() && ids.push(x)[k] as int == j;
        if k < ids.len() {
            assert(ids[k] as int == j);
        }
    }
    assert forall|j: int| id_set(ids).insert(x as int).contains(j) implies id_set(
        ids.push(x),
    ).contains(j) by {
        if id_set(ids).contains(j) {
            let k = choose|k: int|
                #![trigger ids[k]]
                0 <= k < ids.len() && ids[k] as int == j;
            assert(ids.push(x)[k] as int == j);
        } else {
            assert(ids.push(x)[ids.len() as int] as int == j);
        }
    }
}

/// Appending an id to a list adds exactly its reach to the list's reach.
pub proof fn lemma_reach_all_push(nodes: Seq<Node>, ids: Seq<usize>, x: usize)
    ensures
        reach_all(nodes, ids.push(x)) =~= reach_all(nodes, ids).union(reach(nodes, x as int)),
{
    assert forall|j: int| reach_all(nodes, ids.push(x)).contains(j) implies reach_all(
        nodes,
        ids,
    ).union(reach(nodes, x as int)).contains(j) by {
        let k = choose|k: int|
            #![trigger ids.push(x)[k]]
            0 <= k < ids.push(x).len() && reach(nodes, ids.push(x)[k] as int).contains(j);
        if k < ids.len() {
            assert(reach(nodes, ids[k] as int).contains(j));
        }
    }
    assert forall|j: int| reach_all(nodes, ids).union(reach(nodes, x as int)).contains(
        j,
    ) implies reach_all(nodes, ids.push(x)).contains(j) by {
        if reach_all(nodes, ids).contains(j) {
            let k = choose|k: int|
                #![trigger ids[k]]
                0 <= k < ids.len() && reach(nodes, ids[k] as int).contains(j);
            assert(reach(nodes, ids.push(x)[k] as int).contains(j));
        } else {
            assert(reach(nodes, ids.push(x)[ids.len() as int] as int).contains(j));
        }
    }
}

/// Splitting off the head of a suffix splits its reach the same way.
pub proof fn lemma_reach_all_skip(nodes: Seq<Node>, ids: Seq<usize>, i: int)
    requires
        0 <= i < ids.len(),
    ensures
        reach_all(nodes, ids.skip(i)) =~= reach(nodes, ids[i] as int).union(
            reach_all(nodes, ids.skip(i + 1)),
        ),
{
    assert forall|j: int| reach_all(nodes, ids.skip(i)).contains(j) implies reach(
        nodes,
        ids[i] as int,
    ).union(reach_all(nodes, ids.skip(i + 1))).contains(j) by {
        let k = choose|k: int|
            #![trigger ids.skip(i)[k]]
            0 <= k < ids.skip(i).len() && reach(nodes, ids.skip(i)[k] as int).contains(j);
        if k > 0 {
            assert(reach(nodes, ids.skip(i + 1)[k - 1] as int).contains(j));
        }
    }
    assert forall|j: int| reach(nodes, ids[i] as int).union(reach_all(nodes, ids.skip(i + 1))).contains(
        j,
    ) implies reach_all(nodes, ids.skip(i)).contains(j) by {
        if reach(nodes, ids[i] as int).contains(j) {
            assert(reach(nodes, ids.skip(i)[0] as int).contains(j));
        } else {
            let k = choose|k: int|
                #![trigger ids.skip(i + 1)[k]]
                0 <= k < ids.skip(i + 1).len() && reach(nodes, ids.skip(i + 1)[k] as int).contains(
                    j,
                );
            assert(reach(nodes, ids.skip(i)[k + 1] as int).contains(j));
        }
    }
}

/// A node that is not a directory reaches itself alone.
pub proof fn lemma_reach_leaf(nodes: Seq<Node>, i: int)
    requires
        !(0 <= i < nodes.len() && nodes[i] is Dir),
    ensures
        reach(nodes, i) =~= set![i],
{
}

/// A well-formed directory reaches itself and everything its children reach.
pub proof fn lemma_reach_dir(nodes: Seq<Node>, i: int)
    requires
        0 <= i < nodes.len(),
        nodes[i] is Dir,
        node_wf(nodes, i),
    ensures
        reach(nodes, i) =~= set![i].union(
            reach_all(nodes, (nodes[i]->Dir_children)@),
        ),
{
    let children = nodes[i]->Dir_children;
    assert forall|j: int| reach(nodes, i).contains(j) implies set![i].union(
        reach_all(nodes, children@),
    ).contains(j) by {
        if j != i {
            let k = choose|k: int|
                #![trigger children@[k]]
                0 <= k < children@.len() && i < children@[k] as int && (children@[k] as int)
                    < nodes.len() && reach(nodes, children@[k] as int).contains(j);
            assert(reach(nodes, children@[k] as int).contains(j));
            assert(reach_all(nodes, children@).contains(j));
        }
    }
    assert forall|j: int| set![i].union(reach_all(nodes, children@)).contains(j) implies reach(
        nodes,
        i,
    ).contains(j) by {
        if j != i {
            let k = choose|k: int|
                #![trigger children@[k]]
                0 <= k < children@.len() && reach(nodes, children@[k] as int).contains(j);
        }
    }
}

/// Each listed id's whole reach lies inside the list's reach.
pub proof fn lemma_reach_all_member(nodes: Seq<Node>, ids: Seq<usize>, k: int)
    requires
        0 <= k < ids.len(),
    ensures
        reach(nodes, ids[k] as int).subset_of(reach_all(nodes, ids)),
{
    assert forall|j: int| reach(nodes, ids[k] as int).contains(j) implies reach_all(
        nodes,
        ids,
    ).contains(j) by {}
}

/// An empty list reaches nothing, so every traversal predicate is vacuous
/// on it.
pub proof fn lemma_derived_empty(nodes: Seq<Node>, t: u64)
    ensures
        reach_all(nodes, Seq::<usize>::empty()) =~= Set::<int>::empty(),
        reachable_files(nodes, Seq::<usize>::empty()) =~= Set::<int>::empty(),
        !blocked(nodes, Seq::<usize>::empty()),
        !meta_blocked(nodes, Seq::<usize>::empty()),
        !newer_than(nodes, Seq::<usize>::empty(), t),
{
    assert forall|j: int| !reach_all(nodes, Seq::<usize>::empty()).contains(j) by {}
}

/// Appending an id to a list decomposes every traversal predicate into the
/// list's part and the new id's part.
pub proof fn lemma_derived_push(nodes: Seq<Node>, ids: Seq<usize>, x: usize, t: u64)
    ensures
        reachable_files(nodes, ids.push(x)) =~= reachable_files(nodes, ids).union(
            reach_files(nodes, x as int),
        ),
        blocked(nodes, ids.push(x)) == (blocked(nodes, ids) || blocked_from(nodes, x as int)),
        meta_blocked(nodes, ids.push(x)) == (meta_blocked(nodes, ids) || meta_blocked_from(
            nodes,
            x as int,
        )),
        newer_than(nodes, ids.push(x), t) == (newer_than(nodes, ids, t) || newer_from(
            nodes,
            x as int,
            t,
        )),
{
    lemma_reach_all_push(nodes, ids, x);
    if blocked(nodes, ids.push(x)) {
        let j = choose|j: int|
            #[trigger] reach_all(nodes, ids.push(x)).contains(j) && unreadable_at(nodes, j);
        if !reach_all(nodes, ids).contains(j) {
            assert(reach(nodes, x as int).contains(j));
        }
    }
    if blocked(nodes, ids) {
        let j = choose|j: int|
            #[trigger] reach_all(nodes, ids).contains(j) && unreadable_at(nodes, j);
        assert(reach_all(nodes, ids.push(x)).contains(j));
    }
    if blocked_from(nodes, x as int) {
        let j = choose|j: int|
            #[trigger] reach(nodes, x as int).contains(j) && unreadable_at(nodes, j);
        assert(reach_all(nodes, ids.push(x)).contains(j));
    }
    if meta_blocked(nodes, ids.push(x)) {
        let j = choose|j: int|
            #[trigger] reach_all(nodes, ids.push(x)).contains(j) && unknown_mtime_at(nodes, j);
        if !reach_all(nodes, ids).contains(j) {
            assert(reach(nodes, x as int).contains(j));
        }
    }
    if meta_blocked(nodes, ids) {
        let j = choose|j: int|
            #[trigger] reach_all(nodes, ids).contains(j) && unknown_mtime_at(nodes, j);
        assert(reach_all(nodes, ids.push(x)).contains(j));
    }
    if meta_blocked_from(nodes, x as int) {
        let j = choose|j: int|
            #[trigger] reach(nodes, x as int).contains(j) && unknown_mtime_at(nodes, j);
        assert(reach_all(nodes, ids.push(x)).contains(j));
    }
    if newer_than(nodes, ids.push(x), t) {
        let j = choose|j: int|
            #[trigger] reach_all(nodes, ids.push(x)).contains(j) && newer_at(nodes, j, t);
        if !reach_all(nodes, ids).contains(j) {
            assert(reach(nodes, x as int).contains(j));
        }
    }
    if newer_than(nodes, ids, t) {
        let j = choose|j: int|
            #[trigger] reach_all(nodes, ids).contains(j) && newer_at(nodes, j, t);
        assert(reach_all(nodes, ids.push(x)).contains(j));
    }
    if newer_from(nodes, x as int, t) {
        let j = choose|j: int|
            #[trigger] reach(nodes, x as int).contains(j) && newer_at(nodes, j, t);
        assert(reach_all(nodes, ids.push(x)).contains(j));
    }
}

/// Splitting off the head of a suffix decomposes every traversal predicate
/// into the head's part and the shorter suffix's part.
pub proof fn lemma_derived_skip(nodes: Seq<Node>, ids: Seq<usize>, i: int, t: u64)
    requires
        0 <= i < ids.len(),
    ensures
        reachable_files(nodes, ids.skip(i)) =~= reach_files(nodes, ids[i] as int).union(
            reachable_files(nodes, ids.skip(i + 1)),
        ),
        blocked(nodes, ids.skip(i)) == (blocked_from(nodes, ids[i] as int) || blocked(
            nodes,
            ids.skip(i + 1),
        )),
        meta_blocked(nodes, ids.skip(i)) == (meta_blocked_from(nodes, ids[i] as int)
            || meta_blocked(nodes, ids.skip(i + 1))),
        newer_than(nodes, ids.skip(i), t) == (newer_from(nodes, ids[i] as int, t) || newer_than(
            nodes,
            ids.skip(i + 1),
            t,
        )),
{
    lemma_reach_all_skip(nodes, ids, i);
    if blocked(nodes, ids.skip(i)) {
        let j = choose|j: int|
            #[trigger] reach_all(nodes, ids.skip(i)).contains(j) && unreadable_at(nodes, j);
        if !reach(nodes, ids[i] as int).contains(j) {
            assert(reach_all(nodes, ids.skip(i + 1)).contains(j));
        }
    }
    if blocked(nodes, ids.skip(i + 1)) {
        let j = choose|j: int|
            #[trigger] reach_all(nodes, ids.skip(i + 1)).contains(j) && unreadable_at(nodes, j);
        assert(reach_all(nodes, ids.skip(i)).contains(j));
    }
    if blocked_from(nodes, ids[i] as int) {
        let j = choose|j: int|
            #[trigger] reach(nodes, ids[i] as int).contains(j) && unreadable_at(nodes, j);
        assert(reach_all(nodes, ids.skip(i)).contains(j));
    }
    if meta_blocked(nodes, ids.skip(i)) {
        let j = choose|j: int|
            #[trigger] reach_all(nodes, ids.skip(i)).contains(j) && unknown_mtime_at(nodes, j);
        if !reach(nodes, ids[i] as int).contains(j) {
            assert(reach_all(nodes, ids.skip(i + 1)).contains(j));
        }
    }
    if meta_blocked(nodes, ids.skip(i + 1)) {
        let j = choose|j: int|
            #[trigger] reach_all(nodes, ids.skip(i + 1)).contains(j) && unknown_mtime_at(nodes, j);
        assert(reach_all(nodes, ids.skip(i)).contains(j));
    }
    if meta_blocked_from(nodes, ids[i] as int) {
        let j = choose|j: int|
            #[trigger] reach(nodes, ids[i] as int).contains(j) && unknown_mtime_at(nodes, j);
        assert(reach_all(nodes, ids.skip(i)).contains(j));
    }
    if newer_than(nodes, ids.skip(i), t) {
        let j = choose|j: int|
            #[trigger] reach_all(nodes, ids.skip(i)).contains(j) && newer_at(nodes, j, t);
        if !reach(nodes, ids[i] as int).contains(j) {
            assert(reach_all(nodes, ids.skip(i + 1)).contains(j));
        }
    }
    if newer_than(nodes, ids.skip(i + 1), t) {
        let j = choose|j: int|
            #[trigger] reach_all(nodes, ids.skip(i + 1)).contains(j) && newer_at(nodes, j, t);
        assert(reach_all(nodes, ids.skip(i)).contains(j));
    }
    if newer_from(nodes, ids[i] as int, t) {
        let j = choose|j: int|
            #[trigger] reach(nodes, ids[i] as int).contains(j) && newer_at(nodes, j, t);
        assert(reach_all(nodes, ids.skip(i)).contains(j));
    }
}

/// On a node that is not a directory every traversal predicate reduces to a
/// fact about that node alone.
pub proof fn lemma_derived_leaf(nodes: Seq<Node>, i: int, t: u64)
    requires
        0 <= i < nodes.len(),
        !(nodes[i] is Dir),
    ensures
        reach_files(nodes, i) =~= if nodes[i] is File {
            set![i]
        } else {
            Set::<int>::empty()
        },
        blocked_from(nodes, i) == nodes[i] is UnreadableDir,
        meta_blocked_from(nodes, i) == unknown_mtime_at(nodes, i),
        newer_from(nodes, i, t) == newer_at(nodes, i, t),
{
    lemma_reach_leaf(nodes, i);
    assert(reach(nodes, i).contains(i));
    if blocked_from(nodes, i) {
        let j = choose|j: int| #[trigger] reach(nodes, i).contains(j) && unreadable_at(nodes, j);
        assert(j == i);
    }
    if meta_blocked_from(nodes, i) {
        let j = choose|j: int| #[trigger] reach(nodes, i).contains(j) && unknown_mtime_at(nodes, j);
        assert(j == i);
    }
    if newer_from(nodes, i, t) {
        let j = choose|j: int| #[trigger] reach(nodes, i).contains(j) && newer_at(nodes, j, t);
        assert(j == i);
    }
}

/// On a well-formed directory every traversal predicate reduces to the same
/// predicate over its children.
pub proof fn lemma_derived_dir(nodes: Seq<Node>, d: int, t: u64)
    requires
        0 <= d < nodes.len(),
        nodes[d] is Dir,
        node_wf(nodes, d),
    ensures
        reach_files(nodes, d) =~= reachable_files(nodes, (nodes[d]->Dir_children)@),
        blocked_from(nodes, d) == blocked(nodes, (nodes[d]->Dir_children)@),
        meta_blocked_from(nodes, d) == meta_blocked(nodes, (nodes[d]->Dir_children)@),
        newer_from(nodes, d, t) == newer_than(nodes, (nodes[d]->Dir_children)@, t),
{
    let children = (nodes[d]->Dir_children)@;
    lemma_reach_dir(nodes, d);
    assert forall|j: int| reach_files(nodes, d).contains(j) implies reachable_files(
        nodes,
        children,
    ).contains(j) by {
        assert(j != d);
        assert(reach_all(nodes, children).contains(j));
    }
    assert forall|j: int| reachable_files(nodes, children).contains(j) implies reach_files(
        nodes,
        d,
    ).contains(j) by {
        assert(reach(nodes, d).contains(j));
    }
    if blocked_from(nodes, d) {
        let j = choose|j: int| #[trigger] reach(nodes, d).contains(j) && unreadable_at(nodes, j);
        assert(j != d);
        assert(reach_all(nodes, children).contains(j));
    }
    if blocked(nodes, children) {
        let j = choose|j: int|
            #[trigger] reach_all(nodes, children).contains(j) && unreadable_at(nodes, j);
        assert(reach(nodes, d).contains(j));
    }
    if meta_blocked_from(nodes, d) {
        let j = choose|j: int| #[trigger] reach(nodes, d).contains(j) && unknown_mtime_at(nodes, j);
        assert(j != d);
        assert(reach_all(nodes, children).contains(j));
    }
    if meta_blocked(nodes, children) {
        let j = choose|j: int|
            #[trigger] reach_all(nodes, children).contains(j) && unknown_mtime_at(nodes, j);
        assert(reach(nodes, d).contains(j));
    }
    if newer_from(nodes, d, t) {
        let j = choose|j: int| #[trigger] reach(nodes, d).contains(j) && newer_at(nodes, j, t);
        assert(j != d);
        assert(reach_all(nodes, children).contains(j));
    }
    if newer_than(nodes, children, t) {
        let j = choose|j: int|
            #[trigger] reach_all(nodes, children).contains(j) && newer_at(nodes, j, t);
        assert(reach(nodes, d).contains(j));
    }
}

/// Appending an id to a list grows its measure by exactly that node's size.
pub proof fn lemma_list_size_push(nodes: Seq<Node>, parent: int, ids: Seq<usize>, x: usize)
    requires
        parent < x as int,
        (x as int) < nodes.len(),
    ensures
        list_size(nodes, parent, ids.push(x)) == list_size(nodes, parent, ids) + node_size(
            nodes,
            x as int,
        ),
    decreases ids.len(),
{
    if ids.len() == 0 {
        assert(ids.push(x).drop_first() =~= ids);
    } else {
        assert(ids.push(x).drop_first() =~= ids.drop_first().push(x));
        lemma_list_size_push(nodes, parent, ids.drop_first(), x);
    }
}

/// The measure of a list does not depend on which parent it hangs from, as
/// long as every entry lies beyond both.
pub proof fn lemma_list_size_widen(nodes: Seq<Node>, p1: int, p2: int, ids: Seq<usize>)
    requires
        forall|k: int|
            #![trigger ids[k]]
            0 <= k < ids.len() ==> p1 < ids[k] as int && p2 < ids[k] as int && (ids[k] as int)
                < nodes.len(),
    ensures
        list_size(nodes, p1, ids) == list_size(nodes, p2, ids),
    decreases ids.len(),
{
    if ids.len() > 0 {
        assert(ids[0] == ids[0]);
        lemma_list_size_widen(nodes, p1, p2, ids.drop_first());
    }
}

/// Where the first declared absent path sits, given what a scan saw.
pub proof fn lemma_first_missing_at(nodes: Seq<Node>, ids: Seq<usize>, k: int)
    requires
        0 <= k < ids.len(),
        missing_at(nodes, ids[k] as int),
        forall|j: int|
            #![trigger ids[j]]
            0 <= j < k ==> !missing_at(nodes, ids[j] as int),
    ensures
        first_missing(nodes, ids) == k,
    decreases k,
{
    if k > 0 {
        lemma_first_missing_at(nodes, ids.drop_first(), k - 1);
    }
}

/// A scan that saw no absent path pins the first-missing position to -1.
pub proof fn lemma_first_missing_none(nodes: Seq<Node>, ids: Seq<usize>)
    requires
        forall|j: int|
            #![trigger ids[j]]
            0 <= j < ids.len() ==> !missing_at(nodes, ids[j] as int),
    ensures
        first_missing(nodes, ids) == -1,
        !has_missing(nodes, ids),
    decreases ids.len(),
{
    if ids.len() > 0 {
        lemma_first_missing_none(nodes, ids.drop_first());
    }
}

} // verus!
