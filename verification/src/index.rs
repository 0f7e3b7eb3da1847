use vstd::prelude::*;
use crate::error::FsError;
use crate::order::{lemma_seq_lt_total, lemma_seq_lt_transitive, seq_lt, str_lt};
use crate::path::{lemma_seg_views_push, seg_views, valid_segment, valid_segments};

verus! {

/// What a path of an archive index names.
#[derive(Clone, Copy, Debug, PartialEq, Eq, Structural)]
pub enum NodeKind {
    /// A directory.
    Dir,
    /// A file of `len` bytes, whose contents are found under `slot`.
    File { slot: usize, len: u64 },
}

/// One path of an archive index.
pub struct IndexNode {
    /// The segments of the normalized path.
    pub segments: Vec<String>,
    pub kind: NodeKind,
}

/// The map from normalized paths to what they name, built from a list of
/// nodes (a later node overrides an earlier one with the same path).
pub open spec fn node_map(nodes: Seq<(Seq<Seq<char>>, NodeKind)>) -> Map<Seq<Seq<char>>, NodeKind>
    decreases nodes.len(),
{
    if nodes.len() == 0 {
        Map::empty()
    } else {
        node_map(nodes.drop_last()).insert(nodes.last().0, nodes.last().1)
    }
}

/// No two nodes share a path.
pub open spec fn distinct_paths(nodes: Seq<(Seq<Seq<char>>, NodeKind)>) -> bool {
    forall|i: int, j: int| 0 <= i < nodes.len() && 0 <= j < nodes.len() && i != j ==> nodes[i].0 != nodes[j].0
}

/// The shape every archive index keeps: the root is a directory, the parent of
/// every path is a directory, and every path is made of valid segments.
pub open spec fn index_shape(m: Map<Seq<Seq<char>>, NodeKind>) -> bool {
    &&& m.contains_key(Seq::empty())
    &&& m[Seq::empty()] == NodeKind::Dir
    &&& forall|p: Seq<Seq<char>>| #[trigger] m.contains_key(p) ==> valid_segments(p)
    &&& forall|p: Seq<Seq<char>>|
        #[trigger] m.contains_key(p) && p.len() > 0 ==> m.contains_key(p.drop_last())
            && m[p.drop_last()] == NodeKind::Dir
}

pub proof fn lemma_node_map_push(nodes: Seq<(Seq<Seq<char>>, NodeKind)>, n: (Seq<Seq<char>>, NodeKind))
    ensures
        node_map(nodes.push(n)) == node_map(nodes).insert(n.0, n.1),
{
    assert(nodes.push(n).drop_last() =~= nodes);
}

/// A path is in the map exactly when some node carries it.
pub proof fn lemma_node_map_keys(nodes: Seq<(Seq<Seq<char>>, NodeKind)>, p: Seq<Seq<char>>)
    ensures
        node_map(nodes).contains_key(p) <==> exists|i: int| 0 <= i < nodes.len() && nodes[i].0 == p,
    decreases nodes.len(),
{
    if nodes.len() > 0 {
        let init = nodes.drop_last();
        lemma_node_map_keys(init, p);
        if node_map(nodes).contains_key(p) && p != nodes.last().0 {
            let i = choose|i: int| 0 <= i < init.len() && init[i].0 == p;
            assert(nodes[i] == init[i]);
        }
        if exists|i: int| 0 <= i < nodes.len() && nodes[i].0 == p {
            let i = choose|i: int| 0 <= i < nodes.len() && nodes[i].0 == p;
            if i < nodes.len() - 1 {
                assert(init[i] == nodes[i]);
            }
        }
    }
}

/// With distinct paths, every node's kind is what the map gives for its path.
pub proof fn lemma_node_map_value(nodes: Seq<(Seq<Seq<char>>, NodeKind)>, i: int)
    requires
        distinct_paths(nodes),
        0 <= i < nodes.len(),
    ensures
        node_map(nodes).contains_key(nodes[i].0),
        node_map(nodes)[nodes[i].0] == nodes[i].1,
    decreases nodes.len(),
{
    let init = nodes.drop_last();
    if i < nodes.len() - 1 {
        assert(distinct_paths(init)) by {
            assert forall|a: int, b: int| 0 <= a < init.len() && 0 <= b < init.len() && a != b implies init[a].0 != init[b].0 by {
                assert(init[a] == nodes[a] && init[b] == nodes[b]);
            }
        }
        assert(init[i] == nodes[i]);
        lemma_node_map_value(init, i);
        assert(nodes[i].0 != nodes[nodes.len() - 1].0);
    }
}

/// Replacing the kind of one node of distinct paths updates the map at that path.
pub proof fn lemma_node_map_update(nodes: Seq<(Seq<Seq<char>>, NodeKind)>, i: int, k: NodeKind)
    requires
        distinct_paths(nodes),
        0 <= i < nodes.len(),
    ensures
        node_map(nodes.update(i, (nodes[i].0, k))) == node_map(nodes).insert(nodes[i].0, k),
    decreases nodes.len(),
{
    let init = nodes.drop_last();
    let upd = nodes.update(i, (nodes[i].0, k));
    if i == nodes.len() - 1 {
        assert(upd.drop_last() =~= init);
        assert(node_map(upd) == node_map(init).insert(nodes[i].0, k));
        assert(node_map(nodes) == node_map(init).insert(nodes[i].0, nodes[i].1));
        assert(node_map(upd) =~= node_map(nodes).insert(nodes[i].0, k));
    } else {
        assert(distinct_paths(init)) by {
            assert forall|a: int, b: int| 0 <= a < init.len() && 0 <= b < init.len() && a != b implies init[a].0 != init[b].0 by {
                assert(init[a] == nodes[a] && init[b] == nodes[b]);
            }
        }
        assert(init[i] == nodes[i]);
        lemma_node_map_update(init, i, k);
        assert(upd.drop_last() =~= init.update(i, (nodes[i].0, k)));
        assert(upd.last() == nodes.last());
        assert(nodes[i].0 != nodes.last().0);
        assert(node_map(upd) =~= node_map(nodes).insert(nodes[i].0, k));
    }
}

/// Two segment lists are equal.
pub fn segments_equal(a: &Vec<String>, b: &Vec<String>) -> (r: bool)
    ensures
        r == (seg_views(a@) == seg_views(b@)),
{
    if a.len() != b.len() {
        assert(seg_views(a@).len() != seg_views(b@).len());
        return false;
    }
    let mut i: usize = 0;
    while i < a.len()
        invariant
            a@.len() == b@.len(),
            i <= a@.len(),
            forall|j: int| 0 <= j < i ==> a@[j]@ == b@[j]@,
        decreases a@.len() - i,
    {
        if a[i] != b[i] {
            assert(seg_views(a@)[i as int] != seg_views(b@)[i as int]);
            return false;
        }
        i = i + 1;
    }
    assert(seg_views(a@) =~= seg_views(b@));
    true
}

/// Copies the first `k` segments.
pub fn segments_prefix(a: &Vec<String>, k: usize) -> (r: Vec<String>)
    requires
        k <= a@.len(),
    ensures
        seg_views(r@) == seg_views(a@).take(k as int),
{
    let mut r: Vec<String> = Vec::new();
    let mut i: usize = 0;
    while i < k
        invariant
            k <= a@.len(),
            i <= k,
            seg_views(r@) == seg_views(a@).take(i as int),
        decreases k - i,
    {
        let ghost before = r@;
        let s = a[i].clone();
        r.push(s);
        proof {
            assert(r@ == before.push(s));
            lemma_seg_views_push(before, s);
            assert(s@ == a@[i as int]@);
            assert(seg_views(a@).take(i + 1) =~= seg_views(a@).take(i as int).push(a@[i as int]@));
        }
        i = i + 1;
    }
    r
}

/// The first `n + 1` prefixes of `s` (from the root up to `s.take(n)`), as
/// directories.
pub open spec fn prefix_dirs(s: Seq<Seq<char>>, n: int) -> Map<Seq<Seq<char>>, NodeKind> {
    Map::new(|p: Seq<Seq<char>>| exists|t: int| 0 <= t <= n && p == s.take(t), |p: Seq<Seq<char>>| NodeKind::Dir)
}

/// `m` with every missing ancestor-or-self of `s` added as a directory.
pub open spec fn with_dirs(m: Map<Seq<Seq<char>>, NodeKind>, s: Seq<Seq<char>>) -> Map<Seq<Seq<char>>, NodeKind> {
    prefix_dirs(s, s.len() as int).union_prefer_right(m)
}

/// Some non-root ancestor-or-self of `s` is a file in `m`.
pub open spec fn file_on_path(m: Map<Seq<Seq<char>>, NodeKind>, s: Seq<Seq<char>>) -> bool {
    exists|k: int| 1 <= k <= s.len() && #[trigger] m.contains_key(s.take(k)) && m[s.take(k)] is File
}

/// In a well-shaped index, once a prefix of `s` is missing, every longer
/// prefix is missing too.
pub proof fn lemma_missing_prefix(m: Map<Seq<Seq<char>>, NodeKind>, s: Seq<Seq<char>>, a: int, b: int)
    requires
        index_shape(m),
        0 <= a <= b <= s.len(),
        !m.contains_key(s.take(a)),
    ensures
        !m.contains_key(s.take(b)),
    decreases b - a,
{
    if a < b {
        lemma_missing_prefix(m, s, a, b - 1);
        assert(s.take(b).drop_last() =~= s.take(b - 1));
        assert(s.take(b).len() > 0);
    }
}

/// Taking a prefix of valid segments gives valid segments.
pub proof fn lemma_take_valid(s: Seq<Seq<char>>, k: int)
    requires
        valid_segments(s),
        0 <= k <= s.len(),
    ensures
        valid_segments(s.take(k)),
{
    assert forall|i: int| 0 <= i < s.take(k).len() implies valid_segment(#[trigger] s.take(k)[i]) by {
        assert(s.take(k)[i] == s[i]);
    }
}

/// Adding the next prefix extends the prefix directories by one path.
proof fn lemma_prefix_dirs_step(m: Map<Seq<Seq<char>>, NodeKind>, s: Seq<Seq<char>>, k: int)
    requires
        0 <= k < s.len(),
    ensures
        prefix_dirs(s, k + 1).union_prefer_right(m) == prefix_dirs(s, k).union_prefer_right(m).insert(
            s.take(k + 1),
            if m.contains_key(s.take(k + 1)) { m[s.take(k + 1)] } else { NodeKind::Dir },
        ),
{
    let lhs = prefix_dirs(s, k + 1).union_prefer_right(m);
    let rhs = prefix_dirs(s, k).union_prefer_right(m).insert(
        s.take(k + 1),
        if m.contains_key(s.take(k + 1)) { m[s.take(k + 1)] } else { NodeKind::Dir },
    );
    assert forall|p: Seq<Seq<char>>| lhs.contains_key(p) <==> rhs.contains_key(p) by {
        if prefix_dirs(s, k + 1).contains_key(p) && p != s.take(k + 1) {
            let t = choose|t: int| 0 <= t <= k + 1 && p == s.take(t);
            assert(t != k + 1);
            assert(prefix_dirs(s, k).contains_key(p));
        }
        if prefix_dirs(s, k).contains_key(p) {
            let t = choose|t: int| 0 <= t <= k && p == s.take(t);
            assert(prefix_dirs(s, k + 1).contains_key(p));
        }
        if p == s.take(k + 1) {
            assert(prefix_dirs(s, k + 1).contains_key(p));
        }
    }
    assert(lhs =~= rhs);
}

/// After adding the missing ancestors of a path without files on it, the path
/// itself is a directory.
pub proof fn lemma_with_dirs_has_path(m: Map<Seq<Seq<char>>, NodeKind>, s: Seq<Seq<char>>)
    requires
        index_shape(m),
        !file_on_path(m, s),
    ensures
        with_dirs(m, s).contains_key(s),
        with_dirs(m, s)[s] == NodeKind::Dir,
{
    assert(s.take(s.len() as int) =~= s);
    assert(prefix_dirs(s, s.len() as int).contains_key(s));
    if m.contains_key(s) {
        if s.len() > 0 {
            assert(m.contains_key(s.take(s.len() as int)));
            assert(!(m[s.take(s.len() as int)] is File));
        } else {
            assert(s =~= Seq::<Seq<char>>::empty());
        }
    }
}

/// In a well-shaped index, a path that is a file or is missing is nobody's
/// parent.
pub proof fn lemma_not_a_parent(m: Map<Seq<Seq<char>>, NodeKind>, s: Seq<Seq<char>>, q: Seq<Seq<char>>)
    requires
        index_shape(m),
        !m.contains_key(s) || m[s] is File,
        m.contains_key(q),
        q.len() > 0,
    ensures
        q.drop_last() != s,
{
}

/// `q` is a child of directory `d` in `m`.
pub open spec fn is_child(m: Map<Seq<Seq<char>>, NodeKind>, d: Seq<Seq<char>>, q: Seq<Seq<char>>) -> bool {
    &&& m.contains_key(q)
    &&& q.len() > 0
    &&& q.drop_last() == d
}

/// A path found in a directory, with what it names.
pub struct ChildEntry {
    /// The segments of the child's normalized path.
    pub segments: Vec<String>,
    pub kind: NodeKind,
}

/// The normalized path of each entry.
pub open spec fn entry_paths(r: Seq<ChildEntry>) -> Seq<Seq<Seq<char>>> {
    r.map_values(|e: ChildEntry| seg_views(e.segments@))
}

/// Entries are listed by strictly increasing name.
pub open spec fn sorted_by_name(paths: Seq<Seq<Seq<char>>>) -> bool {
    forall|i: int, j: int| 0 <= i < j < paths.len() ==> seq_lt(#[trigger] paths[i].last(), #[trigger] paths[j].last())
}

/// Two children of one directory with the same name are the same path.
pub proof fn lemma_child_name_determines_path(d: Seq<Seq<char>>, q1: Seq<Seq<char>>, q2: Seq<Seq<char>>)
    requires
        q1.len() > 0,
        q2.len() > 0,
        q1.drop_last() == d,
        q2.drop_last() == d,
        q1.last() == q2.last(),
    ensures
        q1 == q2,
{
    assert(q1 =~= d.push(q1.last()));
    assert(q2 =~= d.push(q2.last()));
}

/// `seg` is `dir` followed by exactly one more segment.
fn is_child_path(seg: &Vec<String>, dir: &Vec<String>) -> (r: bool)
    ensures
        r == (seg_views(seg@).len() > 0 && seg_views(seg@).drop_last() == seg_views(dir@)),
{
    if seg.len() == 0 || seg.len() - 1 != dir.len() {
        proof {
            if seg_views(seg@).len() > 0 && seg_views(seg@).drop_last() == seg_views(dir@) {
                assert(seg_views(seg@).drop_last().len() == seg@.len() - 1);
            }
        }
        return false;
    }
    let mut i: usize = 0;
    while i < dir.len()
        invariant
            seg@.len() == dir@.len() + 1,
            i <= dir@.len(),
            forall|j: int| 0 <= j < i ==> seg@[j]@ == dir@[j]@,
        decreases dir@.len() - i,
    {
        if seg[i] != dir[i] {
            assert(seg_views(seg@).drop_last()[i as int] != seg_views(dir@)[i as int]);
            return false;
        }
        i = i + 1;
    }
    assert(seg_views(seg@).drop_last() =~= seg_views(dir@));
    true
}

/// An index from normalized paths to directories and files.
pub struct ArchiveIndex {
    nodes: Vec<IndexNode>,
}

impl ArchiveIndex {
    /// The view of the nodes: path and kind of each.
    pub closed spec fn node_views(&self) -> Seq<(Seq<Seq<char>>, NodeKind)> {
        self.nodes@.map_values(|n: IndexNode| (seg_views(n.segments@), n.kind))
    }

    /// What each path of the index names.
    pub closed spec fn model(&self) -> Map<Seq<Seq<char>>, NodeKind> {
        node_map(self.node_views())
    }

    /// The index is well formed.
    pub closed spec fn wf(&self) -> bool {
        &&& distinct_paths(self.node_views())
        &&& index_shape(self.model())
    }

    /// A well-formed index has the shape of a tree.
    pub proof fn lemma_wf_shape(&self)
        requires
            self.wf(),
        ensures
            index_shape(self.model()),
    {
    }

    /// An index holding only the root directory.
    pub fn new() -> (r: Self)
        ensures
            r.wf(),
            r.model() == Map::<Seq<Seq<char>>, NodeKind>::empty().insert(Seq::empty(), NodeKind::Dir),
    {
        let root = IndexNode { segments: Vec::new(), kind: NodeKind::Dir };
        let mut nodes: Vec<IndexNode> = Vec::new();
        nodes.push(root);
        let r = ArchiveIndex { nodes };
        proof {
            let v = r.node_views();
            assert(v.len() == 1);
            assert(seg_views(r.nodes@[0].segments@) =~= Seq::<Seq<char>>::empty());
            assert(v.drop_last() =~= Seq::<(Seq<Seq<char>>, NodeKind)>::empty());
            assert(v.last() == (seg_views(r.nodes@[0].segments@), NodeKind::Dir));
            assert(v.last().0 =~= Seq::<Seq<char>>::empty());
            assert(node_map(Seq::<(Seq<Seq<char>>, NodeKind)>::empty()) == Map::<Seq<Seq<char>>, NodeKind>::empty());
            assert(r.model() =~= Map::<Seq<Seq<char>>, NodeKind>::empty().insert(Seq::empty(), NodeKind::Dir));
            assert(valid_segments(Seq::<Seq<char>>::empty()));
        }
        r
    }

    /// The position of the node with the given path, if any.
    fn find(&self, segs: &Vec<String>) -> (r: Option<usize>)
        requires
            self.wf(),
        ensures
            match r {
                Some(i) => i < self.node_views().len() && self.node_views()[i as int].0 == seg_views(segs@)
                    && self.model().contains_key(seg_views(segs@))
                    && self.model()[seg_views(segs@)] == self.node_views()[i as int].1,
                None => !self.model().contains_key(seg_views(segs@)),
            },
    {
        let mut i: usize = 0;
        while i < self.nodes.len()
            invariant
                self.wf(),
                i <= self.nodes@.len(),
                self.node_views().len() == self.nodes@.len(),
                forall|j: int| 0 <= j < i ==> self.node_views()[j].0 != seg_views(segs@),
            decreases self.nodes@.len() - i,
        {
            if segments_equal(&self.nodes[i].segments, segs) {
                proof {
                    lemma_node_map_value(self.node_views(), i as int);
                }
                return Some(i);
            }
            i = i + 1;
        }
        proof {
            lemma_node_map_keys(self.node_views(), seg_views(segs@));
        }
        None
    }

    /// What the given normalized path names, if anything.
    pub fn get(&self, segs: &Vec<String>) -> (r: Option<NodeKind>)
        requires
            self.wf(),
        ensures
            match r {
                Some(k) => self.model().contains_key(seg_views(segs@)) && self.model()[seg_views(segs@)] == k,
                None => !self.model().contains_key(seg_views(segs@)),
            },
    {
        match self.find(segs) {
            Some(i) => Some(self.nodes[i].kind),
            None => None,
        }
    }

    /// Pushes a node whose path is not in the index yet.
    fn push_new(&mut self, segs: Vec<String>, kind: NodeKind)
        requires
            distinct_paths(old(self).node_views()),
            !old(self).model().contains_key(seg_views(segs@)),
        ensures
            distinct_paths(final(self).node_views()),
            final(self).model() == old(self).model().insert(seg_views(segs@), kind),
    {
        let ghost p = seg_views(segs@);
        let ghost before = self.node_views();
        proof {
            lemma_node_map_keys(before, p);
        }
        self.nodes.push(IndexNode { segments: segs, kind });
        proof {
            assert(self.node_views() =~= before.push((p, kind)));
            lemma_node_map_push(before, (p, kind));
            assert forall|i: int, j: int|
                0 <= i < self.node_views().len() && 0 <= j < self.node_views().len() && i != j implies
                self.node_views()[i].0 != self.node_views()[j].0 by {
                if i < before.len() && j < before.len() {
                    assert(self.node_views()[i] == before[i] && self.node_views()[j] == before[j]);
                } else if i < before.len() {
                    assert(self.node_views()[i] == before[i]);
                } else if j < before.len() {
                    assert(self.node_views()[j] == before[j]);
                }
            }
        }
    }

    /// Makes sure that the given normalized path and all its ancestors are
    /// directories, adding the missing ones.
    ///
    /// Fails with `InvalidData`, changing nothing, when the path or one of its
    /// ancestors is a file.
    pub fn ensure_dir(&mut self, segs: &Vec<String>) -> (r: Result<(), FsError>)
        requires
            old(self).wf(),
            valid_segments(seg_views(segs@)),
        ensures
            final(self).wf(),
            match r {
                Ok(()) => !file_on_path(old(self).model(), seg_views(segs@))
                    && final(self).model() == with_dirs(old(self).model(), seg_views(segs@)),
                Err(e) => e == FsError::InvalidData && file_on_path(old(self).model(), seg_views(segs@))
                    && final(self).model() == old(self).model(),
            },
    {
        let ghost s = seg_views(segs@);
        let ghost m = self.model();
        let n = segs.len();
        let mut j: usize = 0;
        let mut missing = false;
        proof {
            assert(s.take(0) =~= Seq::<Seq<char>>::empty());
        }
        while j < n && !missing
            invariant
                self.wf(),
                self.model() == m,
                s == seg_views(segs@),
                n == s.len(),
                j <= n,
                forall|t: int| 0 <= t <= j ==> #[trigger] m.contains_key(s.take(t)),
                forall|t: int| 0 <= t <= j ==> #[trigger] m[s.take(t)] == NodeKind::Dir,
                missing ==> j < n && !m.contains_key(s.take(j + 1)),
            decreases n - j, (if missing { 0int } else { 1int }),
        {
            let pre = segments_prefix(segs, j + 1);
            match self.get(&pre) {
                Some(NodeKind::Dir) => {
                    assert(m.contains_key(s.take(j + 1)) && m[s.take(j + 1)] == NodeKind::Dir);
                    j = j + 1;
                },
                Some(NodeKind::File { .. }) => {
                    assert(m.contains_key(s.take(j + 1)) && m[s.take(j + 1)] is File);
                    return Err(FsError::InvalidData);
                },
                None => {
                    missing = true;
                },
            }
        }
        // Every prefix up to `j` is a directory; the longer ones are missing.
        proof {
            if missing {
                assert forall|t: int| j + 1 <= t <= n implies !m.contains_key(#[trigger] s.take(t)) by {
                    lemma_missing_prefix(m, s, j + 1, t);
                }
            }
            assert(!file_on_path(m, s)) by {
                if file_on_path(m, s) {
                    let k = choose|k: int| 1 <= k <= s.len() && #[trigger] m.contains_key(s.take(k)) && m[s.take(k)] is File;
                    if k > j {
                        assert(missing);
                        lemma_missing_prefix(m, s, j + 1, k);
                    }
                }
            }
            assert(prefix_dirs(s, j as int).union_prefer_right(m) =~= m) by {
                assert forall|p: Seq<Seq<char>>| prefix_dirs(s, j as int).contains_key(p) implies m.contains_key(p) by {
                    let t = choose|t: int| 0 <= t <= j && p == s.take(t);
                }
            }
        }
        let mut k: usize = j;
        while k < n
            invariant
                self.wf(),
                s == seg_views(segs@),
                n == s.len(),
                j <= k <= n,
                valid_segments(s),
                self.model() == prefix_dirs(s, k as int).union_prefer_right(m),
                forall|t: int| 0 <= t <= j ==> #[trigger] m.contains_key(s.take(t)) && m[s.take(t)] == NodeKind::Dir,
                forall|t: int| j + 1 <= t <= n ==> !m.contains_key(#[trigger] s.take(t)),
                index_shape(m),
            decreases n - k,
        {
            let pre = segments_prefix(segs, k + 1);
            let ghost p = s.take(k + 1);
            proof {
                assert(!m.contains_key(p));
                assert(!self.model().contains_key(p)) by {
                    if prefix_dirs(s, k as int).contains_key(p) {
                        let t = choose|t: int| 0 <= t <= k && p == s.take(t);
                        assert(p.len() == k + 1);
                        assert(s.take(t).len() == t);
                    }
                }
                lemma_prefix_dirs_step(m, s, k as int);
            }
            self.push_new(pre, NodeKind::Dir);
            proof {
                let mm = self.model();
                assert(mm == prefix_dirs(s, k + 1).union_prefer_right(m));
                lemma_take_valid(s, k + 1);
                // The shape is kept: the new path's parent is a directory.
                assert(p.drop_last() =~= s.take(k as int));
                assert(prefix_dirs(s, k as int).contains_key(s.take(k as int)));
                assert forall|q: Seq<Seq<char>>| #[trigger] mm.contains_key(q) implies valid_segments(q) by {
                    if !m.contains_key(q) {
                        let t = choose|t: int| 0 <= t <= k + 1 && q == s.take(t);
                        lemma_take_valid(s, t);
                    }
                }
                assert forall|q: Seq<Seq<char>>| #[trigger] mm.contains_key(q) && q.len() > 0 implies
                    mm.contains_key(q.drop_last()) && mm[q.drop_last()] == NodeKind::Dir by {
                    if m.contains_key(q) {
                        assert(m.contains_key(q.drop_last()));
                    } else {
                        let t = choose|t: int| 0 <= t <= k + 1 && q == s.take(t);
                        assert(q.drop_last() =~= s.take(t - 1));
                        assert(prefix_dirs(s, k + 1).contains_key(s.take(t - 1)));
                        if m.contains_key(s.take(t - 1)) {
                            if t - 1 > j {
                                assert(!m.contains_key(s.take(t - 1)));
                            }
                        }
                    }
                }
                assert(mm.contains_key(Seq::empty()));
            }
            k = k + 1;
        }
        proof {
            assert(k == n);
        }
        Ok(())
    }

    /// Adds a file under the given normalized path, after making sure its
    /// ancestors are directories. A file already there is replaced.
    ///
    /// Fails with `InvalidData` for the root, when an ancestor is a file
    /// (changing nothing), or when the path is a directory (the missing
    /// ancestors have then been added).
    pub fn add_file(&mut self, segs: &Vec<String>, slot: usize, len: u64) -> (r: Result<(), FsError>)
        requires
            old(self).wf(),
            valid_segments(seg_views(segs@)),
        ensures
            final(self).wf(),
            ({
                let s = seg_views(segs@);
                let m = old(self).model();
                let m1 = with_dirs(m, s.drop_last());
                if s.len() == 0 || file_on_path(m, s.drop_last()) {
                    r == Err::<(), FsError>(FsError::InvalidData) && final(self).model() == m
                } else if m1.contains_key(s) && m1[s] == NodeKind::Dir {
                    r == Err::<(), FsError>(FsError::InvalidData) && final(self).model() == m1
                } else {
                    r == Ok::<(), FsError>(()) && final(self).model() == m1.insert(
                        s,
                        NodeKind::File { slot, len },
                    )
                }
            }),
    {
        let ghost s = seg_views(segs@);
        let n = segs.len();
        if n == 0 {
            return Err(FsError::InvalidData);
        }
        let parent = segments_prefix(segs, n - 1);
        proof {
            assert(s.take(n - 1) =~= s.drop_last());
            lemma_take_valid(s, n - 1);
        }
        self.ensure_dir(&parent)?;
        let ghost m1 = self.model();
        let kind = NodeKind::File { slot, len };
        match self.find(segs) {
            Some(i) => {
                if self.nodes[i].kind == NodeKind::Dir {
                    return Err(FsError::InvalidData);
                }
                let node = IndexNode { segments: segments_prefix(segs, n), kind };
                proof {
                    assert(s.take(n as int) =~= s);
                    lemma_node_map_update(self.node_views(), i as int, kind);
                }
                let ghost before = self.node_views();
                self.nodes.set(i, node);
                proof {
                    assert(self.node_views() =~= before.update(i as int, (before[i as int].0, kind)));
                    assert(distinct_paths(self.node_views())) by {
                        assert forall|a: int, b: int|
                            0 <= a < self.node_views().len() && 0 <= b < self.node_views().len() && a != b
                            implies self.node_views()[a].0 != self.node_views()[b].0 by {
                            assert(self.node_views()[a].0 == before[a].0);
                            assert(self.node_views()[b].0 == before[b].0);
                        }
                    }
                }
            },
            None => {
                let path = segments_prefix(segs, n);
                proof {
                    assert(s.take(n as int) =~= s);
                }
                self.push_new(path, kind);
            },
        }
        proof {
            let mm = self.model();
            assert(mm == m1.insert(s, kind));
            lemma_with_dirs_has_path(old(self).model(), s.drop_last());
            assert forall|q: Seq<Seq<char>>| #[trigger] mm.contains_key(q) implies valid_segments(q) by {
                if q != s {
                    assert(m1.contains_key(q));
                }
            }
            assert forall|q: Seq<Seq<char>>| #[trigger] mm.contains_key(q) && q.len() > 0 implies
                mm.contains_key(q.drop_last()) && mm[q.drop_last()] == NodeKind::Dir by {
                if q == s {
                    assert(m1.contains_key(s.drop_last()));
                } else {
                    assert(m1.contains_key(q));
                    lemma_not_a_parent(m1, s, q);
                }
            }
            assert(mm.contains_key(Seq::empty()));
            assert(s != Seq::<Seq<char>>::empty());
        }
        Ok(())
    }

    /// The children of a directory, sorted by name.
    pub fn children(&self, dir: &Vec<String>) -> (r: Vec<ChildEntry>)
        requires
            self.wf(),
        ensures
            forall|i: int| 0 <= i < r@.len() ==> #[trigger] is_child(self.model(), seg_views(dir@), entry_paths(r@)[i])
                && self.model()[entry_paths(r@)[i]] == r@[i].kind,
            sorted_by_name(entry_paths(r@)),
            forall|q: Seq<Seq<char>>| #[trigger] is_child(self.model(), seg_views(dir@), q) ==> entry_paths(r@).contains(q),
    {
        let ghost d = seg_views(dir@);
        let ghost nv = self.node_views();
        let ghost m = self.model();
        let mut r: Vec<ChildEntry> = Vec::new();
        let mut i: usize = 0;
        while i < self.nodes.len()
            invariant
                self.wf(),
                nv == self.node_views(),
                m == self.model(),
                d == seg_views(dir@),
                nv.len() == self.nodes@.len(),
                i <= nv.len(),
                forall|j: int| 0 <= j < r@.len() ==> #[trigger] is_child(m, d, entry_paths(r@)[j])
                    && m[entry_paths(r@)[j]] == r@[j].kind,
                sorted_by_name(entry_paths(r@)),
                forall|k: int| 0 <= k < i && is_child(m, d, #[trigger] nv[k].0) ==> entry_paths(r@).contains(nv[k].0),
                forall|j: int| 0 <= j < r@.len() ==> exists|k: int| 0 <= k < i && #[trigger] entry_paths(r@)[j] == nv[k].0,
            decreases nv.len() - i,
        {
            let node = &self.nodes[i];
            if is_child_path(&node.segments, dir) {
                let ghost q = nv[i as int].0;
                proof {
                    lemma_node_map_value(nv, i as int);
                }
                let last = node.segments.len() - 1;
                let name = node.segments[last].as_str();
                proof {
                    assert(name@ == q.last());
                }
                let mut pos: usize = 0;
                let mut found = false;
                #[verifier::loop_isolation(false)]
                while pos < r.len() && !found
                    invariant
                        name@ == q.last(),
                        pos <= r@.len(),
                        forall|j: int| 0 <= j < pos ==> seq_lt(#[trigger] entry_paths(r@)[j].last(), q.last()),
                        found ==> pos < r@.len() && !seq_lt(entry_paths(r@)[pos as int].last(), q.last()),
                        forall|j: int| 0 <= j < r@.len() ==> #[trigger] is_child(m, d, entry_paths(r@)[j]),
                    decreases r@.len() - pos, (if found { 0int } else { 1int }),
                {
                    proof {
                        assert(is_child(m, d, entry_paths(r@)[pos as int]));
                        assert(r@[pos as int].segments@.len() > 0);
                    }
                    let other = &r[pos].segments;
                    let other_name = other[other.len() - 1].as_str();
                    proof {
                        assert(entry_paths(r@)[pos as int] == seg_views(other@));
                        assert(other_name@ == entry_paths(r@)[pos as int].last());
                    }
                    if str_lt(other_name, name) {
                        pos = pos + 1;
                    } else {
                        found = true;
                    }
                }
                let entry = ChildEntry { segments: segments_prefix(&node.segments, node.segments.len()), kind: node.kind };
                let ghost before = r@;
                let ghost bp = entry_paths(before);
                proof {
                    assert(q.take(q.len() as int) =~= q);
                    // The new name differs from every name already listed.
                    assert forall|j: int| 0 <= j < bp.len() implies #[trigger] bp[j].last() != q.last() by {
                        assert(is_child(m, d, entry_paths(r@)[j]));
                        let k = choose|k: int| 0 <= k < i && #[trigger] entry_paths(r@)[j] == nv[k].0;
                        assert(nv[k].0 != nv[i as int].0);
                        if bp[j].last() == q.last() {
                            lemma_child_name_determines_path(d, bp[j], q);
                        }
                    }
                    // Every name after the insertion point comes after the new name.
                    assert forall|j: int| pos <= j < bp.len() implies seq_lt(q.last(), #[trigger] bp[j].last()) by {
                        assert(bp[j].last() != q.last());
                        if seq_lt(bp[j].last(), q.last()) {
                            if j > pos {
                                lemma_seq_lt_transitive(bp[pos as int].last(), bp[j].last(), q.last());
                            }
                        }
                        lemma_seq_lt_total(q.last(), bp[j].last());
                    }
                }
                r.insert(pos, entry);
                proof {
                    let ap = entry_paths(r@);
                    assert(ap =~= bp.insert(pos as int, q));
                    assert forall|a: int, b: int| 0 <= a < b < ap.len() implies seq_lt(#[trigger] ap[a].last(), #[trigger] ap[b].last()) by {
                        if a < pos && b < pos {
                        } else if a < pos && b == pos {
                        } else if a < pos {
                            assert(ap[b] == bp[b - 1]);
                            lemma_seq_lt_transitive(ap[a].last(), q.last(), ap[b].last());
                        } else if a == pos {
                            assert(ap[b] == bp[b - 1]);
                        } else {
                            assert(ap[a] == bp[a - 1] && ap[b] == bp[b - 1]);
                        }
                    }
                    assert(r@[pos as int] == entry);
                    assert(entry.kind == nv[i as int].1);
                    assert(ap[pos as int] == q);
                    assert forall|j: int| 0 <= j < r@.len() implies #[trigger] is_child(m, d, entry_paths(r@)[j])
                        && m[entry_paths(r@)[j]] == r@[j].kind by {
                        if j < pos {
                            assert(r@[j] == before[j]);
                            assert(ap[j] == bp[j]);
                            assert(is_child(m, d, bp[j]));
                            assert(m[bp[j]] == before[j].kind);
                        } else if j > pos {
                            assert(r@[j] == before[j - 1]);
                            assert(ap[j] == bp[j - 1]);
                            assert(is_child(m, d, bp[j - 1]) && m[bp[j - 1]] == before[j - 1].kind);
                        } else {
                            assert(is_child(m, d, q));
                        }
                    }
                    assert forall|k: int| 0 <= k < i + 1 && is_child(m, d, #[trigger] nv[k].0) implies entry_paths(r@).contains(nv[k].0) by {
                        if k == i {
                            assert(ap[pos as int] == q);
                        } else {
                            let j = choose|j: int| 0 <= j < bp.len() && bp[j] == nv[k].0;
                            if j < pos {
                                assert(ap[j] == bp[j]);
                            } else {
                                assert(ap[j + 1] == bp[j]);
                            }
                        }
                    }
                    assert forall|j: int| 0 <= j < r@.len() implies exists|k: int| 0 <= k < i + 1 && #[trigger] entry_paths(r@)[j] == nv[k].0 by {
                        if j == pos {
                            assert(entry_paths(r@)[j] == nv[i as int].0);
                        } else if j < pos {
                            assert(ap[j] == bp[j]);
                            let k = choose|k: int| 0 <= k < i && #[trigger] bp[j] == nv[k].0;
                            assert(0 <= k < i + 1 && entry_paths(r@)[j] == nv[k].0);
                        } else {
                            assert(ap[j] == bp[j - 1]);
                            let k = choose|k: int| 0 <= k < i && #[trigger] bp[j - 1] == nv[k].0;
                            assert(0 <= k < i + 1 && entry_paths(r@)[j] == nv[k].0);
                        }
                    }
                }
            } else {
                proof {
                    assert forall|j: int| 0 <= j < r@.len() implies exists|k: int| 0 <= k < i + 1 && #[trigger] entry_paths(r@)[j] == nv[k].0 by {
                        let k = choose|k: int| 0 <= k < i && #[trigger] entry_paths(r@)[j] == nv[k].0;
                        assert(0 <= k < i + 1 && entry_paths(r@)[j] == nv[k].0);
                    }
                }
            }
            i = i + 1;
        }
        proof {
            assert forall|q: Seq<Seq<char>>| #[trigger] is_child(m, d, q) implies entry_paths(r@).contains(q) by {
                lemma_node_map_keys(nv, q);
                let k = choose|k: int| 0 <= k < nv.len() && nv[k].0 == q;
            }
        }
        r
    }
}

} // verus!
