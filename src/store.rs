//! The mapping store: the overlay tree, kept as one node per virtual path,
//! each node identified by the case-folded segments of its path.
use vstd::prelude::*;
use crate::path::{
    copy_chars, copy_segments, join_onto, join_segments, lemma_path_key_take, path_key,
    same_path, seg_views, segments_of, split_segments,
};

verus! {

/// Linking fails if the destination already holds a redirect.
pub const LINKFLAG_FAILIFEXISTS: u32 = 0x1;

/// Changes to the source after a static link are to be followed.
pub const LINKFLAG_MONITORCHANGES: u32 = 0x2;

/// Files created under the destination are written to the source; this
/// replaces an earlier create-target on the same node.
pub const LINKFLAG_CREATETARGET: u32 = 0x4;

/// Directories are linked recursively.
pub const LINKFLAG_RECURSIVE: u32 = 0x8;

/// A static link fails as a whole if any entry would be skipped.
pub const LINKFLAG_FAILIFSKIPPED: u32 = 0x10;

pub open spec fn has_flag(flags: u32, flag: u32) -> bool {
    flags & flag != 0
}

/// Why a link operation was refused.
#[derive(Clone, Copy, Debug, PartialEq, Eq, Structural)]
pub enum LinkErrorKind {
    AlreadyLinked,
    DestinationMissingVirtualAncestor,
    SkippedEntryRejected,
    NotConnected,
}

/// What a node of the overlay holds.
pub struct NodeView {
    pub redirect: Option<Seq<char>>,
    pub create_target: Option<Seq<char>>,
    pub monitor_changes: bool,
}

pub open spec fn empty_node() -> NodeView {
    NodeView { redirect: None, create_target: None, monitor_changes: false }
}

pub open spec fn opt_view(o: Option<Vec<char>>) -> Option<Seq<char>> {
    match o {
        Some(v) => Some(v@),
        None => None,
    }
}

/// One node of the overlay tree, with the display form of its path.
pub struct MappingNode {
    pub segments: Vec<Vec<char>>,
    pub redirect: Option<Vec<char>>,
    pub create_target: Option<Vec<char>>,
    pub monitor_changes: bool,
}

impl MappingNode {
    pub open spec fn key(&self) -> Seq<Seq<u32>> {
        path_key(seg_views(self.segments@))
    }

    pub open spec fn node_view(&self) -> NodeView {
        NodeView {
            redirect: opt_view(self.redirect),
            create_target: opt_view(self.create_target),
            monitor_changes: self.monitor_changes,
        }
    }
}

/// The overlay as a map from path keys to nodes.
pub open spec fn nodes_map(s: Seq<MappingNode>) -> Map<Seq<Seq<u32>>, NodeView>
    decreases s.len(),
{
    if s.len() == 0 {
        Map::empty()
    } else {
        nodes_map(s.drop_last()).insert(s.last().key(), s.last().node_view())
    }
}

pub open spec fn keys_unique(s: Seq<MappingNode>) -> bool {
    forall|i: int, j: int| 0 <= i < j < s.len() ==> s[i].key() != s[j].key()
}

proof fn lemma_nodes_map_index(s: Seq<MappingNode>, i: int)
    requires
        keys_unique(s),
        0 <= i < s.len(),
    ensures
        nodes_map(s).contains_key(s[i].key()),
        nodes_map(s)[s[i].key()] == s[i].node_view(),
    decreases s.len(),
{
    if i < s.len() - 1 {
        let t = s.drop_last();
        assert forall|a: int, b: int| 0 <= a < b < t.len() implies t[a].key() != t[b].key() by {
            assert(t[a] == s[a] && t[b] == s[b]);
        }
        lemma_nodes_map_index(t, i);
        assert(s.last().key() != s[i].key());
    }
}

proof fn lemma_nodes_map_absent(s: Seq<MappingNode>, k: Seq<Seq<u32>>)
    requires
        forall|i: int| 0 <= i < s.len() ==> (#[trigger] s[i]).key() != k,
    ensures
        !nodes_map(s).contains_key(k),
    decreases s.len(),
{
    if s.len() > 0 {
        let t = s.drop_last();
        assert forall|i: int| 0 <= i < t.len() implies (#[trigger] t[i]).key() != k by {
            assert(t[i] == s[i]);
        }
        lemma_nodes_map_absent(t, k);
        assert(s[s.len() - 1].key() != k);
    }
}

proof fn lemma_nodes_map_update(s: Seq<MappingNode>, i: int, n: MappingNode)
    requires
        keys_unique(s),
        0 <= i < s.len(),
        n.key() == s[i].key(),
    ensures
        nodes_map(s.update(i, n)) == nodes_map(s).insert(n.key(), n.node_view()),
    decreases s.len(),
{
    let t = s.update(i, n);
    if i == s.len() - 1 {
        assert(t.drop_last() =~= s.drop_last());
        assert(nodes_map(t) =~= nodes_map(s).insert(n.key(), n.node_view()));
    } else {
        let d = s.drop_last();
        assert(t.drop_last() =~= d.update(i, n));
        assert forall|a: int, b: int| 0 <= a < b < d.len() implies d[a].key() != d[b].key() by {
            assert(d[a] == s[a] && d[b] == s[b]);
        }
        lemma_nodes_map_update(d, i, n);
        assert(s.last().key() != s[i].key());
        assert(t.last() == s.last());
        assert(nodes_map(t) =~= nodes_map(s).insert(n.key(), n.node_view()));
    }
}

/// The redirect a node offers to paths at and below it: its direct
/// redirect, else its create-target.
pub open spec fn base_of(v: NodeView) -> Option<Seq<char>> {
    if v.redirect is Some {
        v.redirect
    } else {
        v.create_target
    }
}

pub open spec fn has_base(m: Map<Seq<Seq<u32>>, NodeView>, k: Seq<Seq<u32>>) -> bool {
    m.contains_key(k) && base_of(m[k]) is Some
}

/// The length of the longest prefix of `p`, at most `k` long, whose node
/// offers a redirect.
pub open spec fn deepest_base(m: Map<Seq<Seq<u32>>, NodeView>, p: Seq<Seq<u32>>, k: nat) -> Option<
    nat,
>
    decreases k,
{
    if has_base(m, p.take(k as int)) {
        Some(k)
    } else if k == 0 {
        None
    } else {
        deepest_base(m, p, (k - 1) as nat)
    }
}

/// The real path that a virtual path resolves to: the deepest redirect on
/// the way down, followed by the rest of the path; the path itself where
/// no prefix is redirected.
pub open spec fn resolve_spec(m: Map<Seq<Seq<u32>>, NodeView>, path: Seq<char>) -> Seq<char> {
    let segs = segments_of(path);
    let p = path_key(segs);
    match deepest_base(m, p, segs.len()) {
        Some(k) => join_onto(base_of(m[p.take(k as int)])->0, segs.skip(k as int)),
        None => path,
    }
}

/// Adds an empty directory node for each of the first `k` non-empty
/// prefixes of `p` that has none.
pub open spec fn with_ancestors(
    m: Map<Seq<Seq<u32>>, NodeView>,
    p: Seq<Seq<u32>>,
    k: nat,
) -> Map<Seq<Seq<u32>>, NodeView>
    decreases k,
{
    if k == 0 {
        m
    } else {
        let m1 = with_ancestors(m, p, (k - 1) as nat);
        let a = p.take(k as int);
        if m1.contains_key(a) {
            m1
        } else {
            m1.insert(a, empty_node())
        }
    }
}

pub open spec fn parent_len(p: Seq<Seq<u32>>) -> nat {
    if p.len() == 0 {
        0
    } else {
        (p.len() - 1) as nat
    }
}

/// Whether some proper, non-empty prefix of `dest` is not a node.
pub open spec fn missing_ancestor(m: Map<Seq<Seq<u32>>, NodeView>, dest: Seq<Seq<u32>>) -> bool {
    exists|k: int| 1 <= k < dest.len() && !m.contains_key(#[trigger] dest.take(k))
}

/// The error, if any, with which a link at `dest` is refused. Only links
/// with `LINKFLAG_FAILIFEXISTS` are ever refused: when the destination
/// already has a redirect, or when a directory above it is not a node of
/// the overlay.
pub open spec fn link_error(m: Map<Seq<Seq<u32>>, NodeView>, dest: Seq<Seq<u32>>, flags: u32) -> Option<
    LinkErrorKind,
> {
    if has_flag(flags, LINKFLAG_FAILIFEXISTS) && m.contains_key(dest) && m[dest].redirect is Some {
        Some(LinkErrorKind::AlreadyLinked)
    } else if has_flag(flags, LINKFLAG_FAILIFEXISTS) && missing_ancestor(m, dest) {
        Some(LinkErrorKind::DestinationMissingVirtualAncestor)
    } else {
        None
    }
}

pub open spec fn lookup(m: Map<Seq<Seq<u32>>, NodeView>, k: Seq<Seq<u32>>) -> NodeView {
    if m.contains_key(k) {
        m[k]
    } else {
        empty_node()
    }
}

/// The node at a link's destination after the link: a create-target link
/// sets the create-target, any other sets the direct redirect.
pub open spec fn linked_node(prev: NodeView, source: Seq<char>, flags: u32) -> NodeView {
    let monitor = prev.monitor_changes || has_flag(flags, LINKFLAG_MONITORCHANGES);
    if has_flag(flags, LINKFLAG_CREATETARGET) {
        NodeView { redirect: prev.redirect, create_target: Some(source), monitor_changes: monitor }
    } else {
        NodeView { redirect: Some(source), create_target: prev.create_target, monitor_changes: monitor }
    }
}

/// The overlay after a successful link of `source` at `dest`.
pub open spec fn link_map(
    m: Map<Seq<Seq<u32>>, NodeView>,
    dest: Seq<Seq<u32>>,
    source: Seq<char>,
    flags: u32,
) -> Map<Seq<Seq<u32>>, NodeView> {
    with_ancestors(m, dest, parent_len(dest)).insert(
        dest,
        linked_node(lookup(m, dest), source, flags),
    )
}

pub fn copy_opt(o: &Option<Vec<char>>) -> (r: Option<Vec<char>>)
    ensures
        opt_view(r) == opt_view(*o),
{
    match o {
        Some(v) => Some(copy_chars(v)),
        None => None,
    }
}

/// A node as it stands in the store's ordered list: its display path and
/// what it holds.
pub open spec fn entry_of(n: MappingNode) -> (Seq<Seq<char>>, NodeView) {
    (seg_views(n.segments@), n.node_view())
}

pub open spec fn node_list(s: Seq<MappingNode>) -> Seq<(Seq<Seq<char>>, NodeView)> {
    s.map_values(|n: MappingNode| entry_of(n))
}

/// The position of the first node of the list whose path has key `k`.
pub open spec fn index_of(l: Seq<(Seq<Seq<char>>, NodeView)>, k: Seq<Seq<u32>>) -> Option<int>
    decreases l.len(),
{
    if l.len() == 0 {
        None
    } else {
        match index_of(l.drop_last(), k) {
            Some(i) => Some(i),
            None => if path_key(l.last().0) == k {
                Some(l.len() - 1)
            } else {
                None
            },
        }
    }
}

/// The node list after a node is put in place of the one with its key,
/// which keeps its position, or added at the end.
pub open spec fn list_upsert(
    l: Seq<(Seq<Seq<char>>, NodeView)>,
    e: (Seq<Seq<char>>, NodeView),
) -> Seq<(Seq<Seq<char>>, NodeView)> {
    match index_of(l, path_key(e.0)) {
        Some(i) => l.update(i, e),
        None => l.push(e),
    }
}

/// The node list after an empty directory node is added at the end for
/// `segs`, unless it has a node.
pub open spec fn list_ensure_dir(l: Seq<(Seq<Seq<char>>, NodeView)>, segs: Seq<Seq<char>>) -> Seq<
    (Seq<Seq<char>>, NodeView),
> {
    if index_of(l, path_key(segs)) is Some {
        l
    } else {
        l.push((segs, empty_node()))
    }
}

/// The node list after directory nodes for the first `k` non-empty prefixes
/// of `segs`, shortest first.
pub open spec fn list_ancestors(
    l: Seq<(Seq<Seq<char>>, NodeView)>,
    segs: Seq<Seq<char>>,
    k: nat,
) -> Seq<(Seq<Seq<char>>, NodeView)>
    decreases k,
{
    if k == 0 {
        l
    } else {
        list_ensure_dir(list_ancestors(l, segs, (k - 1) as nat), segs.take(k as int))
    }
}

pub open spec fn list_lookup(l: Seq<(Seq<Seq<char>>, NodeView)>, k: Seq<Seq<u32>>) -> NodeView {
    match index_of(l, k) {
        Some(i) => l[i].1,
        None => empty_node(),
    }
}

/// The node list after a successful link of `source` at `segs`.
pub open spec fn list_link(
    l: Seq<(Seq<Seq<char>>, NodeView)>,
    segs: Seq<Seq<char>>,
    source: Seq<char>,
    flags: u32,
) -> Seq<(Seq<Seq<char>>, NodeView)> {
    list_upsert(
        list_ancestors(l, segs, parent_len(path_key(segs))),
        (segs, linked_node(list_lookup(l, path_key(segs)), source, flags)),
    )
}

proof fn lemma_node_list_drop_last(s: Seq<MappingNode>)
    requires
        s.len() > 0,
    ensures
        node_list(s).drop_last() == node_list(s.drop_last()),
        node_list(s).last() == entry_of(s.last()),
{
    assert(node_list(s).drop_last() =~= node_list(s.drop_last()));
}

proof fn lemma_index_of_found(s: Seq<MappingNode>, i: int)
    requires
        keys_unique(s),
        0 <= i < s.len(),
    ensures
        index_of(node_list(s), s[i].key()) == Some(i),
    decreases s.len(),
{
    lemma_node_list_drop_last(s);
    let t = s.drop_last();
    if i < s.len() - 1 {
        assert forall|a: int, b: int| 0 <= a < b < t.len() implies t[a].key() != t[b].key() by {
            assert(t[a] == s[a] && t[b] == s[b]);
        }
        lemma_index_of_found(t, i);
    } else {
        assert forall|j: int| 0 <= j < t.len() implies (#[trigger] t[j]).key() != s[i].key() by {
            assert(t[j] == s[j]);
        }
        lemma_index_of_absent(t, s[i].key());
    }
}

proof fn lemma_index_of_absent(s: Seq<MappingNode>, k: Seq<Seq<u32>>)
    requires
        forall|i: int| 0 <= i < s.len() ==> (#[trigger] s[i]).key() != k,
    ensures
        index_of(node_list(s), k) is None,
    decreases s.len(),
{
    if s.len() > 0 {
        lemma_node_list_drop_last(s);
        let t = s.drop_last();
        assert forall|i: int| 0 <= i < t.len() implies (#[trigger] t[i]).key() != k by {
            assert(t[i] == s[i]);
        }
        lemma_index_of_absent(t, k);
        assert(s[s.len() - 1].key() != k);
    }
}

/// The overlay tree.
pub struct MappingStore {
    pub nodes: Vec<MappingNode>,
}

impl View for MappingStore {
    type V = Map<Seq<Seq<u32>>, NodeView>;

    open spec fn view(&self) -> Map<Seq<Seq<u32>>, NodeView> {
        nodes_map(self.nodes@)
    }
}

impl MappingStore {
    pub open spec fn wf(&self) -> bool {
        keys_unique(self.nodes@)
    }

    /// The nodes in the order in which the store keeps them.
    pub open spec fn node_list(&self) -> Seq<(Seq<Seq<char>>, NodeView)> {
        node_list(self.nodes@)
    }

    /// An empty overlay.
    pub fn new() -> (r: MappingStore)
        ensures
            r.wf(),
            r@ == Map::<Seq<Seq<u32>>, NodeView>::empty(),
            r.node_list() == Seq::<(Seq<Seq<char>>, NodeView)>::empty(),
    {
        let r = MappingStore { nodes: Vec::new() };
        assert(r.node_list() =~= Seq::<(Seq<Seq<char>>, NodeView)>::empty());
        r
    }

    /// Removes every node.
    pub fn clear(&mut self)
        ensures
            final(self).wf(),
            final(self)@ == Map::<Seq<Seq<u32>>, NodeView>::empty(),
            final(self).node_list() == Seq::<(Seq<Seq<char>>, NodeView)>::empty(),
    {
        self.nodes = Vec::new();
        assert(self.node_list() =~= Seq::<(Seq<Seq<char>>, NodeView)>::empty());
    }

    /// The index of the node at the given path, if there is one.
    pub fn find(&self, segs: &Vec<Vec<char>>) -> (r: Option<usize>)
        requires
            self.wf(),
        ensures
            match r {
                Some(i) => {
                    &&& i < self.nodes.len()
                    &&& self.nodes@[i as int].key() == path_key(seg_views(segs@))
                    &&& self@.contains_key(path_key(seg_views(segs@)))
                    &&& self@[path_key(seg_views(segs@))] == self.nodes@[i as int].node_view()
                },
                None => !self@.contains_key(path_key(seg_views(segs@))),
            },
            r is Some ==> index_of(self.node_list(), path_key(seg_views(segs@))) == Some(
                r->0 as int,
            ),
            r is None ==> index_of(self.node_list(), path_key(seg_views(segs@))) is None,
    {
        let mut i: usize = 0;
        while i < self.nodes.len()
            invariant
                self.wf(),
                i <= self.nodes.len(),
                forall|j: int|
                    0 <= j < i ==> (#[trigger] self.nodes@[j]).key() != path_key(
                        seg_views(segs@),
                    ),
            decreases self.nodes.len() - i,
        {
            if same_path(&self.nodes[i].segments, segs) {
                proof {
                    lemma_nodes_map_index(self.nodes@, i as int);
                    lemma_index_of_found(self.nodes@, i as int);
                }
                return Some(i);
            }
            i = i + 1;
        }
        proof {
            lemma_nodes_map_absent(self.nodes@, path_key(seg_views(segs@)));
            lemma_index_of_absent(self.nodes@, path_key(seg_views(segs@)));
        }
        None
    }

    /// Puts a node in place of the one at its path, or adds it.
    pub fn upsert(&mut self, node: MappingNode)
        requires
            old(self).wf(),
        ensures
            final(self).wf(),
            final(self)@ == old(self)@.insert(node.key(), node.node_view()),
            final(self).node_list() == list_upsert(old(self).node_list(), entry_of(node)),
    {
        match self.find(&node.segments) {
            Some(i) => {
                proof {
                    lemma_nodes_map_update(self.nodes@, i as int, node);
                }
                let ghost before = self.nodes@;
                self.nodes.set(i, node);
                assert(self.nodes@ == before.update(i as int, node));
                assert(node_list(self.nodes@) =~= node_list(before).update(i as int, entry_of(node)));
                assert forall|a: int, b: int|
                    0 <= a < b < self.nodes@.len() implies self.nodes@[a].key()
                    != self.nodes@[b].key() by {
                    assert(before[i as int].key() == node.key());
                }
            },
            None => {
                proof {
                    if exists|j: int| 0 <= j < self.nodes@.len() && self.nodes@[j].key() == node.key() {
                        let j = choose|j: int|
                            0 <= j < self.nodes@.len() && self.nodes@[j].key() == node.key();
                        lemma_nodes_map_index(self.nodes@, j);
                    }
                }
                let ghost before = self.nodes@;
                self.nodes.push(node);
                assert(self.nodes@.drop_last() =~= before);
                assert(node_list(self.nodes@) =~= node_list(before).push(entry_of(node)));
            },
        }
    }

    /// Adds an empty directory node at the path if none is there.
    pub fn ensure_directory(&mut self, segs: Vec<Vec<char>>)
        requires
            old(self).wf(),
        ensures
            final(self).wf(),
            final(self)@ == (if old(self)@.contains_key(path_key(seg_views(segs@))) {
                old(self)@
            } else {
                old(self)@.insert(path_key(seg_views(segs@)), empty_node())
            }),
            final(self).node_list() == list_ensure_dir(old(self).node_list(), seg_views(segs@)),
    {
        if self.find(&segs).is_none() {
            self.upsert(
                MappingNode {
                    segments: segs,
                    redirect: None,
                    create_target: None,
                    monitor_changes: false,
                },
            );
        }
    }

    /// Adds a directory node for every proper, non-empty prefix of the path.
    pub fn ensure_ancestors(&mut self, dest: &Vec<Vec<char>>)
        requires
            old(self).wf(),
        ensures
            final(self).wf(),
            final(self)@ == with_ancestors(
                old(self)@,
                path_key(seg_views(dest@)),
                parent_len(path_key(seg_views(dest@))),
            ),
            final(self).node_list() == list_ancestors(
                old(self).node_list(),
                seg_views(dest@),
                parent_len(path_key(seg_views(dest@))),
            ),
    {
        let ghost p = path_key(seg_views(dest@));
        assert(seg_views(dest@).len() == dest@.len());
        assert(p.len() == dest@.len());
        let mut k: usize = 1;
        while k < dest.len()
            invariant
                self.wf(),
                1 <= k,
                k <= dest.len() || k == 1,
                p == path_key(seg_views(dest@)),
                p.len() == dest.len(),
                self@ == with_ancestors(old(self)@, p, (k - 1) as nat),
                self.node_list() == list_ancestors(
                    old(self).node_list(),
                    seg_views(dest@),
                    (k - 1) as nat,
                ),
            decreases dest.len() - k,
        {
            let prefix = copy_segments(dest, k);
            proof {
                lemma_path_key_take(seg_views(dest@), k as int);
            }
            self.ensure_directory(prefix);
            k = k + 1;
        }
        assert(parent_len(p) == (k - 1) as nat);
    }

    /// The error, if any, with which a link at `dest` would be refused.
    pub fn link_check(&self, dest: &Vec<Vec<char>>, flags: u32) -> (r: Option<LinkErrorKind>)
        requires
            self.wf(),
        ensures
            r == link_error(self@, path_key(seg_views(dest@)), flags),
    {
        proof {
            assert(path_key(seg_views(dest@)).len() == dest.len());
        }
        if flags & LINKFLAG_FAILIFEXISTS != 0 {
            if let Some(i) = self.find(dest) {
                if self.nodes[i].redirect.is_some() {
                    return Some(LinkErrorKind::AlreadyLinked);
                }
            }
            let ghost p = path_key(seg_views(dest@));
            assert(!(self@.contains_key(p) && self@[p].redirect is Some));
            let mut k: usize = 1;
            while k < dest.len()
                invariant
                    self.wf(),
                    1 <= k,
                    k <= dest.len() || k == 1,
                    path_key(seg_views(dest@)).len() == dest.len(),
                    p == path_key(seg_views(dest@)),
                    flags & LINKFLAG_FAILIFEXISTS != 0,
                    !(self@.contains_key(p) && self@[p].redirect is Some),
                    forall|j: int|
                        1 <= j < k ==> self@.contains_key(
                            #[trigger] path_key(seg_views(dest@)).take(j),
                        ),
                decreases dest.len() - k,
            {
                let prefix = copy_segments(dest, k);
                proof {
                    lemma_path_key_take(seg_views(dest@), k as int);
                }
                if self.find(&prefix).is_none() {
                    assert(!self@.contains_key(p.take(k as int)));
                    assert(missing_ancestor(self@, p));
                    return Some(LinkErrorKind::DestinationMissingVirtualAncestor);
                }
                k = k + 1;
            }
        }
        None
    }

    /// Links `source` at the virtual path `dest`, creating the directories
    /// above it.
    pub fn link(&mut self, source: &Vec<char>, dest: &Vec<Vec<char>>, flags: u32) -> (r: Result<
        (),
        LinkErrorKind,
    >)
        requires
            old(self).wf(),
        ensures
            final(self).wf(),
            r == (match link_error(old(self)@, path_key(seg_views(dest@)), flags) {
                Some(e) => Err(e),
                None => Ok(()),
            }),
            r is Ok ==> final(self)@ == link_map(
                old(self)@,
                path_key(seg_views(dest@)),
                source@,
                flags,
            ),
            r is Ok ==> final(self).node_list() == list_link(
                old(self).node_list(),
                seg_views(dest@),
                source@,
                flags,
            ),
            r is Err ==> final(self)@ == old(self)@ && final(self).node_list() == old(
                self,
            ).node_list(),
    {
        let ghost p = path_key(seg_views(dest@));
        if let Some(e) = self.link_check(dest, flags) {
            return Err(e);
        }
        let found = self.find(dest);
        let (prev_redirect, prev_target, prev_monitor) = match found {
            Some(i) => (
                copy_opt(&self.nodes[i].redirect),
                copy_opt(&self.nodes[i].create_target),
                self.nodes[i].monitor_changes,
            ),
            None => (None, None, false),
        };
        let monitor = prev_monitor || flags & LINKFLAG_MONITORCHANGES != 0;
        let node = if flags & LINKFLAG_CREATETARGET != 0 {
            MappingNode {
                segments: copy_segments(dest, dest.len()),
                redirect: prev_redirect,
                create_target: Some(copy_chars(source)),
                monitor_changes: monitor,
            }
        } else {
            MappingNode {
                segments: copy_segments(dest, dest.len()),
                redirect: Some(copy_chars(source)),
                create_target: prev_target,
                monitor_changes: monitor,
            }
        };
        assert(seg_views(dest@).take(dest.len() as int) =~= seg_views(dest@));
        assert(node.node_view() == linked_node(lookup(old(self)@, p), source@, flags));
        assert(entry_of(node) == (
            seg_views(dest@),
            linked_node(list_lookup(old(self).node_list(), p), source@, flags),
        ));
        self.ensure_ancestors(dest);
        self.upsert(node);
        Ok(())
    }

    /// The real path that `path` resolves to.
    pub fn resolve(&self, path: &Vec<char>) -> (r: Vec<char>)
        requires
            self.wf(),
        ensures
            r@ == resolve_spec(self@, path@),
    {
        let segs = split_segments(path);
        let ghost p = path_key(seg_views(segs@));
        let ghost n = segs.len() as nat;
        assert(seg_views(segs@).len() == n);
        let mut k: usize = segs.len();
        loop
            invariant
                self.wf(),
                k <= segs.len(),
                p == path_key(seg_views(segs@)),
                seg_views(segs@) == segments_of(path@),
                deepest_base(self@, p, n) == deepest_base(self@, p, k as nat),
                n == segs.len(),
                segments_of(path@).len() == n,
            decreases k,
        {
            let prefix = copy_segments(&segs, k);
            proof {
                lemma_path_key_take(seg_views(segs@), k as int);
            }
            if let Some(i) = self.find(&prefix) {
                let node = &self.nodes[i];
                assert(path_key(seg_views(prefix@)) == p.take(k as int));
                if let Some(t) = &node.redirect {
                    assert(has_base(self@, p.take(k as int)));
                    assert(deepest_base(self@, p, k as nat) == Some(k as nat));
                    assert(base_of(self@[p.take(k as int)])->0 == t@);
                    return join_segments(t, &segs, k);
                } else if let Some(t) = &node.create_target {
                    assert(has_base(self@, p.take(k as int)));
                    assert(deepest_base(self@, p, k as nat) == Some(k as nat));
                    return join_segments(t, &segs, k);
                }
            }
            if k == 0 {
                return copy_chars(path);
            }
            k = k - 1;
        }
    }
}

} // verus!
