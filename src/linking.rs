//! Static directory links: each entry of a source tree listing is linked
//! individually, under the filters of the registry.
use vstd::prelude::*;
use crate::path::{
    chars_of, copy_chars, copy_segments, join_onto, join_segments, lemma_path_key_concat,
    path_key, seg_views, split_segments,
};
use crate::order::{entry_order, sorted_entries};
use crate::registry::{contains_name, has_listed_suffix, lists_name, matches_suffix, Registry, RegistryView};
use crate::store::{
    list_ancestors, list_ensure_dir, list_link, list_lookup, list_upsert,
    empty_node, has_flag, link_error, link_map, lookup, parent_len, with_ancestors, LinkErrorKind,
    MappingNode, MappingStore, NodeView, LINKFLAG_CREATETARGET, LINKFLAG_FAILIFEXISTS, LINKFLAG_FAILIFSKIPPED,
    LINKFLAG_MONITORCHANGES, LINKFLAG_RECURSIVE,
};

verus! {

/// One file or directory of a source tree, by its path relative to the
/// tree's root.
pub struct SourceEntry {
    pub segments: Vec<Vec<char>>,
    pub is_directory: bool,
}

impl SourceEntry {
    /// An entry at the relative path `relative` (segments separated by `/` or `\`).
    pub fn new(relative: &str, is_directory: bool) -> (r: SourceEntry)
        ensures
            seg_views(r.segments@) == crate::path::segments_of(relative@),
            r.is_directory == is_directory,
    {
        let chars = chars_of(relative);
        SourceEntry { segments: split_segments(&chars), is_directory }
    }

    pub open spec fn entry_view(&self) -> (Seq<Seq<char>>, bool) {
        (seg_views(self.segments@), self.is_directory)
    }
}

pub open spec fn entries_view(v: Seq<SourceEntry>) -> Seq<(Seq<Seq<char>>, bool)> {
    v.map_values(|e: SourceEntry| e.entry_view())
}

/// Whether a link with these flags takes the entry into account: top-level
/// entries always, deeper ones only for recursive links.
pub open spec fn considered(e: (Seq<Seq<char>>, bool), flags: u32) -> bool {
    e.0.len() >= 1 && (e.0.len() == 1 || has_flag(flags, LINKFLAG_RECURSIVE))
}

/// The directories on the entry's path: all its segments for a directory,
/// all but the file name for a file.
pub open spec fn directory_segments(e: (Seq<Seq<char>>, bool)) -> Seq<Seq<char>> {
    if e.1 || e.0.len() == 0 {
        e.0
    } else {
        e.0.drop_last()
    }
}

/// Whether the registry filters the entry out: a directory on its path is a
/// skip directory, or it is a file whose name has a skip suffix.
pub open spec fn skipped(reg: RegistryView, e: (Seq<Seq<char>>, bool)) -> bool {
    ||| exists|i: int|
        0 <= i < directory_segments(e).len() && lists_name(
            reg.skip_directories,
            #[trigger] directory_segments(e)[i],
        )
    ||| !e.1 && e.0.len() >= 1 && has_listed_suffix(reg.skip_suffixes, e.0.last())
}

/// The overlay after one entry is linked below `dest`: a directory node for
/// a directory, a redirect into the source tree for a file.
pub open spec fn apply_entry(
    m: Map<Seq<Seq<u32>>, NodeView>,
    dest: Seq<Seq<char>>,
    source: Seq<char>,
    e: (Seq<Seq<char>>, bool),
    flags: u32,
) -> Map<Seq<Seq<u32>>, NodeView> {
    let k = path_key(dest + e.0);
    if e.1 {
        if m.contains_key(k) {
            m
        } else {
            m.insert(k, empty_node())
        }
    } else {
        m.insert(
            k,
            NodeView {
                redirect: Some(join_onto(source, e.0)),
                create_target: lookup(m, k).create_target,
                monitor_changes: lookup(m, k).monitor_changes || has_flag(
                    flags,
                    LINKFLAG_MONITORCHANGES,
                ),
            },
        )
    }
}

/// The overlay after the entries are linked in order, leaving out those not
/// considered or skipped.
pub open spec fn apply_entries(
    m: Map<Seq<Seq<u32>>, NodeView>,
    dest: Seq<Seq<char>>,
    source: Seq<char>,
    es: Seq<(Seq<Seq<char>>, bool)>,
    flags: u32,
    reg: RegistryView,
) -> Map<Seq<Seq<u32>>, NodeView>
    decreases es.len(),
{
    if es.len() == 0 {
        m
    } else {
        let m1 = apply_entries(m, dest, source, es.drop_last(), flags, reg);
        let e = es.last();
        if considered(e, flags) && !skipped(reg, e) {
            apply_entry(m1, dest, source, e, flags)
        } else {
            m1
        }
    }
}

/// The overlay after the destination directory of a static link is set up:
/// its create-target set for a create-target link, else a plain directory.
pub open spec fn destination_map(
    m: Map<Seq<Seq<u32>>, NodeView>,
    dest: Seq<Seq<u32>>,
    source: Seq<char>,
    flags: u32,
) -> Map<Seq<Seq<u32>>, NodeView> {
    if has_flag(flags, LINKFLAG_CREATETARGET) {
        link_map(m, dest, source, flags)
    } else {
        let m1 = with_ancestors(m, dest, parent_len(dest));
        if m1.contains_key(dest) {
            m1
        } else {
            m1.insert(dest, empty_node())
        }
    }
}

/// The node list after one entry is linked below `dest`.
pub open spec fn list_entry(
    l: Seq<(Seq<Seq<char>>, NodeView)>,
    dest: Seq<Seq<char>>,
    source: Seq<char>,
    e: (Seq<Seq<char>>, bool),
    flags: u32,
) -> Seq<(Seq<Seq<char>>, NodeView)> {
    let full = dest + e.0;
    if e.1 {
        list_ensure_dir(l, full)
    } else {
        let prev = list_lookup(l, path_key(full));
        list_upsert(
            l,
            (
                full,
                NodeView {
                    redirect: Some(join_onto(source, e.0)),
                    create_target: prev.create_target,
                    monitor_changes: prev.monitor_changes || has_flag(
                        flags,
                        LINKFLAG_MONITORCHANGES,
                    ),
                },
            ),
        )
    }
}

/// The node list after the entries are linked in order, leaving out those
/// not considered or skipped.
pub open spec fn list_entries(
    l: Seq<(Seq<Seq<char>>, NodeView)>,
    dest: Seq<Seq<char>>,
    source: Seq<char>,
    es: Seq<(Seq<Seq<char>>, bool)>,
    flags: u32,
    reg: RegistryView,
) -> Seq<(Seq<Seq<char>>, NodeView)>
    decreases es.len(),
{
    if es.len() == 0 {
        l
    } else {
        let l1 = list_entries(l, dest, source, es.drop_last(), flags, reg);
        let e = es.last();
        if considered(e, flags) && !skipped(reg, e) {
            list_entry(l1, dest, source, e, flags)
        } else {
            l1
        }
    }
}

/// The node list after the destination directory of a static link is set up.
pub open spec fn list_destination(
    l: Seq<(Seq<Seq<char>>, NodeView)>,
    dest: Seq<Seq<char>>,
    source: Seq<char>,
    flags: u32,
) -> Seq<(Seq<Seq<char>>, NodeView)> {
    if has_flag(flags, LINKFLAG_CREATETARGET) {
        list_link(l, dest, source, flags)
    } else {
        list_ensure_dir(list_ancestors(l, dest, parent_len(path_key(dest))), dest)
    }
}

/// The error, if any, with which a static link is refused. With
/// `LINKFLAG_FAILIFEXISTS` a destination that is already a node is refused.
pub open spec fn static_link_error(
    m: Map<Seq<Seq<u32>>, NodeView>,
    dest: Seq<Seq<u32>>,
    flags: u32,
    es: Seq<(Seq<Seq<char>>, bool)>,
    reg: RegistryView,
) -> Option<LinkErrorKind> {
    if has_flag(flags, LINKFLAG_FAILIFEXISTS) && m.contains_key(dest) {
        Some(LinkErrorKind::AlreadyLinked)
    } else if link_error(m, dest, flags) is Some {
        link_error(m, dest, flags)
    } else if has_flag(flags, LINKFLAG_FAILIFSKIPPED) && exists|i: int|
        0 <= i < es.len() && considered(#[trigger] es[i], flags) && skipped(reg, es[i]) {
        Some(LinkErrorKind::SkippedEntryRejected)
    } else {
        None
    }
}

/// Whether the registry filters the entry out.
pub fn is_skipped(reg: &Registry, e: &SourceEntry) -> (r: bool)
    ensures
        r == skipped(reg@, e.entry_view()),
{
    let n = e.segments.len();
    let dirs: usize = if e.is_directory || n == 0 { n } else { n - 1 };
    let ghost ds = directory_segments(e.entry_view());
    assert(seg_views(e.segments@).len() == n);
    assert(ds.len() == dirs);
    let mut i: usize = 0;
    while i < dirs
        invariant
            dirs <= n == e.segments.len(),
            i <= dirs,
            ds == directory_segments(e.entry_view()),
            ds.len() == dirs,
            forall|j: int| 0 <= j < i ==> !lists_name(reg@.skip_directories, #[trigger] ds[j]),
        decreases dirs - i,
    {
        assert(ds[i as int] == e.segments@[i as int]@);
        if contains_name(&reg.skip_directories, &e.segments[i]) {
            return true;
        }
        i = i + 1;
    }
    if !e.is_directory && n >= 1 {
        assert(e.entry_view().0.last() == e.segments@[n - 1]@);
        matches_suffix(&reg.skip_suffixes, &e.segments[n - 1])
    } else {
        false
    }
}

pub fn is_considered(e: &SourceEntry, flags: u32) -> (r: bool)
    ensures
        r == considered(e.entry_view(), flags),
{
    e.segments.len() >= 1 && (e.segments.len() == 1 || flags & LINKFLAG_RECURSIVE != 0)
}

/// Whether some entry that the link takes into account is filtered out.
pub fn any_skipped(reg: &Registry, entries: &Vec<SourceEntry>, flags: u32) -> (r: bool)
    ensures
        r == exists|i: int|
            0 <= i < entries@.len() && considered(#[trigger] entries_view(entries@)[i], flags)
                && skipped(reg@, entries_view(entries@)[i]),
{
    let ghost es = entries_view(entries@);
    let mut i: usize = 0;
    while i < entries.len()
        invariant
            i <= entries.len(),
            es == entries_view(entries@),
            forall|j: int|
                0 <= j < i ==> !(considered(#[trigger] es[j], flags) && skipped(reg@, es[j])),
        decreases entries.len() - i,
    {
        assert(es[i as int] == entries@[i as int].entry_view());
        if is_considered(&entries[i], flags) && is_skipped(reg, &entries[i]) {
            return true;
        }
        i = i + 1;
    }
    false
}

/// The segments of `a` followed by those of `b`.
pub fn concat_segments(a: &Vec<Vec<char>>, b: &Vec<Vec<char>>) -> (r: Vec<Vec<char>>)
    ensures
        seg_views(r@) == seg_views(a@) + seg_views(b@),
{
    let mut r = copy_segments(a, a.len());
    assert(seg_views(a@).take(a.len() as int) =~= seg_views(a@));
    let mut i: usize = 0;
    while i < b.len()
        invariant
            i <= b.len(),
            seg_views(r@) == seg_views(a@) + seg_views(b@).take(i as int),
        decreases b.len() - i,
    {
        let s = copy_chars(&b[i]);
        let ghost before = r@;
        r.push(s);
        assert(seg_views(r@) =~= seg_views(before).push(b@[i as int]@));
        i = i + 1;
        assert(seg_views(r@) =~= seg_views(a@) + seg_views(b@).take(i as int));
    }
    assert(seg_views(b@).take(b.len() as int) =~= seg_views(b@));
    r
}

impl MappingStore {
    /// Links one entry of a source tree below `dest`.
    pub fn link_entry(
        &mut self,
        source: &Vec<char>,
        dest: &Vec<Vec<char>>,
        e: &SourceEntry,
        flags: u32,
    )
        requires
            old(self).wf(),
        ensures
            final(self).wf(),
            final(self)@ == apply_entry(
                old(self)@,
                seg_views(dest@),
                source@,
                e.entry_view(),
                flags,
            ),
            final(self).node_list() == list_entry(
                old(self).node_list(),
                seg_views(dest@),
                source@,
                e.entry_view(),
                flags,
            ),
    {
        let full = concat_segments(dest, &e.segments);
        proof {
            lemma_path_key_concat(seg_views(dest@), seg_views(e.segments@));
        }
        if e.is_directory {
            self.ensure_directory(full);
        } else {
            let (prev_target, prev_monitor) = match self.find(&full) {
                Some(i) => (
                    crate::store::copy_opt(&self.nodes[i].create_target),
                    self.nodes[i].monitor_changes,
                ),
                None => (None, false),
            };
            let target = join_segments(source, &e.segments, 0);
            assert(seg_views(e.segments@).skip(0) =~= seg_views(e.segments@));
            let node = MappingNode {
                segments: full,
                redirect: Some(target),
                create_target: prev_target,
                monitor_changes: prev_monitor || flags & LINKFLAG_MONITORCHANGES != 0,
            };
            self.upsert(node);
        }
    }

    /// Links the entries of a source tree below `dest`, each file
    /// individually and in lexicographic order of their paths, after setting
    /// up the destination directory.
    pub fn link_directory_static(
        &mut self,
        source: &Vec<char>,
        dest: &Vec<Vec<char>>,
        flags: u32,
        entries: &Vec<SourceEntry>,
        reg: &Registry,
    ) -> (r: Result<(), LinkErrorKind>)
        requires
            old(self).wf(),
        ensures
            final(self).wf(),
            r == (match static_link_error(
                old(self)@,
                path_key(seg_views(dest@)),
                flags,
                entries_view(entries@),
                reg@,
            ) {
                Some(e) => Err(e),
                None => Ok(()),
            }),
            r is Ok ==> final(self)@ == apply_entries(
                destination_map(old(self)@, path_key(seg_views(dest@)), source@, flags),
                seg_views(dest@),
                source@,
                entries_view(entries@).sort_by(entry_order()),
                flags,
                reg@,
            ),
            r is Ok ==> final(self).node_list() == list_entries(
                list_destination(old(self).node_list(), seg_views(dest@), source@, flags),
                seg_views(dest@),
                source@,
                entries_view(entries@).sort_by(entry_order()),
                flags,
                reg@,
            ),
            r is Err ==> final(self)@ == old(self)@ && final(self).node_list() == old(
                self,
            ).node_list(),
    {
        let ghost p = path_key(seg_views(dest@));
        let ghost es = entries_view(entries@);
        if flags & LINKFLAG_FAILIFEXISTS != 0 && self.find(dest).is_some() {
            return Err(LinkErrorKind::AlreadyLinked);
        }
        if let Some(e) = self.link_check(dest, flags) {
            return Err(e);
        }
        if flags & LINKFLAG_FAILIFSKIPPED != 0 && any_skipped(reg, entries, flags) {
            return Err(LinkErrorKind::SkippedEntryRejected);
        }
        if flags & LINKFLAG_CREATETARGET != 0 {
            let linked = self.link(source, dest, flags);
            assert(linked is Ok);
        } else {
            self.ensure_ancestors(dest);
            let d = copy_segments(dest, dest.len());
            assert(seg_views(dest@).take(dest.len() as int) =~= seg_views(dest@));
            self.ensure_directory(d);
        }
        let ghost dm = self@;
        let ghost dl = self.node_list();
        let ordered = sorted_entries(entries);
        let ghost os = entries_view(ordered@);
        assert(os.take(0) =~= Seq::<(Seq<Seq<char>>, bool)>::empty());
        let mut i: usize = 0;
        while i < ordered.len()
            invariant
                self.wf(),
                i <= ordered.len(),
                os == entries_view(ordered@),
                self@ == apply_entries(dm, seg_views(dest@), source@, os.take(i as int), flags, reg@),
                self.node_list() == list_entries(dl, seg_views(dest@), source@, os.take(i as int), flags, reg@),
            decreases ordered.len() - i,
        {
            assert(os.take(i + 1).drop_last() =~= os.take(i as int));
            assert(os.take(i + 1).last() == ordered@[i as int].entry_view());
            if is_considered(&ordered[i], flags) && !is_skipped(reg, &ordered[i]) {
                self.link_entry(source, dest, &ordered[i], flags);
            }
            i = i + 1;
        }
        assert(os.take(i as int) =~= os);
        Ok(())
    }
}

} // verus!
