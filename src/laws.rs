//! Properties of the overlay that relate several operations.
use vstd::prelude::*;
use crate::order::{entry_order, lemma_entry_order_total};
use crate::linking::{apply_entries, considered, destination_map, directory_segments, skipped, static_link_error};
use crate::path::{join_onto, lemma_path_key_concat, path_key, seg_key, segments_of};
use crate::registry::{lists_name, RegistryView};
use crate::session::{disconnected, VfsView};
use crate::store::{
    base_of, deepest_base, has_base, has_flag, link_error, link_map, parent_len, resolve_spec,
    with_ancestors, LinkErrorKind, NodeView, LINKFLAG_CREATETARGET, LINKFLAG_FAILIFEXISTS,
    LINKFLAG_FAILIFSKIPPED,
};

verus! {

/// Two listings of the same entries, in any order, are applied in the same
/// order by a static link, so they build the same node list and dump.
pub proof fn lemma_listing_order_irrelevant(
    a: Seq<(Seq<Seq<char>>, bool)>,
    b: Seq<(Seq<Seq<char>>, bool)>,
)
    requires
        a.to_multiset() == b.to_multiset(),
    ensures
        a.sort_by(entry_order()) == b.sort_by(entry_order()),
{
    lemma_entry_order_total();
    a.lemma_sort_by_ensures(entry_order());
    b.lemma_sort_by_ensures(entry_order());
    vstd::seq_lib::lemma_sorted_unique(a.sort_by(entry_order()), b.sort_by(entry_order()), entry_order());
}

/// After a file link that is accepted and sets no create-target, its
/// destination resolves to exactly the linked source.
pub proof fn lemma_link_then_resolve(
    m: Map<Seq<Seq<u32>>, NodeView>,
    destination: Seq<char>,
    source: Seq<char>,
    flags: u32,
)
    requires
        !has_flag(flags, LINKFLAG_CREATETARGET),
    ensures
        resolve_spec(link_map(m, path_key(segments_of(destination)), source, flags), destination)
            == source,
{
    let m2 = link_map(m, path_key(segments_of(destination)), source, flags);
    assert(m2.contains_key(path_key(segments_of(destination))));
    lemma_resolve_direct_redirect(m2, destination);
}

proof fn lemma_deepest_base_at(m: Map<Seq<Seq<u32>>, NodeView>, p: Seq<Seq<u32>>, k: nat, j: nat)
    requires
        j <= k,
        has_base(m, p.take(j as int)),
        forall|i: nat| j < i <= k ==> !has_base(m, #[trigger] p.take(i as int)),
    ensures
        deepest_base(m, p, k) == Some(j),
    decreases k,
{
    if k > j {
        assert(!has_base(m, p.take(k as int)));
        lemma_deepest_base_at(m, p, (k - 1) as nat, j);
    }
}

proof fn lemma_deepest_base_none(m: Map<Seq<Seq<u32>>, NodeView>, p: Seq<Seq<u32>>, k: nat)
    requires
        forall|i: nat| i <= k ==> !has_base(m, #[trigger] p.take(i as int)),
    ensures
        deepest_base(m, p, k) is None,
    decreases k,
{
    assert(!has_base(m, p.take(k as int)));
    if k > 0 {
        lemma_deepest_base_none(m, p, (k - 1) as nat);
    }
}

/// A virtual path with a redirect of its own resolves to exactly that
/// redirect's target.
pub proof fn lemma_resolve_direct_redirect(m: Map<Seq<Seq<u32>>, NodeView>, path: Seq<char>)
    requires
        m.contains_key(path_key(segments_of(path))),
        m[path_key(segments_of(path))].redirect is Some,
    ensures
        resolve_spec(m, path) == m[path_key(segments_of(path))].redirect->0,
{
    let segs = segments_of(path);
    let p = path_key(segs);
    assert(p.take(segs.len() as int) =~= p);
    assert(segs.skip(segs.len() as int) =~= Seq::<Seq<char>>::empty());
}

/// Of all the redirects and create-targets on a path's way down, the
/// deepest decides: the path resolves below it, whatever lies above.
pub proof fn lemma_innermost_redirect_wins(
    m: Map<Seq<Seq<u32>>, NodeView>,
    path: Seq<char>,
    j: nat,
)
    requires
        j <= segments_of(path).len(),
        has_base(m, path_key(segments_of(path)).take(j as int)),
        forall|i: nat|
            j < i <= segments_of(path).len() ==> !has_base(
                m,
                #[trigger] path_key(segments_of(path)).take(i as int),
            ),
    ensures
        resolve_spec(m, path) == join_onto(
            base_of(m[path_key(segments_of(path)).take(j as int)])->0,
            segments_of(path).skip(j as int),
        ),
{
    let segs = segments_of(path);
    lemma_deepest_base_at(m, path_key(segs), segs.len(), j);
}

/// A path with nothing redirected on its way down resolves to itself.
pub proof fn lemma_resolve_passthrough(m: Map<Seq<Seq<u32>>, NodeView>, path: Seq<char>)
    requires
        forall|i: nat|
            i <= segments_of(path).len() ==> !has_base(
                m,
                #[trigger] path_key(segments_of(path)).take(i as int),
            ),
    ensures
        resolve_spec(m, path) == path,
{
    lemma_deepest_base_none(m, path_key(segments_of(path)), segments_of(path).len());
}

/// Disconnecting a second time changes nothing.
pub proof fn lemma_disconnect_idempotent(v: VfsView)
    ensures
        disconnected(disconnected(v)) == disconnected(v),
{
}

/// At a destination that already has a redirect, a link with
/// `LINKFLAG_FAILIFEXISTS` is refused as already linked; without the flag
/// it goes through and, unless it sets a create-target, replaces the
/// redirect.
pub proof fn lemma_fail_if_exists(
    m: Map<Seq<Seq<u32>>, NodeView>,
    dest: Seq<Seq<u32>>,
    source: Seq<char>,
    flags: u32,
)
    requires
        m.contains_key(dest),
        m[dest].redirect is Some,
    ensures
        has_flag(flags, LINKFLAG_FAILIFEXISTS) ==> link_error(m, dest, flags) == Some(
            LinkErrorKind::AlreadyLinked,
        ),
        !has_flag(flags, LINKFLAG_FAILIFEXISTS) ==> link_error(m, dest, flags) is None,
        !has_flag(flags, LINKFLAG_FAILIFEXISTS) && !has_flag(flags, LINKFLAG_CREATETARGET)
            ==> link_map(m, dest, source, flags)[dest].redirect == Some(source),
{
}

/// Whether a segment of `k` at position `from` or deeper, other than its
/// last, names a skip directory.
pub open spec fn under_skipped_directory(reg: RegistryView, from: int, k: Seq<Seq<u32>>) -> bool {
    exists|i: int, j: int|
        from <= i < k.len() - 1 && 0 <= j < reg.skip_directories.len() && seg_key(
            #[trigger] reg.skip_directories[j],
        ) == #[trigger] k[i]
}

proof fn lemma_ancestors_short(m: Map<Seq<Seq<u32>>, NodeView>, p: Seq<Seq<u32>>, n: nat, k: Seq<Seq<u32>>)
    requires
        n <= p.len(),
        with_ancestors(m, p, n).contains_key(k),
        !m.contains_key(k),
    ensures
        k.len() <= n,
    decreases n,
{
    if n > 0 {
        let m1 = with_ancestors(m, p, (n - 1) as nat);
        if m1.contains_key(k) {
            lemma_ancestors_short(m, p, (n - 1) as nat, k);
        } else {
            assert(k == p.take(n as int));
        }
    }
}

proof fn lemma_entries_skip_directories(
    m: Map<Seq<Seq<u32>>, NodeView>,
    dest: Seq<Seq<char>>,
    source: Seq<char>,
    es: Seq<(Seq<Seq<char>>, bool)>,
    flags: u32,
    reg: RegistryView,
    k: Seq<Seq<u32>>,
)
    requires
        apply_entries(m, dest, source, es, flags, reg).contains_key(k),
        !m.contains_key(k),
    ensures
        !under_skipped_directory(reg, dest.len() as int, k),
    decreases es.len(),
{
    if es.len() > 0 {
        let m1 = apply_entries(m, dest, source, es.drop_last(), flags, reg);
        let e = es.last();
        if m1.contains_key(k) {
            lemma_entries_skip_directories(m, dest, source, es.drop_last(), flags, reg, k);
        } else {
            assert(considered(e, flags) && !skipped(reg, e));
            lemma_path_key_concat(dest, e.0);
            assert(k == path_key(dest) + path_key(e.0));
            if under_skipped_directory(reg, dest.len() as int, k) {
                let (i, j) = choose|i: int, j: int|
                    dest.len() <= i < k.len() - 1 && 0 <= j < reg.skip_directories.len()
                        && seg_key(#[trigger] reg.skip_directories[j]) == #[trigger] k[i];
                let idx = i - dest.len();
                assert(k[i] == seg_key(e.0[idx]));
                assert(directory_segments(e)[idx] == e.0[idx]);
                assert(lists_name(reg.skip_directories, directory_segments(e)[idx]));
            }
        }
    }
}

/// A static link adds no node below a directory named on the skip list:
/// every segment under the destination, but a file's own name, of every
/// node it adds is a directory that was not skipped.
pub proof fn lemma_static_link_omits_skipped_directories(
    m: Map<Seq<Seq<u32>>, NodeView>,
    dest: Seq<Seq<char>>,
    source: Seq<char>,
    es: Seq<(Seq<Seq<char>>, bool)>,
    flags: u32,
    reg: RegistryView,
    k: Seq<Seq<u32>>,
)
    requires
        apply_entries(
            destination_map(m, path_key(dest), source, flags),
            dest,
            source,
            es,
            flags,
            reg,
        ).contains_key(k),
        !m.contains_key(k),
    ensures
        !under_skipped_directory(reg, dest.len() as int, k),
{
    let p = path_key(dest);
    let dm = destination_map(m, p, source, flags);
    if dm.contains_key(k) {
        let m1 = with_ancestors(m, p, parent_len(p));
        if m1.contains_key(k) {
            lemma_ancestors_short(m, p, parent_len(p), k);
        }
        assert(k.len() <= dest.len());
    } else {
        lemma_entries_skip_directories(dm, dest, source, es, flags, reg, k);
    }
}

/// With `LINKFLAG_FAILIFSKIPPED`, a static link whose destination is
/// acceptable (no node there under `LINKFLAG_FAILIFEXISTS`, and no other
/// link error) is refused as soon as one entry it takes into account is
/// skipped.
pub proof fn lemma_fail_if_skipped(
    m: Map<Seq<Seq<u32>>, NodeView>,
    dest: Seq<Seq<u32>>,
    flags: u32,
    es: Seq<(Seq<Seq<char>>, bool)>,
    reg: RegistryView,
    i: int,
)
    requires
        !(has_flag(flags, LINKFLAG_FAILIFEXISTS) && m.contains_key(dest)),
        link_error(m, dest, flags) is None,
        has_flag(flags, LINKFLAG_FAILIFSKIPPED),
        0 <= i < es.len(),
        considered(es[i], flags),
        skipped(reg, es[i]),
    ensures
        static_link_error(m, dest, flags, es, reg) == Some(LinkErrorKind::SkippedEntryRejected),
{
}

} // verus!
