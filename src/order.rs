//! The order in which a static link visits the entries of a source tree:
//! lexicographic by segment, so that the overlay and its dumps do not depend
//! on the order of a directory listing.
use vstd::prelude::*;
use vstd::relations::{sorted_by, total_ordering};
use crate::linking::{entries_view, SourceEntry};
use crate::path::{copy_segments, seg_views};

verus! {

/// Lexicographic order of character sequences by code point.
pub open spec fn chars_le(a: Seq<char>, b: Seq<char>) -> bool
    decreases a.len(),
{
    if a.len() == 0 {
        true
    } else if b.len() == 0 {
        false
    } else if a[0] != b[0] {
        a[0] < b[0]
    } else {
        chars_le(a.drop_first(), b.drop_first())
    }
}

/// Lexicographic order of segment sequences, segments compared by `chars_le`.
pub open spec fn segs_le(a: Seq<Seq<char>>, b: Seq<Seq<char>>) -> bool
    decreases a.len(),
{
    if a.len() == 0 {
        true
    } else if b.len() == 0 {
        false
    } else if a[0] != b[0] {
        chars_le(a[0], b[0])
    } else {
        segs_le(a.drop_first(), b.drop_first())
    }
}

/// Entries by path; at equal paths a file comes before a directory.
pub open spec fn entry_le(x: (Seq<Seq<char>>, bool), y: (Seq<Seq<char>>, bool)) -> bool {
    if x.0 == y.0 {
        !x.1 || y.1
    } else {
        segs_le(x.0, y.0)
    }
}

pub open spec fn entry_order() -> spec_fn((Seq<Seq<char>>, bool), (Seq<Seq<char>>, bool)) -> bool {
    |x: (Seq<Seq<char>>, bool), y: (Seq<Seq<char>>, bool)| entry_le(x, y)
}

proof fn lemma_seq_eq_by_head<T>(a: Seq<T>, b: Seq<T>)
    requires
        a.len() > 0,
        b.len() > 0,
        a[0] == b[0],
        a.drop_first() == b.drop_first(),
    ensures
        a == b,
{
    assert(a.len() == a.drop_first().len() + 1);
    assert(b.len() == b.drop_first().len() + 1);
    assert(a.len() == b.len());
    assert forall|i: int| 0 <= i < a.len() implies a[i] == b[i] by {
        if i > 0 {
            assert(a[i] == a.drop_first()[i - 1]);
            assert(b[i] == b.drop_first()[i - 1]);
        }
    }
    assert(a =~= b);
}

proof fn lemma_chars_refl(a: Seq<char>)
    ensures
        chars_le(a, a),
    decreases a.len(),
{
    if a.len() > 0 {
        lemma_chars_refl(a.drop_first());
    }
}

proof fn lemma_chars_antisym(a: Seq<char>, b: Seq<char>)
    requires
        chars_le(a, b),
        chars_le(b, a),
    ensures
        a == b,
    decreases a.len(),
{
    if a.len() == 0 || b.len() == 0 {
        assert(a.len() == 0 && b.len() == 0);
        assert(a =~= b);
    } else {
        lemma_chars_antisym(a.drop_first(), b.drop_first());
        lemma_seq_eq_by_head(a, b);
    }
}

proof fn lemma_chars_trans(a: Seq<char>, b: Seq<char>, c: Seq<char>)
    requires
        chars_le(a, b),
        chars_le(b, c),
    ensures
        chars_le(a, c),
    decreases a.len(),
{
    if a.len() > 0 && b.len() > 0 && c.len() > 0 && a[0] == b[0] && b[0] == c[0] {
        lemma_chars_trans(a.drop_first(), b.drop_first(), c.drop_first());
    }
}

proof fn lemma_chars_total(a: Seq<char>, b: Seq<char>)
    ensures
        chars_le(a, b) || chars_le(b, a),
    decreases a.len(),
{
    if a.len() > 0 && b.len() > 0 && a[0] == b[0] {
        lemma_chars_total(a.drop_first(), b.drop_first());
    }
}

proof fn lemma_segs_refl(a: Seq<Seq<char>>)
    ensures
        segs_le(a, a),
    decreases a.len(),
{
    if a.len() > 0 {
        lemma_segs_refl(a.drop_first());
    }
}

proof fn lemma_segs_antisym(a: Seq<Seq<char>>, b: Seq<Seq<char>>)
    requires
        segs_le(a, b),
        segs_le(b, a),
    ensures
        a == b,
    decreases a.len(),
{
    if a.len() == 0 || b.len() == 0 {
        assert(a.len() == 0 && b.len() == 0);
        assert(a =~= b);
    } else if a[0] != b[0] {
        lemma_chars_antisym(a[0], b[0]);
    } else {
        lemma_segs_antisym(a.drop_first(), b.drop_first());
        lemma_seq_eq_by_head(a, b);
    }
}

proof fn lemma_segs_trans(a: Seq<Seq<char>>, b: Seq<Seq<char>>, c: Seq<Seq<char>>)
    requires
        segs_le(a, b),
        segs_le(b, c),
    ensures
        segs_le(a, c),
    decreases a.len(),
{
    if a.len() > 0 && b.len() > 0 && c.len() > 0 {
        if a[0] == b[0] && b[0] == c[0] {
            lemma_segs_trans(a.drop_first(), b.drop_first(), c.drop_first());
        } else if a[0] != b[0] && b[0] != c[0] {
            if a[0] == c[0] {
                lemma_chars_antisym(a[0], b[0]);
            } else {
                lemma_chars_trans(a[0], b[0], c[0]);
            }
        }
    }
}

proof fn lemma_segs_total(a: Seq<Seq<char>>, b: Seq<Seq<char>>)
    ensures
        segs_le(a, b) || segs_le(b, a),
    decreases a.len(),
{
    if a.len() > 0 && b.len() > 0 {
        if a[0] == b[0] {
            lemma_segs_total(a.drop_first(), b.drop_first());
        } else {
            lemma_chars_total(a[0], b[0]);
        }
    }
}

/// The order of entries is a total order.
pub proof fn lemma_entry_order_total()
    ensures
        total_ordering(entry_order()),
{
    let r = entry_order();
    assert forall|x: (Seq<Seq<char>>, bool)| #[trigger] r(x, x) by {}
    assert forall|x: (Seq<Seq<char>>, bool), y: (Seq<Seq<char>>, bool)|
        #[trigger] r(x, y) && #[trigger] r(y, x) implies x == y by {
        if x.0 != y.0 {
            lemma_segs_antisym(x.0, y.0);
        }
    }
    assert forall|
        x: (Seq<Seq<char>>, bool),
        y: (Seq<Seq<char>>, bool),
        z: (Seq<Seq<char>>, bool),
    | #[trigger] r(x, y) && #[trigger] r(y, z) implies r(x, z) by {
        if x.0 != y.0 && y.0 != z.0 {
            lemma_segs_trans(x.0, y.0, z.0);
            if x.0 == z.0 {
                lemma_segs_antisym(x.0, y.0);
            }
        }
    }
    assert forall|x: (Seq<Seq<char>>, bool), y: (Seq<Seq<char>>, bool)|
        #[trigger] r(x, y) || #[trigger] r(y, x) by {
        if x.0 != y.0 {
            lemma_segs_total(x.0, y.0);
        }
    }
}

pub fn chars_le_exec(a: &Vec<char>, b: &Vec<char>) -> (r: bool)
    ensures
        r == chars_le(a@, b@),
{
    let mut i: usize = 0;
    assert(a@.skip(0) =~= a@ && b@.skip(0) =~= b@);
    while i < a.len() && i < b.len()
        invariant
            i <= a.len(),
            i <= b.len(),
            chars_le(a@, b@) == chars_le(a@.skip(i as int), b@.skip(i as int)),
        decreases a.len() - i,
    {
        let ghost x = a@.skip(i as int);
        let ghost y = b@.skip(i as int);
        assert(x[0] == a@[i as int] && y[0] == b@[i as int]);
        if a[i] != b[i] {
            return a[i] < b[i];
        }
        assert(x.drop_first() =~= a@.skip(i + 1));
        assert(y.drop_first() =~= b@.skip(i + 1));
        i = i + 1;
    }
    if i == a.len() {
        assert(a@.skip(i as int).len() == 0);
        true
    } else {
        assert(b@.skip(i as int).len() == 0);
        false
    }
}

pub fn segs_le_exec(a: &Vec<Vec<char>>, b: &Vec<Vec<char>>) -> (r: bool)
    ensures
        r == segs_le(seg_views(a@), seg_views(b@)),
{
    let ghost av = seg_views(a@);
    let ghost bv = seg_views(b@);
    let mut i: usize = 0;
    assert(av.skip(0) =~= av && bv.skip(0) =~= bv);
    while i < a.len() && i < b.len()
        invariant
            i <= a.len(),
            i <= b.len(),
            av == seg_views(a@),
            bv == seg_views(b@),
            segs_le(av, bv) == segs_le(av.skip(i as int), bv.skip(i as int)),
        decreases a.len() - i,
    {
        let ghost x = av.skip(i as int);
        let ghost y = bv.skip(i as int);
        assert(x[0] == a@[i as int]@ && y[0] == b@[i as int]@);
        if !crate::path::same_chars(&a[i], &b[i]) {
            return chars_le_exec(&a[i], &b[i]);
        }
        assert(x.drop_first() =~= av.skip(i + 1));
        assert(y.drop_first() =~= bv.skip(i + 1));
        i = i + 1;
    }
    if i == a.len() {
        assert(av.skip(i as int).len() == 0);
        true
    } else {
        assert(bv.skip(i as int).len() == 0);
        false
    }
}

pub fn entry_le_exec(a: &SourceEntry, b: &SourceEntry) -> (r: bool)
    ensures
        r == entry_le(a.entry_view(), b.entry_view()),
{
    let ab = segs_le_exec(&a.segments, &b.segments);
    let ba = segs_le_exec(&b.segments, &a.segments);
    if ab && ba {
        proof {
            lemma_segs_antisym(seg_views(a.segments@), seg_views(b.segments@));
        }
        !a.is_directory || b.is_directory
    } else {
        proof {
            if seg_views(a.segments@) == seg_views(b.segments@) {
                lemma_segs_refl(seg_views(a.segments@));
            }
        }
        ab
    }
}

pub fn copy_entry(e: &SourceEntry) -> (r: SourceEntry)
    ensures
        r.entry_view() == e.entry_view(),
{
    let segments = copy_segments(&e.segments, e.segments.len());
    assert(seg_views(e.segments@).take(e.segments.len() as int) =~= seg_views(e.segments@));
    SourceEntry { segments, is_directory: e.is_directory }
}

proof fn lemma_insert_sorted(s: Seq<(Seq<Seq<char>>, bool)>, j: int, e: (Seq<Seq<char>>, bool))
    requires
        total_ordering(entry_order()),
        sorted_by(s, entry_order()),
        0 <= j <= s.len(),
        forall|k: int| 0 <= k < j ==> entry_le(#[trigger] s[k], e),
        j < s.len() ==> !entry_le(s[j], e),
    ensures
        sorted_by(s.insert(j, e), entry_order()),
{
    let r = entry_order();
    let t = s.insert(j, e);
    if j < s.len() {
        assert(r(s[j], e) || r(e, s[j]));
    }
    assert forall|k: int| j <= k < s.len() implies entry_le(e, #[trigger] s[k]) by {
        assert(r(e, s[j]));
        if k > j {
            assert(r(s[j], s[k]));
            assert(r(e, s[j]) && r(s[j], s[k]));
        }
    }
    assert forall|a: int, b: int| 0 <= a < b < t.len() implies #[trigger] r(t[a], t[b]) by {
        if b < j {
            assert(r(s[a], s[b]));
        } else if b == j {
            assert(entry_le(s[a], e));
        } else if a < j {
            assert(entry_le(s[a], e) && entry_le(e, s[b - 1]));
            assert(r(s[a], e) && r(e, s[b - 1]));
        } else if a == j {
            assert(entry_le(e, s[b - 1]));
        } else {
            assert(r(s[a - 1], s[b - 1]));
        }
    }
}

/// The entries in lexicographic order of their paths.
pub fn sorted_entries(entries: &Vec<SourceEntry>) -> (r: Vec<SourceEntry>)
    ensures
        entries_view(r@) == entries_view(entries@).sort_by(entry_order()),
{
    proof {
        lemma_entry_order_total();
    }
    let ghost input = entries_view(entries@);
    let mut r: Vec<SourceEntry> = Vec::new();
    let mut i: usize = 0;
    assert(entries_view(r@) =~= input.take(0));
    while i < entries.len()
        invariant
            i <= entries.len(),
            input == entries_view(entries@),
            total_ordering(entry_order()),
            sorted_by(entries_view(r@), entry_order()),
            entries_view(r@).to_multiset() == input.take(i as int).to_multiset(),
        decreases entries.len() - i,
    {
        let e = copy_entry(&entries[i]);
        let ghost rv = entries_view(r@);
        let mut j: usize = 0;
        let mut stop = false;
        while j < r.len() && !stop
            invariant
                j <= r.len(),
                rv == entries_view(r@),
                forall|k: int| 0 <= k < j ==> entry_le(#[trigger] rv[k], e.entry_view()),
                stop ==> j < r.len() && !entry_le(rv[j as int], e.entry_view()),
            decreases r.len() - j + (if stop { 0int } else { 1int }),
        {
            assert(rv[j as int] == r@[j as int].entry_view());
            if entry_le_exec(&r[j], &e) {
                j = j + 1;
            } else {
                stop = true;
            }
        }
        proof {
            lemma_insert_sorted(rv, j as int, e.entry_view());
            vstd::seq_lib::to_multiset_insert(rv, j as int, e.entry_view());
            assert(input.take(i + 1) =~= input.take(i as int).push(e.entry_view()));
            vstd::seq_lib::to_multiset_build(input.take(i as int), e.entry_view());
        }
        r.insert(j, e);
        assert(entries_view(r@) =~= rv.insert(j as int, e.entry_view()));
        i = i + 1;
    }
    proof {
        assert(input.take(i as int) =~= input);
        input.lemma_sort_by_ensures(entry_order());
        vstd::seq_lib::lemma_sorted_unique(entries_view(r@), input.sort_by(entry_order()), entry_order());
    }
    r
}

} // verus!
