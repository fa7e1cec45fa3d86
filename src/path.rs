//! Virtual paths: splitting into segments, case-insensitive segment keys,
//! and joining a real base path with the segments below it.
use vstd::prelude::*;
use vstd::string::*;

verus! {

/// Both `/` and `\` separate path segments.
pub open spec fn is_separator(c: char) -> bool {
    c == '/' || c == '\\'
}

/// The segments finished and the segment in progress after reading the
/// first `i` characters of `s`; runs of separators yield no empty segment.
pub open spec fn split_prefix(s: Seq<char>, i: nat) -> (Seq<Seq<char>>, Seq<char>)
    decreases i,
{
    if i == 0 {
        (Seq::empty(), Seq::empty())
    } else {
        let prev = split_prefix(s, (i - 1) as nat);
        let c = s[i - 1];
        if is_separator(c) {
            if prev.1.len() == 0 {
                prev
            } else {
                (prev.0.push(prev.1), Seq::empty())
            }
        } else {
            (prev.0, prev.1.push(c))
        }
    }
}

/// The non-empty segments of a path, in order.
pub open spec fn segments_of(s: Seq<char>) -> Seq<Seq<char>> {
    let st = split_prefix(s, s.len());
    if st.1.len() == 0 {
        st.0
    } else {
        st.0.push(st.1)
    }
}

/// ASCII letters compare without regard to case.
pub open spec fn fold_code(c: char) -> u32 {
    if 65 <= (c as u32) && (c as u32) <= 90 {
        ((c as u32) + 32) as u32
    } else {
        c as u32
    }
}

/// The key under which a segment is compared: its case-folded code points.
pub open spec fn seg_key(s: Seq<char>) -> Seq<u32> {
    s.map_values(|c: char| fold_code(c))
}

/// The key of a sequence of segments.
pub open spec fn path_key(p: Seq<Seq<char>>) -> Seq<Seq<u32>> {
    p.map_values(|s: Seq<char>| seg_key(s))
}

pub open spec fn seg_views(v: Seq<Vec<char>>) -> Seq<Seq<char>> {
    v.map_values(|x: Vec<char>| x@)
}

/// `base` followed, for each segment of `rest`, by a backslash and the segment.
pub open spec fn join_onto(base: Seq<char>, rest: Seq<Seq<char>>) -> Seq<char>
    decreases rest.len(),
{
    if rest.len() == 0 {
        base
    } else {
        join_onto(base, rest.drop_last()) + seq!['\\'] + rest.last()
    }
}

pub proof fn lemma_path_key_take(p: Seq<Seq<char>>, k: int)
    requires
        0 <= k <= p.len(),
    ensures
        path_key(p.take(k)) == path_key(p).take(k),
{
    assert(path_key(p.take(k)) =~= path_key(p).take(k));
}

pub proof fn lemma_path_key_concat(a: Seq<Seq<char>>, b: Seq<Seq<char>>)
    ensures
        path_key(a + b) == path_key(a) + path_key(b),
{
    assert(path_key(a + b) =~= path_key(a) + path_key(b));
}

/// The UTF-16 code units of one character: one unit below 0x10000, else a
/// surrogate pair.
pub open spec fn utf16_units(c: char) -> Seq<u16> {
    let v = c as u32;
    if v < 0x10000 {
        seq![v as u16]
    } else {
        seq![(0xD800 + (v - 0x10000) / 0x400) as u16, (0xDC00 + (v - 0x10000) % 0x400) as u16]
    }
}

/// The UTF-16 encoding of a character sequence.
pub open spec fn utf16_of(s: Seq<char>) -> Seq<u16>
    decreases s.len(),
{
    if s.len() == 0 {
        Seq::empty()
    } else {
        utf16_of(s.drop_last()) + utf16_units(s.last())
    }
}

/// A string as the engine takes names and paths: UTF-16 followed by a NUL
/// unit.
pub fn encode_wide(s: &str) -> (r: Vec<u16>)
    ensures
        r@ == utf16_of(s@).push(0u16),
{
    let cs = chars_of(s);
    let mut r: Vec<u16> = Vec::new();
    let mut i: usize = 0;
    assert(cs@.take(0) =~= Seq::<char>::empty());
    while i < cs.len()
        invariant
            i <= cs.len(),
            r@ == utf16_of(cs@.take(i as int)),
        decreases cs.len() - i,
    {
        let v = cs[i] as u32;
        proof {
            vstd::utf8::char_is_scalar(cs@[i as int]);
        }
        let ghost before = r@;
        if v < 0x10000 {
            r.push(v as u16);
        } else {
            let w = v - 0x10000;
            assert(w <= 0xFFFFF);
            r.push((0xD800 + w / 0x400) as u16);
            r.push((0xDC00 + w % 0x400) as u16);
        }
        assert(cs@.take(i + 1).drop_last() =~= cs@.take(i as int));
        assert(r@ =~= before + utf16_units(cs@[i as int]));
        i = i + 1;
    }
    assert(cs@.take(i as int) =~= s@);
    r.push(0);
    r
}

/// Relies on String::push: the character is appended at the end.
#[verifier::external_body]
fn push_char(s: &mut String, c: char)
    ensures
        final(s)@ == old(s)@.push(c),
{
    s.push(c);
}

/// The characters of a string slice.
pub fn chars_of(s: &str) -> (r: Vec<char>)
    ensures
        r@ == s@,
{
    let n = s.unicode_len();
    let mut r: Vec<char> = Vec::new();
    let mut i: usize = 0;
    while i < n
        invariant
            n == s@.len(),
            i <= n,
            r@ == s@.subrange(0, i as int),
        decreases n - i,
    {
        let c = s.get_char(i);
        r.push(c);
        i = i + 1;
    }
    assert(r@ =~= s@);
    r
}

/// The string made of the given characters.
pub fn string_of(v: &Vec<char>) -> (r: String)
    ensures
        r@ == v@,
{
    let mut r = String::new();
    let mut i: usize = 0;
    while i < v.len()
        invariant
            i <= v.len(),
            r@ == v@.subrange(0, i as int),
        decreases v.len() - i,
    {
        push_char(&mut r, v[i]);
        i = i + 1;
        assert(r@ =~= v@.subrange(0, i as int));
    }
    assert(r@ =~= v@);
    r
}

/// Appends the characters of `src` to `dst`.
pub fn append_chars(dst: &mut Vec<char>, src: &Vec<char>)
    ensures
        final(dst)@ == old(dst)@ + src@,
{
    let mut i: usize = 0;
    while i < src.len()
        invariant
            i <= src.len(),
            dst@ == old(dst)@ + src@.subrange(0, i as int),
        decreases src.len() - i,
    {
        dst.push(src[i]);
        i = i + 1;
        assert(dst@ =~= old(dst)@ + src@.subrange(0, i as int));
    }
    assert(src@.subrange(0, src.len() as int) =~= src@);
}

pub fn copy_chars(src: &Vec<char>) -> (r: Vec<char>)
    ensures
        r@ == src@,
{
    let mut r: Vec<char> = Vec::new();
    append_chars(&mut r, src);
    assert(r@ =~= src@);
    r
}

/// A copy of the first `k` segments.
pub fn copy_segments(src: &Vec<Vec<char>>, k: usize) -> (r: Vec<Vec<char>>)
    requires
        k <= src.len(),
    ensures
        seg_views(r@) == seg_views(src@).take(k as int),
{
    let mut r: Vec<Vec<char>> = Vec::new();
    let mut i: usize = 0;
    while i < k
        invariant
            i <= k <= src.len(),
            seg_views(r@) == seg_views(src@).take(i as int),
        decreases k - i,
    {
        let s = copy_chars(&src[i]);
        let ghost before = r@;
        r.push(s);
        assert(r@ == before.push(s));
        assert(seg_views(r@) =~= seg_views(before).push(src@[i as int]@));
        i = i + 1;
        assert(seg_views(r@) =~= seg_views(src@).take(i as int));
    }
    r
}

/// Splits a path into its non-empty segments.
pub fn split_segments(s: &Vec<char>) -> (r: Vec<Vec<char>>)
    ensures
        seg_views(r@) == segments_of(s@),
{
    let mut done: Vec<Vec<char>> = Vec::new();
    let mut cur: Vec<char> = Vec::new();
    let mut i: usize = 0;
    assert(seg_views(done@) =~= Seq::<Seq<char>>::empty());
    while i < s.len()
        invariant
            i <= s.len(),
            seg_views(done@) == split_prefix(s@, i as nat).0,
            cur@ == split_prefix(s@, i as nat).1,
        decreases s.len() - i,
    {
        let c = s[i];
        if c == '/' || c == '\\' {
            if cur.len() > 0 {
                let ghost before = seg_views(done@);
                done.push(cur);
                assert(seg_views(done@) =~= before.push(split_prefix(s@, i as nat).1));
                cur = Vec::new();
                assert(cur@ =~= Seq::<char>::empty());
            }
        } else {
            cur.push(c);
        }
        i = i + 1;
    }
    if cur.len() > 0 {
        let ghost before = seg_views(done@);
        done.push(cur);
        assert(seg_views(done@) =~= before.push(split_prefix(s@, s@.len()).1));
    }
    done
}

/// Whether two character sequences are equal.
pub fn same_chars(a: &Vec<char>, b: &Vec<char>) -> (r: bool)
    ensures
        r == (a@ == b@),
{
    if a.len() != b.len() {
        return false;
    }
    let mut i: usize = 0;
    while i < a.len()
        invariant
            i <= a.len() == b.len(),
            forall|j: int| 0 <= j < i ==> a@[j] == b@[j],
        decreases a.len() - i,
    {
        if a[i] != b[i] {
            return false;
        }
        i = i + 1;
    }
    assert(a@ =~= b@);
    true
}

/// Whether two segments are equal without regard to ASCII case.
pub fn same_segment(a: &Vec<char>, b: &Vec<char>) -> (r: bool)
    ensures
        r == (seg_key(a@) == seg_key(b@)),
{
    if a.len() != b.len() {
        assert(seg_key(a@).len() != seg_key(b@).len());
        return false;
    }
    let mut i: usize = 0;
    while i < a.len()
        invariant
            i <= a.len() == b.len(),
            forall|j: int| 0 <= j < i ==> fold_code(#[trigger] a@[j]) == fold_code(b@[j]),
        decreases a.len() - i,
    {
        let x = a[i] as u32;
        let y = b[i] as u32;
        let fx: u32 = if 65 <= x && x <= 90 { x + 32 } else { x };
        let fy: u32 = if 65 <= y && y <= 90 { y + 32 } else { y };
        if fx != fy {
            assert(seg_key(a@)[i as int] != seg_key(b@)[i as int]);
            return false;
        }
        i = i + 1;
    }
    assert(seg_key(a@) =~= seg_key(b@));
    true
}

/// Whether two segment sequences are equal without regard to ASCII case.
pub fn same_path(a: &Vec<Vec<char>>, b: &Vec<Vec<char>>) -> (r: bool)
    ensures
        r == (path_key(seg_views(a@)) == path_key(seg_views(b@))),
{
    if a.len() != b.len() {
        assert(path_key(seg_views(a@)).len() != path_key(seg_views(b@)).len());
        return false;
    }
    let mut i: usize = 0;
    while i < a.len()
        invariant
            i <= a.len() == b.len(),
            forall|j: int| 0 <= j < i ==> seg_key(#[trigger] a@[j]@) == seg_key(b@[j]@),
        decreases a.len() - i,
    {
        if !same_segment(&a[i], &b[i]) {
            assert(path_key(seg_views(a@))[i as int] != path_key(seg_views(b@))[i as int]);
            return false;
        }
        i = i + 1;
    }
    assert(path_key(seg_views(a@)) =~= path_key(seg_views(b@)));
    true
}

/// `base` followed by a backslash and each of the segments of `rest`.
pub fn join_segments(base: &Vec<char>, rest: &Vec<Vec<char>>, from: usize) -> (r: Vec<char>)
    requires
        from <= rest.len(),
    ensures
        r@ == join_onto(base@, seg_views(rest@).skip(from as int)),
{
    let mut r = copy_chars(base);
    let mut i: usize = from;
    let ghost tail = seg_views(rest@).skip(from as int);
    assert(tail.take(0) =~= Seq::<Seq<char>>::empty());
    while i < rest.len()
        invariant
            from <= i <= rest.len(),
            tail == seg_views(rest@).skip(from as int),
            r@ == join_onto(base@, tail.take(i - from)),
        decreases rest.len() - i,
    {
        r.push('\\');
        append_chars(&mut r, &rest[i]);
        assert(tail.take(i + 1 - from).drop_last() =~= tail.take(i - from));
        i = i + 1;
    }
    assert(tail.take(i - from) =~= tail);
    r
}

} // verus!
