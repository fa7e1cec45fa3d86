//! Skip and blacklist registry: skip file suffixes, skip directory names,
//! blacklisted executables and forced library loads.
use vstd::prelude::*;
use crate::path::{copy_chars, same_segment, seg_key};

verus! {

/// A library to load into every hooked process of the given name.
pub struct ForceLoad {
    pub process_name: Vec<char>,
    pub library_path: Vec<char>,
}

pub struct RegistryView {
    pub skip_suffixes: Seq<Seq<char>>,
    pub skip_directories: Seq<Seq<char>>,
    pub blacklist: Seq<Seq<char>>,
    pub force_loads: Seq<(Seq<char>, Seq<char>)>,
}

pub open spec fn names_view(v: Seq<Vec<char>>) -> Seq<Seq<char>> {
    v.map_values(|x: Vec<char>| x@)
}

pub open spec fn loads_view(v: Seq<ForceLoad>) -> Seq<(Seq<char>, Seq<char>)> {
    v.map_values(|x: ForceLoad| (x.process_name@, x.library_path@))
}

/// Whether a name equal to `name`, without regard to ASCII case, is listed.
pub open spec fn lists_name(list: Seq<Seq<char>>, name: Seq<char>) -> bool {
    exists|i: int| 0 <= i < list.len() && seg_key(#[trigger] list[i]) == seg_key(name)
}

pub open spec fn ends_with(s: Seq<u32>, suffix: Seq<u32>) -> bool {
    suffix.len() <= s.len() && s.subrange(s.len() - suffix.len(), s.len() as int) == suffix
}

/// Whether a file name ends, without regard to ASCII case, with a listed suffix.
pub open spec fn has_listed_suffix(list: Seq<Seq<char>>, name: Seq<char>) -> bool {
    exists|i: int| 0 <= i < list.len() && ends_with(seg_key(name), seg_key(#[trigger] list[i]))
}

/// The libraries listed for a process name, in the order they were added.
pub open spec fn libraries_for(loads: Seq<(Seq<char>, Seq<char>)>, process: Seq<char>) -> Seq<
    Seq<char>,
>
    decreases loads.len(),
{
    if loads.len() == 0 {
        Seq::empty()
    } else {
        let rest = libraries_for(loads.drop_last(), process);
        if seg_key(loads.last().0) == seg_key(process) {
            rest.push(loads.last().1)
        } else {
            rest
        }
    }
}

/// Whether one of `list` equals `name` without regard to ASCII case.
pub fn contains_name(list: &Vec<Vec<char>>, name: &Vec<char>) -> (r: bool)
    ensures
        r == lists_name(names_view(list@), name@),
{
    let mut i: usize = 0;
    while i < list.len()
        invariant
            i <= list.len(),
            forall|j: int| 0 <= j < i ==> seg_key(#[trigger] list@[j]@) != seg_key(name@),
        decreases list.len() - i,
    {
        if same_segment(&list[i], name) {
            assert(names_view(list@)[i as int] == list@[i as int]@);
            return true;
        }
        i = i + 1;
    }
    assert forall|j: int| 0 <= j < names_view(list@).len() implies seg_key(
        #[trigger] names_view(list@)[j],
    ) != seg_key(name@) by {
        assert(names_view(list@)[j] == list@[j]@);
    }
    false
}

/// Whether `name` ends with `suffix` without regard to ASCII case.
pub fn ends_with_folded(name: &Vec<char>, suffix: &Vec<char>) -> (r: bool)
    ensures
        r == ends_with(seg_key(name@), seg_key(suffix@)),
{
    if suffix.len() > name.len() {
        return false;
    }
    let off = name.len() - suffix.len();
    let ghost tail = seg_key(name@).subrange(off as int, name.len() as int);
    let mut i: usize = 0;
    while i < suffix.len()
        invariant
            off + suffix.len() == name.len(),
            i <= suffix.len(),
            tail == seg_key(name@).subrange(off as int, name.len() as int),
            forall|j: int| 0 <= j < i ==> tail[j] == seg_key(suffix@)[j],
        decreases suffix.len() - i,
    {
        let x = name[off + i] as u32;
        let y = suffix[i] as u32;
        let fx: u32 = if 65 <= x && x <= 90 { x + 32 } else { x };
        let fy: u32 = if 65 <= y && y <= 90 { y + 32 } else { y };
        if fx != fy {
            assert(tail[i as int] != seg_key(suffix@)[i as int]);
            return false;
        }
        i = i + 1;
    }
    assert(tail =~= seg_key(suffix@));
    true
}

/// Whether `name` ends with one of the suffixes of `list`.
pub fn matches_suffix(list: &Vec<Vec<char>>, name: &Vec<char>) -> (r: bool)
    ensures
        r == has_listed_suffix(names_view(list@), name@),
{
    let mut i: usize = 0;
    while i < list.len()
        invariant
            i <= list.len(),
            forall|j: int| 0 <= j < i ==> !ends_with(seg_key(name@), seg_key(#[trigger] list@[j]@)),
        decreases list.len() - i,
    {
        if ends_with_folded(name, &list[i]) {
            assert(names_view(list@)[i as int] == list@[i as int]@);
            return true;
        }
        i = i + 1;
    }
    assert forall|j: int| 0 <= j < names_view(list@).len() implies !ends_with(
        seg_key(name@),
        seg_key(#[trigger] names_view(list@)[j]),
    ) by {
        assert(names_view(list@)[j] == list@[j]@);
    }
    false
}

/// The process-wide filter state consulted while linking and spawning.
pub struct Registry {
    pub skip_suffixes: Vec<Vec<char>>,
    pub skip_directories: Vec<Vec<char>>,
    pub blacklist: Vec<Vec<char>>,
    pub force_loads: Vec<ForceLoad>,
}

impl View for Registry {
    type V = RegistryView;

    open spec fn view(&self) -> RegistryView {
        RegistryView {
            skip_suffixes: names_view(self.skip_suffixes@),
            skip_directories: names_view(self.skip_directories@),
            blacklist: names_view(self.blacklist@),
            force_loads: loads_view(self.force_loads@),
        }
    }
}

pub open spec fn empty_registry() -> RegistryView {
    RegistryView {
        skip_suffixes: Seq::empty(),
        skip_directories: Seq::empty(),
        blacklist: Seq::empty(),
        force_loads: Seq::empty(),
    }
}

impl Registry {
    pub fn new() -> (r: Registry)
        ensures
            r@ == empty_registry(),
    {
        let r = Registry {
            skip_suffixes: Vec::new(),
            skip_directories: Vec::new(),
            blacklist: Vec::new(),
            force_loads: Vec::new(),
        };
        assert(r@.skip_suffixes =~= Seq::<Seq<char>>::empty());
        assert(r@.skip_directories =~= Seq::<Seq<char>>::empty());
        assert(r@.blacklist =~= Seq::<Seq<char>>::empty());
        assert(r@.force_loads =~= Seq::<(Seq<char>, Seq<char>)>::empty());
        r
    }

    pub fn add_skip_suffix(&mut self, suffix: Vec<char>)
        ensures
            final(self)@ == (RegistryView {
                skip_suffixes: old(self)@.skip_suffixes.push(suffix@),
                ..old(self)@
            }),
    {
        self.skip_suffixes.push(suffix);
        assert(names_view(self.skip_suffixes@) =~= old(self)@.skip_suffixes.push(suffix@));
    }

    pub fn clear_skip_suffixes(&mut self)
        ensures
            final(self)@ == (RegistryView { skip_suffixes: Seq::empty(), ..old(self)@ }),
    {
        self.skip_suffixes = Vec::new();
        assert(names_view(self.skip_suffixes@) =~= Seq::<Seq<char>>::empty());
    }

    pub fn add_skip_directory(&mut self, name: Vec<char>)
        ensures
            final(self)@ == (RegistryView {
                skip_directories: old(self)@.skip_directories.push(name@),
                ..old(self)@
            }),
    {
        self.skip_directories.push(name);
        assert(names_view(self.skip_directories@) =~= old(self)@.skip_directories.push(name@));
    }

    pub fn clear_skip_directories(&mut self)
        ensures
            final(self)@ == (RegistryView { skip_directories: Seq::empty(), ..old(self)@ }),
    {
        self.skip_directories = Vec::new();
        assert(names_view(self.skip_directories@) =~= Seq::<Seq<char>>::empty());
    }

    pub fn add_blacklisted(&mut self, name: Vec<char>)
        ensures
            final(self)@ == (RegistryView {
                blacklist: old(self)@.blacklist.push(name@),
                ..old(self)@
            }),
    {
        self.blacklist.push(name);
        assert(names_view(self.blacklist@) =~= old(self)@.blacklist.push(name@));
    }

    pub fn clear_blacklist(&mut self)
        ensures
            final(self)@ == (RegistryView { blacklist: Seq::empty(), ..old(self)@ }),
    {
        self.blacklist = Vec::new();
        assert(names_view(self.blacklist@) =~= Seq::<Seq<char>>::empty());
    }

    pub fn add_force_load(&mut self, process_name: Vec<char>, library_path: Vec<char>)
        ensures
            final(self)@ == (RegistryView {
                force_loads: old(self)@.force_loads.push((process_name@, library_path@)),
                ..old(self)@
            }),
    {
        let ghost entry = (process_name@, library_path@);
        self.force_loads.push(ForceLoad { process_name, library_path });
        assert(loads_view(self.force_loads@) =~= old(self)@.force_loads.push(entry));
    }

    pub fn clear_force_loads(&mut self)
        ensures
            final(self)@ == (RegistryView { force_loads: Seq::empty(), ..old(self)@ }),
    {
        self.force_loads = Vec::new();
        assert(loads_view(self.force_loads@) =~= Seq::<(Seq<char>, Seq<char>)>::empty());
    }

    /// Whether the executable name is blacklisted.
    pub fn is_blacklisted(&self, name: &Vec<char>) -> (r: bool)
        ensures
            r == lists_name(self@.blacklist, name@),
    {
        contains_name(&self.blacklist, name)
    }

    /// The libraries to load into a process of the given name.
    pub fn libraries_for(&self, process: &Vec<char>) -> (r: Vec<Vec<char>>)
        ensures
            names_view(r@) == libraries_for(self@.force_loads, process@),
    {
        let mut r: Vec<Vec<char>> = Vec::new();
        let mut i: usize = 0;
        let ghost loads = self@.force_loads;
        assert(names_view(r@) =~= libraries_for(loads.take(0), process@));
        while i < self.force_loads.len()
            invariant
                i <= self.force_loads.len(),
                loads == loads_view(self.force_loads@),
                names_view(r@) == libraries_for(loads.take(i as int), process@),
            decreases self.force_loads.len() - i,
        {
            assert(loads.take(i + 1).drop_last() =~= loads.take(i as int));
            assert(loads.take(i + 1).last() == loads[i as int]);
            let entry = &self.force_loads[i];
            if same_segment(&entry.process_name, process) {
                let lib = copy_chars(&entry.library_path);
                let ghost before = r@;
                r.push(lib);
                assert(names_view(r@) =~= names_view(before).push(lib@));
            }
            i = i + 1;
        }
        assert(loads.take(i as int) =~= loads);
        r
    }
}

} // verus!
