//! A virtual filesystem overlay: a store of virtual-to-real path mappings,
//! the resolver that walks it, the skip and blacklist registry, and the
//! session and process bookkeeping around them.
//!
//! All state lives in one owned [`Vfs`] value; the functions below are its
//! command interface.
use vstd::prelude::*;

pub mod config;
pub mod laws;
pub mod linking;
pub mod order;
pub mod path;
pub mod registry;
pub mod session;
pub mod store;

pub use config::{ConfigurationError, CrashDumpsType, LogLevel, Parameters};
pub use linking::SourceEntry;
pub use path::encode_wide;
pub use session::{InjectionStatus, LinkRecord, ProcessHandle, SessionError, SessionState, SpawnError, Vfs};
pub use store::{
    LinkErrorKind, LINKFLAG_CREATETARGET, LINKFLAG_FAILIFEXISTS, LINKFLAG_FAILIFSKIPPED,
    LINKFLAG_MONITORCHANGES, LINKFLAG_RECURSIVE,
};

use crate::linking::{
    apply_entries, destination_map, entries_view, list_destination, list_entries, static_link_error,
};
use crate::order::entry_order;
use crate::path::{
    append_chars, chars_of, copy_chars, path_key, same_chars, seg_views, segments_of,
    split_segments, string_of,
};
use crate::registry::{libraries_for, lists_name, names_view, RegistryView};
use crate::session::{disconnected, dump_text, executable_name, is_active, logged, VfsView};
use crate::store::{link_error, link_map, list_link, resolve_spec, NodeView};

verus! {

/// A refused link operation: the rule it broke and the destination it named.
#[derive(Debug)]
pub struct LinkError {
    pub kind: LinkErrorKind,
    pub destination: String,
}

fn link_failure(kind: LinkErrorKind, destination: &str) -> (r: LinkError)
    ensures
        r.kind == kind,
        r.destination@ == destination@,
{
    LinkError { kind, destination: destination.to_owned() }
}

/// What the caller needs to start a hooked process: whether to inject the
/// hooks, the libraries to load after injection, and the startup delay.
#[derive(Debug)]
pub struct SpawnPlan {
    pub inject: bool,
    pub libraries: Vec<String>,
    pub delay_ms: u32,
}

pub open spec fn strings_view(v: Seq<String>) -> Seq<Seq<char>> {
    v.map_values(|s: String| s@)
}

/// The session after a successful `create_vfs`.
pub open spec fn created(v: VfsView, params: &Parameters) -> VfsView {
    let d = disconnected(v);
    VfsView {
        state: SessionState::Created,
        instance: Some(params.instance_name@),
        name: params.instance_name@,
        hooked: true,
        store: Map::empty(),
        nodes: Seq::empty(),
        records: Seq::empty(),
        process_delay_ms: params.process_delay_ms,
        log: logged(d, "vfs created: "@ + params.instance_name@),
        ..d
    }
}

/// The session after a successful `connect_vfs`.
pub open spec fn connected(v: VfsView, params: &Parameters) -> VfsView {
    let d = disconnected(v);
    VfsView {
        state: SessionState::Connected,
        name: params.instance_name@,
        hooked: false,
        process_delay_ms: params.process_delay_ms,
        log: logged(d, "vfs connected: "@ + params.instance_name@),
        ..d
    }
}

/// Creates an overlay instance named by `params` and makes it the current
/// session, hooking the calling process. The mapping store is always
/// emptied; a session that was open is first disconnected.
pub fn create_vfs(vfs: &mut Vfs, params: &Parameters) -> (r: Result<(), SessionError>)
    requires
        old(vfs).wf(),
    ensures
        final(vfs).wf(),
        r is Ok,
        final(vfs)@ == created(old(vfs)@, params),
        final(vfs)@.store == Map::<Seq<Seq<u32>>, NodeView>::empty(),
{
    vfs.disconnect();
    vfs.store.clear();
    vfs.clear_records();
    vfs.instance = Some(copy_chars(&params.instance_name));
    vfs.name = copy_chars(&params.instance_name);
    vfs.state = SessionState::Created;
    vfs.hooked = true;
    vfs.process_delay_ms = params.process_delay_ms;
    let mut msg = chars_of("vfs created: ");
    append_chars(&mut msg, &params.instance_name);
    vfs.log_message(msg);
    Ok(())
}

/// Connects to the existing overlay instance named by `params` as a
/// controller, without hooking the calling process and without emptying
/// the mapping store; a session that was open is first disconnected.
/// Without such an instance nothing changes.
pub fn connect_vfs(vfs: &mut Vfs, params: &Parameters) -> (r: Result<(), SessionError>)
    requires
        old(vfs).wf(),
    ensures
        final(vfs).wf(),
        r is Err <==> old(vfs)@.instance != Some(params.instance_name@),
        r is Err ==> r == Err::<(), _>(SessionError::NoSuchInstance) && final(vfs)@ == old(
            vfs,
        )@,
        r is Ok ==> final(vfs)@ == connected(old(vfs)@, params),
{
    let found = match &vfs.instance {
        Some(n) => same_chars(n, &params.instance_name),
        None => false,
    };
    if !found {
        return Err(SessionError::NoSuchInstance);
    }
    vfs.disconnect();
    vfs.name = copy_chars(&params.instance_name);
    vfs.state = SessionState::Connected;
    vfs.hooked = false;
    vfs.process_delay_ms = params.process_delay_ms;
    let mut msg = chars_of("vfs connected: ");
    append_chars(&mut msg, &params.instance_name);
    vfs.log_message(msg);
    Ok(())
}

/// Disconnects from the current session, removing the hooks of the calling
/// process. Always safe: outside an active session it does nothing, and no
/// hooks are installed afterwards in any case.
pub fn disconnect_vfs(vfs: &mut Vfs)
    requires
        old(vfs).wf(),
    ensures
        final(vfs).wf(),
        final(vfs)@ == disconnected(old(vfs)@),
        !final(vfs)@.hooked,
        !is_active(final(vfs)@.state),
{
    vfs.disconnect();
}

/// Removes every virtual mapping of the current session.
pub fn clear_virtual_mappings(vfs: &mut Vfs) -> (r: Result<(), SessionError>)
    requires
        old(vfs).wf(),
    ensures
        final(vfs).wf(),
        r is Err <==> !is_active(old(vfs)@.state),
        r is Err ==> r == Err::<(), _>(SessionError::NotConnected) && final(vfs)@ == old(vfs)@,
        r is Ok ==> final(vfs)@ == (VfsView {
            store: Map::empty(),
            nodes: Seq::empty(),
            records: Seq::empty(),
            ..old(vfs)@
        }),
{
    if !(vfs.state == SessionState::Created || vfs.state == SessionState::Connected) {
        return Err(SessionError::NotConnected);
    }
    vfs.store.clear();
    vfs.clear_records();
    Ok(())
}

/// Links the real file `source` at the virtual path `destination`; the
/// directories above the destination are created virtually.
pub fn virtually_link_file(vfs: &mut Vfs, source: &str, destination: &str, flags: u32) -> (r:
    Result<(), LinkError>)
    requires
        old(vfs).wf(),
    ensures
        final(vfs).wf(),
        r is Err ==> final(vfs)@ == old(vfs)@ && r->Err_0.destination@ == destination@,
        !is_active(old(vfs)@.state) ==> r is Err && r->Err_0.kind == LinkErrorKind::NotConnected,
        is_active(old(vfs)@.state) ==> match link_error(
            old(vfs)@.store,
            path_key(segments_of(destination@)),
            flags,
        ) {
            Some(e) => r is Err && r->Err_0.kind == e,
            None => r is Ok && final(vfs)@ == (VfsView {
                store: link_map(
                    old(vfs)@.store,
                    path_key(segments_of(destination@)),
                    source@,
                    flags,
                ),
                nodes: list_link(old(vfs)@.nodes, segments_of(destination@), source@, flags),
                records: old(vfs)@.records.push((source@, destination@, flags)),
                ..old(vfs)@
            }),
        },
{
    if !(vfs.state == SessionState::Created || vfs.state == SessionState::Connected) {
        return Err(link_failure(LinkErrorKind::NotConnected, destination));
    }
    let src = chars_of(source);
    let dest = split_segments(&chars_of(destination));
    match vfs.store.link(&src, &dest, flags) {
        Ok(()) => {
            vfs.record_link(source, destination, flags);
            Ok(())
        },
        Err(kind) => Err(link_failure(kind, destination)),
    }
}

/// Links the directory `source` at the virtual path `destination`, each
/// entry of its listing `entries` individually and in lexicographic order
/// of their paths, leaving out entries that
/// the skip rules filter; with `LINKFLAG_FAILIFSKIPPED` a filtered entry
/// fails the whole link instead.
pub fn virtually_link_directory_static(
    vfs: &mut Vfs,
    source: &str,
    destination: &str,
    flags: u32,
    entries: &Vec<SourceEntry>,
) -> (r: Result<(), LinkError>)
    requires
        old(vfs).wf(),
    ensures
        final(vfs).wf(),
        r is Err ==> final(vfs)@ == old(vfs)@ && r->Err_0.destination@ == destination@,
        !is_active(old(vfs)@.state) ==> r is Err && r->Err_0.kind == LinkErrorKind::NotConnected,
        is_active(old(vfs)@.state) ==> match static_link_error(
            old(vfs)@.store,
            path_key(segments_of(destination@)),
            flags,
            entries_view(entries@),
            old(vfs)@.registry,
        ) {
            Some(e) => r is Err && r->Err_0.kind == e,
            None => r is Ok && final(vfs)@ == (VfsView {
                store: apply_entries(
                    destination_map(
                        old(vfs)@.store,
                        path_key(segments_of(destination@)),
                        source@,
                        flags,
                    ),
                    segments_of(destination@),
                    source@,
                    entries_view(entries@).sort_by(entry_order()),
                    flags,
                    old(vfs)@.registry,
                ),
                nodes: list_entries(
                    list_destination(old(vfs)@.nodes, segments_of(destination@), source@, flags),
                    segments_of(destination@),
                    source@,
                    entries_view(entries@).sort_by(entry_order()),
                    flags,
                    old(vfs)@.registry,
                ),
                records: old(vfs)@.records.push((source@, destination@, flags)),
                ..old(vfs)@
            }),
        },
{
    if !(vfs.state == SessionState::Created || vfs.state == SessionState::Connected) {
        return Err(link_failure(LinkErrorKind::NotConnected, destination));
    }
    let src = chars_of(source);
    let dest = split_segments(&chars_of(destination));
    match vfs.store.link_directory_static(&src, &dest, flags, entries, &vfs.registry) {
        Ok(()) => {
            vfs.record_link(source, destination, flags);
            Ok(())
        },
        Err(kind) => Err(link_failure(kind, destination)),
    }
}

/// The real path that the virtual path `path` resolves to: the deepest
/// redirect on its way down followed by the rest of the path, or `path`
/// itself where nothing on its way is redirected.
pub fn resolve(vfs: &Vfs, path: &str) -> (r: String)
    requires
        vfs.wf(),
    ensures
        r@ == resolve_spec(vfs@.store, path@),
{
    let p = chars_of(path);
    let out = vfs.store.resolve(&p);
    string_of(&out)
}

/// The instance name of the current session; empty outside one.
#[allow(non_snake_case)]
pub fn get_current_VFS_name(vfs: &Vfs) -> (r: String)
    ensures
        r@ == (if is_active(vfs@.state) {
            vfs@.name
        } else {
            Seq::empty()
        }),
{
    if vfs.state == SessionState::Created || vfs.state == SessionState::Connected {
        string_of(&vfs.name)
    } else {
        String::new()
    }
}

fn executable_of(application_name: &str) -> (r: Vec<char>)
    ensures
        r@ == executable_name(application_name@),
{
    let segs = split_segments(&chars_of(application_name));
    if segs.len() == 0 {
        Vec::new()
    } else {
        assert(seg_views(segs@).last() == segs@[segs.len() - 1]@);
        copy_chars(&segs[segs.len() - 1])
    }
}

/// How a process running `application_name` is to be started: hooks are
/// injected unless the executable is blacklisted, and then the libraries
/// forced for its name are loaded.
pub fn plan_process_hooked(vfs: &Vfs, application_name: &str) -> (r: Result<SpawnPlan, SpawnError>)
    ensures
        !is_active(vfs@.state) ==> r is Err && r->Err_0 == SpawnError::NotConnected,
        is_active(vfs@.state) ==> r is Ok && r->Ok_0.inject == !lists_name(
            vfs@.registry.blacklist,
            executable_name(application_name@),
        ) && r->Ok_0.delay_ms == vfs@.process_delay_ms && strings_view(r->Ok_0.libraries@) == (
        if r->Ok_0.inject {
            libraries_for(vfs@.registry.force_loads, executable_name(application_name@))
        } else {
            Seq::empty()
        }),
{
    if !(vfs.state == SessionState::Created || vfs.state == SessionState::Connected) {
        return Err(SpawnError::NotConnected);
    }
    let exe = executable_of(application_name);
    let inject = !vfs.registry.is_blacklisted(&exe);
    let mut libraries: Vec<String> = Vec::new();
    if inject {
        let libs = vfs.registry.libraries_for(&exe);
        let mut i: usize = 0;
        assert(strings_view(libraries@) =~= names_view(libs@).take(0));
        while i < libs.len()
            invariant
                i <= libs.len(),
                strings_view(libraries@) == names_view(libs@).take(i as int),
            decreases libs.len() - i,
        {
            let s = string_of(&libs[i]);
            let ghost before = libraries@;
            libraries.push(s);
            assert(strings_view(libraries@) =~= strings_view(before).push(libs@[i as int]@));
            i = i + 1;
            assert(strings_view(libraries@) =~= names_view(libs@).take(i as int));
        }
        assert(names_view(libs@).take(i as int) =~= names_view(libs@));
    } else {
        assert(strings_view(libraries@) =~= Seq::<Seq<char>>::empty());
    }
    Ok(SpawnPlan { inject, libraries, delay_ms: vfs.process_delay_ms })
}

/// Records the outcome of starting a process for `application_name`:
/// `launched` is the new process's identifier, or the operating system's
/// error code. A blacklisted executable runs without hooks and still
/// succeeds; its handle says so.
pub fn create_process_hooked(vfs: &mut Vfs, application_name: &str, launched: Result<u32, u32>) -> (r:
    Result<ProcessHandle, SpawnError>)
    requires
        old(vfs).wf(),
    ensures
        final(vfs).wf(),
        !is_active(old(vfs)@.state) ==> r == Err::<ProcessHandle, _>(SpawnError::NotConnected)
            && final(vfs)@ == old(vfs)@,
        is_active(old(vfs)@.state) ==> match launched {
            Err(code) => r == Err::<ProcessHandle, _>(SpawnError::SpawnFailed { os_code: code })
                && final(vfs)@ == old(vfs)@,
            Ok(pid) => {
                let handle = ProcessHandle {
                    process_id: pid,
                    status: if lists_name(
                        old(vfs)@.registry.blacklist,
                        executable_name(application_name@),
                    ) {
                        InjectionStatus::NotAttached
                    } else {
                        InjectionStatus::Attached
                    },
                };
                &&& r == Ok::<_, SpawnError>(handle)
                &&& final(vfs)@ == (VfsView {
                    processes: old(vfs)@.processes.push(handle),
                    ..old(vfs)@
                })
            },
        },
{
    if !(vfs.state == SessionState::Created || vfs.state == SessionState::Connected) {
        return Err(SpawnError::NotConnected);
    }
    match launched {
        Err(code) => Err(SpawnError::SpawnFailed { os_code: code }),
        Ok(pid) => {
            let exe = executable_of(application_name);
            let status = if vfs.registry.is_blacklisted(&exe) {
                InjectionStatus::NotAttached
            } else {
                InjectionStatus::Attached
            };
            let handle = ProcessHandle { process_id: pid, status };
            vfs.processes.push(handle);
            Ok(handle)
        },
    }
}

/// Starts queueing log messages; `to_local` keeps them in the calling
/// process rather than the instance's shared log.
pub fn init_logging(vfs: &mut Vfs, to_local: bool)
    requires
        old(vfs).wf(),
    ensures
        final(vfs).wf(),
        final(vfs)@ == (VfsView { logging: true, log_to_local: to_local, ..old(vfs)@ }),
{
    vfs.logging = true;
    vfs.log_to_local = to_local;
}

/// Takes the oldest queued log message; `None` when the queue is empty.
pub fn get_log_message(vfs: &mut Vfs) -> (r: Option<String>)
    requires
        old(vfs).wf(),
    ensures
        final(vfs).wf(),
        old(vfs)@.log.len() == 0 ==> r is None && final(vfs)@ == old(vfs)@,
        old(vfs)@.log.len() > 0 ==> r is Some && r->0@ == old(vfs)@.log[0] && final(vfs)@ == (
        VfsView { log: old(vfs)@.log.drop_first(), ..old(vfs)@ }),
{
    if vfs.log.len() == 0 {
        return None;
    }
    let ghost before = vfs.log@;
    let msg = vfs.log.remove(0);
    assert(names_view(vfs.log@) =~= names_view(before).drop_first());
    Some(string_of(&msg))
}

/// A readable listing of the overlay tree, one line per node.
pub fn create_vfs_dump(vfs: &Vfs) -> (r: Result<String, SessionError>)
    ensures
        !is_active(vfs@.state) ==> r is Err && r->Err_0 == SessionError::NotConnected,
        is_active(vfs@.state) ==> r is Ok && r->Ok_0@ == dump_text(vfs@.nodes),
{
    if !(vfs.state == SessionState::Created || vfs.state == SessionState::Connected) {
        return Err(SessionError::NotConnected);
    }
    let text = vfs.store.dump();
    Ok(string_of(&text))
}

/// Adds an executable name to the blacklist: processes of that name are
/// never hooked.
pub fn blacklist_executable(vfs: &mut Vfs, executable_name: &str)
    requires
        old(vfs).wf(),
    ensures
        final(vfs).wf(),
        final(vfs)@ == (VfsView {
            registry: RegistryView {
                blacklist: old(vfs)@.registry.blacklist.push(executable_name@),
                ..old(vfs)@.registry
            },
            ..old(vfs)@
        }),
{
    vfs.registry.add_blacklisted(chars_of(executable_name));
}

/// Empties the executable blacklist.
pub fn clear_executable_blacklist(vfs: &mut Vfs)
    requires
        old(vfs).wf(),
    ensures
        final(vfs).wf(),
        final(vfs)@ == (VfsView {
            registry: RegistryView { blacklist: Seq::empty(), ..old(vfs)@.registry },
            ..old(vfs)@
        }),
{
    vfs.registry.clear_blacklist();
}

/// Adds a file suffix (`.txt`, or a whole name such as `some_file.txt`) to
/// skip while linking directories.
pub fn add_skip_file_suffix(vfs: &mut Vfs, file_suffix: &str)
    requires
        old(vfs).wf(),
    ensures
        final(vfs).wf(),
        final(vfs)@ == (VfsView {
            registry: RegistryView {
                skip_suffixes: old(vfs)@.registry.skip_suffixes.push(file_suffix@),
                ..old(vfs)@.registry
            },
            ..old(vfs)@
        }),
{
    vfs.registry.add_skip_suffix(chars_of(file_suffix));
}

/// Empties the skip list of file suffixes.
pub fn clear_skip_file_suffixes(vfs: &mut Vfs)
    requires
        old(vfs).wf(),
    ensures
        final(vfs).wf(),
        final(vfs)@ == (VfsView {
            registry: RegistryView { skip_suffixes: Seq::empty(), ..old(vfs)@.registry },
            ..old(vfs)@
        }),
{
    vfs.registry.clear_skip_suffixes();
}

/// Adds a directory name (not a path) to skip while linking directories,
/// wherever a directory of that name lies.
pub fn add_skip_directory(vfs: &mut Vfs, directory: &str)
    requires
        old(vfs).wf(),
    ensures
        final(vfs).wf(),
        final(vfs)@ == (VfsView {
            registry: RegistryView {
                skip_directories: old(vfs)@.registry.skip_directories.push(directory@),
                ..old(vfs)@.registry
            },
            ..old(vfs)@
        }),
{
    vfs.registry.add_skip_directory(chars_of(directory));
}

/// Empties the skip list of directory names.
pub fn clear_skip_directories(vfs: &mut Vfs)
    requires
        old(vfs).wf(),
    ensures
        final(vfs).wf(),
        final(vfs)@ == (VfsView {
            registry: RegistryView { skip_directories: Seq::empty(), ..old(vfs)@.registry },
            ..old(vfs)@
        }),
{
    vfs.registry.clear_skip_directories();
}

/// Adds a library to load into every hooked process named `process_name`.
pub fn force_load_library(vfs: &mut Vfs, process_name: &str, library_path: &str)
    requires
        old(vfs).wf(),
    ensures
        final(vfs).wf(),
        final(vfs)@ == (VfsView {
            registry: RegistryView {
                force_loads: old(vfs)@.registry.force_loads.push((process_name@, library_path@)),
                ..old(vfs)@.registry
            },
            ..old(vfs)@
        }),
{
    vfs.registry.add_force_load(chars_of(process_name), chars_of(library_path));
}

/// Forgets every library added by `force_load_library`.
pub fn clear_library_force_loads(vfs: &mut Vfs)
    requires
        old(vfs).wf(),
    ensures
        final(vfs).wf(),
        final(vfs)@ == (VfsView {
            registry: RegistryView { force_loads: Seq::empty(), ..old(vfs)@.registry },
            ..old(vfs)@
        }),
{
    vfs.registry.clear_force_loads();
}

} // verus!
