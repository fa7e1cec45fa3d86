//! The session: one owned value holding an overlay instance's lifecycle
//! state, its mapping store, the registry, the processes attached to it and
//! its log queue.
use vstd::prelude::*;
use crate::path::{append_chars, segments_of};
use crate::registry::{names_view, Registry, RegistryView};
use crate::store::{opt_view, MappingNode, MappingStore, NodeView};

verus! {

/// Lifecycle of a session: `Uninitialized`, then `Created` or `Connected`,
/// then `Disconnected`.
#[derive(Clone, Copy, Debug, PartialEq, Eq, Structural)]
pub enum SessionState {
    Uninitialized,
    Created,
    Connected,
    Disconnected,
}

/// Why a session could not be opened, or an operation that needs one was
/// refused.
#[derive(Clone, Copy, Debug, PartialEq, Eq, Structural)]
pub enum SessionError {
    /// No overlay instance of that name exists to connect to.
    NoSuchInstance,
    /// The operation needs a created or connected session.
    NotConnected,
}

/// Whether the overlay's hooks were injected into a process.
#[derive(Clone, Copy, Debug, PartialEq, Eq, Structural)]
pub enum InjectionStatus {
    Attached,
    NotAttached,
}

/// A process started with the overlay's hooks, or deliberately without them.
#[derive(Clone, Copy, Debug, PartialEq, Eq, Structural)]
pub struct ProcessHandle {
    pub process_id: u32,
    pub status: InjectionStatus,
}

/// Why a hooked process was not started.
#[derive(Clone, Copy, Debug, PartialEq, Eq, Structural)]
pub enum SpawnError {
    /// The operation needs a created or connected session.
    NotConnected,
    /// The operating system refused to create the process.
    SpawnFailed { os_code: u32 },
}

/// One successful link operation, as the caller issued it.
pub struct LinkRecord {
    pub source: String,
    pub destination: String,
    pub flags: u32,
}

pub open spec fn records_view(v: Seq<LinkRecord>) -> Seq<(Seq<char>, Seq<char>, u32)> {
    v.map_values(|r: LinkRecord| (r.source@, r.destination@, r.flags))
}

pub struct VfsView {
    pub state: SessionState,
    pub instance: Option<Seq<char>>,
    pub name: Seq<char>,
    pub hooked: bool,
    pub store: Map<Seq<Seq<u32>>, NodeView>,
    /// The same nodes, each with its display path, in store order.
    pub nodes: Seq<(Seq<Seq<char>>, NodeView)>,
    /// The link operations that built the store, oldest first.
    pub records: Seq<(Seq<char>, Seq<char>, u32)>,
    pub registry: RegistryView,
    pub processes: Seq<ProcessHandle>,
    pub process_delay_ms: u32,
    pub logging: bool,
    pub log_to_local: bool,
    pub log: Seq<Seq<char>>,
}

/// The controlling process's view of an overlay instance.
pub struct Vfs {
    pub state: SessionState,
    /// The name of the overlay instance that exists, if one was created.
    pub instance: Option<Vec<char>>,
    /// The name of the instance of the current session.
    pub name: Vec<char>,
    /// Whether the calling process itself is hooked.
    pub hooked: bool,
    pub store: MappingStore,
    /// The link operations that built the store, oldest first.
    pub records: Vec<LinkRecord>,
    pub registry: Registry,
    pub processes: Vec<ProcessHandle>,
    pub process_delay_ms: u32,
    pub logging: bool,
    pub log_to_local: bool,
    pub log: Vec<Vec<char>>,
}

impl View for Vfs {
    type V = VfsView;

    open spec fn view(&self) -> VfsView {
        VfsView {
            state: self.state,
            instance: opt_view(self.instance),
            name: self.name@,
            hooked: self.hooked,
            store: self.store@,
            nodes: self.store.node_list(),
            records: records_view(self.records@),
            registry: self.registry@,
            processes: self.processes@,
            process_delay_ms: self.process_delay_ms,
            logging: self.logging,
            log_to_local: self.log_to_local,
            log: names_view(self.log@),
        }
    }
}

pub open spec fn is_active(s: SessionState) -> bool {
    s == SessionState::Created || s == SessionState::Connected
}

/// The log after a message: the message is queued only while logging is on.
pub open spec fn logged(v: VfsView, msg: Seq<char>) -> Seq<Seq<char>> {
    if v.logging {
        v.log.push(msg)
    } else {
        v.log
    }
}

/// The session after a disconnect: an active session ends and its hooks go;
/// any other state stays as it is. The mapping store is kept.
pub open spec fn disconnected(v: VfsView) -> VfsView {
    if is_active(v.state) {
        VfsView {
            state: SessionState::Disconnected,
            hooked: false,
            log: logged(v, "vfs disconnected"@),
            ..v
        }
    } else {
        v
    }
}

/// The name of a program: the last segment of its path.
pub open spec fn executable_name(application: Seq<char>) -> Seq<char> {
    let segs = segments_of(application);
    if segs.len() == 0 {
        Seq::empty()
    } else {
        segs.last()
    }
}

/// The path of a node as shown in a dump: `/` followed by its segments
/// separated by `/`.
pub open spec fn display_path(segs: Seq<Seq<char>>) -> Seq<char>
    decreases segs.len(),
{
    if segs.len() == 0 {
        Seq::empty()
    } else {
        display_path(segs.drop_last()) + seq!['/'] + segs.last()
    }
}

/// One line of a dump: the node's path, ` -> ` and its redirect if it has
/// one, ` => ` and its create-target if it has one.
pub open spec fn dump_line(segs: Seq<Seq<char>>, v: NodeView) -> Seq<char> {
    (if segs.len() == 0 {
        seq!['/']
    } else {
        display_path(segs)
    }) + (match v.redirect {
        Some(t) => seq![' ', '-', '>', ' '] + t,
        None => Seq::empty(),
    }) + (match v.create_target {
        Some(t) => seq![' ', '=', '>', ' '] + t,
        None => Seq::empty(),
    }) + seq!['\n']
}

/// A readable listing of the overlay, one line per node in store order.
pub open spec fn dump_text(nodes: Seq<(Seq<Seq<char>>, NodeView)>) -> Seq<char>
    decreases nodes.len(),
{
    if nodes.len() == 0 {
        Seq::empty()
    } else {
        dump_text(nodes.drop_last()) + dump_line(nodes.last().0, nodes.last().1)
    }
}

fn push_arrow(out: &mut Vec<char>, c: char)
    ensures
        final(out)@ == old(out)@ + seq![' ', c, '>', ' '],
{
    out.push(' ');
    out.push(c);
    out.push('>');
    out.push(' ');
    assert(out@ =~= old(out)@ + seq![' ', c, '>', ' ']);
}

/// Appends the dump line of one node.
pub fn append_dump_line(out: &mut Vec<char>, node: &MappingNode)
    ensures
        final(out)@ == old(out)@ + dump_line(
            crate::path::seg_views(node.segments@),
            node.node_view(),
        ),
{
    let ghost segs = crate::path::seg_views(node.segments@);
    let ghost start = out@;
    if node.segments.len() == 0 {
        out.push('/');
    } else {
        let mut i: usize = 0;
        assert(segs.take(0) =~= Seq::<Seq<char>>::empty());
        while i < node.segments.len()
            invariant
                i <= node.segments.len(),
                segs == crate::path::seg_views(node.segments@),
                out@ == start + display_path(segs.take(i as int)),
            decreases node.segments.len() - i,
        {
            out.push('/');
            append_chars(out, &node.segments[i]);
            assert(segs.take(i + 1).drop_last() =~= segs.take(i as int));
            assert(out@ =~= start + display_path(segs.take(i + 1)));
            i = i + 1;
        }
        assert(segs.take(i as int) =~= segs);
    }
    if let Some(t) = &node.redirect {
        push_arrow(out, '-');
        append_chars(out, t);
    }
    if let Some(t) = &node.create_target {
        push_arrow(out, '=');
        append_chars(out, t);
    }
    out.push('\n');
    assert(out@ =~= old(out)@ + dump_line(segs, node.node_view()));
}

impl MappingStore {
    /// A readable listing of every node, in store order.
    pub fn dump(&self) -> (r: Vec<char>)
        ensures
            r@ == dump_text(self.node_list()),
    {
        let mut out: Vec<char> = Vec::new();
        let mut i: usize = 0;
        assert(crate::store::node_list(self.nodes@.take(0)) =~= Seq::<(Seq<Seq<char>>, NodeView)>::empty());
        while i < self.nodes.len()
            invariant
                i <= self.nodes.len(),
                out@ == dump_text(crate::store::node_list(self.nodes@.take(i as int))),
            decreases self.nodes.len() - i,
        {
            append_dump_line(&mut out, &self.nodes[i]);
            assert(self.nodes@.take(i + 1).drop_last() =~= self.nodes@.take(i as int));
            assert(crate::store::node_list(self.nodes@.take(i + 1)).drop_last() =~= crate::store::node_list(
                self.nodes@.take(i as int),
            ));
            i = i + 1;
        }
        assert(self.nodes@.take(i as int) =~= self.nodes@);
        out
    }
}

impl Vfs {
    /// The store's invariant, and no hooks outside an active session.
    pub open spec fn wf(&self) -> bool {
        &&& self.store.wf()
        &&& !is_active(self.state) ==> !self.hooked
    }

    /// A session that has not been created or connected yet.
    pub fn new() -> (r: Vfs)
        ensures
            r.wf(),
            r@.state == SessionState::Uninitialized,
            r@.instance is None,
            r@.name == Seq::<char>::empty(),
            !r@.hooked,
            r@.store == Map::<Seq<Seq<u32>>, NodeView>::empty(),
            r@.nodes == Seq::<(Seq<Seq<char>>, NodeView)>::empty(),
            r@.records == Seq::<(Seq<char>, Seq<char>, u32)>::empty(),
            r@.registry == crate::registry::empty_registry(),
            r@.processes == Seq::<ProcessHandle>::empty(),
            r@.process_delay_ms == 0,
            !r@.logging,
            !r@.log_to_local,
            r@.log == Seq::<Seq<char>>::empty(),
    {
        let r = Vfs {
            state: SessionState::Uninitialized,
            instance: None,
            name: Vec::new(),
            hooked: false,
            store: MappingStore::new(),
            records: Vec::new(),
            registry: Registry::new(),
            processes: Vec::new(),
            process_delay_ms: 0,
            logging: false,
            log_to_local: false,
            log: Vec::new(),
        };
        assert(r@.log =~= Seq::<Seq<char>>::empty());
        assert(r@.records =~= Seq::<(Seq<char>, Seq<char>, u32)>::empty());
        assert(r@.name =~= Seq::<char>::empty());
        assert(r@.processes =~= Seq::<ProcessHandle>::empty());
        r
    }

    /// Notes a successful link operation.
    pub fn record_link(&mut self, source: &str, destination: &str, flags: u32)
        ensures
            final(self)@ == (VfsView {
                records: old(self)@.records.push((source@, destination@, flags)),
                ..old(self)@
            }),
            final(self).store == old(self).store,
    {
        let ghost before = self.records@;
        let record = LinkRecord { source: source.to_owned(), destination: destination.to_owned(), flags };
        self.records.push(record);
        assert(records_view(self.records@) =~= records_view(before).push((source@, destination@, flags)));
    }

    /// Forgets every link operation.
    pub fn clear_records(&mut self)
        ensures
            final(self)@ == (VfsView { records: Seq::empty(), ..old(self)@ }),
            final(self).store == old(self).store,
    {
        self.records = Vec::new();
        assert(records_view(self.records@) =~= Seq::<(Seq<char>, Seq<char>, u32)>::empty());
    }

    /// Queues a message if logging is on.
    pub fn log_message(&mut self, msg: Vec<char>)
        ensures
            final(self)@ == (VfsView { log: logged(old(self)@, msg@), ..old(self)@ }),
            final(self).store == old(self).store,
    {
        if self.logging {
            let ghost before = self.log@;
            self.log.push(msg);
            assert(names_view(self.log@) =~= names_view(before).push(msg@));
        }
    }

    /// Ends an active session; does nothing otherwise.
    pub fn disconnect(&mut self)
        ensures
            final(self)@ == disconnected(old(self)@),
            final(self).store == old(self).store,
    {
        if self.state == SessionState::Created || self.state == SessionState::Connected {
            self.state = SessionState::Disconnected;
            self.hooked = false;
            self.log_message(crate::path::chars_of("vfs disconnected"));
        }
    }
}

} // verus!
