use vstd::prelude::*;
use serde_json::Value;

use crate::cli::Config;
use crate::envvars::{expand_template, replace_template_env, CGIEnv, Env};
use crate::ports::PortPool;
use crate::types::{Cache, ConnID, PortID, RoomID};

verus! {

/// An event delivered to the reactor.
#[derive(Debug)]
pub enum Event {
    /// A client completed the WebSocket upgrade for `room`.
    Connect { room: RoomID, env: Env },
    /// The bridge of connection `conn` ended.
    Disconnect { room: RoomID, conn: ConnID, env: Env },
    /// Child `child` of `room` exited with `code` (`None` when it was killed
    /// or never started).
    ProcessExit { room: RoomID, child: u64, code: Option<i32> },
    /// The child of `room` published metadata.
    ProcessMeta { room: RoomID, value: Value },
    /// The broker is shutting down.
    Shutdown,
}

/// Work the reactor hands to the runtime, in order.
#[derive(Debug)]
pub enum Action {
    /// Close the new client's socket without attaching it.
    Reject { room: RoomID },
    /// Count a new connection of the room.
    CountConnect { room: RoomID },
    /// Count a closed connection of the room.
    CountDisconnect { room: RoomID },
    /// Forget the room's connection gauge and label.
    ClearMetrics { room: RoomID },
    /// Store the room's metadata.
    SetMetadata { room: RoomID, value: Value },
    /// Create an empty cache of this kind for the room.
    CreateCache { room: RoomID, cache: Cache },
    /// Drop the room's cache.
    DropCache { room: RoomID },
    /// Start child `child` for the room, on `port` when it has one.
    Spawn { room: RoomID, child: u64, port: Option<PortID>, cgi: CGIEnv },
    /// Attach the client's bridge as connection `conn`; `cold` when the bridge
    /// must wait for the child to start.
    Attach { room: RoomID, conn: ConnID, cold: bool },
    /// Send a text line to the room's child.
    Send { room: RoomID, text: String },
    /// Kill the room's child and drop its channels.
    Kill { room: RoomID },
}

/// What the reactor needs of the configuration.
#[derive(Debug, Clone)]
pub struct ReactorConfig {
    pub oneshot: bool,
    pub tcp: bool,
    pub joinmsg: Option<String>,
    pub leavemsg: Option<String>,
    pub cache: Option<Cache>,
    pub cache_persist: bool,
}

/// The connections of one room.
#[derive(Debug)]
struct RoomConns {
    room: RoomID,
    ids: Vec<ConnID>,
}

/// A child the reactor started and has not seen exit.
#[derive(Debug)]
struct Child {
    room: RoomID,
    id: u64,
    port: Option<PortID>,
    /// The room's current child; false once it was told to die.
    live: bool,
}

/// Room, connection and process state, owned by the reactor alone.
pub struct State {
    next_conn_id: u32,
    next_child_id: u64,
    conns: Vec<RoomConns>,
    children: Vec<Child>,
    caches: Vec<RoomID>,
    ports: PortPool,
    cfg: ReactorConfig,
    running: bool,
}

/// Whether `a` kills the child of room `r`.
pub open spec fn kills(a: Action, r: Seq<char>) -> bool {
    match a {
        Action::Kill { room } => room@ == r,
        _ => false,
    }
}

spec fn conns_wf(conns: Seq<RoomConns>, next: u32) -> bool {
    &&& 1 <= next
    &&& forall|i: int, j: int|
        0 <= i < conns.len() && 0 <= j < conns.len() && i != j ==> #[trigger] conns[i].room@
            != #[trigger] conns[j].room@
    &&& forall|i: int, k: int|
        0 <= i < conns.len() && 0 <= k < conns[i].ids@.len() ==> 1 <= #[trigger] conns[i].ids@[k]
            < next
    &&& forall|i: int, k: int, l: int|
        0 <= i < conns.len() && 0 <= k < conns[i].ids@.len() && 0 <= l < conns[i].ids@.len()
            && k != l ==> #[trigger] conns[i].ids@[k] != #[trigger] conns[i].ids@[l]
}

spec fn children_wf(ch: Seq<Child>, next: u64, span: Set<u16>, free: Set<u16>) -> bool {
    &&& forall|i: int| 0 <= i < ch.len() ==> #[trigger] ch[i].id < next
    &&& forall|i: int, j: int|
        0 <= i < ch.len() && 0 <= j < ch.len() && i != j ==> #[trigger] ch[i].id
            != #[trigger] ch[j].id
    &&& forall|i: int, j: int|
        0 <= i < ch.len() && 0 <= j < ch.len() && i != j && ch[i].live && ch[j].live
            ==> #[trigger] ch[i].room@ != #[trigger] ch[j].room@
    &&& forall|i: int|
        0 <= i < ch.len() ==> (#[trigger] ch[i].port matches Some(p) ==> span.contains(p)
            && !free.contains(p))
    &&& forall|i: int, j: int|
        0 <= i < ch.len() && 0 <= j < ch.len() && i != j && ch[i].port is Some
            ==> #[trigger] ch[i].port != #[trigger] ch[j].port
}

spec fn caches_wf(caches: Seq<RoomID>) -> bool {
    forall|i: int, j: int|
        0 <= i < caches.len() && 0 <= j < caches.len() && i != j ==> #[trigger] caches[i]@
            != #[trigger] caches[j]@
}


/// Index of the connection list of `room`.
fn find_room(conns: &Vec<RoomConns>, room: &RoomID) -> (r: Option<usize>)
    ensures
        match r {
            Some(i) => i < conns@.len() && conns@[i as int].room@ == room@,
            None => forall|i: int| 0 <= i < conns@.len() ==> #[trigger] conns@[i].room@ != room@,
        },
{
    let mut i: usize = 0;
    while i < conns.len()
        invariant
            i <= conns@.len(),
            forall|k: int| 0 <= k < i ==> #[trigger] conns@[k].room@ != room@,
        decreases conns@.len() - i,
    {
        if conns[i].room == *room {
            return Some(i);
        }
        i += 1;
    }
    None
}

/// Index of `c` in `ids`.
fn find_id(ids: &Vec<ConnID>, c: ConnID) -> (r: Option<usize>)
    ensures
        match r {
            Some(k) => k < ids@.len() && ids@[k as int] == c,
            None => forall|k: int| 0 <= k < ids@.len() ==> #[trigger] ids@[k] != c,
        },
{
    let mut k: usize = 0;
    while k < ids.len()
        invariant
            k <= ids@.len(),
            forall|j: int| 0 <= j < k ==> #[trigger] ids@[j] != c,
        decreases ids@.len() - k,
    {
        if ids[k] == c {
            return Some(k);
        }
        k += 1;
    }
    None
}

/// Index of the live child of `room`.
fn find_live(children: &Vec<Child>, room: &RoomID) -> (r: Option<usize>)
    ensures
        match r {
            Some(i) => i < children@.len() && children@[i as int].live && children@[i as int].room@
                == room@,
            None => forall|i: int|
                0 <= i < children@.len() ==> !(children@[i].live && #[trigger] children@[i].room@
                    == room@),
        },
{
    let mut i: usize = 0;
    while i < children.len()
        invariant
            i <= children@.len(),
            forall|k: int|
                0 <= k < i ==> !(children@[k].live && #[trigger] children@[k].room@ == room@),
        decreases children@.len() - i,
    {
        if children[i].live && children[i].room == *room {
            return Some(i);
        }
        i += 1;
    }
    None
}

/// Index of child `id`.
fn find_child(children: &Vec<Child>, id: u64) -> (r: Option<usize>)
    ensures
        match r {
            Some(i) => i < children@.len() && children@[i as int].id == id,
            None => forall|i: int| 0 <= i < children@.len() ==> #[trigger] children@[i].id != id,
        },
{
    let mut i: usize = 0;
    while i < children.len()
        invariant
            i <= children@.len(),
            forall|k: int| 0 <= k < i ==> #[trigger] children@[k].id != id,
        decreases children@.len() - i,
    {
        if children[i].id == id {
            return Some(i);
        }
        i += 1;
    }
    None
}

/// Index of `room` among the rooms with a cache.
fn find_cache(caches: &Vec<RoomID>, room: &RoomID) -> (r: Option<usize>)
    ensures
        match r {
            Some(i) => i < caches@.len() && caches@[i as int]@ == room@,
            None => forall|i: int| 0 <= i < caches@.len() ==> #[trigger] caches@[i]@ != room@,
        },
{
    let mut i: usize = 0;
    while i < caches.len()
        invariant
            i <= caches@.len(),
            forall|k: int| 0 <= k < i ==> #[trigger] caches@[k]@ != room@,
        decreases caches@.len() - i,
    {
        if caches[i] == *room {
            return Some(i);
        }
        i += 1;
    }
    None
}


/// The room of a kill action.
pub open spec fn kill_room(a: Action) -> Seq<char> {
    match a {
        Action::Kill { room } => room@,
        _ => Seq::empty(),
    }
}

/// Whether `a` attaches connection `conn` to `room`, cold unless the room
/// already has a child (`warm`).
pub open spec fn attaches(a: Action, room: Seq<char>, conn: ConnID, warm: bool) -> bool {
    match a {
        Action::Attach { room: r, conn: c, cold: k } => r@ == room && c == conn && k == !warm,
        _ => false,
    }
}

/// Whether `a` starts child `child` of `room` on `port`.
pub open spec fn spawns(a: Action, room: Seq<char>, child: u64, port: Option<PortID>) -> bool {
    match a {
        Action::Spawn { room: r, child: c, port: p, .. } => r@ == room && c == child && p == port,
        _ => false,
    }
}

/// Whether `a` sends `text` to the child of `room`.
pub open spec fn sends(a: Action, room: Seq<char>, text: Seq<char>) -> bool {
    match a {
        Action::Send { room: r, text: t } => r@ == room && t@ == text,
        _ => false,
    }
}

/// Whether `a` sends the expansion of `template`, for `conn` and `env`, to
/// the child of `room`.
pub open spec fn sends_template(template: Option<String>, a: Action, room: Seq<char>, conn: ConnID, env: Env) -> bool {
    match template {
        Some(t) => sends(a, room, expand_template(t@, conn, env)),
        None => false,
    }
}

/// The two states look the same from outside: same connections, children,
/// ports, caches, configuration and status.
pub open spec fn same_views(a: State, b: State) -> bool {
    &&& a.is_running() == b.is_running()
    &&& a.config() == b.config()
    &&& a.next_conn() == b.next_conn()
    &&& a.free_ports() == b.free_ports()
    &&& a.port_span() == b.port_span()
    &&& forall|r: Seq<char>, c: ConnID| #[trigger] a.has_conn(r, c) == b.has_conn(r, c)
    &&& forall|r: Seq<char>| #[trigger] a.has_proc(r) == b.has_proc(r)
    &&& forall|r: Seq<char>| #[trigger] a.cached(r) == b.cached(r)
    &&& forall|x: u64| #[trigger] a.has_child(x) == b.has_child(x) && a.port_of(x) == b.port_of(x)
}

/// How a new child gets its port: under `--tcp` the smallest free one, which
/// stops being free; otherwise none, and the pool is untouched.
pub open spec fn takes_port(old_free: Set<PortID>, new_free: Set<PortID>, port: Option<PortID>, tcp: bool) -> bool {
    if tcp {
        match port {
            Some(p) => crate::ports::is_least(p, old_free) && new_free == old_free.remove(p),
            None => false,
        }
    } else {
        port is None && new_free == old_free
    }
}

/// Whether a running reactor attaches a client connecting to `room`: it is
/// not a second client of a oneshot room, an id is left, and a room without
/// a child can get one (a child id, and a free port under `--tcp`).
pub open spec fn connect_accepts(s: State, room: Seq<char>) -> bool {
    &&& s.is_running()
    &&& !(s.has_proc(room) && s.config().oneshot)
    &&& s.next_conn() < u32::MAX
    &&& !s.has_proc(room) ==> s.next_child() < u64::MAX && (s.config().tcp
        ==> !s.free_ports().is_empty())
}

/// What a connect to `room` does, from state `old` to `new`, returning
/// `actions`.
pub open spec fn connect_post(old: State, new: State, room: Seq<char>, env: Env, actions: Seq<Action>) -> bool {
    let conn = old.next_conn();
    &&& new.config() == old.config()
    &&& new.is_running() == old.is_running()
    &&& !old.is_running() ==> actions.len() == 0 && new == old
    &&& old.is_running() && !connect_accepts(old, room) ==> actions.len() == 1 && actions[0] is Reject
        && same_views(old, new)
    &&& old.is_running() && old.has_proc(room) && old.config().oneshot ==> new == old
    &&& connect_accepts(old, room) ==> {
        &&& exists|k: int| 0 <= k < actions.len() && #[trigger] attaches(actions[k], room, conn, old.has_proc(room))
        &&& new.next_conn() == conn + 1
        &&& forall|r: Seq<char>, c: ConnID| #[trigger] new.has_conn(r, c) == (old.has_conn(r, c)
            || (r == room && c == conn))
        &&& new.has_proc(room)
        &&& forall|r: Seq<char>| #[trigger] old.cached(r) ==> new.cached(r)
        &&& forall|x: u64| #[trigger] old.has_child(x) ==> new.has_child(x) && new.port_of(x) == old.port_of(x)
        &&& old.config().joinmsg matches Some(t) ==> exists|k: int| 0 <= k < actions.len()
            && #[trigger] sends(actions[k], room, expand_template(t@, conn, env))
        &&& forall|k: int| 0 <= k < actions.len() ==> (#[trigger] actions[k] is Send ==> sends_template(
            old.config().joinmsg, actions[k], room, conn, env))
        &&& old.has_proc(room) ==> {
            &&& forall|k: int| 0 <= k < actions.len() ==> !(#[trigger] actions[k] is Spawn)
            &&& forall|r: Seq<char>| #[trigger] new.has_proc(r) == old.has_proc(r)
            &&& forall|x: u64| #[trigger] new.has_child(x) == old.has_child(x)
            &&& new.free_ports() == old.free_ports()
        }
        &&& old.cached(room) ==> forall|k: int| 0 <= k < actions.len() ==> !(#[trigger] actions[k] is CreateCache)
        &&& forall|k1: int, k2: int| 0 <= k1 < actions.len() && 0 <= k2 < actions.len() && #[trigger] actions[k1] is Spawn
            && #[trigger] actions[k2] is Spawn ==> k1 == k2
        &&& !old.has_proc(room) ==> {
            &&& forall|r: Seq<char>| #[trigger] new.has_proc(r) == (old.has_proc(r) || r == room)
            &&& new.is_live_child(room, old.next_child())
            &&& old.config().cache is Some ==> new.cached(room)
            &&& exists|k: int| 0 <= k < actions.len() && #[trigger] spawns(actions[k], room, old.next_child(),
                new.port_of(old.next_child()))
            &&& takes_port(old.free_ports(), new.free_ports(), new.port_of(old.next_child()), old.config().tcp)
        }
    }
    &&& new.port_span() == old.port_span()
}


/// What a disconnect of connection `conn` from `room` does.
pub open spec fn disconnect_post(old: State, new: State, room: Seq<char>, conn: ConnID, env: Env, actions: Seq<Action>) -> bool {
    let leave = old.config().leavemsg;
    &&& new.config() == old.config()
    &&& new.free_ports() == old.free_ports()
    &&& new.port_span() == old.port_span()
    &&& new.next_conn() == old.next_conn()
    &&& !old.is_running() ==> actions.len() == 0 && new == old
    &&& old.is_running() ==> {
        &&& !new.has_conn(room, conn)
        &&& forall|r: Seq<char>, c: ConnID| !(r == room && c == conn) ==> (#[trigger] new.has_conn(r, c)
            == old.has_conn(r, c))
        &&& new.is_running() == !old.config().oneshot
        &&& !new.has_clients(room) ==> !new.has_proc(room) && (old.has_proc(room) ==> exists|k: int|
            0 <= k < actions.len() && #[trigger] kills(actions[k], room))
        &&& leave is Some && old.has_conn(room, conn) && old.has_proc(room) ==> exists|k: int|
            0 <= k < actions.len() && #[trigger] sends_template(leave, actions[k], room, conn, env)
        &&& forall|k: int| 0 <= k < actions.len() ==> (#[trigger] actions[k] is Send ==> sends_template(
            leave, actions[k], room, conn, env) && old.has_conn(room, conn) && old.has_proc(room))
        &&& forall|k1: int, k2: int| 0 <= k1 < actions.len() && 0 <= k2 < actions.len() && #[trigger] actions[k1] is Send
            && #[trigger] actions[k2] is Send ==> k1 == k2
        &&& !old.config().oneshot ==> {
            &&& new.has_clients(room) || !old.has_proc(room) ==> forall|k: int|
                0 <= k < actions.len() ==> !(#[trigger] actions[k] is Kill)
            &&& new.has_clients(room) ==> forall|r: Seq<char>| #[trigger] new.has_proc(r) == old.has_proc(r)
            &&& forall|r: Seq<char>| r != room ==> #[trigger] new.has_proc(r) == old.has_proc(r)
        }
    }
}

/// What handling the exit of child `child` of `room` does.
pub open spec fn exit_post(old: State, new: State, room: Seq<char>, child: u64, actions: Seq<Action>) -> bool {
    &&& new.config() == old.config()
    &&& new.next_conn() == old.next_conn()
    &&& new.port_span() == old.port_span()
    &&& !old.is_running() ==> actions.len() == 0 && new == old
    &&& forall|r: Seq<char>, c: ConnID| #[trigger] new.has_conn(r, c) == old.has_conn(r, c)
    &&& forall|x: u64| x != child ==> #[trigger] new.has_child(x) == old.has_child(x) && new.port_of(x)
        == old.port_of(x)
    &&& forall|r: Seq<char>| r != room ==> #[trigger] new.cached(r) == old.cached(r)
    &&& old.is_running() ==> {
        &&& !new.has_child(child)
        &&& new.is_running() == !old.config().oneshot
        &&& old.has_child(child) && old.port_of(child) is Some ==> new.free_ports()
            == old.free_ports().insert(old.port_of(child)->0)
        &&& !(old.has_child(child) && old.port_of(child) is Some) ==> new.free_ports() == old.free_ports()
        &&& !old.config().oneshot && !old.config().cache_persist && !new.has_proc(room) ==> !new.cached(room)
        &&& !old.config().oneshot ==> forall|r: Seq<char>| #[trigger] new.has_proc(r) == (old.has_proc(r)
            && !old.is_live_child(r, child))
        &&& !old.config().oneshot ==> forall|r: Seq<char>, x: u64| x != child ==> (#[trigger] new.is_live_child(r, x)
            == old.is_live_child(r, x))
    }
    &&& old.config().cache_persist ==> new.cached(room) == old.cached(room)
}

/// What metadata from the child of `room` does.
pub open spec fn meta_post(old: State, new: State, room: RoomID, value: Value, actions: Seq<Action>) -> bool {
    &&& new == old
    &&& !old.is_running() ==> actions.len() == 0
    &&& old.is_running() ==> actions.len() == 1 && actions[0] == Action::SetMetadata { room, value }
}

/// What a shutdown does: every live child is killed exactly once, and the
/// reactor stops; once stopped, nothing more happens.
pub open spec fn shutdown_post(old: State, new: State, actions: Seq<Action>) -> bool {
    &&& !new.is_running()
    &&& new.config() == old.config()
    &&& new.free_ports() == old.free_ports()
    &&& forall|r: Seq<char>, c: ConnID| #[trigger] new.has_conn(r, c) == old.has_conn(r, c)
    &&& !old.is_running() ==> actions.len() == 0 && new == old
    &&& forall|r: Seq<char>| !#[trigger] new.has_proc(r)
    &&& forall|r: Seq<char>| #[trigger] old.has_proc(r) ==> exists|k: int|
        0 <= k < actions.len() && #[trigger] kills(actions[k], r)
    &&& forall|k: int| 0 <= k < actions.len() ==> #[trigger] actions[k] is Kill && old.has_proc(kill_room(actions[k]))
    &&& forall|k1: int, k2: int| 0 <= k1 < actions.len() && 0 <= k2 < actions.len() && k1 != k2
        ==> #[trigger] kill_room(actions[k1]) != #[trigger] kill_room(actions[k2])
}

impl State {
    pub closed spec fn wf(&self) -> bool {
        &&& self.ports.wf()
        &&& conns_wf(self.conns@, self.next_conn_id)
        &&& children_wf(self.children@, self.next_child_id, self.ports.span(), self.ports.free())
        &&& caches_wf(self.caches@)
        &&& !self.running ==> forall|i: int| 0 <= i < self.children@.len() ==> !(#[trigger] self.children@[i]).live
    }

    proof fn lemma_same_conns(&self, other: &State)
        requires
            self.conns == other.conns,
        ensures
            forall|r: Seq<char>, c: ConnID| #[trigger] self.has_conn(r, c) == other.has_conn(r, c),
            forall|r: Seq<char>| #[trigger] self.has_clients(r) == other.has_clients(r),
    {
        assert forall|r: Seq<char>| #[trigger] self.has_clients(r) == other.has_clients(r) by {
            if self.has_clients(r) {
                let c = choose|c: ConnID| self.has_conn(r, c);
                assert(other.has_conn(r, c));
            }
            if other.has_clients(r) {
                let c = choose|c: ConnID| other.has_conn(r, c);
                assert(self.has_conn(r, c));
            }
        }
    }

    proof fn lemma_same_children(&self, other: &State)
        requires
            self.children == other.children,
        ensures
            forall|x: u64| #[trigger] self.has_child(x) == other.has_child(x) && self.port_of(x) == other.port_of(x),
            forall|r: Seq<char>| #[trigger] self.has_proc(r) == other.has_proc(r),
            forall|r: Seq<char>, x: u64| #[trigger] self.is_live_child(r, x) == other.is_live_child(r, x),
    {
    }

    /// Whether the reactor still handles events.
    pub closed spec fn is_running(&self) -> bool {
        self.running
    }

    /// The configuration the reactor runs with.
    pub closed spec fn config(&self) -> ReactorConfig {
        self.cfg
    }

    /// The id the next child gets.
    pub closed spec fn next_child(&self) -> u64 {
        self.next_child_id
    }

    /// Ids below this one have been handed out; it is the next one.
    pub closed spec fn next_conn(&self) -> u32 {
        self.next_conn_id
    }

    /// Whether `room` has a live child.
    pub closed spec fn has_proc(&self, room: Seq<char>) -> bool {
        exists|i: int|
            0 <= i < self.children@.len() && self.children@[i].live && #[trigger] self.children@[i].room@
                == room
    }

    /// Whether connection `c` is attached to `room`.
    pub closed spec fn has_conn(&self, room: Seq<char>, c: ConnID) -> bool {
        exists|i: int, k: int|
            0 <= i < self.conns@.len() && 0 <= k < self.conns@[i].ids@.len()
                && #[trigger] self.conns@[i].room@ == room && #[trigger] self.conns@[i].ids@[k]
                == c
    }

    /// Whether any connection is attached to `room`.
    pub closed spec fn has_clients(&self, room: Seq<char>) -> bool {
        exists|c: ConnID| self.has_conn(room, c)
    }

    /// Whether a child with id `child` was started and has not exited.
    pub closed spec fn has_child(&self, child: u64) -> bool {
        exists|i: int| 0 <= i < self.children@.len() && #[trigger] self.children@[i].id == child
    }

    /// The port that child `child` holds, if any.
    pub closed spec fn port_of(&self, child: u64) -> Option<PortID> {
        if self.has_child(child) {
            let i = choose|i: int|
                0 <= i < self.children@.len() && #[trigger] self.children@[i].id == child;
            self.children@[i].port
        } else {
            None
        }
    }

    /// Ports available for new children.
    pub closed spec fn free_ports(&self) -> Set<PortID> {
        self.ports.free()
    }

    /// Ports the configuration lets children use.
    pub closed spec fn port_span(&self) -> Set<PortID> {
        self.ports.span()
    }

    /// A reactor with no rooms, handing out connection ids from 1.
    pub fn new(cfg: &Config) -> (r: State)
        ensures
            r.wf(),
            r.is_running(),
            r.next_conn() == 1,
            r.config().oneshot == cfg.oneshot,
            r.config().tcp == cfg.tcp,
            r.config().cache == cfg.cache,
            r.config().cache_persist == cfg.cache_persist,
            r.config().joinmsg == cfg.joinmsg,
            r.config().leavemsg == cfg.leavemsg,
            r.free_ports() == crate::ports::id_range(cfg.tcpports.start, cfg.tcpports.end),
            forall|room: Seq<char>| !r.has_proc(room) && !r.has_clients(room),
    {
        let reactor_cfg = ReactorConfig {
            oneshot: cfg.oneshot,
            tcp: cfg.tcp,
            joinmsg: cfg.joinmsg.clone(),
            leavemsg: cfg.leavemsg.clone(),
            cache: cfg.cache,
            cache_persist: cfg.cache_persist,
        };
        State {
            next_conn_id: 1,
            next_child_id: 0,
            conns: Vec::new(),
            children: Vec::new(),
            caches: Vec::new(),
            ports: PortPool::new(cfg.tcpports.start, cfg.tcpports.end),
            cfg: reactor_cfg,
            running: true,
        }
    }

    /// Attach connection `conn`, newer than every attached one, to `room`.
    #[verifier::spinoff_prover]
    #[verifier::rlimit(40)]
    fn insert_conn(&mut self, room: &RoomID, conn: ConnID)
        requires
            conns_wf(old(self).conns@, old(self).next_conn_id),
            1 <= conn < old(self).next_conn_id,
            forall|r: Seq<char>, c: ConnID| old(self).has_conn(r, c) ==> c < conn,
        ensures
            conns_wf(final(self).conns@, final(self).next_conn_id),
            final(self).next_conn_id == old(self).next_conn_id,
            final(self).next_child_id == old(self).next_child_id,
            final(self).children == old(self).children,
            final(self).caches == old(self).caches,
            final(self).ports == old(self).ports,
            final(self).cfg == old(self).cfg,
            final(self).running == old(self).running,
            forall|r: Seq<char>, c: ConnID|
                #[trigger] final(self).has_conn(r, c) <==> (old(self).has_conn(r, c) || (r
                    == room@ && c == conn)),
    {
        let ghost old_conns = self.conns@;
        let ghost old_self = *self;
        match find_room(&self.conns, room) {
            Some(i) => {
                let mut entry = self.conns.remove(i);
                let ghost old_ids = entry.ids@;
                entry.ids.push(conn);
                let ghost new_ids = entry.ids@;
                assert(new_ids == old_ids.push(conn));
                self.conns.insert(i, entry);
                assert(self.conns@ =~= old_conns.update(i as int, self.conns@[i as int]));
                assert(self.conns@[i as int].ids@ == new_ids);
                assert(self.conns@[i as int].room@ == room@);
                assert forall|k: int| 0 <= k < old_ids.len() implies #[trigger] old_ids[k]
                    < conn by {
                    assert(old_conns[i as int].ids@[k] == old_ids[k]);
                    assert(old_self.has_conn(room@, old_ids[k]));
                }
                assert forall|r: Seq<char>, c: ConnID|
                    #[trigger] self.has_conn(r, c) implies (old_self.has_conn(r, c) || (r
                        == room@ && c == conn)) by {
                    let (a, k) = choose|a: int, k: int|
                        0 <= a < self.conns@.len() && 0 <= k < self.conns@[a].ids@.len()
                            && #[trigger] self.conns@[a].room@ == r
                            && #[trigger] self.conns@[a].ids@[k] == c;
                    if a == i && k == old_ids.len() {
                    } else {
                        assert(old_conns[a].ids@[k] == c);
                        assert(old_conns[a].room@ == r);
                    }
                }
                assert forall|r: Seq<char>, c: ConnID|
                    (old_self.has_conn(r, c) || (r == room@ && c == conn)) implies #[trigger] self.has_conn(r, c) by {
                    if r == room@ && c == conn {
                        assert(self.conns@[i as int].ids@[old_ids.len() as int] == c);
                    } else {
                        let (a, k) = choose|a: int, k: int|
                            0 <= a < old_conns.len() && 0 <= k < old_conns[a].ids@.len()
                                && #[trigger] old_conns[a].room@ == r
                                && #[trigger] old_conns[a].ids@[k] == c;
                        assert(self.conns@[a].ids@[k] == c);
                        assert(self.conns@[a].room@ == r);
                    }
                }
            },
            None => {
                let mut ids: Vec<ConnID> = Vec::new();
                ids.push(conn);
                self.conns.push(RoomConns { room: room.clone(), ids });
                let ghost n = old_conns.len() as int;
                assert(self.conns@ =~= old_conns.push(self.conns@[n]));
                assert(self.conns@[n].room@ == room@);
                assert(self.conns@[n].ids@ =~= seq![conn]);
                assert forall|r: Seq<char>, c: ConnID|
                    #[trigger] self.has_conn(r, c) implies (old_self.has_conn(r, c) || (r
                        == room@ && c == conn)) by {
                    let (a, k) = choose|a: int, k: int|
                        0 <= a < self.conns@.len() && 0 <= k < self.conns@[a].ids@.len()
                            && #[trigger] self.conns@[a].room@ == r
                            && #[trigger] self.conns@[a].ids@[k] == c;
                    if a < n {
                        assert(old_conns[a].ids@[k] == c);
                        assert(old_conns[a].room@ == r);
                    }
                }
                assert forall|r: Seq<char>, c: ConnID|
                    (old_self.has_conn(r, c) || (r == room@ && c == conn)) implies #[trigger] self.has_conn(r, c) by {
                    if r == room@ && c == conn {
                        assert(self.conns@[n].ids@[0] == c);
                    } else {
                        let (a, k) = choose|a: int, k: int|
                            0 <= a < old_conns.len() && 0 <= k < old_conns[a].ids@.len()
                                && #[trigger] old_conns[a].room@ == r
                                && #[trigger] old_conns[a].ids@[k] == c;
                        assert(self.conns@[a].ids@[k] == c);
                        assert(self.conns@[a].room@ == r);
                    }
                }
            },
        }
    }

    /// Detach connection `conn` from `room`; whether it was attached.
    #[verifier::spinoff_prover]
    #[verifier::rlimit(40)]
    fn remove_conn(&mut self, room: &RoomID, conn: ConnID) -> (removed: bool)
        requires
            conns_wf(old(self).conns@, old(self).next_conn_id),
        ensures
            conns_wf(final(self).conns@, final(self).next_conn_id),
            final(self).next_conn_id == old(self).next_conn_id,
            final(self).next_child_id == old(self).next_child_id,
            final(self).children == old(self).children,
            final(self).caches == old(self).caches,
            final(self).ports == old(self).ports,
            final(self).cfg == old(self).cfg,
            final(self).running == old(self).running,
            removed == old(self).has_conn(room@, conn),
            forall|r: Seq<char>, c: ConnID|
                #[trigger] final(self).has_conn(r, c) <==> (old(self).has_conn(r, c) && !(r
                    == room@ && c == conn)),
    {
        let ghost old_conns = self.conns@;
        let ghost old_self = *self;
        let i = match find_room(&self.conns, room) {
            Some(i) => i,
            None => {
                assert(!old_self.has_conn(room@, conn));
                return false;
            },
        };
        let k = match find_id(&self.conns[i].ids, conn) {
            Some(k) => k,
            None => {
                assert forall|r: Seq<char>, c: ConnID| #[trigger] old_self.has_conn(r, c) implies !(r
                    == room@ && c == conn) by {
                    let (a, l) = choose|a: int, l: int|
                        0 <= a < old_conns.len() && 0 <= l < old_conns[a].ids@.len()
                            && #[trigger] old_conns[a].room@ == r
                            && #[trigger] old_conns[a].ids@[l] == c;
                    if r == room@ && c == conn {
                        assert(a == i);
                    }
                }
                return false;
            },
        };
        let mut entry = self.conns.remove(i);
        let ghost old_ids = entry.ids@;
        entry.ids.remove(k);
        let ghost new_ids = entry.ids@;
        assert(new_ids == old_ids.remove(k as int));
        self.conns.insert(i, entry);
        assert(self.conns@ =~= old_conns.update(i as int, self.conns@[i as int]));
        assert(self.conns@[i as int].ids@ == new_ids);
        assert(self.conns@[i as int].room@ == room@);
        assert(old_self.has_conn(room@, conn)) by {
            assert(old_conns[i as int].ids@[k as int] == conn);
        }
        assert forall|r: Seq<char>, c: ConnID|
            #[trigger] self.has_conn(r, c) implies (old_self.has_conn(r, c) && !(r == room@ && c
                == conn)) by {
            let (a, l) = choose|a: int, l: int|
                0 <= a < self.conns@.len() && 0 <= l < self.conns@[a].ids@.len()
                    && #[trigger] self.conns@[a].room@ == r
                    && #[trigger] self.conns@[a].ids@[l] == c;
            if a == i {
                let l0 = if l < k { l } else { l + 1 };
                assert(old_conns[a].ids@[l0] == c);
                assert(old_conns[a].room@ == r);
                if c == conn {
                    assert(old_conns[a].ids@[k as int] == conn);
                }
            } else {
                assert(old_conns[a].ids@[l] == c);
                assert(old_conns[a].room@ == r);
            }
        }
        assert forall|r: Seq<char>, c: ConnID|
            (old_self.has_conn(r, c) && !(r == room@ && c == conn)) implies #[trigger] self.has_conn(
            r,
            c,
        ) by {
            let (a, l) = choose|a: int, l: int|
                0 <= a < old_conns.len() && 0 <= l < old_conns[a].ids@.len()
                    && #[trigger] old_conns[a].room@ == r
                    && #[trigger] old_conns[a].ids@[l] == c;
            if a == i {
                assert(l != k);
                let l1 = if l < k { l } else { l - 1 };
                assert(self.conns@[a].ids@[l1] == c);
                assert(self.conns@[a].room@ == r);
            } else {
                assert(self.conns@[a].ids@[l] == c);
                assert(self.conns@[a].room@ == r);
            }
        }
        true
    }

    /// Whether any connection is attached to `room`.
    fn room_has_clients(&self, room: &RoomID) -> (r: bool)
        requires
            conns_wf(self.conns@, self.next_conn_id),
        ensures
            r == self.has_clients(room@),
    {
        match find_room(&self.conns, room) {
            Some(i) => {
                if self.conns[i].ids.len() > 0 {
                    assert(self.has_conn(room@, self.conns@[i as int].ids@[0]));
                    true
                } else {
                    assert forall|c: ConnID| !self.has_conn(room@, c) by {
                        if self.has_conn(room@, c) {
                            let (a, l) = choose|a: int, l: int|
                                0 <= a < self.conns@.len() && 0 <= l < self.conns@[a].ids@.len()
                                    && #[trigger] self.conns@[a].room@ == room@
                                    && #[trigger] self.conns@[a].ids@[l] == c;
                            assert(a == i);
                        }
                    }
                    false
                }
            },
            None => {
                assert forall|c: ConnID| !self.has_conn(room@, c) by {
                    if self.has_conn(room@, c) {
                        let (a, l) = choose|a: int, l: int|
                            0 <= a < self.conns@.len() && 0 <= l < self.conns@[a].ids@.len()
                                && #[trigger] self.conns@[a].room@ == room@
                                && #[trigger] self.conns@[a].ids@[l] == c;
                    }
                }
                false
            },
        }
    }

    proof fn lemma_port_of(&self, i: int)
        requires
            children_wf(self.children@, self.next_child_id, self.ports.span(), self.ports.free()),
            0 <= i < self.children@.len(),
        ensures
            self.has_child(self.children@[i].id),
            self.port_of(self.children@[i].id) == self.children@[i].port,
    {
        let x = self.children@[i].id;
        assert(self.has_child(x));
        let j = choose|j: int| 0 <= j < self.children@.len() && #[trigger] self.children@[j].id == x;
        if j != i {
            assert(self.children@[j].id != self.children@[i].id);
        }
    }

    /// Record a new live child of `room`, holding `port`; returns its id.
    #[verifier::spinoff_prover]
    #[verifier::rlimit(40)]
    fn add_child(&mut self, room: &RoomID, port: Option<PortID>) -> (id: u64)
        requires
            children_wf(old(self).children@, old(self).next_child_id, old(self).ports.span(), old(self).ports.free()),
            old(self).next_child_id < u64::MAX,
            !old(self).has_proc(room@),
            port matches Some(p) ==> old(self).ports.span().contains(p) && !old(self).ports.free().contains(p)
                && forall|i: int| 0 <= i < old(self).children@.len() ==> #[trigger] old(self).children@[i].port != Some(p),
        ensures
            children_wf(final(self).children@, final(self).next_child_id, final(self).ports.span(), final(self).ports.free()),
            id == old(self).next_child_id,
            final(self).next_child_id == old(self).next_child_id + 1,
            final(self).next_conn_id == old(self).next_conn_id,
            final(self).conns == old(self).conns,
            final(self).caches == old(self).caches,
            final(self).ports == old(self).ports,
            final(self).cfg == old(self).cfg,
            final(self).running == old(self).running,
            final(self).has_child(id),
            final(self).port_of(id) == port,
            final(self).is_live_child(room@, id),
            forall|x: u64| x != id ==> (#[trigger] final(self).has_child(x) == old(self).has_child(x)
                && final(self).port_of(x) == old(self).port_of(x)),
            forall|r: Seq<char>| #[trigger] final(self).has_proc(r) == (old(self).has_proc(r) || r == room@),
    {
        let ghost old_ch = self.children@;
        let ghost old_self = *self;
        let id = self.next_child_id;
        self.children.push(Child { room: room.clone(), id, port, live: true });
        self.next_child_id = id + 1;
        let ghost n = old_ch.len() as int;
        assert(self.children@ =~= old_ch.push(self.children@[n]));
        assert forall|i: int, j: int|
            0 <= i < self.children@.len() && 0 <= j < self.children@.len() && i != j
                && self.children@[i].live && self.children@[j].live
                implies #[trigger] self.children@[i].room@ != #[trigger] self.children@[j].room@ by {
            if i == n {
                assert(!(old_ch[j].live && old_ch[j].room@ == room@));
            } else if j == n {
                assert(!(old_ch[i].live && old_ch[i].room@ == room@));
            }
        }
        proof {
            self.lemma_port_of(n);
            assert(self.children@[n].id == id);
            assert forall|x: u64| x != id implies (#[trigger] self.has_child(x) == old_self.has_child(x)
                && self.port_of(x) == old_self.port_of(x)) by {
                if old_self.has_child(x) {
                    let j = choose|j: int| 0 <= j < old_ch.len() && #[trigger] old_ch[j].id == x;
                    old_self.lemma_port_of(j);
                    self.lemma_port_of(j);
                }
                if self.has_child(x) {
                    let j = choose|j: int| 0 <= j < self.children@.len() && #[trigger] self.children@[j].id == x;
                    assert(j != n);
                    assert(old_ch[j].id == x);
                }
            }
            assert forall|r: Seq<char>| #[trigger] self.has_proc(r) == (old_self.has_proc(r) || r == room@) by {
                if old_self.has_proc(r) {
                    let j = choose|j: int| 0 <= j < old_ch.len() && old_ch[j].live && #[trigger] old_ch[j].room@ == r;
                    assert(self.children@[j].room@ == r);
                }
                if r == room@ {
                    assert(self.children@[n].room@ == r);
                }
                if self.has_proc(r) {
                    let j = choose|j: int| 0 <= j < self.children@.len() && self.children@[j].live && #[trigger] self.children@[j].room@ == r;
                    if j < n {
                        assert(old_ch[j].room@ == r);
                    }
                }
            }
        }
        id
    }

    /// Mark the live child of `room`, at index `i`, as told to die.
    #[verifier::spinoff_prover]
    #[verifier::rlimit(40)]
    fn retire_child(&mut self, i: usize)
        requires
            children_wf(old(self).children@, old(self).next_child_id, old(self).ports.span(), old(self).ports.free()),
            i < old(self).children@.len(),
            old(self).children@[i as int].live,
        ensures
            children_wf(final(self).children@, final(self).next_child_id, final(self).ports.span(), final(self).ports.free()),
            final(self).next_child_id == old(self).next_child_id,
            final(self).next_conn_id == old(self).next_conn_id,
            final(self).conns == old(self).conns,
            final(self).caches == old(self).caches,
            final(self).ports == old(self).ports,
            final(self).cfg == old(self).cfg,
            final(self).running == old(self).running,
            forall|x: u64| #[trigger] final(self).has_child(x) == old(self).has_child(x)
                && final(self).port_of(x) == old(self).port_of(x),
            forall|r: Seq<char>| #[trigger] final(self).has_proc(r) == (old(self).has_proc(r)
                && r != old(self).children@[i as int].room@),
            final(self).children@.len() == old(self).children@.len(),
            !final(self).children@[i as int].live,
            forall|j: int| 0 <= j < final(self).children@.len() ==> (#[trigger] final(self).children@[j]).room
                == old(self).children@[j].room && (j != i ==> final(self).children@[j].live == old(self).children@[j].live),
    {
        let ghost old_ch = self.children@;
        let ghost old_self = *self;
        let mut c = self.children.remove(i);
        c.live = false;
        self.children.insert(i, c);
        assert(self.children@ =~= old_ch.update(i as int, self.children@[i as int]));
        proof {
            assert forall|x: u64| #[trigger] self.has_child(x) == old_self.has_child(x)
                && self.port_of(x) == old_self.port_of(x) by {
                if old_self.has_child(x) {
                    let j = choose|j: int| 0 <= j < old_ch.len() && #[trigger] old_ch[j].id == x;
                    old_self.lemma_port_of(j);
                    self.lemma_port_of(j);
                }
                if self.has_child(x) {
                    let j = choose|j: int| 0 <= j < self.children@.len() && #[trigger] self.children@[j].id == x;
                    assert(old_ch[j].id == x);
                }
            }
            assert forall|r: Seq<char>| #[trigger] self.has_proc(r) == (old_self.has_proc(r)
                && r != old_ch[i as int].room@) by {
                if self.has_proc(r) {
                    let j = choose|j: int| 0 <= j < self.children@.len() && self.children@[j].live && #[trigger] self.children@[j].room@ == r;
                    assert(j != i);
                    assert(old_ch[j].room@ == r);
                    assert(old_ch[j].room@ != old_ch[i as int].room@);
                }
                if old_self.has_proc(r) && r != old_ch[i as int].room@ {
                    let j = choose|j: int| 0 <= j < old_ch.len() && old_ch[j].live && #[trigger] old_ch[j].room@ == r;
                    assert(self.children@[j].room@ == r);
                }
            }
        }
    }

    /// Forget the child at index `i`, returning the port it held to the pool.
    #[verifier::spinoff_prover]
    #[verifier::rlimit(40)]
    fn reap_child(&mut self, i: usize)
        requires
            old(self).ports.wf(),
            children_wf(old(self).children@, old(self).next_child_id, old(self).ports.span(), old(self).ports.free()),
            i < old(self).children@.len(),
        ensures
            final(self).ports.wf(),
            children_wf(final(self).children@, final(self).next_child_id, final(self).ports.span(), final(self).ports.free()),
            final(self).next_child_id == old(self).next_child_id,
            final(self).next_conn_id == old(self).next_conn_id,
            final(self).conns == old(self).conns,
            final(self).caches == old(self).caches,
            final(self).cfg == old(self).cfg,
            final(self).running == old(self).running,
            final(self).ports.span() == old(self).ports.span(),
            old(self).children@[i as int].port matches Some(p) ==> final(self).ports.free() == old(self).ports.free().insert(p),
            old(self).children@[i as int].port is None ==> final(self).ports.free() == old(self).ports.free(),
            !final(self).has_child(old(self).children@[i as int].id),
            forall|x: u64| x != old(self).children@[i as int].id ==> #[trigger] final(self).has_child(x) == old(self).has_child(x)
                && final(self).port_of(x) == old(self).port_of(x),
            forall|r: Seq<char>| #[trigger] final(self).has_proc(r) == (old(self).has_proc(r)
                && !(old(self).children@[i as int].live && r == old(self).children@[i as int].room@)),
            forall|r: Seq<char>, x: u64| x != old(self).children@[i as int].id ==> (#[trigger] final(self).is_live_child(r, x)
                == old(self).is_live_child(r, x)),
            forall|r: Seq<char>| #[trigger] old(self).is_live_child(r, old(self).children@[i as int].id)
                == (old(self).children@[i as int].live && r == old(self).children@[i as int].room@),
    {
        let ghost old_ch = self.children@;
        let ghost old_self = *self;
        let c = self.children.remove(i);
        assert(self.children@ =~= old_ch.remove(i as int));
        match c.port {
            Some(p) => {
                self.ports.release(p);
            },
            None => {},
        }
        proof {
            assert forall|x: u64| x != old_ch[i as int].id implies #[trigger] self.has_child(x) == old_self.has_child(x)
                && self.port_of(x) == old_self.port_of(x) by {
                if old_self.has_child(x) {
                    let j = choose|j: int| 0 <= j < old_ch.len() && #[trigger] old_ch[j].id == x;
                    old_self.lemma_port_of(j);
                    let j1 = if j < i { j } else { j - 1 };
                    assert(self.children@[j1].id == x);
                    self.lemma_port_of(j1);
                }
                if self.has_child(x) {
                    let j = choose|j: int| 0 <= j < self.children@.len() && #[trigger] self.children@[j].id == x;
                    let j0 = if j < i { j } else { j + 1 };
                    assert(old_ch[j0].id == x);
                }
            }
            assert forall|r: Seq<char>, x: u64| x != old_ch[i as int].id implies (#[trigger] self.is_live_child(r, x)
                == old_self.is_live_child(r, x)) by {
                if self.is_live_child(r, x) {
                    let j = choose|j: int| 0 <= j < self.children@.len() && #[trigger] self.children@[j].id == x
                        && self.children@[j].live && self.children@[j].room@ == r;
                    let j0 = if j < i { j } else { j + 1 };
                    assert(old_ch[j0].id == x);
                }
                if old_self.is_live_child(r, x) {
                    let j = choose|j: int| 0 <= j < old_ch.len() && #[trigger] old_ch[j].id == x
                        && old_ch[j].live && old_ch[j].room@ == r;
                    assert(j != i);
                    let j1 = if j < i { j } else { j - 1 };
                    assert(self.children@[j1].id == x);
                }
            }
            assert forall|r: Seq<char>| #[trigger] old_self.is_live_child(r, old_ch[i as int].id)
                == (old_ch[i as int].live && r == old_ch[i as int].room@) by {
                if old_self.is_live_child(r, old_ch[i as int].id) {
                    let j = choose|j: int| 0 <= j < old_ch.len() && #[trigger] old_ch[j].id == old_ch[i as int].id
                        && old_ch[j].live && old_ch[j].room@ == r;
                    if j != i {
                        assert(old_ch[j].id != old_ch[i as int].id);
                    }
                }
                if old_ch[i as int].live && r == old_ch[i as int].room@ {
                    assert(old_ch[i as int].id == old_ch[i as int].id);
                }
            }
            if self.has_child(old_ch[i as int].id) {
                let j = choose|j: int| 0 <= j < self.children@.len() && #[trigger] self.children@[j].id == old_ch[i as int].id;
                let j0 = if j < i { j } else { j + 1 };
                assert(old_ch[j0].id == old_ch[i as int].id);
            }
            assert forall|r: Seq<char>| #[trigger] self.has_proc(r) == (old_self.has_proc(r)
                && !(old_ch[i as int].live && r == old_ch[i as int].room@)) by {
                if self.has_proc(r) {
                    let j = choose|j: int| 0 <= j < self.children@.len() && self.children@[j].live && #[trigger] self.children@[j].room@ == r;
                    let j0 = if j < i { j } else { j + 1 };
                    assert(old_ch[j0].room@ == r && old_ch[j0].live);
                }
                if old_self.has_proc(r) && !(old_ch[i as int].live && r == old_ch[i as int].room@) {
                    let j = choose|j: int| 0 <= j < old_ch.len() && old_ch[j].live && #[trigger] old_ch[j].room@ == r;
                    assert(j != i);
                    let j1 = if j < i { j } else { j - 1 };
                    assert(self.children@[j1].room@ == r);
                }
            }
        }
    }

    /// Every attached connection id was handed out: it lies below the next
    /// one. Since the next id only grows and each new client gets it, no id is
    /// ever given to two connections.
    pub proof fn lemma_attached_ids_issued(&self)
        requires
            self.wf(),
        ensures
            forall|r: Seq<char>, c: ConnID| #[trigger] self.has_conn(r, c) ==> 1 <= c < self.next_conn(),
    {
        assert forall|r: Seq<char>, c: ConnID| #[trigger] self.has_conn(r, c) implies 1 <= c < self.next_conn() by {
            let (a, l) = choose|a: int, l: int|
                0 <= a < self.conns@.len() && 0 <= l < self.conns@[a].ids@.len()
                    && #[trigger] self.conns@[a].room@ == r
                    && #[trigger] self.conns@[a].ids@[l] == c;
        }
    }

    /// A room never has two live children: any two children of `room` that are
    /// both live are the same child.
    pub proof fn lemma_one_child_per_room(&self, room: Seq<char>, a: u64, b: u64)
        requires
            self.wf(),
            self.is_live_child(room, a),
            self.is_live_child(room, b),
        ensures
            a == b,
    {
        let i = choose|i: int| 0 <= i < self.children@.len() && #[trigger] self.children@[i].id == a
            && self.children@[i].live && self.children@[i].room@ == room;
        let j = choose|j: int| 0 <= j < self.children@.len() && #[trigger] self.children@[j].id == b
            && self.children@[j].live && self.children@[j].room@ == room;
        if i != j {
            assert(self.children@[i].room@ != self.children@[j].room@);
        }
    }

    /// Whether the reactor keeps a cache for `room`.
    pub closed spec fn cached(&self, room: Seq<char>) -> bool {
        exists|i: int| 0 <= i < self.caches@.len() && #[trigger] self.caches@[i]@ == room
    }

    /// A port held by a child is not available to others, and no two children
    /// hold the same port; it becomes available only when that child's exit is
    /// handled (see `process_exit`), which forgets the child, so it is
    /// released once.
    pub proof fn lemma_ports_held_once(&self, x: u64, y: u64)
        requires
            self.wf(),
            self.has_child(x),
            self.port_of(x) is Some,
        ensures
            self.port_span().contains(self.port_of(x)->0),
            !self.free_ports().contains(self.port_of(x)->0),
            self.has_child(y) && x != y ==> self.port_of(y) != self.port_of(x),
    {
        let i = choose|i: int| 0 <= i < self.children@.len() && #[trigger] self.children@[i].id == x;
        self.lemma_port_of(i);
        if self.has_child(y) && x != y {
            let j = choose|j: int| 0 <= j < self.children@.len() && #[trigger] self.children@[j].id == y;
            self.lemma_port_of(j);
        }
    }

    /// Whether child `child` is the live child of `room`.
    pub closed spec fn is_live_child(&self, room: Seq<char>, child: u64) -> bool {
        exists|i: int| 0 <= i < self.children@.len() && #[trigger] self.children@[i].id == child
            && self.children@[i].live && self.children@[i].room@ == room
    }

    /// Tell every live child to die and stop handling events.
    #[verifier::spinoff_prover]
    #[verifier::rlimit(40)]
    fn stop(&mut self, actions: &mut Vec<Action>)
        requires
            old(self).wf(),
        ensures
            final(self).wf(),
            !final(self).running,
            final(self).next_conn_id == old(self).next_conn_id,
            final(self).conns == old(self).conns,
            final(self).caches == old(self).caches,
            final(self).cfg == old(self).cfg,
            final(self).ports == old(self).ports,
            forall|x: u64| #[trigger] final(self).has_child(x) == old(self).has_child(x)
                && final(self).port_of(x) == old(self).port_of(x),
            forall|r: Seq<char>| !#[trigger] final(self).has_proc(r),
            forall|r: Seq<char>| #[trigger] old(self).has_proc(r) ==> exists|k: int|
                0 <= k < final(actions)@.len() && #[trigger] kills(final(actions)@[k], r),
            final(actions)@.len() >= old(actions)@.len(),
            final(actions)@.subrange(0, old(actions)@.len() as int) == old(actions)@,
            forall|k: int| old(actions)@.len() <= k < final(actions)@.len() ==> #[trigger] final(actions)@[k] is Kill
                && old(self).has_proc(kill_room(final(actions)@[k])),
            forall|k1: int, k2: int| old(actions)@.len() <= k1 < final(actions)@.len() && old(actions)@.len() <= k2
                < final(actions)@.len() && k1 != k2 ==> #[trigger] kill_room(final(actions)@[k1])
                != #[trigger] kill_room(final(actions)@[k2]),
    {
        let ghost start = *self;
        let ghost start_actions = actions@;
        let mut i: usize = 0;
        while i < self.children.len()
            invariant
                self.wf(),
                i <= self.children@.len(),
                self.children@.len() == start.children@.len(),
                self.next_conn_id == start.next_conn_id,
                self.conns == start.conns,
                self.caches == start.caches,
                self.cfg == start.cfg,
                self.ports == start.ports,
                forall|x: u64| #[trigger] self.has_child(x) == start.has_child(x)
                    && self.port_of(x) == start.port_of(x),
                forall|j: int| 0 <= j < self.children@.len() ==> #[trigger] self.children@[j].room@ == start.children@[j].room@,
                forall|j: int| 0 <= j < i ==> !(#[trigger] self.children@[j]).live,
                forall|r: Seq<char>| #[trigger] start.has_proc(r) ==> self.has_proc(r) || exists|k: int|
                    0 <= k < actions@.len() && #[trigger] kills(actions@[k], r),
                actions@.len() >= start_actions.len(),
                actions@.subrange(0, start_actions.len() as int) == start_actions,
                forall|k: int| start_actions.len() <= k < actions@.len() ==> #[trigger] actions@[k] is Kill
                    && start.has_proc(kill_room(actions@[k])) && !self.has_proc(kill_room(actions@[k])),
                forall|k1: int, k2: int| start_actions.len() <= k1 < actions@.len() && start_actions.len() <= k2
                    < actions@.len() && k1 != k2 ==> #[trigger] kill_room(actions@[k1])
                    != #[trigger] kill_room(actions@[k2]),
                forall|j: int| 0 <= j < self.children@.len() ==> ((#[trigger] self.children@[j]).live ==> start.children@[j].live),
            decreases self.children@.len() - i,
        {
            if self.children[i].live {
                let room = self.children[i].room.clone();
                let ghost before = *self;
                let ghost before_actions = actions@;
                assert(before.has_proc(room@)) by {
                    assert(before.children@[i as int].room@ == room@);
                }
                assert(start.has_proc(room@)) by {
                    assert(start.children@[i as int].live);
                    assert(start.children@[i as int].room@ == room@);
                }
                self.retire_child(i);
                actions.push(Action::Kill { room });
                assert(kill_room(actions@[actions@.len() - 1]) == room@);
                assert forall|k: int| start_actions.len() <= k < actions@.len() implies #[trigger] actions@[k] is Kill
                    && start.has_proc(kill_room(actions@[k])) && !self.has_proc(kill_room(actions@[k])) by {
                    if k < before_actions.len() {
                        assert(actions@[k] == before_actions[k]);
                    }
                }
                assert forall|k1: int, k2: int| start_actions.len() <= k1 < actions@.len() && start_actions.len() <= k2
                    < actions@.len() && k1 != k2 implies #[trigger] kill_room(actions@[k1])
                    != #[trigger] kill_room(actions@[k2]) by {
                    if k1 < before_actions.len() {
                        assert(actions@[k1] == before_actions[k1]);
                    }
                    if k2 < before_actions.len() {
                        assert(actions@[k2] == before_actions[k2]);
                    }
                }
                assert(actions@.subrange(0, start_actions.len() as int) =~= before_actions.subrange(0, start_actions.len() as int));
                assert forall|r: Seq<char>| #[trigger] start.has_proc(r) implies self.has_proc(r) || exists|k: int|
                    0 <= k < actions@.len() && #[trigger] kills(actions@[k], r) by {
                    if !self.has_proc(r) {
                        if before.has_proc(r) {
                            assert(kills(actions@[actions@.len() - 1], r));
                        } else {
                            let k = choose|k: int| 0 <= k < before_actions.len() && #[trigger] kills(before_actions[k], r);
                            assert(actions@[k] == before_actions[k]);
                        }
                    }
                }
            }
            i += 1;
        }
        let ghost before_stop = *self;
        self.running = false;
        assert(self.children == before_stop.children);
        proof {
            self.lemma_same_children(&before_stop);
        }
        assert forall|x: u64| #[trigger] self.has_child(x) == start.has_child(x)
            && self.port_of(x) == start.port_of(x) by {
            assert(before_stop.has_child(x) == start.has_child(x));
            assert(self.has_child(x) == before_stop.has_child(x));
            assert(self.port_of(x) == before_stop.port_of(x));
        }
        assert forall|r: Seq<char>| !#[trigger] self.has_proc(r) by {
            if self.has_proc(r) {
                let j = choose|j: int| 0 <= j < self.children@.len() && self.children@[j].live && #[trigger] self.children@[j].room@ == r;
            }
        }
        assert forall|i: int| 0 <= i < self.children@.len() implies !(#[trigger] self.children@[i]).live by {}
    }

    /// A client connects to `room`: attach it, starting the room's child when
    /// it has none; see `connect_post`.
    #[verifier::spinoff_prover]
    #[verifier::rlimit(100)]
    pub fn connect(&mut self, room: RoomID, env: Env) -> (actions: Vec<Action>)
        requires
            old(self).wf(),
        ensures
            final(self).wf(),
            connect_post(*old(self), *final(self), room@, env, actions@),
    {
        let ghost start = *self;
        let mut actions: Vec<Action> = Vec::new();
        if !self.running {
            return actions;
        }
        let live = find_live(&self.children, &room);
        proof {
            if start.has_proc(room@) {
                let j = choose|j: int| 0 <= j < self.children@.len() && self.children@[j].live && #[trigger] self.children@[j].room@ == room@;
                assert(live is Some);
            }
            match live {
                Some(i) => {
                    assert(self.children@[i as int].room@ == room@);
                },
                None => {},
            }
        }
        if live.is_some() && self.cfg.oneshot {
            actions.push(Action::Reject { room });
            return actions;
        }
        if self.next_conn_id == u32::MAX || (live.is_none() && self.next_child_id == u64::MAX) {
            actions.push(Action::Reject { room });
            return actions;
        }
        let ghost old_self = *self;
        let ghost mut spawn_at: int = 0;
        let ghost mut spawn_port: Option<PortID> = None;
        if live.is_none() {
            let port = if self.cfg.tcp {
                match self.ports.acquire() {
                    Some(p) => Some(p),
                    None => {
                        proof {
                            self.lemma_same_conns(&start);
                            self.lemma_same_children(&start);
                            assert(self.caches == start.caches);
                            assert forall|r: Seq<char>| #[trigger] self.cached(r) == start.cached(r) by {}
                        }
                        actions.push(Action::Reject { room });
                        return actions;
                    },
                }
            } else {
                None
            };
            proof {
                spawn_port = port;
            }
            assert forall|i: int| 0 <= i < self.children@.len() implies (#[trigger] self.children@[i].port
                matches Some(q) ==> self.ports.span().contains(q) && !self.ports.free().contains(q)) by {}
            if let Some(p) = port {
                assert forall|i: int| 0 <= i < self.children@.len() implies #[trigger] self.children@[i].port != Some(p) by {
                    assert(old_self.ports.free().contains(p));
                }
            }
            actions.push(Action::CountConnect { room: room.clone() });
            if let Some(c) = self.cfg.cache {
                if find_cache(&self.caches, &room).is_none() {
                    assert(!start.cached(room@));
                    let ghost old_caches = self.caches@;
                    self.caches.push(room.clone());
                    assert(self.caches@ =~= old_caches.push(self.caches@[old_caches.len() as int]));
                    actions.push(Action::CreateCache { room: room.clone(), cache: c });
                }
            }
            let ghost pre_child = *self;
            proof {
                pre_child.lemma_same_children(&start);
            }
            let child = self.add_child(&room, port);
            proof {
                spawn_at = actions@.len() as int;
            }
            actions.push(Action::Spawn { room: room.clone(), child, port, cgi: env.cgi.clone() });
            assert(spawns(actions@[spawn_at], room@, start.next_child(), port));
        } else {
            actions.push(Action::CountConnect { room: room.clone() });
            proof {
                self.lemma_same_children(&start);
            }
        }
        let ghost mid = *self;
        assert(start.caches@.len() <= self.caches@.len());
        assert(forall|i: int| 0 <= i < start.caches@.len() ==> #[trigger] self.caches@[i] == start.caches@[i]);
        proof {
            self.lemma_attached_ids_issued();
            assert forall|x: u64| #[trigger] start.has_child(x) implies mid.has_child(x)
                && mid.port_of(x) == start.port_of(x) by {
                let j = choose|j: int| 0 <= j < start.children@.len() && #[trigger] start.children@[j].id == x;
                assert(x < start.next_child_id);
                assert(old_self.has_child(x) == start.has_child(x));
                assert(old_self.port_of(x) == start.port_of(x));
            }
        }
        let conn = self.next_conn_id;
        self.next_conn_id = conn + 1;
        let ghost pre_insert = *self;
        assert(pre_insert.conns == start.conns);
        proof {
            pre_insert.lemma_same_conns(&start);
        }
        self.insert_conn(&room, conn);
        assert(self.has_proc(room@));
        let ghost attach_at = actions@.len() as int;
        actions.push(Action::Attach { room: room.clone(), conn, cold: live.is_none() });
        let ghost send_at = actions@.len() as int;
        match &self.cfg.joinmsg {
            Some(t) => {
                let text = replace_template_env(t.as_str(), conn, &env);
                actions.push(Action::Send { room, text });
            },
            None => {},
        }
        assert(attaches(actions@[attach_at], room@, conn, start.has_proc(room@)));
        proof {
            if live.is_none() {
                assert(spawns(actions@[spawn_at], room@, start.next_child(), spawn_port));
            }
            match start.config().joinmsg {
                Some(t) => {
                    assert(sends(actions@[send_at], room@, expand_template(t@, conn, env)));
                },
                None => {},
            }
            assert forall|k: int| 0 <= k < actions@.len() implies (#[trigger] actions@[k] is Send ==> sends_template(
                start.config().joinmsg, actions@[k], room@, conn, env)) by {}
            if live.is_some() {
                assert forall|k: int| 0 <= k < actions@.len() implies !(#[trigger] actions@[k] is Spawn) by {}
            }
        }
        assert(self.children == mid.children);
        assert(self.caches == mid.caches);
        proof {
            self.lemma_same_children(&mid);
        }
        assert forall|r: Seq<char>| #[trigger] start.cached(r) implies self.cached(r) by {
            let i = choose|i: int| 0 <= i < start.caches@.len() && #[trigger] start.caches@[i]@ == r;
            assert(self.caches@[i]@ == r);
        }
        proof {
            if self.cfg.cache is Some && live is None {
                if !start.cached(room@) {
                    assert(self.caches@[self.caches@.len() - 1]@ == room@);
                }
                assert(self.cached(room@));
            }
        }
        assert forall|x: u64| #[trigger] start.has_child(x) implies self.has_child(x)
            && self.port_of(x) == start.port_of(x) by {
            assert(mid.has_child(x));
        }
        proof {
            if live.is_none() {
                assert(self.is_live_child(room@, start.next_child()));
                assert(self.port_of(start.next_child()) == spawn_port);
                if start.config().tcp {
                    let p = spawn_port->0;
                    assert(crate::ports::is_least(p, start.free_ports()));
                    assert(self.free_ports() == start.free_ports().remove(p));
                    assert(spawns(actions@[spawn_at], room@, start.next_child(), Some(p)));
                } else {
                    assert(self.free_ports() == start.free_ports());
                }
            } else {
                assert(self.free_ports() == start.free_ports());
            }
        }
        assert(self.port_span() == start.port_span());
        proof {
            if start.has_proc(room@) {
                assert(forall|k: int| 0 <= k < actions@.len() ==> !(#[trigger] actions@[k] is Spawn));
                assert(forall|r: Seq<char>| #[trigger] self.has_proc(r) == start.has_proc(r));
                assert(forall|x: u64| #[trigger] self.has_child(x) == start.has_child(x));
                assert(self.free_ports() == start.free_ports());
            } else {
                assert(forall|r: Seq<char>| #[trigger] self.has_proc(r) == (start.has_proc(r) || r == room@));
                assert(self.is_live_child(room@, start.next_child()));
                assert(start.config().cache is Some ==> self.cached(room@));
                assert(exists|k: int| 0 <= k < actions@.len() && #[trigger] spawns(actions@[k], room@, start.next_child(), spawn_port));
                assert(takes_port(start.free_ports(), self.free_ports(), spawn_port, start.config().tcp));
            }
        }
        assert(connect_post(start, *self, room@, env, actions@));
        actions
    }

    /// A client's bridge ended: detach it, tell the child, and kill the child
    /// once the room has no client left. A bridge may report after the room's
    /// child has already exited; the client is then only detached, and no leave
    /// message is sent.
    #[verifier::spinoff_prover]
    #[verifier::rlimit(40)]
    pub fn disconnect(&mut self, room: RoomID, conn: ConnID, env: Env) -> (actions: Vec<Action>)
        requires
            old(self).wf(),
        ensures
            final(self).wf(),
            disconnect_post(*old(self), *final(self), room@, conn, env, actions@),
    {
        let ghost start = *self;
        let mut actions: Vec<Action> = Vec::new();
        if !self.running {
            return actions;
        }
        actions.push(Action::CountDisconnect { room: room.clone() });
        let removed = self.remove_conn(&room, conn);
        let live = find_live(&self.children, &room);
        proof {
            self.lemma_same_children(&start);
            if self.has_proc(room@) {
                let j = choose|j: int| 0 <= j < self.children@.len() && self.children@[j].live && #[trigger] self.children@[j].room@ == room@;
                assert(live is Some);
            }
            match live {
                Some(i) => {
                    assert(self.children@[i as int].room@ == room@);
                },
                None => {},
            }
        }
        let ghost send_at = actions@.len() as int;
        if removed && live.is_some() {
            match &self.cfg.leavemsg {
                Some(t) => {
                    let text = replace_template_env(t.as_str(), conn, &env);
                    actions.push(Action::Send { room: room.clone(), text });
                    assert(sends_template(start.config().leavemsg, actions@[send_at], room@, conn, env));
                },
                None => {},
            }
        }
        assert forall|k: int| 0 <= k < actions@.len() implies (#[trigger] actions@[k] is Send ==> sends_template(
            start.config().leavemsg, actions@[k], room@, conn, env) && start.has_conn(room@, conn) && start.has_proc(room@)) by {}
        assert forall|k: int| 0 <= k < actions@.len() implies !(#[trigger] actions@[k] is Kill) by {}
        assert forall|k: int| 0 <= k < actions@.len() && #[trigger] actions@[k] is Send implies k == send_at by {}
        let ghost after_remove = *self;
        let has_clients = self.room_has_clients(&room);
        if !has_clients {
            match live {
                Some(i) => {
                    let ghost before_actions = actions@;
                    self.retire_child(i);
                    actions.push(Action::Kill { room: room.clone() });
                    assert(kills(actions@[actions@.len() - 1], room@));
                    assert forall|k: int| 0 <= k < before_actions.len() implies actions@[k] == before_actions[k] by {}
                    assert forall|k: int| 0 <= k < actions@.len() && #[trigger] actions@[k] is Send implies k == send_at by {
                        if k < before_actions.len() {
                            assert(actions@[k] == before_actions[k]);
                        }
                    }
                },
                None => {},
            }
        }
        proof {
            self.lemma_same_conns(&after_remove);
            if has_clients || live is None {
                self.lemma_same_children(&after_remove);
            }
        }
        assert forall|k: int| 0 <= k < actions@.len() implies (#[trigger] actions@[k] is Send ==> sends_template(
            start.config().leavemsg, actions@[k], room@, conn, env) && start.has_conn(room@, conn) && start.has_proc(room@)) by {}
        if self.cfg.oneshot {
            let ghost before_stop = *self;
            let ghost before_actions = actions@;
            self.stop(&mut actions);
            proof {
                self.lemma_same_conns(&before_stop);
            }
            assert forall|k: int| 0 <= k < before_actions.len() implies actions@[k] == before_actions[k] by {
                assert(actions@.subrange(0, before_actions.len() as int)[k] == before_actions[k]);
            }
            proof {
                if !self.has_clients(room@) && start.has_proc(room@) {
                    if before_stop.has_proc(room@) {
                        let k = choose|k: int| 0 <= k < actions@.len() && #[trigger] kills(actions@[k], room@);
                    } else {
                        let k = choose|k: int| 0 <= k < before_actions.len() && #[trigger] kills(before_actions[k], room@);
                        assert(kills(actions@[k], room@));
                    }
                }
                assert forall|k: int| 0 <= k < actions@.len() implies (#[trigger] actions@[k] is Send ==> sends_template(
                    start.config().leavemsg, actions@[k], room@, conn, env) && start.has_conn(room@, conn)
                    && start.has_proc(room@)) by {
                    if k < before_actions.len() {
                        assert(actions@[k] == before_actions[k]);
                    }
                }
                if start.config().leavemsg is Some && start.has_conn(room@, conn) && start.has_proc(room@) {
                    assert(actions@[send_at] == before_actions[send_at]);
                }
                assert forall|k: int| 0 <= k < actions@.len() && #[trigger] actions@[k] is Send implies k == send_at by {
                    if k < before_actions.len() {
                        assert(actions@[k] == before_actions[k]);
                    }
                }
            }
        }
        actions
    }

    /// Child `child` of `room` exited: return its port, drop the room's cache
    /// unless caches persist, and forget the child.
    #[verifier::spinoff_prover]
    #[verifier::rlimit(40)]
    pub fn process_exit(&mut self, room: RoomID, child: u64, code: Option<i32>) -> (actions: Vec<Action>)
        requires
            old(self).wf(),
        ensures
            final(self).wf(),
            exit_post(*old(self), *final(self), room@, child, actions@),
    {
        let mut actions: Vec<Action> = Vec::new();
        if !self.running {
            return actions;
        }
        let ghost start = *self;
        match find_child(&self.children, child) {
            Some(i) => {
                proof {
                    self.lemma_port_of(i as int);
                }
                self.reap_child(i);
            },
            None => {
                assert(!start.has_child(child));
            },
        }
        let ghost reaped = *self;
        if find_live(&self.children, &room).is_none() {
            actions.push(Action::ClearMetrics { room: room.clone() });
            if !self.cfg.cache_persist {
                match find_cache(&self.caches, &room) {
                    Some(j) => {
                        let ghost old_caches = self.caches@;
                        assert(old_caches == start.caches@);
                        self.caches.remove(j);
                        assert(self.caches@ =~= old_caches.remove(j as int));
                        assert forall|r: Seq<char>| r != room@ implies #[trigger] self.cached(r) == start.cached(r) by {
                            if start.cached(r) {
                                let a = choose|a: int| 0 <= a < start.caches@.len() && #[trigger] start.caches@[a]@ == r;
                                assert(a != j);
                                let a1 = if a < j { a } else { a - 1 };
                                assert(self.caches@[a1]@ == r);
                            }
                            if self.cached(r) {
                                let a = choose|a: int| 0 <= a < self.caches@.len() && #[trigger] self.caches@[a]@ == r;
                                let a0 = if a < j { a } else { a + 1 };
                                assert(start.caches@[a0]@ == r);
                            }
                        }
                        assert forall|a: int, b: int|
                            0 <= a < self.caches@.len() && 0 <= b < self.caches@.len() && a != b
                                implies #[trigger] self.caches@[a]@ != #[trigger] self.caches@[b]@ by {
                            let a0 = if a < j { a } else { a + 1 };
                            let b0 = if b < j { b } else { b + 1 };
                            assert(old_caches[a0]@ != old_caches[b0]@);
                        }
                        actions.push(Action::DropCache { room: room.clone() });
                    },
                    None => {},
                }
            }
        }
        proof {
            self.lemma_same_children(&reaped);
        }
        let ghost before_stop = *self;
        proof {
            self.lemma_same_conns(&start);
            if self.caches == start.caches {
                assert forall|r: Seq<char>| #[trigger] self.cached(r) == start.cached(r) by {}
            }
        }
        assert(forall|r: Seq<char>| r != room@ ==> #[trigger] self.cached(r) == start.cached(r));
        if self.cfg.oneshot {
            self.stop(&mut actions);
            proof {
                self.lemma_same_conns(&before_stop);
                assert forall|r: Seq<char>| #[trigger] self.cached(r) == before_stop.cached(r) by {}
            }
        }
        actions
    }

    /// The child of `room` published metadata.
    pub fn process_meta(&mut self, room: RoomID, value: Value) -> (actions: Vec<Action>)
        requires
            old(self).wf(),
        ensures
            final(self).wf(),
            meta_post(*old(self), *final(self), room, value, actions@),
    {
        let mut actions: Vec<Action> = Vec::new();
        if self.running {
            actions.push(Action::SetMetadata { room, value });
        }
        actions
    }

    /// The broker shuts down: kill every live child and stop. Once stopped,
    /// a further shutdown does nothing.
    pub fn shutdown(&mut self) -> (actions: Vec<Action>)
        requires
            old(self).wf(),
        ensures
            final(self).wf(),
            shutdown_post(*old(self), *final(self), actions@),
    {
        let mut actions: Vec<Action> = Vec::new();
        if !self.running {
            proof {
                assert forall|r: Seq<char>| !#[trigger] self.has_proc(r) by {
                    if self.has_proc(r) {
                        let j = choose|j: int| 0 <= j < self.children@.len() && self.children@[j].live && #[trigger] self.children@[j].room@ == r;
                        assert(self.children@[j].live);
                    }
                }
            }
            return actions;
        }
        self.stop(&mut actions);
        assert forall|k: int| 0 <= k < actions@.len() implies #[trigger] actions@[k] is Kill by {}
        actions
    }

    /// Handle one event, returning what the runtime must do, in order.
    pub fn handle(&mut self, event: Event) -> (actions: Vec<Action>)
        requires
            old(self).wf(),
        ensures
            final(self).wf(),
            match event {
                Event::Connect { room, env } => connect_post(*old(self), *final(self), room@, env, actions@),
                Event::Disconnect { room, conn, env } => disconnect_post(
                    *old(self),
                    *final(self),
                    room@,
                    conn,
                    env,
                    actions@,
                ),
                Event::ProcessExit { room, child, .. } => exit_post(*old(self), *final(self), room@, child, actions@),
                Event::ProcessMeta { room, value } => meta_post(*old(self), *final(self), room, value, actions@),
                Event::Shutdown => shutdown_post(*old(self), *final(self), actions@),
            },
    {
        match event {
            Event::Connect { room, env } => self.connect(room, env),
            Event::Disconnect { room, conn, env } => self.disconnect(room, conn, env),
            Event::ProcessExit { room, child, code } => self.process_exit(room, child, code),
            Event::ProcessMeta { room, value } => self.process_meta(room, value),
            Event::Shutdown => self.shutdown(),
        }
    }

    /// Whether the reactor still handles events.
    pub fn running(&self) -> (r: bool)
        ensures
            r == self.is_running(),
    {
        self.running
    }

    /// The connections attached to `room`, or `None` when the room was never
    /// joined.
    pub fn connections(&self, room: &RoomID) -> (r: Option<Vec<ConnID>>)
        requires
            self.wf(),
        ensures
            r matches Some(v) ==> forall|c: ConnID| v@.contains(c) <==> self.has_conn(room@, c),
            r is None ==> forall|c: ConnID| !self.has_conn(room@, c),
    {
        match find_room(&self.conns, room) {
            Some(i) => {
                let v = self.conns[i].ids.clone();
                assert forall|c: ConnID| v@.contains(c) <==> self.has_conn(room@, c) by {
                    if v@.contains(c) {
                        let k = choose|k: int| 0 <= k < v@.len() && v@[k] == c;
                        assert(self.conns@[i as int].ids@[k] == c);
                    }
                    if self.has_conn(room@, c) {
                        let (a, l) = choose|a: int, l: int|
                            0 <= a < self.conns@.len() && 0 <= l < self.conns@[a].ids@.len()
                                && #[trigger] self.conns@[a].room@ == room@
                                && #[trigger] self.conns@[a].ids@[l] == c;
                        assert(a == i);
                        assert(v@[l] == c);
                    }
                }
                Some(v)
            },
            None => {
                assert forall|c: ConnID| !self.has_conn(room@, c) by {
                    if self.has_conn(room@, c) {
                        let (a, l) = choose|a: int, l: int|
                            0 <= a < self.conns@.len() && 0 <= l < self.conns@[a].ids@.len()
                                && #[trigger] self.conns@[a].room@ == room@
                                && #[trigger] self.conns@[a].ids@[l] == c;
                    }
                }
                None
            },
        }
    }

    /// Whether `room` has a live child.
    pub fn has_process(&self, room: &RoomID) -> (r: bool)
        ensures
            r == self.has_proc(room@),
    {
        match find_live(&self.children, room) {
            Some(_) => true,
            None => {
                assert forall|j: int| 0 <= j < self.children@.len() implies !(self.children@[j].live
                    && #[trigger] self.children@[j].room@ == room@) by {}
                false
            },
        }
    }

    /// Whether the reactor keeps a cache for `room`.
    pub fn has_cache(&self, room: &RoomID) -> (r: bool)
        ensures
            r == self.cached(room@),
    {
        find_cache(&self.caches, room).is_some()
    }

    /// Hand out the next connection id; `None` once all are used.
    pub fn new_conn_id(&mut self) -> (r: Option<ConnID>)
        requires
            old(self).wf(),
        ensures
            final(self).wf(),
            old(self).next_conn() < u32::MAX ==> r == Some(old(self).next_conn())
                && final(self).next_conn() == old(self).next_conn() + 1,
            old(self).next_conn() == u32::MAX ==> r is None
                && final(self).next_conn() == old(self).next_conn(),
    {
        if self.next_conn_id == u32::MAX {
            return None;
        }
        let id = self.next_conn_id;
        self.next_conn_id = id + 1;
        Some(id)
    }
}

} // verus!
