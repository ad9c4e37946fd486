use vstd::prelude::*;

use crate::signals::MX_CHANNEL_PEER_CLOSED;
use crate::signals::MX_CHANNEL_READABLE;
use crate::signals::MX_CHANNEL_WRITABLE;
use crate::signals::MX_RIGHT_DUPLICATE;
use crate::signals::MX_RIGHT_MAP;
use crate::signals::MX_RIGHT_READ;
use crate::signals::MX_RIGHT_SAME_RIGHTS;
use crate::signals::MX_RIGHT_TRANSFER;
use crate::signals::MX_RIGHT_WRITE;
use crate::signals::Rights;
use crate::signals::Signals;
use crate::signals::SignalsState;
use crate::status::ERR_ACCESS_DENIED;
use crate::status::ERR_BAD_HANDLE;
use crate::status::ERR_BAD_STATE;
use crate::status::ERR_ALREADY_EXISTS;
use crate::status::ERR_BUFFER_TOO_SMALL;
use crate::status::ERR_HANDLE_CLOSED;
use crate::status::ERR_NOT_FOUND;
use crate::status::ERR_INVALID_ARGS;
use crate::status::ERR_NOT_SUPPORTED;
use crate::status::ERR_NO_MEMORY;
use crate::status::ERR_OUT_OF_RANGE;
use crate::status::ERR_NO_RESOURCES;
use crate::status::ERR_REMOTE_CLOSED;
use crate::status::ERR_SHOULD_WAIT;
use crate::status::ERR_TIMED_OUT;
use crate::status::ERR_WRONG_TYPE;
use crate::status::NO_ERROR;

verus! {

/// Time in nanoseconds on the kernel's monotone clock.
pub type Time = u64;

/// The sentinel deadline meaning "wait without a time limit".
pub const MX_TIME_INFINITE: Time = 0xffff_ffff_ffff_ffff;

/// A raw handle value is the table slot's index plus one, so the table can
/// never grow past this many slots if every value is to stay a positive
/// `i32`.
pub const MAX_HANDLES: usize = 0x7fff_fffe;

/// One handle-table slot: whether the handle is still live, which object it
/// refers to, and with what rights. A slot is spent (`live == false`) once
/// its handle is closed or its ownership is transferred through a channel;
/// slots are never reused, so a raw value can never be mistaken for a newer
/// handle.
#[derive(Debug, Clone, Copy, PartialEq, Eq, Structural)]
pub struct Entry {
    pub live: bool,
    pub obj: usize,
    pub rights: Rights,
}

/// An in-transit handle reference carried inside a queued message: the
/// object it will refer to and the rights the receiver's new handle gets.
#[derive(Debug, Clone, Copy, PartialEq, Eq, Structural)]
pub struct HandleInfo {
    pub obj: usize,
    pub rights: Rights,
}

/// One message queued on a channel endpoint: an opaque byte payload and the
/// in-transit references of the handles written along with it.
pub struct Message {
    pub bytes: Vec<u8>,
    pub handles: Vec<HandleInfo>,
}

/// The state of one channel endpoint object. `queue` holds the messages
/// written by the peer and not yet read here, oldest first.
pub struct ChanState {
    /// Object-table index of the opposite endpoint.
    pub peer: usize,
    /// Whether the opposite endpoint object is still alive.
    pub peer_open: bool,
    /// Whether this endpoint is the reply side of a reply pipe, whose writes
    /// must carry the endpoint itself as the last transferred handle.
    pub reply_side: bool,
    pub queue: Vec<Message>,
}

/// One wait-set registration: an application-chosen cookie, the raw handle
/// watched, and the signal mask of interest.
#[derive(Debug, Clone, Copy, PartialEq, Eq, Structural)]
pub struct WsItem {
    pub cookie: u64,
    pub watched: i32,
    pub signals: Signals,
}

/// What one object in the kernel's object table is.
pub enum ObjKind {
    /// A channel endpoint.
    Channel(ChanState),
    /// A byte-addressable memory object of fixed current size.
    ByteObject(Vec<u8>),
    /// A wait set: a cookie-indexed registry of watched handles.
    WaitRegistry(Vec<WsItem>),
    /// Destroyed; slots are never reused.
    Dead,
}

/// One object-table slot with its reference count: the number of live handle
/// slots and in-transit message references that point to it.
pub struct Object {
    pub refs: u64,
    pub kind: ObjKind,
}

/// The kernel's bookkeeping, carried as an explicit value: the handle table,
/// the object table, a ghost count of completed close operations, and the
/// monotone clock. Operations require `wf()` and preserve it; `Kernel::new`
/// establishes it.
pub struct Kernel {
    pub entries: Vec<Entry>,
    pub objects: Vec<Object>,
    /// How many handles have been closed so far (an event count, not a
    /// table index).
    pub closes: Ghost<nat>,
    pub now: Time,
}

/// Every in-transit handle reference of a message points into the object
/// table.
pub open spec fn msg_wf(m: Message, n_objects: nat) -> bool {
    forall|i: int| 0 <= i < m.handles@.len() ==> (#[trigger] m.handles@[i]).obj < n_objects
}

/// Well-formedness of one object-table slot: a channel endpoint's peer index
/// is in range and differs from its own; while it believes its peer open,
/// the peer really is a channel endpoint linked back to it; and every queued
/// message is well formed.
pub open spec fn obj_wf(objs: Seq<Object>, j: int) -> bool {
    match objs[j].kind {
        ObjKind::Channel(c) => {
            &&& c.peer < objs.len()
            &&& c.peer != j
            &&& (c.peer_open ==> objs[c.peer as int].kind is Channel
                && objs[c.peer as int].kind->Channel_0.peer == j)
            &&& forall|m: int| 0 <= m < c.queue@.len() ==> msg_wf(#[trigger] c.queue@[m], objs.len())
        },
        _ => true,
    }
}

pub open spec fn objects_wf(objs: Seq<Object>) -> bool {
    forall|j: int| 0 <= j < objs.len() ==> #[trigger] obj_wf(objs, j)
}

impl Kernel {
    /// The raw handle `h` names a live slot of the handle table.
    pub open spec fn spec_is_valid(self, h: i32) -> bool {
        &&& 1 <= h
        &&& h - 1 < self.entries@.len()
        &&& self.entries@[h - 1].live
    }

    /// The table slot of raw handle `h`.
    pub open spec fn spec_entry(self, h: i32) -> Entry {
        self.entries@[h - 1]
    }

    /// The object that raw handle `h` refers to.
    pub open spec fn spec_obj_of(self, h: i32) -> Object {
        self.objects@[self.spec_entry(h).obj as int]
    }

    pub open spec fn entries_wf(self) -> bool {
        &&& self.entries@.len() <= MAX_HANDLES
        &&& forall|i: int|
            0 <= i < self.entries@.len() && self.entries@[i].live
                ==> (#[trigger] self.entries@[i]).obj < self.objects@.len()
    }

    pub open spec fn wf(self) -> bool {
        &&& self.entries_wf()
        &&& objects_wf(self.objects@)
    }

    /// An empty kernel: no handles, no objects, nothing closed yet.
    pub fn new() -> (k: Kernel)
        ensures
            k.wf(),
            k.entries@.len() == 0,
            k.objects@.len() == 0,
            k.closes@ == 0,
    {
        Kernel { entries: Vec::new(), objects: Vec::new(), closes: Ghost(0), now: 0 }
    }

    /// Whether `h` currently names a live handle.
    pub fn is_valid_handle(&self, h: i32) -> (r: bool)
        ensures
            r == self.spec_is_valid(h),
    {
        if h >= 1 {
            let idx = (h - 1) as usize;
            if idx < self.entries.len() {
                return self.entries[idx].live;
            }
        }
        false
    }

    /// Look a raw handle up in the table.
    fn lookup(&self, h: i32) -> (r: Option<Entry>)
        ensures
            r is Some <==> self.spec_is_valid(h),
            r is Some ==> r->Some_0 == self.spec_entry(h),
    {
        if h >= 1 {
            let idx = (h - 1) as usize;
            if idx < self.entries.len() {
                let e = self.entries[idx];
                if e.live {
                    return Some(e);
                }
            }
        }
        None
    }

    /// Read the monotone clock. Every read observes a strictly later instant
    /// than the one before, until the clock saturates.
    pub fn current_time(&mut self) -> (t: Time)
        ensures
            final(self).entries == old(self).entries,
            final(self).objects == old(self).objects,
            final(self).closes == old(self).closes,
            t == final(self).now,
            old(self).now < MX_TIME_INFINITE ==> final(self).now == old(self).now + 1,
            old(self).now == MX_TIME_INFINITE ==> final(self).now == MX_TIME_INFINITE,
    {
        if self.now < MX_TIME_INFINITE {
            self.now = self.now + 1;
        }
        self.now
    }

    /// Let `time` nanoseconds elapse on the clock (saturating at the
    /// largest representable instant).
    pub fn nanosleep(&mut self, time: Time)
        ensures
            final(self).entries == old(self).entries,
            final(self).objects == old(self).objects,
            final(self).closes == old(self).closes,
            old(self).now + time <= MX_TIME_INFINITE ==> final(self).now == old(self).now + time,
            old(self).now + time > MX_TIME_INFINITE ==> final(self).now == MX_TIME_INFINITE,
    {
        if time <= MX_TIME_INFINITE - self.now {
            self.now = self.now + time;
        } else {
            self.now = MX_TIME_INFINITE;
        }
    }
}

/// The signal snapshot of a channel endpoint: readable while messages are
/// queued, writable while the peer is open, peer-closed once it is not.
pub open spec fn spec_chan_signals(c: ChanState) -> SignalsState {
    SignalsState {
        satisfied: (if c.queue@.len() > 0 {
            MX_CHANNEL_READABLE
        } else {
            0
        }) | (if c.peer_open {
            MX_CHANNEL_WRITABLE
        } else {
            MX_CHANNEL_PEER_CLOSED
        }),
        satisfiable: if c.peer_open {
            MX_CHANNEL_READABLE | MX_CHANNEL_WRITABLE | MX_CHANNEL_PEER_CLOSED
        } else {
            (if c.queue@.len() > 0 {
                MX_CHANNEL_READABLE
            } else {
                0
            }) | MX_CHANNEL_PEER_CLOSED
        },
    }
}

/// The signal snapshot of any object; only channels assert signals here.
pub open spec fn spec_obj_signals(o: Object) -> SignalsState {
    match o.kind {
        ObjKind::Channel(c) => spec_chan_signals(c),
        _ => SignalsState { satisfied: 0, satisfiable: 0 },
    }
}

/// The outcome of waiting for `mask` on an object in state `st`: success if
/// a requested signal is asserted; a distinguished failure if none ever can
/// be; otherwise the deadline elapses (the model has no concurrent actor
/// that could assert a signal while a caller blocks, so every remaining wait
/// times out).
pub open spec fn spec_wait_status(st: SignalsState, mask: Signals) -> i32 {
    if st.satisfied & mask != 0 {
        NO_ERROR
    } else if st.satisfiable & mask == 0 {
        ERR_BAD_STATE
    } else {
        ERR_TIMED_OUT
    }
}

/// A handle-table slot after its handle is closed or transferred away.
pub open spec fn spec_dead_entry(e: Entry) -> Entry {
    Entry { live: false, ..e }
}

/// The object table after object `j` is destroyed: `j` becomes `Dead`, and
/// if `j` was a channel endpoint whose peer is still linked back to it, the
/// peer learns that its opposite side is gone. Undelivered in-transit
/// references inside `j`'s queue are discarded with it: the objects they
/// pin are never reclaimed by the model, only never wrongly destroyed.
pub open spec fn spec_destroy(objs: Seq<Object>, j: int) -> Seq<Object> {
    let dead = objs.update(j, Object { refs: 0, kind: ObjKind::Dead });
    match objs[j].kind {
        ObjKind::Channel(c) => {
            let p = c.peer as int;
            if objs[p].kind is Channel && objs[p].kind->Channel_0.peer == j {
                let d = objs[p].kind->Channel_0;
                dead.update(
                    p,
                    Object {
                        refs: objs[p].refs,
                        kind: ObjKind::Channel(ChanState { peer_open: false, ..d }),
                    },
                )
            } else {
                dead
            }
        },
        _ => dead,
    }
}

/// The object table after one reference to object `j` is dropped: the
/// reference count goes down, and the object is destroyed when the last
/// reference goes.
pub open spec fn spec_release(objs: Seq<Object>, j: int) -> Seq<Object> {
    if objs[j].refs > 1 {
        objs.update(j, Object { refs: (objs[j].refs - 1) as u64, kind: objs[j].kind })
    } else {
        spec_destroy(objs, j)
    }
}

/// Replacing objects by ones of identical kind (only reference counts may
/// differ) preserves the object table's well-formedness.
proof fn lemma_same_kinds_wf(a: Seq<Object>, b: Seq<Object>)
    requires
        a.len() == b.len(),
        forall|x: int| 0 <= x < a.len() ==> (#[trigger] b[x]).kind == a[x].kind,
        objects_wf(a),
    ensures
        objects_wf(b),
{
    assert forall|j: int| 0 <= j < b.len() implies obj_wf(b, j) by {
        assert(obj_wf(a, j));
        assert(b[j].kind == a[j].kind);
        match b[j].kind {
            ObjKind::Channel(c) => {
                assert(b[c.peer as int].kind == a[c.peer as int].kind);
            },
            _ => {},
        }
    }
}

/// Destroying an object preserves the object table's well-formedness.
proof fn lemma_destroy_wf(objs: Seq<Object>, j: int)
    requires
        objects_wf(objs),
        0 <= j < objs.len(),
    ensures
        spec_destroy(objs, j).len() == objs.len(),
        objects_wf(spec_destroy(objs, j)),
{
    let post = spec_destroy(objs, j);
    assert(obj_wf(objs, j));
    assert(post.len() == objs.len());
    assert forall|x: int| 0 <= x < post.len() implies obj_wf(post, x) by {
        assert(obj_wf(objs, x));
        assert(obj_wf(objs, j));
        if x != j {
            match post[x].kind {
                ObjKind::Channel(c) => {
                    if c.peer_open {
                        // x still believes its peer open, so its peer cannot
                        // be the destroyed object: linkage would force x to
                        // be the endpoint whose flag was just cleared.
                        assert(objs[x].kind is Channel);
                        assert(post[c.peer as int].kind is Channel);
                        assert(post[c.peer as int].kind->Channel_0.peer == x);
                    }
                },
                _ => {},
            }
        }
    }
}

/// Dropping one reference preserves the object table's well-formedness.
proof fn lemma_release_wf(objs: Seq<Object>, j: int)
    requires
        objects_wf(objs),
        0 <= j < objs.len(),
    ensures
        spec_release(objs, j).len() == objs.len(),
        objects_wf(spec_release(objs, j)),
{
    if objs[j].refs > 1 {
        lemma_same_kinds_wf(objs, spec_release(objs, j));
    } else {
        lemma_destroy_wf(objs, j);
    }
}

/// How one close call relates the kernel states before and after it: a
/// live handle's slot is spent, the close count grows by one, and the
/// object loses one reference; a stale value changes nothing.
pub open spec fn spec_close_post(pre: Kernel, post: Kernel, h: i32) -> bool {
    if pre.spec_is_valid(h) {
        &&& post.closes@ == pre.closes@ + 1
        &&& post.entries@ == pre.entries@.update(h - 1, spec_dead_entry(pre.spec_entry(h)))
        &&& post.objects@ == spec_release(pre.objects@, pre.spec_entry(h).obj as int)
        &&& post.now == pre.now
    } else {
        post == pre
    }
}

/// The rights a duplicate receives: the original's when the sentinel is
/// given, otherwise exactly the requested mask.
pub open spec fn spec_dup_rights(have: Rights, req: Rights) -> Rights {
    if req == MX_RIGHT_SAME_RIGHTS {
        have
    } else {
        req
    }
}

impl Kernel {
    /// The exact status `handle_duplicate` returns: the handle must be
    /// live, must carry the duplicate right, the requested rights must be a
    /// subset of those held (or the sentinel), and the tables must have
    /// room.
    pub open spec fn spec_dup_status(self, h: i32, rights: Rights) -> i32 {
        if !self.spec_is_valid(h) {
            ERR_BAD_HANDLE
        } else if self.spec_entry(h).rights & MX_RIGHT_DUPLICATE == 0 {
            ERR_ACCESS_DENIED
        } else if rights != MX_RIGHT_SAME_RIGHTS && (rights & self.spec_entry(h).rights)
            != rights {
            ERR_ACCESS_DENIED
        } else if self.entries@.len() >= MAX_HANDLES || self.spec_obj_of(h).refs == u64::MAX {
            ERR_NO_RESOURCES
        } else {
            NO_ERROR
        }
    }

    /// Close the handle `h`: its table slot is spent, the close count goes
    /// up by one, and the object loses one reference (being destroyed with
    /// the last). On a stale or invalid value nothing changes.
    pub fn handle_close(&mut self, h: i32) -> (st: i32)
        requires
            old(self).wf(),
        ensures
            final(self).wf(),
            final(self).now == old(self).now,
            !old(self).spec_is_valid(h) ==> st == ERR_BAD_HANDLE && *final(self) == *old(self),
            old(self).spec_is_valid(h) ==> {
                &&& st == NO_ERROR
                &&& final(self).closes@ == old(self).closes@ + 1
                &&& final(self).entries@ == old(self).entries@.update(
                    h - 1,
                    spec_dead_entry(old(self).spec_entry(h)),
                )
                &&& final(self).objects@ == spec_release(
                    old(self).objects@,
                    old(self).spec_entry(h).obj as int,
                )
            },
    {
        match self.lookup(h) {
            None => ERR_BAD_HANDLE,
            Some(e) => {
                let idx = (h - 1) as usize;
                self.entries[idx] = Entry { live: false, obj: e.obj, rights: e.rights };
                self.closes = Ghost(self.closes@ + 1);
                self.release(e.obj);
                NO_ERROR
            },
        }
    }

    /// Drop one reference to object `j`, destroying it with the last.
    fn release(&mut self, j: usize)
        requires
            old(self).wf(),
            j < old(self).objects@.len(),
        ensures
            final(self).wf(),
            final(self).entries == old(self).entries,
            final(self).closes == old(self).closes,
            final(self).now == old(self).now,
            final(self).objects@ == spec_release(old(self).objects@, j as int),
    {
        proof {
            lemma_release_wf(old(self).objects@, j as int);
        }
        let refs = self.objects[j].refs;
        if refs > 1 {
            self.objects[j].refs = refs - 1;
            assert(self.objects@ =~= spec_release(old(self).objects@, j as int));
        } else {
            self.destroy(j);
        }
    }

    /// Destroy object `j` outright.
    fn destroy(&mut self, j: usize)
        requires
            old(self).wf(),
            j < old(self).objects@.len(),
        ensures
            final(self).entries == old(self).entries,
            final(self).closes == old(self).closes,
            final(self).now == old(self).now,
            final(self).objects@ == spec_destroy(old(self).objects@, j as int),
            final(self).wf(),
    {
        proof {
            lemma_destroy_wf(old(self).objects@, j as int);
            assert(obj_wf(old(self).objects@, j as int));
        }
        let (is_chan, peer): (bool, usize) = match &self.objects[j].kind {
            ObjKind::Channel(c) => (true, c.peer),
            _ => (false, 0),
        };
        self.objects[j] = Object { refs: 0, kind: ObjKind::Dead };
        if is_chan {
            let fix: bool = match &self.objects[peer].kind {
                ObjKind::Channel(d) => d.peer == j,
                _ => false,
            };
            if fix {
                let o = &mut self.objects[peer];
                match &mut o.kind {
                    ObjKind::Channel(d) => {
                        d.peer_open = false;
                    },
                    _ => {},
                }
            }
        }
        assert(self.objects@ =~= spec_destroy(old(self).objects@, j as int));
    }

    /// Ask for a new, independently owned handle to the object of `h`,
    /// carrying `rights` (which must be a subset of those held, or the
    /// sentinel asking for the same rights). On success the new handle is
    /// the next table slot and the object gains a reference; on failure
    /// nothing changes.
    pub fn handle_duplicate(&mut self, h: i32, rights: Rights) -> (ret: i32)
        requires
            old(self).wf(),
        ensures
            final(self).wf(),
            final(self).closes == old(self).closes,
            final(self).now == old(self).now,
            old(self).spec_dup_status(h, rights) != NO_ERROR ==> ret == old(self).spec_dup_status(
                h,
                rights,
            ) && *final(self) == *old(self),
            old(self).spec_dup_status(h, rights) == NO_ERROR ==> {
                let j = old(self).spec_entry(h).obj;
                &&& ret == old(self).entries@.len() + 1
                &&& final(self).spec_is_valid(ret)
                &&& final(self).entries@ == old(self).entries@.push(
                    Entry {
                        live: true,
                        obj: j,
                        rights: spec_dup_rights(old(self).spec_entry(h).rights, rights),
                    },
                )
                &&& final(self).objects@ == old(self).objects@.update(
                    j as int,
                    Object {
                        refs: (old(self).objects@[j as int].refs + 1) as u64,
                        kind: old(self).objects@[j as int].kind,
                    },
                )
            },
    {
        let e = match self.lookup(h) {
            None => {
                return ERR_BAD_HANDLE;
            },
            Some(e) => e,
        };
        if e.rights & MX_RIGHT_DUPLICATE == 0 {
            return ERR_ACCESS_DENIED;
        }
        if rights != MX_RIGHT_SAME_RIGHTS && (rights & e.rights) != rights {
            return ERR_ACCESS_DENIED;
        }
        if self.entries.len() >= MAX_HANDLES {
            return ERR_NO_RESOURCES;
        }
        let refs = self.objects[e.obj].refs;
        if refs == u64::MAX {
            return ERR_NO_RESOURCES;
        }
        let new_rights = if rights == MX_RIGHT_SAME_RIGHTS {
            e.rights
        } else {
            rights
        };
        let ret = (self.entries.len() + 1) as i32;
        self.entries.push(Entry { live: true, obj: e.obj, rights: new_rights });
        self.objects[e.obj].refs = refs + 1;
        proof {
            lemma_same_kinds_wf(old(self).objects@, self.objects@);
            assert(self.objects@ =~= old(self).objects@.update(
                old(self).spec_entry(h).obj as int,
                Object {
                    refs: (old(self).objects@[old(self).spec_entry(h).obj as int].refs + 1) as u64,
                    kind: old(self).objects@[old(self).spec_entry(h).obj as int].kind,
                },
            ));
        }
        ret
    }

    /// Wait for any signal of `signals` on the object of `h`, up to
    /// `timeout`: success if one is asserted now, a distinguished failure
    /// if none ever can be, and a timeout otherwise (no concurrent actor
    /// exists in the model that could assert one meanwhile). The observed
    /// snapshot is returned alongside the status.
    pub fn handle_wait_one(&self, h: i32, signals: Signals, timeout: Time) -> (r: (i32,
        SignalsState))
        requires
            self.wf(),
        ensures
            !self.spec_is_valid(h) ==> r == (
                ERR_BAD_HANDLE,
                SignalsState { satisfied: 0, satisfiable: 0 },
            ),
            self.spec_is_valid(h) ==> r == (
                spec_wait_status(spec_obj_signals(self.spec_obj_of(h)), signals),
                spec_obj_signals(self.spec_obj_of(h)),
            ),
    {
        let _ = timeout;
        match self.lookup(h) {
            None => (ERR_BAD_HANDLE, SignalsState { satisfied: 0, satisfiable: 0 }),
            Some(e) => {
                let st = obj_signals(&self.objects[e.obj]);
                let code = if st.satisfied & signals != 0 {
                    NO_ERROR
                } else if st.satisfiable & signals == 0 {
                    ERR_BAD_STATE
                } else {
                    ERR_TIMED_OUT
                };
                (code, st)
            },
        }
    }
}

/// Option flag for channel creation: the second endpoint becomes the reply
/// side of a reply pipe, whose writes must carry the endpoint itself.
pub const MX_FLAG_REPLY_PIPE: u32 = 1;

/// The rights a freshly created channel endpoint handle carries. Channels
/// cannot be duplicated.
pub const CHANNEL_RIGHTS: Rights = MX_RIGHT_TRANSFER | MX_RIGHT_READ | MX_RIGHT_WRITE;

/// The object table can never outgrow the handle table's index space.
pub const MAX_OBJECTS: usize = 0x7fff_fffe;

/// A message as a writer hands it over: `bytes` is the payload and each
/// handle of `raws` (as looked up in `pre`) becomes one in-transit
/// reference.
pub open spec fn spec_msg_matches(m: Message, pre: Kernel, bytes: Seq<u8>, raws: Seq<i32>) -> bool {
    &&& m.bytes@ == bytes
    &&& m.handles@.len() == raws.len()
    &&& forall|i: int|
        0 <= i < raws.len() ==> m.handles@[i] == HandleInfo {
            obj: pre.spec_entry(raws[i]).obj,
            rights: pre.spec_entry(raws[i]).rights,
        }
}

/// An object table equal to `a` except that channel endpoint `p`'s queue
/// changed to messages that are all well formed against `a` preserves
/// well-formedness.
proof fn lemma_chan_update_wf(a: Seq<Object>, b: Seq<Object>, p: int)
    requires
        objects_wf(a),
        0 <= p < a.len(),
        a[p].kind is Channel,
        b.len() == a.len(),
        forall|x: int| 0 <= x < a.len() && x != p ==> b[x] == a[x],
        b[p].kind is Channel,
        b[p].kind->Channel_0.peer == a[p].kind->Channel_0.peer,
        b[p].kind->Channel_0.peer_open == a[p].kind->Channel_0.peer_open,
        forall|m: int|
            0 <= m < b[p].kind->Channel_0.queue@.len() ==> msg_wf(
                #[trigger] b[p].kind->Channel_0.queue@[m],
                a.len(),
            ),
    ensures
        objects_wf(b),
{
    assert forall|j: int| 0 <= j < b.len() implies obj_wf(b, j) by {
        assert(obj_wf(a, j));
        if j != p {
            match b[j].kind {
                ObjKind::Channel(c) => {
                    if c.peer_open && c.peer == p {
                        assert(b[p].kind is Channel);
                        assert(b[p].kind->Channel_0.peer == a[p].kind->Channel_0.peer);
                    }
                },
                _ => {},
            }
        } else {
            assert(obj_wf(a, p));
        }
    }
}

impl Kernel {
    /// What `channel_create` does on success: two fresh endpoint objects
    /// linked as peers (the second one the reply side when asked for), and
    /// one fresh handle to each, carrying the channel rights.
    pub open spec fn spec_create_post(self, post: Kernel, flags: u32, h0: i32, h1: i32) -> bool {
        let n = self.objects@.len() as int;
        let ne = self.entries@.len() as int;
        &&& h0 == ne + 1
        &&& h1 == ne + 2
        &&& post.entries@ == self.entries@.push(
            Entry { live: true, obj: n as usize, rights: CHANNEL_RIGHTS },
        ).push(Entry { live: true, obj: (n + 1) as usize, rights: CHANNEL_RIGHTS })
        &&& post.objects@.len() == n + 2
        &&& forall|x: int| 0 <= x < n ==> post.objects@[x] == self.objects@[x]
        &&& post.objects@[n].refs == 1
        &&& post.objects@[n + 1].refs == 1
        &&& (post.objects@[n].kind matches ObjKind::Channel(c0) && c0.peer == n + 1 && c0.peer_open
            && !c0.reply_side && c0.queue@.len() == 0)
        &&& (post.objects@[n + 1].kind matches ObjKind::Channel(c1) && c1.peer == n && c1.peer_open
            && c1.reply_side == (flags == MX_FLAG_REPLY_PIPE) && c1.queue@.len() == 0)
        &&& post.closes == self.closes
        &&& post.now == self.now
    }

    /// Create a connected pair of channel endpoints atomically: on failure
    /// (only table exhaustion) nothing changes. Returns the status and the
    /// two raw handles.
    pub fn channel_create(&mut self, flags: u32) -> (r: (i32, i32, i32))
        requires
            old(self).wf(),
        ensures
            final(self).wf(),
            r.0 == NO_ERROR || r.0 == ERR_NO_RESOURCES,
            r.0 == ERR_NO_RESOURCES <==> old(self).entries@.len() + 2 > MAX_HANDLES || old(
                self,
            ).objects@.len() + 2 > MAX_OBJECTS,
            r.0 != NO_ERROR ==> *final(self) == *old(self),
            r.0 == NO_ERROR ==> old(self).spec_create_post(*final(self), flags, r.1, r.2),
    {
        if self.entries.len() > MAX_HANDLES - 2 || self.objects.len() > MAX_OBJECTS - 2 {
            return (ERR_NO_RESOURCES, 0, 0);
        }
        let n = self.objects.len();
        let reply = flags == MX_FLAG_REPLY_PIPE;
        self.objects.push(
            Object {
                refs: 1,
                kind: ObjKind::Channel(
                    ChanState { peer: n + 1, peer_open: true, reply_side: false, queue: Vec::new() },
                ),
            },
        );
        self.objects.push(
            Object {
                refs: 1,
                kind: ObjKind::Channel(
                    ChanState { peer: n, peer_open: true, reply_side: reply, queue: Vec::new() },
                ),
            },
        );
        let h0 = (self.entries.len() + 1) as i32;
        self.entries.push(Entry { live: true, obj: n, rights: CHANNEL_RIGHTS });
        let h1 = (self.entries.len() + 1) as i32;
        self.entries.push(Entry { live: true, obj: n + 1, rights: CHANNEL_RIGHTS });
        proof {
            assert forall|j: int| 0 <= j < self.objects@.len() implies obj_wf(self.objects@, j) by {
                if j < n {
                    assert(obj_wf(old(self).objects@, j));
                    match self.objects@[j].kind {
                        ObjKind::Channel(c) => {
                            assert(self.objects@[j] == old(self).objects@[j]);
                            if c.peer_open {
                                assert(self.objects@[c.peer as int] == old(
                                    self,
                                ).objects@[c.peer as int]);
                            }
                            assert forall|m: int| 0 <= m < c.queue@.len() implies msg_wf(
                                #[trigger] c.queue@[m],
                                self.objects@.len() as nat,
                            ) by {
                                assert(msg_wf(c.queue@[m], old(self).objects@.len() as nat));
                            }
                        },
                        _ => {},
                    }
                }
            }
        }
        (NO_ERROR, h0, h1)
    }

    /// The exact status `channel_write` returns, checked in this order: the
    /// endpoint must be a live, writable channel handle with a live peer;
    /// the endpoint itself must be among the written handles exactly when
    /// it is the reply side of a reply pipe; and the written handles must
    /// be distinct, live, and transferable.
    pub open spec fn spec_write_status(self, h: i32, raws: Seq<i32>) -> i32 {
        if !self.spec_is_valid(h) {
            ERR_BAD_HANDLE
        } else if !(self.spec_obj_of(h).kind is Channel) {
            ERR_WRONG_TYPE
        } else if self.spec_entry(h).rights & MX_RIGHT_WRITE == 0 {
            ERR_ACCESS_DENIED
        } else if !self.spec_obj_of(h).kind->Channel_0.peer_open {
            ERR_REMOTE_CLOSED
        } else if self.spec_obj_of(h).kind->Channel_0.reply_side && !raws.contains(h) {
            ERR_BAD_STATE
        } else if !self.spec_obj_of(h).kind->Channel_0.reply_side && raws.contains(h) {
            ERR_NOT_SUPPORTED
        } else if exists|i: int, j: int| 0 <= i < j < raws.len() && raws[i] == raws[j] {
            ERR_INVALID_ARGS
        } else if exists|i: int| 0 <= i < raws.len() && !self.spec_is_valid(#[trigger] raws[i]) {
            ERR_BAD_HANDLE
        } else if exists|i: int|
            0 <= i < raws.len() && self.spec_entry(#[trigger] raws[i]).rights & MX_RIGHT_TRANSFER
                == 0 {
            ERR_ACCESS_DENIED
        } else {
            NO_ERROR
        }
    }

    /// What `channel_write` does on success: ownership of every written
    /// handle moves into the message (their table slots are spent, not
    /// closed), and the message is appended to the peer's queue; no other
    /// slot and no other object changes.
    pub open spec fn spec_write_post(
        self,
        post: Kernel,
        h: i32,
        bytes: Seq<u8>,
        raws: Seq<i32>,
    ) -> bool {
        let p = self.spec_obj_of(h).kind->Channel_0.peer as int;
        let d = self.objects@[p].kind->Channel_0;
        &&& post.entries@.len() == self.entries@.len()
        &&& forall|x: int|
            0 <= x < self.entries@.len() && !raws.contains((x + 1) as i32)
                ==> post.entries@[x] == self.entries@[x]
        &&& forall|i: int|
            0 <= i < raws.len() ==> post.entries@[raws[i] - 1] == spec_dead_entry(
                self.entries@[raws[i] - 1],
            )
        &&& post.objects@.len() == self.objects@.len()
        &&& forall|x: int| 0 <= x < self.objects@.len() && x != p ==> post.objects@[x]
            == self.objects@[x]
        &&& post.objects@[p].refs == self.objects@[p].refs
        &&& post.objects@[p].kind is Channel
        &&& {
            let d2 = post.objects@[p].kind->Channel_0;
            &&& d2.peer == d.peer
            &&& d2.peer_open == d.peer_open
            &&& d2.reply_side == d.reply_side
            &&& d2.queue@.len() == d.queue@.len() + 1
            &&& forall|m: int| 0 <= m < d.queue@.len() ==> d2.queue@[m] == d.queue@[m]
            &&& spec_msg_matches(d2.queue@[d.queue@.len() as int], self, bytes, raws)
        }
        &&& post.closes == self.closes
        &&& post.now == self.now
    }

    /// Write a message: the payload and ownership of every handle in
    /// `raws` go to the peer's queue. On any failure nothing changes and
    /// the caller keeps every handle.
    #[verifier::loop_isolation(false)]
    pub fn channel_write(&mut self, h: i32, bytes: &[u8], raws: &Vec<i32>) -> (st: i32)
        requires
            old(self).wf(),
        ensures
            final(self).wf(),
            st == old(self).spec_write_status(h, raws@),
            st != NO_ERROR ==> *final(self) == *old(self),
            st == NO_ERROR ==> old(self).spec_write_post(*final(self), h, bytes@, raws@),
    {
        let e = match self.lookup(h) {
            None => {
                return ERR_BAD_HANDLE;
            },
            Some(e) => e,
        };
        let eobj = e.obj;
        let (is_chan, peer_open, reply_side, peer): (bool, bool, bool, usize) = match &self
            .objects[eobj].kind {
            ObjKind::Channel(c) => (true, c.peer_open, c.reply_side, c.peer),
            _ => (false, false, false, 0),
        };
        if !is_chan {
            return ERR_WRONG_TYPE;
        }
        if e.rights & MX_RIGHT_WRITE == 0 {
            return ERR_ACCESS_DENIED;
        }
        if !peer_open {
            return ERR_REMOTE_CLOSED;
        }
        let n = raws.len();
        let mut has_self = false;
        let mut i: usize = 0;
        while i < n
            invariant
                i <= n,
                has_self == exists|x: int| 0 <= x < i && raws@[x] == h,
            decreases n - i,
        {
            if raws[i] == h {
                has_self = true;
            }
            i = i + 1;
        }
        if reply_side && !has_self {
            return ERR_BAD_STATE;
        }
        if !reply_side && has_self {
            return ERR_NOT_SUPPORTED;
        }
        i = 0;
        while i < n
            invariant
                i <= n,
                forall|a: int, b: int| 0 <= a < b < i ==> raws@[a] != raws@[b],
            decreases n - i,
        {
            let mut j: usize = 0;
            while j < i
                invariant
                    j <= i < n,
                    forall|a: int| 0 <= a < j ==> raws@[a] != raws@[i as int],
                decreases i - j,
            {
                if raws[j] == raws[i] {
                    return ERR_INVALID_ARGS;
                }
                j = j + 1;
            }
            i = i + 1;
        }
        i = 0;
        while i < n
            invariant
                i <= n,
                forall|x: int| 0 <= x < i ==> self.spec_is_valid(#[trigger] raws@[x]),
            decreases n - i,
        {
            if !self.is_valid_handle(raws[i]) {
                return ERR_BAD_HANDLE;
            }
            i = i + 1;
        }
        i = 0;
        while i < n
            invariant
                i <= n,
                forall|x: int|
                    0 <= x < i ==> self.spec_entry(#[trigger] raws@[x]).rights & MX_RIGHT_TRANSFER
                        != 0,
            decreases n - i,
        {
            let idx = (raws[i] - 1) as usize;
            if self.entries[idx].rights & MX_RIGHT_TRANSFER == 0 {
                return ERR_ACCESS_DENIED;
            }
            i = i + 1;
        }
        // Everything checked: move ownership of the handles into the
        // message, then queue it on the peer.
        let ghost pre = *self;
        let mut infos: Vec<HandleInfo> = Vec::new();
        i = 0;
        while i < n
            invariant
                i <= n,
                infos@.len() == i,
                self.entries@.len() == pre.entries@.len(),
                self.objects == pre.objects,
                self.closes == pre.closes,
                self.now == pre.now,
                forall|x: int|
                    0 <= x < i ==> infos@[x] == (HandleInfo {
                        obj: pre.spec_entry(#[trigger] raws@[x]).obj,
                        rights: pre.spec_entry(raws@[x]).rights,
                    }),
                forall|y: int|
                    0 <= y < pre.entries@.len() && !(exists|x: int|
                        0 <= x < i && raws@[x] - 1 == y) ==> self.entries@[y] == pre.entries@[y],
                forall|x: int|
                    0 <= x < i ==> self.entries@[raws@[x] - 1] == spec_dead_entry(
                        pre.entries@[raws@[x] - 1],
                    ),
                forall|x: int| i <= x < n ==> self.spec_is_valid(#[trigger] raws@[x])
                    && self.spec_entry(raws@[x]) == pre.spec_entry(raws@[x]),
            decreases n - i,
        {
            let raw = raws[i];
            let idx = (raw - 1) as usize;
            let ent = self.entries[idx];
            infos.push(HandleInfo { obj: ent.obj, rights: ent.rights });
            self.entries[idx] = Entry { live: false, obj: ent.obj, rights: ent.rights };
            i = i + 1;
        }
        let msg = Message { bytes: vstd::slice::slice_to_vec(bytes), handles: infos };
        let ghost gmsg = msg;
        proof {
            assert forall|x: int| 0 <= x < msg.handles@.len() implies (#[trigger] msg.handles@[x]).obj
                < self.objects@.len() by {
                assert(pre.spec_is_valid(raws@[x]));
                assert(pre.entries@[raws@[x] - 1].live);
                assert(pre.entries@[raws@[x] - 1].obj < pre.objects@.len());
            }
            assert(msg_wf(msg, self.objects@.len() as nat));
            assert(pre.entries@[h - 1].live);
            assert(pre.entries@[h - 1].obj < pre.objects@.len());
            assert(obj_wf(pre.objects@, e.obj as int));
            assert(peer < self.objects@.len());
        }
        let o = &mut self.objects[peer];
        match &mut o.kind {
            ObjKind::Channel(d) => {
                d.queue.push(msg);
            },
            _ => {},
        }
        proof {
            let a = pre.objects@;
            let b = self.objects@;
            let p = peer as int;
            assert(obj_wf(a, p));
            assert forall|m: int| 0 <= m < b[p].kind->Channel_0.queue@.len() implies msg_wf(
                #[trigger] b[p].kind->Channel_0.queue@[m],
                a.len(),
            ) by {
                if m < a[p].kind->Channel_0.queue@.len() {
                    assert(msg_wf(a[p].kind->Channel_0.queue@[m], a.len()));
                } else {
                    assert(b[p].kind->Channel_0.queue@[m] == gmsg);
                }
            }
            lemma_chan_update_wf(a, b, p);
            assert forall|y: int|
                0 <= y < self.entries@.len() && self.entries@[y].live implies (
            #[trigger] self.entries@[y]).obj < self.objects@.len() by {
                if exists|x: int| 0 <= x < n && raws@[x] - 1 == y {
                    let x = choose|x: int| 0 <= x < n && raws@[x] - 1 == y;
                    assert(self.entries@[y] == spec_dead_entry(pre.entries@[y]));
                } else {
                    assert(self.entries@[y] == pre.entries@[y]);
                    assert(pre.entries@[y].obj < pre.objects@.len());
                }
            }
        }
        NO_ERROR
    }
}

/// The outcome of one receive attempt on a channel endpoint.
pub enum ReadOutcome {
    /// The front message, delivered: its payload and the raw handles newly
    /// created for its in-transit references.
    Msg(Vec<u8>, Vec<i32>),
    /// The front message needs more capacity than offered: its exact byte
    /// and handle counts. Nothing was consumed; the message stays pending.
    TooSmall(usize, usize),
    /// No message was delivered; the code says why.
    Fail(i32),
}

impl Kernel {
    /// The exact status a receive attempt ends with: the handle must be a
    /// live, readable channel handle; an empty queue distinguishes a still
    /// open peer (try again later) from a closed one; a pending message
    /// larger than the offered capacities is reported, not consumed.
    pub open spec fn spec_read_status(self, h: i32, byte_cap: usize, handle_cap: usize) -> i32 {
        if !self.spec_is_valid(h) {
            ERR_BAD_HANDLE
        } else if !(self.spec_obj_of(h).kind is Channel) {
            ERR_WRONG_TYPE
        } else if self.spec_entry(h).rights & MX_RIGHT_READ == 0 {
            ERR_ACCESS_DENIED
        } else if self.spec_obj_of(h).kind->Channel_0.queue@.len() == 0 {
            if self.spec_obj_of(h).kind->Channel_0.peer_open {
                ERR_SHOULD_WAIT
            } else {
                ERR_REMOTE_CLOSED
            }
        } else if self.spec_obj_of(h).kind->Channel_0.queue@[0].bytes@.len() > byte_cap
            || self.spec_obj_of(h).kind->Channel_0.queue@[0].handles@.len() > handle_cap {
            ERR_BUFFER_TOO_SMALL
        } else if self.entries@.len() + self.spec_obj_of(h).kind->Channel_0.queue@[0].handles@.len()
            > MAX_HANDLES {
            ERR_NO_RESOURCES
        } else {
            NO_ERROR
        }
    }

    /// What a successful receive does: the front message leaves the queue,
    /// its payload is handed back exactly, and each in-transit reference
    /// becomes a fresh live handle of the receiver, in message order; no
    /// other slot and no other object changes.
    pub open spec fn spec_read_post(self, post: Kernel, h: i32, bytes: Seq<u8>, newraws: Seq<
        i32,
    >) -> bool {
        let j = self.spec_entry(h).obj as int;
        let c = self.objects@[j].kind->Channel_0;
        let front = c.queue@[0];
        &&& bytes == front.bytes@
        &&& newraws.len() == front.handles@.len()
        &&& post.entries@.len() == self.entries@.len() + front.handles@.len()
        &&& forall|x: int| 0 <= x < self.entries@.len() ==> post.entries@[x] == self.entries@[x]
        &&& forall|i: int| 0 <= i < newraws.len() ==> newraws[i] == self.entries@.len() + 1 + i
        &&& forall|i: int|
            0 <= i < newraws.len() ==> post.spec_is_valid(#[trigger] newraws[i])
                && post.spec_entry(newraws[i]) == (Entry {
                live: true,
                obj: front.handles@[i].obj,
                rights: front.handles@[i].rights,
            })
        &&& post.objects@.len() == self.objects@.len()
        &&& forall|x: int| 0 <= x < self.objects@.len() && x != j ==> post.objects@[x]
            == self.objects@[x]
        &&& post.objects@[j].refs == self.objects@[j].refs
        &&& post.objects@[j].kind is Channel
        &&& {
            let c2 = post.objects@[j].kind->Channel_0;
            &&& c2.peer == c.peer
            &&& c2.peer_open == c.peer_open
            &&& c2.reply_side == c.reply_side
            &&& c2.queue@ == c.queue@.subrange(1, c.queue@.len() as int)
        }
        &&& post.closes == self.closes
        &&& post.now == self.now
    }

    /// One receive attempt offering `byte_cap` bytes and `handle_cap`
    /// handle slots of capacity. A pending message that does not fit is
    /// reported with its exact counts and left pending, so a retry with
    /// enough capacity gets the same message; on any failure nothing
    /// changes.
    #[verifier::loop_isolation(false)]
    pub fn channel_read(&mut self, h: i32, byte_cap: usize, handle_cap: usize) -> (r: ReadOutcome)
        requires
            old(self).wf(),
        ensures
            final(self).wf(),
            ({
                let st = old(self).spec_read_status(h, byte_cap, handle_cap);
                &&& st != NO_ERROR ==> *final(self) == *old(self)
                &&& (st == ERR_BUFFER_TOO_SMALL ==> r is TooSmall && r->TooSmall_0
                    == old(self).spec_obj_of(h).kind->Channel_0.queue@[0].bytes@.len()
                    && r->TooSmall_1 == old(self).spec_obj_of(
                    h,
                ).kind->Channel_0.queue@[0].handles@.len())
                &&& (st != NO_ERROR && st != ERR_BUFFER_TOO_SMALL ==> r == ReadOutcome::Fail(st))
                &&& (st == NO_ERROR ==> r is Msg && old(self).spec_read_post(
                    *final(self),
                    h,
                    r->Msg_0@,
                    r->Msg_1@,
                ))
            }),
    {
        let e = match self.lookup(h) {
            None => {
                return ReadOutcome::Fail(ERR_BAD_HANDLE);
            },
            Some(e) => e,
        };
        let eobj = e.obj;
        let (is_chan, peer_open, nqueued): (bool, bool, usize) = match &self.objects[eobj].kind {
            ObjKind::Channel(c) => (true, c.peer_open, c.queue.len()),
            _ => (false, false, 0),
        };
        if !is_chan {
            return ReadOutcome::Fail(ERR_WRONG_TYPE);
        }
        if e.rights & MX_RIGHT_READ == 0 {
            return ReadOutcome::Fail(ERR_ACCESS_DENIED);
        }
        if nqueued == 0 {
            if peer_open {
                return ReadOutcome::Fail(ERR_SHOULD_WAIT);
            } else {
                return ReadOutcome::Fail(ERR_REMOTE_CLOSED);
            }
        }
        let (nbytes, nhandles): (usize, usize) = match &self.objects[eobj].kind {
            ObjKind::Channel(c) => (c.queue[0].bytes.len(), c.queue[0].handles.len()),
            _ => (0, 0),
        };
        if nbytes > byte_cap || nhandles > handle_cap {
            return ReadOutcome::TooSmall(nbytes, nhandles);
        }
        if nhandles > MAX_HANDLES || self.entries.len() > MAX_HANDLES - nhandles {
            return ReadOutcome::Fail(ERR_NO_RESOURCES);
        }
        let ghost pre = *self;
        proof {
            assert(obj_wf(pre.objects@, eobj as int));
        }
        let mut msg_opt: Option<Message> = None;
        let o = &mut self.objects[eobj];
        match &mut o.kind {
            ObjKind::Channel(c) => {
                msg_opt = Some(c.queue.remove(0));
            },
            _ => {},
        }
        let msg = match msg_opt {
            Some(m) => m,
            None => {
                proof {
                    assert(false);
                }
                vstd::pervasive::unreached()
            },
        };
        proof {
            let a = pre.objects@;
            let b = self.objects@;
            let p = eobj as int;
            assert forall|m: int| 0 <= m < b[p].kind->Channel_0.queue@.len() implies msg_wf(
                #[trigger] b[p].kind->Channel_0.queue@[m],
                a.len(),
            ) by {
                assert(b[p].kind->Channel_0.queue@[m] == a[p].kind->Channel_0.queue@[m + 1]);
                assert(msg_wf(a[p].kind->Channel_0.queue@[m + 1], a.len()));
            }
            lemma_chan_update_wf(a, b, p);
            assert(msg == pre.objects@[p].kind->Channel_0.queue@[0]);
            assert(msg_wf(msg, pre.objects@.len() as nat));
        }
        let ghost mid = *self;
        let mut newraws: Vec<i32> = Vec::new();
        let n = msg.handles.len();
        let mut i: usize = 0;
        while i < n
            invariant
                i <= n,
                newraws@.len() == i,
                self.objects == mid.objects,
                self.closes == mid.closes,
                self.now == mid.now,
                self.entries@.len() == pre.entries@.len() + i,
                forall|x: int| 0 <= x < pre.entries@.len() ==> self.entries@[x] == pre.entries@[x],
                forall|x: int|
                    0 <= x < i ==> newraws@[x] == pre.entries@.len() + 1 + x,
                forall|x: int|
                    0 <= x < i ==> self.entries@[pre.entries@.len() + x] == (Entry {
                        live: true,
                        obj: msg.handles@[x].obj,
                        rights: msg.handles@[x].rights,
                    }),
            decreases n - i,
        {
            let raw = (self.entries.len() + 1) as i32;
            let info = msg.handles[i];
            self.entries.push(Entry { live: true, obj: info.obj, rights: info.rights });
            newraws.push(raw);
            i = i + 1;
        }
        proof {
            assert forall|y: int|
                0 <= y < self.entries@.len() && self.entries@[y].live implies (
            #[trigger] self.entries@[y]).obj < self.objects@.len() by {
                if y < pre.entries@.len() {
                    assert(self.entries@[y] == pre.entries@[y]);
                    assert(pre.entries@[y].obj < pre.objects@.len());
                } else {
                    assert(self.entries@[y] == (Entry {
                        live: true,
                        obj: msg.handles@[y - pre.entries@.len()].obj,
                        rights: msg.handles@[y - pre.entries@.len()].rights,
                    }));
                    assert(msg.handles@[y - pre.entries@.len()].obj < pre.objects@.len());
                }
            }
        }
        ReadOutcome::Msg(msg.bytes, newraws)
    }
}

/// The rights a freshly created byte object handle carries.
pub const VMO_RIGHTS: Rights = MX_RIGHT_DUPLICATE | MX_RIGHT_TRANSFER | MX_RIGHT_READ
    | MX_RIGHT_WRITE | MX_RIGHT_MAP;

/// The rights a freshly created wait-set handle carries.
pub const WAITSET_RIGHTS: Rights = MX_RIGHT_READ | MX_RIGHT_WRITE;

/// The largest byte object the model backs with real storage.
pub const MAX_VMO_SIZE: u64 = 0x4000_0000;

/// Appending objects that are not channel endpoints preserves the object
/// table's well-formedness.
proof fn lemma_append_wf(a: Seq<Object>, b: Seq<Object>)
    requires
        objects_wf(a),
        a.len() <= b.len(),
        forall|x: int| 0 <= x < a.len() ==> b[x] == a[x],
        forall|x: int| a.len() <= x < b.len() ==> !((#[trigger] b[x]).kind is Channel),
    ensures
        objects_wf(b),
{
    assert forall|j: int| 0 <= j < b.len() implies obj_wf(b, j) by {
        if j < a.len() {
            assert(obj_wf(a, j));
            match b[j].kind {
                ObjKind::Channel(c) => {
                    if c.peer_open {
                        assert(b[c.peer as int] == a[c.peer as int]);
                    }
                    assert forall|m: int| 0 <= m < c.queue@.len() implies msg_wf(
                        #[trigger] c.queue@[m],
                        b.len(),
                    ) by {
                        assert(msg_wf(a[j].kind->Channel_0.queue@[m], a.len()));
                    }
                },
                _ => {},
            }
        }
    }
}

/// Replacing one object that is not a channel endpoint (before or after) by
/// another preserves the object table's well-formedness.
proof fn lemma_nonchan_update_wf(a: Seq<Object>, b: Seq<Object>, j: int)
    requires
        objects_wf(a),
        0 <= j < a.len(),
        b.len() == a.len(),
        forall|x: int| 0 <= x < a.len() && x != j ==> b[x] == a[x],
        !(a[j].kind is Channel),
        !(b[j].kind is Channel),
    ensures
        objects_wf(b),
{
    assert forall|x: int| 0 <= x < b.len() implies obj_wf(b, x) by {
        assert(obj_wf(a, x));
        if x != j {
            match b[x].kind {
                ObjKind::Channel(c) => {
                    if c.peer_open {
                        assert(a[c.peer as int].kind is Channel);
                        assert(c.peer != j);
                        assert(b[c.peer as int] == a[c.peer as int]);
                    }
                },
                _ => {},
            }
        }
    }
}

/// A vector of `n` zero bytes.
fn zero_bytes(n: usize) -> (v: Vec<u8>)
    ensures
        v@.len() == n,
        forall|i: int| 0 <= i < n ==> v@[i] == 0,
{
    let mut v: Vec<u8> = Vec::new();
    let mut i: usize = 0;
    while i < n
        invariant
            i <= n,
            v@.len() == i,
            forall|x: int| 0 <= x < i ==> v@[x] == 0,
        decreases n - i,
    {
        v.push(0);
        i = i + 1;
    }
    v
}

impl Kernel {
    /// The status `vmo_create` returns for a requested size.
    pub open spec fn spec_vmo_create_status(self, size: u64) -> i32 {
        if self.entries@.len() >= MAX_HANDLES || self.objects@.len() >= MAX_OBJECTS {
            ERR_NO_RESOURCES
        } else if size > MAX_VMO_SIZE {
            ERR_NO_MEMORY
        } else {
            NO_ERROR
        }
    }

    /// Create a zero-filled byte object of `size` bytes; the returned
    /// positive value is the fresh handle, a negative one the failure code
    /// (with nothing changed).
    pub fn vmo_create(&mut self, size: u64) -> (ret: i32)
        requires
            old(self).wf(),
        ensures
            final(self).wf(),
            old(self).spec_vmo_create_status(size) != NO_ERROR ==> ret == old(
                self,
            ).spec_vmo_create_status(size) && *final(self) == *old(self),
            old(self).spec_vmo_create_status(size) == NO_ERROR ==> {
                let n = old(self).objects@.len() as int;
                &&& ret == old(self).entries@.len() + 1
                &&& final(self).entries@ == old(self).entries@.push(
                    Entry { live: true, obj: n as usize, rights: VMO_RIGHTS },
                )
                &&& final(self).objects@.len() == n + 1
                &&& forall|x: int| 0 <= x < n ==> final(self).objects@[x] == old(self).objects@[x]
                &&& final(self).objects@[n].refs == 1
                &&& final(self).objects@[n].kind is ByteObject
                &&& final(self).objects@[n].kind->ByteObject_0@.len() == size
                &&& forall|i: int|
                    0 <= i < size ==> final(self).objects@[n].kind->ByteObject_0@[i] == 0
                &&& final(self).closes == old(self).closes
                &&& final(self).now == old(self).now
            },
    {
        if self.entries.len() >= MAX_HANDLES || self.objects.len() >= MAX_OBJECTS {
            return ERR_NO_RESOURCES;
        }
        if size > MAX_VMO_SIZE {
            return ERR_NO_MEMORY;
        }
        let n = self.objects.len();
        let data = zero_bytes(size as usize);
        self.objects.push(Object { refs: 1, kind: ObjKind::ByteObject(data) });
        let ret = (self.entries.len() + 1) as i32;
        self.entries.push(Entry { live: true, obj: n, rights: VMO_RIGHTS });
        proof {
            lemma_append_wf(old(self).objects@, self.objects@);
        }
        ret
    }

    /// The status of addressing `h` as a byte object at all.
    pub open spec fn spec_vmo_status(self, h: i32) -> i32 {
        if !self.spec_is_valid(h) {
            ERR_BAD_HANDLE
        } else if !(self.spec_obj_of(h).kind is ByteObject) {
            ERR_WRONG_TYPE
        } else {
            NO_ERROR
        }
    }

    /// The status a byte-object access with `needed` rights ends with.
    pub open spec fn spec_vmo_access_status(self, h: i32, needed: Rights) -> i32 {
        if self.spec_vmo_status(h) != NO_ERROR {
            self.spec_vmo_status(h)
        } else if self.spec_entry(h).rights & needed != needed {
            ERR_ACCESS_DENIED
        } else {
            NO_ERROR
        }
    }

    /// Read up to `count` bytes at `offset`: the result is exactly the
    /// stored bytes from `offset`, clamped at the object's end; an offset
    /// past the end is out of range.
    #[verifier::loop_isolation(false)]
    pub fn vmo_read(&self, h: i32, offset: u64, count: usize) -> (r: Result<Vec<u8>, i32>)
        requires
            self.wf(),
        ensures
            self.spec_vmo_access_status(h, MX_RIGHT_READ) != NO_ERROR ==> r == Result::<
                Vec<u8>,
                i32,
            >::Err(self.spec_vmo_access_status(h, MX_RIGHT_READ)),
            self.spec_vmo_access_status(h, MX_RIGHT_READ) == NO_ERROR ==> {
                let data = self.spec_obj_of(h).kind->ByteObject_0@;
                &&& offset > data.len() ==> r == Result::<Vec<u8>, i32>::Err(ERR_OUT_OF_RANGE)
                &&& offset <= data.len() ==> r is Ok && r->Ok_0@ == data.subrange(
                    offset as int,
                    if count <= data.len() - offset {
                        offset + count
                    } else {
                        data.len() as int
                    },
                )
            },
    {
        let e = match self.lookup(h) {
            None => {
                return Err(ERR_BAD_HANDLE);
            },
            Some(e) => e,
        };
        let eobj = e.obj;
        match &self.objects[eobj].kind {
            ObjKind::ByteObject(data) => {
                if e.rights & MX_RIGHT_READ != MX_RIGHT_READ {
                    return Err(ERR_ACCESS_DENIED);
                }
                if offset > data.len() as u64 {
                    return Err(ERR_OUT_OF_RANGE);
                }
                let off = offset as usize;
                let avail = data.len() - off;
                let n = if count <= avail {
                    count
                } else {
                    avail
                };
                let mut out: Vec<u8> = Vec::new();
                let mut i: usize = 0;
                while i < n
                    invariant
                        i <= n,
                        off + n <= data@.len(),
                        out@.len() == i,
                        forall|x: int| 0 <= x < i ==> out@[x] == data@[off + x],
                    decreases n - i,
                {
                    out.push(data[off + i]);
                    i = i + 1;
                }
                proof {
                    assert(out@ =~= data@.subrange(
                        offset as int,
                        if count <= data@.len() - offset {
                            offset + count
                        } else {
                            data@.len() as int
                        },
                    ));
                }
                Ok(out)
            },
            _ => Err(ERR_WRONG_TYPE),
        }
    }

    /// Write `data` at `offset`, clamped at the object's end: returns how
    /// many bytes were stored alongside the status. Bytes outside the
    /// written window keep their values; an offset past the end is out of
    /// range and changes nothing, as does any other failure.
    #[verifier::loop_isolation(false)]
    pub fn vmo_write(&mut self, h: i32, offset: u64, data: &[u8]) -> (r: (i32, usize))
        requires
            old(self).wf(),
        ensures
            final(self).wf(),
            old(self).spec_vmo_access_status(h, MX_RIGHT_WRITE) != NO_ERROR ==> r.0 == old(
                self,
            ).spec_vmo_access_status(h, MX_RIGHT_WRITE) && *final(self) == *old(self),
            old(self).spec_vmo_access_status(h, MX_RIGHT_WRITE) == NO_ERROR ==> {
                let j = old(self).spec_entry(h).obj as int;
                let stored = old(self).objects@[j].kind->ByteObject_0@;
                &&& offset > stored.len() ==> r.0 == ERR_OUT_OF_RANGE && *final(self) == *old(self)
                &&& offset <= stored.len() ==> {
                    let n = if data@.len() <= stored.len() - offset {
                        data@.len() as int
                    } else {
                        stored.len() - offset
                    };
                    let stored2 = final(self).objects@[j].kind->ByteObject_0@;
                    &&& r.0 == NO_ERROR
                    &&& r.1 == n
                    &&& final(self).objects@.len() == old(self).objects@.len()
                    &&& forall|x: int|
                        0 <= x < old(self).objects@.len() && x != j ==> final(self).objects@[x]
                            == old(self).objects@[x]
                    &&& final(self).objects@[j].refs == old(self).objects@[j].refs
                    &&& final(self).objects@[j].kind is ByteObject
                    &&& stored2.len() == stored.len()
                    &&& forall|x: int| 0 <= x < n ==> stored2[offset + x] == data@[x]
                    &&& forall|x: int|
                        0 <= x < stored.len() && !(offset <= x < offset + n) ==> stored2[x]
                            == stored[x]
                    &&& final(self).entries == old(self).entries
                    &&& final(self).closes == old(self).closes
                    &&& final(self).now == old(self).now
                }
            },
    {
        let e = match self.lookup(h) {
            None => {
                return (ERR_BAD_HANDLE, 0);
            },
            Some(e) => e,
        };
        let eobj = e.obj;
        let (is_bytes, cur_len): (bool, usize) = match &self.objects[eobj].kind {
            ObjKind::ByteObject(d) => (true, d.len()),
            _ => (false, 0),
        };
        if !is_bytes {
            return (ERR_WRONG_TYPE, 0);
        }
        if e.rights & MX_RIGHT_WRITE != MX_RIGHT_WRITE {
            return (ERR_ACCESS_DENIED, 0);
        }
        if offset > cur_len as u64 {
            return (ERR_OUT_OF_RANGE, 0);
        }
        let off = offset as usize;
        let avail = cur_len - off;
        let n = if data.len() <= avail {
            data.len()
        } else {
            avail
        };
        let ghost pre = *self;
        let o = &mut self.objects[eobj];
        match &mut o.kind {
            ObjKind::ByteObject(stored) => {
                let ghost orig = stored@;
                let mut i: usize = 0;
                while i < n
                    invariant
                        i <= n,
                        off + n <= stored@.len(),
                        n <= data@.len(),
                        stored@.len() == orig.len(),
                        forall|x: int| 0 <= x < i ==> stored@[off + x] == data@[x],
                        forall|x: int|
                            0 <= x < orig.len() && !(off <= x < off + i) ==> stored@[x]
                                == orig[x],
                    decreases n - i,
                {
                    let b = *vstd::slice::slice_index_get(data, i);
                    let ix = i + off;
                    stored[ix] = b;
                    i = i + 1;
                }
            },
            _ => {},
        }
        proof {
            lemma_nonchan_update_wf(pre.objects@, self.objects@, eobj as int);
        }
        (NO_ERROR, n)
    }

    /// The current size of a byte object, alongside the status.
    pub fn vmo_get_size(&self, h: i32) -> (r: (i32, u64))
        requires
            self.wf(),
        ensures
            r.0 == self.spec_vmo_status(h),
            r.0 == NO_ERROR ==> r.1 == self.spec_obj_of(h).kind->ByteObject_0@.len(),
    {
        let e = match self.lookup(h) {
            None => {
                return (ERR_BAD_HANDLE, 0);
            },
            Some(e) => e,
        };
        let eobj = e.obj;
        match &self.objects[eobj].kind {
            ObjKind::ByteObject(data) => (NO_ERROR, data.len() as u64),
            _ => (ERR_WRONG_TYPE, 0),
        }
    }

    /// Resize a byte object: kept bytes keep their values, new bytes are
    /// zero. On any failure nothing changes.
    #[verifier::loop_isolation(false)]
    pub fn vmo_set_size(&mut self, h: i32, size: u64) -> (st: i32)
        requires
            old(self).wf(),
        ensures
            final(self).wf(),
            old(self).spec_vmo_access_status(h, MX_RIGHT_WRITE) != NO_ERROR ==> st == old(
                self,
            ).spec_vmo_access_status(h, MX_RIGHT_WRITE) && *final(self) == *old(self),
            old(self).spec_vmo_access_status(h, MX_RIGHT_WRITE) == NO_ERROR ==> {
                let j = old(self).spec_entry(h).obj as int;
                let stored = old(self).objects@[j].kind->ByteObject_0@;
                &&& size > MAX_VMO_SIZE ==> st == ERR_NO_MEMORY && *final(self) == *old(self)
                &&& size <= MAX_VMO_SIZE ==> {
                    let stored2 = final(self).objects@[j].kind->ByteObject_0@;
                    &&& st == NO_ERROR
                    &&& final(self).objects@.len() == old(self).objects@.len()
                    &&& forall|x: int|
                        0 <= x < old(self).objects@.len() && x != j ==> final(self).objects@[x]
                            == old(self).objects@[x]
                    &&& final(self).objects@[j].refs == old(self).objects@[j].refs
                    &&& final(self).objects@[j].kind is ByteObject
                    &&& stored2.len() == size
                    &&& forall|x: int| 0 <= x < size && x < stored.len() ==> stored2[x] == stored[x]
                    &&& forall|x: int| stored.len() <= x < size ==> stored2[x] == 0
                    &&& final(self).entries == old(self).entries
                    &&& final(self).closes == old(self).closes
                    &&& final(self).now == old(self).now
                }
            },
    {
        let e = match self.lookup(h) {
            None => {
                return ERR_BAD_HANDLE;
            },
            Some(e) => e,
        };
        let eobj = e.obj;
        let is_bytes = match &self.objects[eobj].kind {
            ObjKind::ByteObject(_) => true,
            _ => false,
        };
        if !is_bytes {
            return ERR_WRONG_TYPE;
        }
        if e.rights & MX_RIGHT_WRITE != MX_RIGHT_WRITE {
            return ERR_ACCESS_DENIED;
        }
        if size > MAX_VMO_SIZE {
            return ERR_NO_MEMORY;
        }
        let ghost pre = *self;
        let target = size as usize;
        let o = &mut self.objects[eobj];
        match &mut o.kind {
            ObjKind::ByteObject(stored) => {
                if target <= stored.len() {
                    stored.truncate(target);
                } else {
                    let ghost orig = stored@;
                    while stored.len() < target
                        invariant
                            orig.len() <= stored@.len() <= target,
                            forall|x: int| 0 <= x < orig.len() ==> stored@[x] == orig[x],
                            forall|x: int| orig.len() <= x < stored@.len() ==> stored@[x] == 0,
                        decreases target - stored@.len(),
                    {
                        stored.push(0);
                    }
                }
            },
            _ => {},
        }
        proof {
            lemma_nonchan_update_wf(pre.objects@, self.objects@, eobj as int);
        }
        NO_ERROR
    }
}

/// One ready entry produced by a wait-set poll: the registration's cookie,
/// its own outcome, and the observed signal snapshot.
#[derive(Debug, Clone, Copy, PartialEq, Eq, Structural)]
pub struct WsReady {
    pub cookie: u64,
    pub status: i32,
    pub state: SignalsState,
}

/// Whether one registration produces a ready entry right now, and which: a
/// watched handle since closed is reported as such; an asserted signal of
/// interest is a success; a mask that can never be satisfied any more is a
/// distinguished failure; anything else is simply not ready.
pub open spec fn spec_ws_entry(k: Kernel, it: WsItem) -> Option<WsReady> {
    if !k.spec_is_valid(it.watched) {
        Some(
            WsReady {
                cookie: it.cookie,
                status: ERR_HANDLE_CLOSED,
                state: SignalsState { satisfied: 0, satisfiable: 0 },
            },
        )
    } else {
        let st = spec_obj_signals(k.spec_obj_of(it.watched));
        if st.satisfied & it.signals != 0 {
            Some(WsReady { cookie: it.cookie, status: NO_ERROR, state: st })
        } else if st.satisfiable & it.signals == 0 {
            Some(WsReady { cookie: it.cookie, status: ERR_BAD_STATE, state: st })
        } else {
            None
        }
    }
}

/// The ready entries of a registration list, in registration order.
/// (Callers of a wait should not rely on the order; the model happens to
/// keep the order in which watches were added.)
pub open spec fn spec_ws_results(k: Kernel, items: Seq<WsItem>) -> Seq<WsReady>
    decreases items.len(),
{
    if items.len() == 0 {
        Seq::empty()
    } else {
        let rest = spec_ws_results(k, items.drop_last());
        match spec_ws_entry(k, items.last()) {
            Some(r) => rest.push(r),
            None => rest,
        }
    }
}

impl Kernel {
    /// The status of addressing `h` as a wait set with `needed` rights.
    pub open spec fn spec_ws_status(self, h: i32, needed: Rights) -> i32 {
        if !self.spec_is_valid(h) {
            ERR_BAD_HANDLE
        } else if !(self.spec_obj_of(h).kind is WaitRegistry) {
            ERR_WRONG_TYPE
        } else if self.spec_entry(h).rights & needed != needed {
            ERR_ACCESS_DENIED
        } else {
            NO_ERROR
        }
    }

    /// The registration list of the wait set that `h` names.
    pub open spec fn spec_ws_items(self, h: i32) -> Seq<WsItem> {
        self.spec_obj_of(h).kind->WaitRegistry_0@
    }

    /// Create an empty wait set; the returned positive value is the fresh
    /// handle, a negative one the failure code (with nothing changed).
    pub fn waitset_create(&mut self) -> (ret: i32)
        requires
            old(self).wf(),
        ensures
            final(self).wf(),
            ret < 0 ==> ret == ERR_NO_RESOURCES && *final(self) == *old(self) && (old(
                self,
            ).entries@.len() >= MAX_HANDLES || old(self).objects@.len() >= MAX_OBJECTS),
            ret >= 0 ==> {
                let n = old(self).objects@.len() as int;
                &&& old(self).entries@.len() < MAX_HANDLES
                &&& old(self).objects@.len() < MAX_OBJECTS
                &&& ret == old(self).entries@.len() + 1
                &&& final(self).entries@ == old(self).entries@.push(
                    Entry { live: true, obj: n as usize, rights: WAITSET_RIGHTS },
                )
                &&& final(self).objects@.len() == n + 1
                &&& forall|x: int| 0 <= x < n ==> final(self).objects@[x] == old(self).objects@[x]
                &&& final(self).objects@[n].refs == 1
                &&& final(self).objects@[n].kind is WaitRegistry
                &&& final(self).objects@[n].kind->WaitRegistry_0@.len() == 0
                &&& final(self).closes == old(self).closes
                &&& final(self).now == old(self).now
            },
    {
        if self.entries.len() >= MAX_HANDLES || self.objects.len() >= MAX_OBJECTS {
            return ERR_NO_RESOURCES;
        }
        let n = self.objects.len();
        self.objects.push(Object { refs: 1, kind: ObjKind::WaitRegistry(Vec::new()) });
        let ret = (self.entries.len() + 1) as i32;
        self.entries.push(Entry { live: true, obj: n, rights: WAITSET_RIGHTS });
        proof {
            lemma_append_wf(old(self).objects@, self.objects@);
        }
        ret
    }

    /// The status `waitset_add` returns: the wait set and the watched
    /// handle must be live, and the cookie must not be registered yet.
    pub open spec fn spec_ws_add_status(self, ws: i32, watched: i32, cookie: u64) -> i32 {
        if self.spec_ws_status(ws, MX_RIGHT_WRITE) != NO_ERROR {
            self.spec_ws_status(ws, MX_RIGHT_WRITE)
        } else if !self.spec_is_valid(watched) {
            ERR_BAD_HANDLE
        } else if exists|x: int|
            0 <= x < self.spec_ws_items(ws).len() && (#[trigger] self.spec_ws_items(ws)[x]).cookie
                == cookie {
            ERR_ALREADY_EXISTS
        } else {
            NO_ERROR
        }
    }

    /// Register a watch for `signals` on `watched` under `cookie`. A cookie
    /// already registered is refused; on any failure nothing changes.
    #[verifier::loop_isolation(false)]
    pub fn waitset_add(&mut self, ws: i32, watched: i32, signals: Signals, cookie: u64) -> (st:
        i32)
        requires
            old(self).wf(),
        ensures
            final(self).wf(),
            st == old(self).spec_ws_add_status(ws, watched, cookie),
            st != NO_ERROR ==> *final(self) == *old(self),
            st == NO_ERROR ==> {
                let j = old(self).spec_entry(ws).obj as int;
                &&& final(self).entries == old(self).entries
                &&& final(self).objects@.len() == old(self).objects@.len()
                &&& forall|x: int|
                    0 <= x < old(self).objects@.len() && x != j ==> final(self).objects@[x] == old(
                        self,
                    ).objects@[x]
                &&& final(self).objects@[j].refs == old(self).objects@[j].refs
                &&& final(self).objects@[j].kind is WaitRegistry
                &&& final(self).objects@[j].kind->WaitRegistry_0@ == old(
                    self,
                ).objects@[j].kind->WaitRegistry_0@.push(WsItem { cookie, watched, signals })
                &&& final(self).closes == old(self).closes
                &&& final(self).now == old(self).now
            },
    {
        let e = match self.lookup(ws) {
            None => {
                return ERR_BAD_HANDLE;
            },
            Some(e) => e,
        };
        let eobj = e.obj;
        let is_ws = match &self.objects[eobj].kind {
            ObjKind::WaitRegistry(_) => true,
            _ => false,
        };
        if !is_ws {
            return ERR_WRONG_TYPE;
        }
        if e.rights & MX_RIGHT_WRITE != MX_RIGHT_WRITE {
            return ERR_ACCESS_DENIED;
        }
        if !self.is_valid_handle(watched) {
            return ERR_BAD_HANDLE;
        }
        let mut found = false;
        match &self.objects[eobj].kind {
            ObjKind::WaitRegistry(items) => {
                let m = items.len();
                let mut i: usize = 0;
                while i < m
                    invariant
                        i <= m,
                        found == exists|x: int|
                            0 <= x < i && (#[trigger] items@[x]).cookie == cookie,
                    decreases m - i,
                {
                    if items[i].cookie == cookie {
                        found = true;
                    }
                    i = i + 1;
                }
                proof {
                    assert(items@ == self.spec_ws_items(ws));
                    if found {
                        let x0 = choose|x: int|
                            0 <= x < items@.len() && (#[trigger] items@[x]).cookie == cookie;
                        assert(self.spec_ws_items(ws)[x0].cookie == cookie);
                    } else {
                        assert forall|x: int|
                            0 <= x < self.spec_ws_items(ws).len() implies (
                        #[trigger] self.spec_ws_items(ws)[x]).cookie != cookie by {
                            assert(items@[x].cookie != cookie);
                        }
                    }
                }
            },
            _ => {},
        }
        if found {
            return ERR_ALREADY_EXISTS;
        }
        let ghost pre = *self;
        let o = &mut self.objects[eobj];
        match &mut o.kind {
            ObjKind::WaitRegistry(items) => {
                items.push(WsItem { cookie, watched, signals });
            },
            _ => {},
        }
        proof {
            lemma_nonchan_update_wf(pre.objects@, self.objects@, eobj as int);
        }
        NO_ERROR
    }

    /// Unregister the first watch carrying `cookie`: an unknown cookie is
    /// a distinguished failure that leaves every registration untouched,
    /// as does any other failure.
    #[verifier::loop_isolation(false)]
    pub fn waitset_remove(&mut self, ws: i32, cookie: u64) -> (st: i32)
        requires
            old(self).wf(),
        ensures
            final(self).wf(),
            st != NO_ERROR ==> *final(self) == *old(self),
            old(self).spec_ws_status(ws, MX_RIGHT_WRITE) != NO_ERROR ==> st == old(
                self,
            ).spec_ws_status(ws, MX_RIGHT_WRITE),
            old(self).spec_ws_status(ws, MX_RIGHT_WRITE) == NO_ERROR ==> {
                let items = old(self).spec_ws_items(ws);
                &&& (st == ERR_NOT_FOUND <==> !exists|x: int|
                    0 <= x < items.len() && (#[trigger] items[x]).cookie == cookie)
                &&& (st != ERR_NOT_FOUND ==> st == NO_ERROR)
                &&& st == NO_ERROR ==> {
                    let j = old(self).spec_entry(ws).obj as int;
                    exists|idx: int|
                        {
                            &&& 0 <= idx < items.len()
                            &&& (#[trigger] items[idx]).cookie == cookie
                            &&& forall|x: int| 0 <= x < idx ==> (#[trigger] items[x]).cookie
                                != cookie
                            &&& final(self).entries == old(self).entries
                            &&& final(self).objects@.len() == old(self).objects@.len()
                            &&& forall|x: int|
                                0 <= x < old(self).objects@.len() && x != j
                                    ==> final(self).objects@[x] == old(self).objects@[x]
                            &&& final(self).objects@[j].refs == old(self).objects@[j].refs
                            &&& final(self).objects@[j].kind is WaitRegistry
                            &&& final(self).objects@[j].kind->WaitRegistry_0@ == items.remove(idx)
                            &&& final(self).closes == old(self).closes
                            &&& final(self).now == old(self).now
                        }
                }
            },
    {
        let e = match self.lookup(ws) {
            None => {
                return ERR_BAD_HANDLE;
            },
            Some(e) => e,
        };
        let eobj = e.obj;
        let is_ws = match &self.objects[eobj].kind {
            ObjKind::WaitRegistry(_) => true,
            _ => false,
        };
        if !is_ws {
            return ERR_WRONG_TYPE;
        }
        if e.rights & MX_RIGHT_WRITE != MX_RIGHT_WRITE {
            return ERR_ACCESS_DENIED;
        }
        let mut found_at: usize = 0;
        let mut found = false;
        match &self.objects[eobj].kind {
            ObjKind::WaitRegistry(items) => {
                let m = items.len();
                let mut i: usize = 0;
                while i < m && !found
                    invariant
                        i <= m,
                        !found ==> forall|x: int|
                            0 <= x < i ==> (#[trigger] items@[x]).cookie != cookie,
                        found ==> found_at < i && items@[found_at as int].cookie == cookie
                            && forall|x: int|
                            0 <= x < found_at ==> (#[trigger] items@[x]).cookie != cookie,
                    decreases m - i,
                {
                    if items[i].cookie == cookie {
                        found = true;
                        found_at = i;
                    }
                    i = i + 1;
                }
                proof {
                    assert(items@ == self.spec_ws_items(ws));
                    if !found {
                        assert forall|x: int|
                            0 <= x < self.spec_ws_items(ws).len() implies (
                        #[trigger] self.spec_ws_items(ws)[x]).cookie != cookie by {
                            assert(items@[x].cookie != cookie);
                        }
                    }
                }
            },
            _ => {},
        }
        if !found {
            return ERR_NOT_FOUND;
        }
        let ghost pre = *self;
        let o = &mut self.objects[eobj];
        match &mut o.kind {
            ObjKind::WaitRegistry(items) => {
                let _ = items.remove(found_at);
            },
            _ => {},
        }
        proof {
            lemma_nonchan_update_wf(pre.objects@, self.objects@, eobj as int);
            let items0 = pre.spec_ws_items(ws);
            let idx = found_at as int;
            assert(0 <= idx < items0.len());
            assert(items0[idx].cookie == cookie);
            assert(self.objects@[eobj as int].kind->WaitRegistry_0@ == items0.remove(idx));
        }
        NO_ERROR
    }

    /// Poll the wait set: every registration that is ready right now (or
    /// whose watched handle is gone, or whose mask can never be satisfied)
    /// yields one entry, in registration order. With none ready the
    /// deadline elapses (the model has no concurrent actor that could make
    /// one ready while a caller blocks).
    #[verifier::loop_isolation(false)]
    pub fn waitset_wait(&self, ws: i32, timeout: Time) -> (r: Result<Vec<WsReady>, i32>)
        requires
            self.wf(),
        ensures
            self.spec_ws_status(ws, MX_RIGHT_READ) != NO_ERROR ==> r == Result::<
                Vec<WsReady>,
                i32,
            >::Err(self.spec_ws_status(ws, MX_RIGHT_READ)),
            self.spec_ws_status(ws, MX_RIGHT_READ) == NO_ERROR ==> {
                let ready = spec_ws_results(*self, self.spec_ws_items(ws));
                &&& ready.len() == 0 ==> r == Result::<Vec<WsReady>, i32>::Err(ERR_TIMED_OUT)
                &&& ready.len() > 0 ==> r is Ok && r->Ok_0@ == ready
            },
    {
        let _ = timeout;
        let e = match self.lookup(ws) {
            None => {
                return Err(ERR_BAD_HANDLE);
            },
            Some(e) => e,
        };
        let eobj = e.obj;
        let is_ws = match &self.objects[eobj].kind {
            ObjKind::WaitRegistry(_) => true,
            _ => false,
        };
        if !is_ws {
            return Err(ERR_WRONG_TYPE);
        }
        if e.rights & MX_RIGHT_READ != MX_RIGHT_READ {
            return Err(ERR_ACCESS_DENIED);
        }
        let mut out: Vec<WsReady> = Vec::new();
        match &self.objects[eobj].kind {
            ObjKind::WaitRegistry(items) => {
                let m = items.len();
                let mut i: usize = 0;
                while i < m
                    invariant
                        i <= m,
                        out@ == spec_ws_results(*self, items@.subrange(0, i as int)),
                    decreases m - i,
                {
                    let it = items[i];
                    match self.lookup(it.watched) {
                        None => {
                            out.push(
                                WsReady {
                                    cookie: it.cookie,
                                    status: ERR_HANDLE_CLOSED,
                                    state: SignalsState { satisfied: 0, satisfiable: 0 },
                                },
                            );
                        },
                        Some(we) => {
                            let st = obj_signals(&self.objects[we.obj]);
                            if st.satisfied & it.signals != 0 {
                                out.push(
                                    WsReady { cookie: it.cookie, status: NO_ERROR, state: st },
                                );
                            } else if st.satisfiable & it.signals == 0 {
                                out.push(
                                    WsReady { cookie: it.cookie, status: ERR_BAD_STATE, state: st },
                                );
                            }
                        },
                    }
                    proof {
                        assert(items@.subrange(0, i + 1).drop_last() =~= items@.subrange(
                            0,
                            i as int,
                        ));
                        assert(items@.subrange(0, i + 1).last() == items@[i as int]);
                    }
                    i = i + 1;
                }
                proof {
                    assert(items@.subrange(0, m as int) =~= items@);
                }
            },
            _ => {},
        }
        if out.len() == 0 {
            return Err(ERR_TIMED_OUT);
        }
        Ok(out)
    }
}

/// No raw value occurs twice among `hs`, except the invalid value zero.
pub open spec fn spec_handles_distinct(hs: Seq<i32>) -> bool {
    forall|i: int, j: int| 0 <= i < j < hs.len() ==> hs[i] == 0 || hs[i] != hs[j]
}

/// None of `hs` names a live handle of `k`.
pub open spec fn spec_handles_clean(k: Kernel, hs: Seq<i32>) -> bool {
    forall|i: int| 0 <= i < hs.len() ==> !k.spec_is_valid(#[trigger] hs[i])
}

/// How many of `hs` name live handles of `k`.
pub open spec fn spec_live_count(k: Kernel, hs: Seq<i32>) -> nat
    decreases hs.len(),
{
    if hs.len() == 0 {
        0
    } else {
        spec_live_count(k, hs.drop_last()) + if k.spec_is_valid(hs.last()) {
            1nat
        } else {
            0nat
        }
    }
}

/// A clean sequence has live count zero.
pub proof fn lemma_clean_live_count(k: Kernel, hs: Seq<i32>)
    requires
        spec_handles_clean(k, hs),
    ensures
        spec_live_count(k, hs) == 0,
    decreases hs.len(),
{
    if hs.len() > 0 {
        assert(spec_handles_clean(k, hs.drop_last()));
        lemma_clean_live_count(k, hs.drop_last());
        assert(!k.spec_is_valid(hs[hs.len() - 1]));
    }
}

fn obj_signals(o: &Object) -> (r: SignalsState)
    ensures
        r == spec_obj_signals(*o),
{
    match &o.kind {
        ObjKind::Channel(c) => {
            let readable: u32 = if c.queue.len() > 0 {
                MX_CHANNEL_READABLE
            } else {
                0
            };
            SignalsState {
                satisfied: readable | (if c.peer_open {
                    MX_CHANNEL_WRITABLE
                } else {
                    MX_CHANNEL_PEER_CLOSED
                }),
                satisfiable: if c.peer_open {
                    MX_CHANNEL_READABLE | MX_CHANNEL_WRITABLE | MX_CHANNEL_PEER_CLOSED
                } else {
                    readable | MX_CHANNEL_PEER_CLOSED
                },
            }
        },
        _ => SignalsState { satisfied: 0, satisfiable: 0 },
    }
}

} // verus!
