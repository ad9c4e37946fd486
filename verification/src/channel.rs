use vstd::prelude::*;

use conv::ValueInto;

use crate::handle::Handle;
use crate::handle::HandleBase;
use crate::handle::HandleRef;
use crate::handle::INVALID_HANDLE;
use crate::handle::Peered;
use crate::kernel::Kernel;
use crate::kernel::ReadOutcome;
use crate::kernel::spec_handles_clean;
use crate::kernel::spec_handles_distinct;
use crate::kernel::spec_live_count;
use crate::kernel::lemma_clean_live_count;
use crate::status::ERR_BUFFER_TOO_SMALL;
use crate::status::ERR_OUT_OF_RANGE;
use crate::status::NO_ERROR;
use crate::status::Status;

verus! {

/// The raw handle values of a sequence of owned handles.
pub open spec fn spec_raws(s: Seq<Handle>) -> Seq<i32> {
    s.map_values(|h: Handle| h.spec_raw())
}

/// Relies on conv's `ValueInto` conversion from `usize` to `u32`: it is
/// value-preserving and succeeds exactly when the value fits.
#[verifier::external_body]
fn usize_to_u32(n: usize) -> (r: Option<u32>)
    ensures
        n <= u32::MAX ==> r == Some(n as u32),
        n > u32::MAX ==> r is None,
{
    n.value_into().ok()
}

/// Options for creating a channel.
pub enum ChannelOpts {
    /// A normal channel.
    Normal,
}

impl Default for ChannelOpts {
    fn default() -> (r: Self)
        ensures
            r is Normal,
    {
        ChannelOpts::Normal
    }
}

/// A typed message-channel endpoint: a single owned handle, freely and
/// explicitly interconvertible with the untyped [`Handle`].
pub struct Channel(Handle);

impl HandleBase for Channel {
    closed spec fn raw_spec(&self) -> i32 {
        self.0.spec_raw()
    }

    fn get_ref(&self) -> (r: HandleRef<'_>) {
        self.0.get_ref()
    }

    fn from_handle(handle: Handle) -> (r: Self) {
        Channel(handle)
    }
}

impl Peered for Channel {

}

/// A buffer for receiving messages from a channel: a byte payload and the
/// handles that arrived with it, each handle slot yielding ownership at
/// most once. The buffer's logical capacities only ever grow.
pub struct MessageBuf {
    bytes: Vec<u8>,
    handles: Vec<i32>,
    byte_cap: usize,
    handle_cap: usize,
}

/// The abstract value of a [`MessageBuf`]: its payload, its handle slots
/// (zero marks a slot already taken), and its two capacities.
pub ghost struct MessageBufView {
    pub bytes: Seq<u8>,
    pub handles: Seq<i32>,
    pub byte_cap: nat,
    pub handle_cap: nat,
}

impl View for MessageBuf {
    type V = MessageBufView;

    closed spec fn view(&self) -> MessageBufView {
        MessageBufView {
            bytes: self.bytes@,
            handles: self.handles@,
            byte_cap: self.byte_cap as nat,
            handle_cap: self.handle_cap as nat,
        }
    }
}

impl MessageBuf {
    /// A buffer holds each raw value at most once (taken slots are zero),
    /// so that closing its remaining handles counts each exactly once.
    pub open spec fn wf(self) -> bool {
        &&& spec_handles_distinct(self@.handles)
        &&& self@.byte_cap <= usize::MAX
        &&& self@.handle_cap <= usize::MAX
    }

    /// Create a new, empty message buffer with no capacity.
    pub fn new() -> (r: Self)
        ensures
            r.wf(),
            r@.bytes.len() == 0,
            r@.handles.len() == 0,
            r@.byte_cap == 0,
            r@.handle_cap == 0,
    {
        MessageBuf { bytes: Vec::new(), handles: Vec::new(), byte_cap: 0, handle_cap: 0 }
    }

    /// Ensure the buffer can receive at least `n_bytes` bytes; the
    /// capacity never shrinks.
    pub fn ensure_capacity_bytes(&mut self, n_bytes: usize)
        requires
            old(self).wf(),
        ensures
            final(self).wf(),
            final(self)@.bytes == old(self)@.bytes,
            final(self)@.handles == old(self)@.handles,
            final(self)@.handle_cap == old(self)@.handle_cap,
            final(self)@.byte_cap == if n_bytes > old(self)@.byte_cap {
                n_bytes as nat
            } else {
                old(self)@.byte_cap
            },
    {
        if n_bytes > self.byte_cap {
            self.byte_cap = n_bytes;
        }
        crate::pipe::ensure_capacity(&mut self.bytes, n_bytes);
    }

    /// Ensure the buffer can receive at least `n_handles` handles; the
    /// capacity never shrinks.
    pub fn ensure_capacity_handles(&mut self, n_handles: usize)
        requires
            old(self).wf(),
        ensures
            final(self).wf(),
            final(self)@.bytes == old(self)@.bytes,
            final(self)@.handles == old(self)@.handles,
            final(self)@.byte_cap == old(self)@.byte_cap,
            final(self)@.handle_cap == if n_handles > old(self)@.handle_cap {
                n_handles as nat
            } else {
                old(self)@.handle_cap
            },
    {
        if n_handles > self.handle_cap {
            self.handle_cap = n_handles;
        }
        crate::pipe::ensure_capacity(&mut self.handles, n_handles);
    }

    /// The received payload.
    pub fn bytes(&self) -> (r: &[u8])
        ensures
            r@ == self@.bytes,
    {
        self.bytes.as_slice()
    }

    /// How many handles arrived with the message. Taking a handle does
    /// not change this count.
    pub fn n_handles(&self) -> (r: usize)
        ensures
            r == self@.handles.len(),
    {
        self.handles.len()
    }

    /// Take ownership of the handle at `index`: the first call yields it
    /// and marks the slot taken; any later call with the same index, or an
    /// index out of range, reports absence and never yields a duplicate.
    pub fn take_handle(&mut self, index: usize) -> (r: Option<Handle>)
        requires
            old(self).wf(),
        ensures
            final(self).wf(),
            final(self)@.bytes == old(self)@.bytes,
            final(self)@.byte_cap == old(self)@.byte_cap,
            final(self)@.handle_cap == old(self)@.handle_cap,
            final(self)@.handles.len() == old(self)@.handles.len(),
            index >= old(self)@.handles.len() ==> r is None && final(self)@.handles == old(self)@.handles,
            index < old(self)@.handles.len() ==> {
                let h0 = old(self)@.handles[index as int];
                &&& (h0 == INVALID_HANDLE ==> r is None && final(self)@.handles == old(self)@.handles)
                &&& (h0 != INVALID_HANDLE ==> r is Some && r->Some_0.spec_raw() == h0
                    && final(self)@.handles == old(self)@.handles.update(
                    index as int,
                    INVALID_HANDLE,
                ))
            },
    {
        if index >= self.handles.len() {
            return None;
        }
        let h = self.handles[index];
        if h == INVALID_HANDLE {
            None
        } else {
            self.handles[index] = INVALID_HANDLE;
            Some(Handle::from_raw(h))
        }
    }

    /// Close every handle still held by the buffer: exactly one close per
    /// untaken slot, none for slots already taken, and no other live
    /// handle is touched. The slots themselves are left as they are.
    pub fn drop_handles(&self, k: &mut Kernel)
        requires
            old(k).wf(),
            self.wf(),
        ensures
            final(k).wf(),
            final(k).now == old(k).now,
            final(k).entries@.len() == old(k).entries@.len(),
            final(k).closes@ == old(k).closes@ + spec_live_count(*old(k), self@.handles),
            forall|y: i32|
                old(k).spec_is_valid(y) && !self@.handles.contains(y) ==> final(k).spec_is_valid(y)
                    && final(k).spec_entry(y) == old(k).spec_entry(y),
            forall|x: int|
                0 <= x < self@.handles.len() ==> !final(k).spec_is_valid(
                    #[trigger] self@.handles[x],
                ),
            forall|h: i32|
                1 <= h && h - 1 < old(k).entries@.len() && !(#[trigger] old(k).spec_is_valid(h))
                    ==> !final(k).spec_is_valid(h),
            spec_handles_clean(*old(k), self@.handles) ==> *final(k) == *old(k),
    {
        let ghost pre = *k;
        let n = self.handles.len();
        let mut i: usize = 0;
        while i < n
            invariant
                i <= n,
                n == self@.handles.len(),
                self.wf(),
                pre.wf(),
                k.wf(),
                k.now == pre.now,
                k.entries@.len() == pre.entries@.len(),
                k.closes@ == pre.closes@ + spec_live_count(pre, self@.handles.subrange(0, i as int)),
                forall|y: int|
                    0 <= y < pre.entries@.len() && !(exists|x: int|
                        0 <= x < i && self@.handles[x] - 1 == y) ==> k.entries@[y]
                        == pre.entries@[y],
                forall|x: int|
                    0 <= x < i ==> !k.spec_is_valid(#[trigger] self@.handles[x]),
                spec_handles_clean(pre, self@.handles) ==> *k == pre,
            decreases n - i,
        {
            let ghost kprev = *k;
            let h = self.handles[i];
            if h != INVALID_HANDLE {
                let _ = k.handle_close(h);
            }
            proof {
                assert(self@.handles.subrange(0, i + 1).drop_last() =~= self@.handles.subrange(
                    0,
                    i as int,
                ));
                assert(self@.handles.subrange(0, i + 1).last() == self@.handles[i as int]);
                // the prefix facts say this handle's slot was untouched so
                // far, so its liveness now matches its liveness in `pre`
                if h != INVALID_HANDLE && 1 <= h && h - 1 < pre.entries@.len() {
                    assert(kprev.entries@[h - 1] == pre.entries@[h - 1]);
                }
            }
            i = i + 1;
        }
        proof {
            assert(self@.handles.subrange(0, n as int) =~= self@.handles);
            if spec_handles_clean(pre, self@.handles) {
                lemma_clean_live_count(pre, self@.handles);
            }
            // a handle already stale at entry is still stale: its slot was
            // either untouched or spent again by one of the closes
            assert forall|h: i32|
                1 <= h && h - 1 < pre.entries@.len() && !(#[trigger] pre.spec_is_valid(h))
                    implies !k.spec_is_valid(h) by {
                let y = h - 1;
                if exists|x: int| 0 <= x < n && self@.handles[x] - 1 == y {
                    let x = choose|x: int| 0 <= x < n && self@.handles[x] - 1 == y;
                    assert(!k.spec_is_valid(self@.handles[x]));
                } else {
                    assert(k.entries@[y] == pre.entries@[y]);
                }
            }
        }
    }

    /// Close every handle still held, then clear both the byte region
    /// and the handle region; called at the start of every read so no
    /// stale handle or payload leaks across reuse of the buffer.
    pub fn reset_handles(&mut self, k: &mut Kernel)
        requires
            old(k).wf(),
            old(self).wf(),
        ensures
            final(self).wf(),
            final(k).wf(),
            final(k).now == old(k).now,
            final(k).entries@.len() == old(k).entries@.len(),
            final(self)@.bytes.len() == 0,
            final(self)@.byte_cap == old(self)@.byte_cap,
            final(self)@.handle_cap == old(self)@.handle_cap,
            final(self)@.handles.len() == 0,
            final(k).closes@ == old(k).closes@ + spec_live_count(*old(k), old(self)@.handles),
            forall|y: i32|
                old(k).spec_is_valid(y) && !old(self)@.handles.contains(y)
                    ==> final(k).spec_is_valid(y) && final(k).spec_entry(y) == old(k).spec_entry(
                    y,
                ),
            forall|x: int|
                0 <= x < old(self)@.handles.len() ==> !final(k).spec_is_valid(
                    #[trigger] old(self)@.handles[x],
                ),
            forall|h: i32|
                1 <= h && h - 1 < old(k).entries@.len() && !(#[trigger] old(k).spec_is_valid(h))
                    ==> !final(k).spec_is_valid(h),
            spec_handles_clean(*old(k), old(self)@.handles) ==> *final(k) == *old(k),
    {
        self.drop_handles(k);
        self.bytes.clear();
        self.handles.clear();
    }
}

impl Channel {
    /// Create a connected pair of channel endpoints atomically: messages
    /// written into one may be read from the other. Failure (only table
    /// exhaustion) leaves no partial state.
    pub fn create(k: &mut Kernel, opts: ChannelOpts) -> (r: Result<(Channel, Channel), Status>)
        requires
            old(k).wf(),
        ensures
            final(k).wf(),
            r is Err <==> old(k).entries@.len() + 2 > crate::kernel::MAX_HANDLES || old(
                k,
            ).objects@.len() + 2 > crate::kernel::MAX_OBJECTS,
            r is Err ==> *final(k) == *old(k) && r->Err_0 == Status(
                crate::status::ERR_NO_RESOURCES,
            ),
            r is Ok ==> old(k).spec_create_post(
                *final(k),
                0,
                r->Ok_0.0.raw_spec(),
                r->Ok_0.1.raw_spec(),
            ),
    {
        let flags: u32 = match opts {
            ChannelOpts::Normal => 0,
        };
        let (st, h0, h1) = k.channel_create(flags);
        if st != NO_ERROR {
            Err(Status(st))
        } else {
            Ok((Channel(Handle::from_raw(h0)), Channel(Handle::from_raw(h1))))
        }
    }

    /// One receive attempt against the buffer's current capacities. A
    /// pending message too large for them yields `Err` with the exact
    /// byte and handle counts needed, leaving the message pending for a
    /// retry; otherwise the kernel outcome is returned as usual. Any
    /// stale handles in the buffer are closed first.
    pub fn read_raw(&self, k: &mut Kernel, opts: u32, buf: &mut MessageBuf) -> (r: Result<
        Result<(), Status>,
        (usize, usize),
    >)
        requires
            old(k).wf(),
            old(buf).wf(),
        ensures
            final(k).wf(),
            final(buf).wf(),
            final(k).now == old(k).now,
            final(buf)@.byte_cap == old(buf)@.byte_cap,
            final(buf)@.handle_cap == old(buf)@.handle_cap,
            // whatever the buffer held: the reset closed exactly its live
            // handles, none is live afterwards, no stale handle revives,
            // and the table only grows
            final(k).closes@ == old(k).closes@ + spec_live_count(*old(k), old(buf)@.handles),
            final(k).entries@.len() >= old(k).entries@.len(),
            forall|x: int|
                0 <= x < old(buf)@.handles.len() && old(k).spec_is_valid(
                    #[trigger] old(buf)@.handles[x],
                ) ==> !final(k).spec_is_valid(old(buf)@.handles[x]),
            forall|h: i32|
                1 <= h && h - 1 < old(k).entries@.len() && !(#[trigger] old(k).spec_is_valid(h))
                    ==> !final(k).spec_is_valid(h),
            // a kernel failure surfaces 1:1 and is never the capacity
            // probe's code, which has its own outcome
            r matches Ok(Err(e)) ==> e.0 != NO_ERROR && e.0 != ERR_BUFFER_TOO_SMALL,
            // the probe never discards a pending message: on a too-small
            // outcome the kernel is left exactly as the buffer reset left
            // it, and the reported counts are the pending message's
            r matches Err((nb, nh)) ==> {
                &&& final(k).spec_is_valid(self.raw_spec())
                &&& final(k).spec_obj_of(self.raw_spec()).kind is Channel
                &&& final(k).spec_obj_of(self.raw_spec()).kind->Channel_0.queue@.len() > 0
                &&& final(k).spec_obj_of(self.raw_spec()).kind->Channel_0.queue@[0].bytes@.len()
                    == nb
                &&& final(k).spec_obj_of(self.raw_spec()).kind->Channel_0.queue@[0].handles@.len()
                    == nh
                &&& (nb > final(buf)@.byte_cap || nh > final(buf)@.handle_cap)
                &&& final(k).spec_entry(self.raw_spec()).rights & crate::signals::MX_RIGHT_READ
                    != 0
                &&& final(buf)@.handles.len() == 0
                &&& final(buf)@.bytes.len() == 0
            },
            // with no stale handles to close, the whole call is pinned
            // down exactly by the kernel's receive contract
            spec_handles_clean(*old(k), old(buf)@.handles) ==> ({
                let st = old(k).spec_read_status(
                    self.raw_spec(),
                    old(buf)@.byte_cap as usize,
                    old(buf)@.handle_cap as usize,
                );
                &&& (st == NO_ERROR ==> r == Result::<Result<(), Status>, (usize, usize)>::Ok(
                    Ok(()),
                ) && old(k).spec_read_post(
                    *final(k),
                    self.raw_spec(),
                    final(buf)@.bytes,
                    final(buf)@.handles,
                ))
                &&& (st == ERR_BUFFER_TOO_SMALL ==> r is Err && *final(k) == *old(k))
                &&& (st != NO_ERROR && st != ERR_BUFFER_TOO_SMALL ==> r
                    == Result::<Result<(), Status>, (usize, usize)>::Ok(Err(Status(st))) && *final(k) == *old(k) && final(buf)@.bytes.len() == 0)
            }),
    {
        let _ = opts;
        buf.reset_handles(k);
        let ghost kmid = *k;
        let ghost bc = buf@.byte_cap as usize;
        let ghost hc = buf@.handle_cap as usize;
        match k.channel_read(self.raw_handle(), buf.byte_cap, buf.handle_cap) {
            ReadOutcome::Msg(bytes, raws) => {
                buf.bytes = bytes;
                buf.handles = raws;
                proof {
                    assert forall|i: int, j: int|
                        0 <= i < j < buf@.handles.len() implies buf@.handles[i] == 0
                        || buf@.handles[i] != buf@.handles[j] by {
                        assert(buf@.handles[i] != buf@.handles[j]);
                    }
                    // delivery only appends fresh slots, so handles dead
                    // after the reset are still dead
                    assert forall|h: i32|
                        1 <= h && h - 1 < kmid.entries@.len() && !(#[trigger] kmid.spec_is_valid(
                            h,
                        )) implies !k.spec_is_valid(h) by {
                        assert(k.entries@[h - 1] == kmid.entries@[h - 1]);
                    }
                }
                Ok(Ok(()))
            },
            ReadOutcome::TooSmall(nb, nh) => {
                proof {
                    let st = kmid.spec_read_status(self.raw_spec(), bc, hc);
                    assert(st == ERR_BUFFER_TOO_SMALL);
                    assert(*k == kmid);
                    assert(nb == kmid.spec_obj_of(
                        self.raw_spec(),
                    ).kind->Channel_0.queue@[0].bytes@.len());
                    assert(nh == kmid.spec_obj_of(
                        self.raw_spec(),
                    ).kind->Channel_0.queue@[0].handles@.len());
                }
                Err((nb, nh))
            },
            ReadOutcome::Fail(st) => {
                proof {
                    let code = kmid.spec_read_status(self.raw_spec(), bc, hc);
                    assert(st == code && code != NO_ERROR && code != ERR_BUFFER_TOO_SMALL);
                }
                Ok(Err(Status(st)))
            },
        }
    }

    /// Read a message, growing the buffer as the probe-then-retry
    /// protocol demands: a too-small probe reports the exact required
    /// capacities, the buffer grows to at least them, and the retry reads
    /// the same still-pending message. The loop terminates because the
    /// pending message does not change between probe and retry: no
    /// concurrent writer exists in the model (with real concurrency,
    /// the absence of antagonistic writers is an external precondition
    /// of the protocol, not enforced locally).
    pub fn read(&self, k: &mut Kernel, opts: u32, buf: &mut MessageBuf) -> (r: Result<(), Status>)
        requires
            old(k).wf(),
            old(buf).wf(),
        ensures
            final(k).wf(),
            final(buf).wf(),
            final(k).now == old(k).now,
            // whatever the buffer held at entry: exactly its live handles
            // were closed by the reset, none of them is live afterwards,
            // no stale handle revives, and the table only grows
            final(k).closes@ == old(k).closes@ + spec_live_count(*old(k), old(buf)@.handles),
            final(k).entries@.len() >= old(k).entries@.len(),
            forall|x: int|
                0 <= x < old(buf)@.handles.len() && old(k).spec_is_valid(
                    #[trigger] old(buf)@.handles[x],
                ) ==> !final(k).spec_is_valid(old(buf)@.handles[x]),
            forall|h: i32|
                1 <= h && h - 1 < old(k).entries@.len() && !(#[trigger] old(k).spec_is_valid(h))
                    ==> !final(k).spec_is_valid(h),
            // the capacity retry is internal: a failure is a kernel
            // failure propagated 1:1 and never the capacity probe's code
            r is Err ==> r->Err_0.0 != NO_ERROR && r->Err_0.0 != ERR_BUFFER_TOO_SMALL,
            spec_handles_clean(*old(k), old(buf)@.handles) ==> ({
                let st = old(k).spec_read_status(
                    self.raw_spec(),
                    old(buf)@.byte_cap as usize,
                    old(buf)@.handle_cap as usize,
                );
                &&& (st != NO_ERROR && st != ERR_BUFFER_TOO_SMALL ==> r == Result::<(), Status>::Err(
                    Status(st),
                ) && *final(k) == *old(k))
                &&& (st == NO_ERROR ==> r is Ok && old(k).spec_read_post(
                    *final(k),
                    self.raw_spec(),
                    final(buf)@.bytes,
                    final(buf)@.handles,
                ))
                &&& (st == ERR_BUFFER_TOO_SMALL ==> {
                    let front = old(k).spec_obj_of(self.raw_spec()).kind->Channel_0.queue@[0];
                    let st2 = old(k).spec_read_status(
                        self.raw_spec(),
                        front.bytes@.len() as usize,
                        front.handles@.len() as usize,
                    );
                    &&& (st2 == NO_ERROR ==> r is Ok && old(k).spec_read_post(
                        *final(k),
                        self.raw_spec(),
                        final(buf)@.bytes,
                        final(buf)@.handles,
                    ))
                    &&& (st2 != NO_ERROR ==> r == Result::<(), Status>::Err(Status(st2)) && *final(k) == *old(k))
                })
            }),
    {
        match self.read_raw(k, opts, buf) {
            Ok(result) => result,
            Err((num_bytes, num_handles)) => {
                let ghost k1 = *k;
                buf.ensure_capacity_bytes(num_bytes);
                buf.ensure_capacity_handles(num_handles);
                match self.read_raw(k, opts, buf) {
                    Ok(result) => result,
                    Err(_) => {
                        proof {
                            // the retry offered at least the reported
                            // counts, so the probe cannot report too-small
                            // again
                            assert(spec_handles_clean(k1, Seq::<i32>::empty()));
                            assert(k1.spec_read_status(
                                self.raw_spec(),
                                num_bytes,
                                num_handles,
                            ) != ERR_BUFFER_TOO_SMALL);
                            assert(false);
                        }
                        Err(Status(ERR_BUFFER_TOO_SMALL))
                    },
                }
            },
        }
    }

    /// Write a message: the payload and ownership of every handle in
    /// `handles` go to the peer. On success the caller's collection is
    /// emptied (ownership relinquished, no double close); on any failure
    /// the kernel and the collection are unchanged, and the caller keeps
    /// every handle, each still independently closable. Counts beyond the
    /// transport's 32-bit limit fail fast as out of range.
    #[verifier::loop_isolation(false)]
    pub fn write(&self, k: &mut Kernel, bytes: &[u8], handles: &mut Vec<Handle>, opts: u32) -> (r:
        Result<(), Status>)
        requires
            old(k).wf(),
        ensures
            final(k).wf(),
            bytes@.len() > u32::MAX || old(handles)@.len() > u32::MAX ==> r == Result::<
                (),
                Status,
            >::Err(Status(ERR_OUT_OF_RANGE)) && *final(k) == *old(k) && *final(handles) == *old(handles),
            bytes@.len() <= u32::MAX && old(handles)@.len() <= u32::MAX ==> ({
                let st = old(k).spec_write_status(self.raw_spec(), spec_raws(old(handles)@));
                &&& (st == NO_ERROR ==> r is Ok && final(handles)@.len() == 0 && old(k).spec_write_post(
                    *final(k),
                    self.raw_spec(),
                    bytes@,
                    spec_raws(old(handles)@),
                ))
                &&& (st != NO_ERROR ==> r == Result::<(), Status>::Err(Status(st)) && *final(k)
                    == *old(k) && *final(handles) == *old(handles))
            }),
    {
        let _ = opts;
        if usize_to_u32(bytes.len()).is_none() {
            return Err(Status(ERR_OUT_OF_RANGE));
        }
        if usize_to_u32(handles.len()).is_none() {
            return Err(Status(ERR_OUT_OF_RANGE));
        }
        let n = handles.len();
        let mut raws: Vec<i32> = Vec::new();
        let mut i: usize = 0;
        while i < n
            invariant
                i <= n,
                raws@.len() == i,
                forall|x: int| 0 <= x < i ==> raws@[x] == spec_raws(handles@)[x],
            decreases n - i,
        {
            let raw = handles[i].raw_handle();
            raws.push(raw);
            i = i + 1;
        }
        proof {
            assert(raws@ =~= spec_raws(handles@));
        }
        let st = k.channel_write(self.raw_handle(), bytes, &raws);
        if st == NO_ERROR {
            handles.clear();
            Ok(())
        } else {
            Err(Status(st))
        }
    }
}

} // verus!
