use vstd::prelude::*;

use crate::handle::Handle;
use crate::handle::HandleBase;
use crate::handle::HandleRef;
use crate::handle::Peered;
use crate::kernel::Kernel;
use crate::kernel::MX_TIME_INFINITE;
use crate::kernel::ReadOutcome;
use crate::kernel::Time;
use crate::kernel::spec_handles_clean;
use crate::kernel::spec_handles_distinct;
use crate::kernel::spec_live_count;
use crate::kernel::lemma_clean_live_count;
use crate::channel::spec_raws;
use crate::status::ERR_BUFFER_TOO_SMALL;
use crate::status::ERR_OUT_OF_RANGE;
use crate::status::NO_ERROR;
use crate::status::Status;

verus! {

/// The deadline meaning "wait without a time limit".
pub const TIME_INFINITE: Time = MX_TIME_INFINITE;

/// Grow a vector's backing storage so at least `size` elements fit
/// without reallocation; the contents are untouched and storage never
/// shrinks.
pub fn ensure_capacity<T>(vec: &mut Vec<T>, size: usize)
    ensures
        final(vec)@ == old(vec)@,
{
    let len = vec.len();
    if size > len {
        vec.reserve(size - len);
    }
}

/// Clamp a size to what a 32-bit transport count can carry.
pub fn size_to_u32_sat(size: usize) -> (r: u32)
    ensures
        size <= u32::MAX ==> r == size,
        size > u32::MAX ==> r == u32::MAX,
{
    if size < u32::MAX as usize {
        size as u32
    } else {
        u32::MAX
    }
}

/// Read the kernel's monotone clock; every read observes a strictly
/// later instant than the one before, until the clock saturates.
pub fn current_time(k: &mut Kernel) -> (t: Time)
    ensures
        final(k).entries == old(k).entries,
        final(k).objects == old(k).objects,
        final(k).closes == old(k).closes,
        t == final(k).now,
        old(k).now < MX_TIME_INFINITE ==> final(k).now == old(k).now + 1,
        old(k).now == MX_TIME_INFINITE ==> final(k).now == MX_TIME_INFINITE,
{
    k.current_time()
}

/// Let `time` nanoseconds elapse on the kernel's clock.
pub fn nanosleep(k: &mut Kernel, time: Time)
    ensures
        final(k).entries == old(k).entries,
        final(k).objects == old(k).objects,
        final(k).closes == old(k).closes,
        old(k).now + time <= MX_TIME_INFINITE ==> final(k).now == old(k).now + time,
        old(k).now + time > MX_TIME_INFINITE ==> final(k).now == MX_TIME_INFINITE,
{
    k.nanosleep(time);
}

/// A buffer for receiving messages from a message pipe: a byte payload
/// and the raw handles received with it, drained in ascending order
/// through [`MessageBuf::handles`]. The buffer's logical capacities only
/// ever grow.
pub struct MessageBuf {
    bytes: Vec<u8>,
    handles: Vec<i32>,
    unused_ix: usize,
    byte_cap: usize,
    handle_cap: usize,
}

/// The abstract value of a pipe [`MessageBuf`]: its payload, the handle
/// values not yet drained, and its two capacities.
pub ghost struct PipeBufView {
    pub bytes: Seq<u8>,
    pub handles: Seq<i32>,
    pub byte_cap: nat,
    pub handle_cap: nat,
}

impl View for MessageBuf {
    type V = PipeBufView;

    closed spec fn view(&self) -> PipeBufView {
        PipeBufView {
            bytes: self.bytes@,
            handles: self.handles@.skip(self.unused_ix as int),
            byte_cap: self.byte_cap as nat,
            handle_cap: self.handle_cap as nat,
        }
    }
}

impl MessageBuf {
    /// The buffer holds each raw value at most once (so that closing its
    /// remaining handles counts each exactly once), and its drained
    /// prefix never runs past its end.
    pub closed spec fn wf(self) -> bool {
        &&& spec_handles_distinct(self.handles@)
        &&& self.unused_ix <= self.handles@.len()
    }

    /// Create a new, empty message buffer with no capacity.
    pub fn new() -> (r: Self)
        ensures
            r.wf(),
            r@.bytes.len() == 0,
            r@.handles.len() == 0,
            r@.byte_cap == 0,
            r@.handle_cap == 0,
    {
        MessageBuf {
            bytes: Vec::new(),
            handles: Vec::new(),
            unused_ix: 0,
            byte_cap: 0,
            handle_cap: 0,
        }
    }

    /// The received payload.
    pub fn bytes(&self) -> (r: &[u8])
        ensures
            r@ == self@.bytes,
    {
        self.bytes.as_slice()
    }

    /// How many received handles have not been drained yet.
    pub fn n_handles(&self) -> (r: usize)
        requires
            self.wf(),
        ensures
            r == self@.handles.len(),
    {
        self.handles.len() - self.unused_ix
    }

    /// Drain the remaining handles into a single-pass iterator that
    /// yields each exactly once, in ascending index order. The buffer
    /// keeps none of them; handles left in an unfinished iterator are the
    /// iterator's to close.
    pub fn handles(&mut self) -> (r: HandleIter)
        requires
            old(self).wf(),
        ensures
            final(self).wf(),
            r.wf(),
            final(self)@.handles.len() == 0,
            final(self)@.bytes == old(self)@.bytes,
            final(self)@.byte_cap == old(self)@.byte_cap,
            final(self)@.handle_cap == old(self)@.handle_cap,
            r@ == old(self)@.handles,
    {
        let drained = self.handles.split_off(self.unused_ix);
        HandleIter { items: drained, pos: 0 }
    }

    /// Close every handle still held by the buffer: exactly one close per
    /// remaining handle and no other live handle is touched.
    pub fn drop_handles(&self, k: &mut Kernel)
        requires
            old(k).wf(),
            self.wf(),
        ensures
            final(k).wf(),
            final(k).now == old(k).now,
            final(k).entries@.len() == old(k).entries@.len(),
            final(k).closes@ == old(k).closes@ + spec_live_count(*old(k), self@.handles),
            forall|y: i32|
                old(k).spec_is_valid(y) && !self@.handles.contains(y)
                    ==> final(k).spec_is_valid(y) && final(k).spec_entry(y) == old(k).spec_entry(
                    y,
                ),
            forall|x: int|
                0 <= x < self@.handles.len() ==> !final(k).spec_is_valid(
                    #[trigger] self@.handles[x],
                ),
            forall|h: i32|
                1 <= h && h - 1 < old(k).entries@.len() && !(#[trigger] old(k).spec_is_valid(h))
                    ==> !final(k).spec_is_valid(h),
            spec_handles_clean(*old(k), self@.handles) ==> *final(k) == *old(k),
    {
        let ghost pre = *k;
        let n = self.handles.len();
        let ghost hs = self@.handles;
        let mut i: usize = self.unused_ix;
        proof {
            assert(hs.subrange(0, 0) =~= Seq::<i32>::empty());
        }
        while i < n
            invariant
                self.unused_ix <= i <= n,
                n == self.handles@.len(),
                hs == self.handles@.skip(self.unused_ix as int),
                self.wf(),
                pre.wf(),
                k.wf(),
                k.now == pre.now,
                k.entries@.len() == pre.entries@.len(),
                k.closes@ == pre.closes@ + spec_live_count(
                    pre,
                    hs.subrange(0, i - self.unused_ix),
                ),
                forall|y: int|
                    0 <= y < pre.entries@.len() && !(exists|x: int|
                        0 <= x < i - self.unused_ix && hs[x] - 1 == y) ==> k.entries@[y]
                        == pre.entries@[y],
                forall|x: int|
                    0 <= x < i - self.unused_ix ==> !k.spec_is_valid(#[trigger] hs[x]),
                spec_handles_clean(pre, hs) ==> *k == pre,
            decreases n - i,
        {
            let ghost kprev = *k;
            let h = self.handles[i];
            let ghost xi = i - self.unused_ix;
            let _ = k.handle_close(h);
            proof {
                assert(hs[xi] == h);
                assert(hs.subrange(0, xi + 1).drop_last() =~= hs.subrange(0, xi));
                assert(hs.subrange(0, xi + 1).last() == hs[xi]);
                if 1 <= h && h - 1 < pre.entries@.len() {
                    assert(kprev.entries@[h - 1] == pre.entries@[h - 1]);
                }
            }
            i = i + 1;
        }
        proof {
            assert(hs.subrange(0, n - self.unused_ix) =~= hs);
            if spec_handles_clean(pre, hs) {
                lemma_clean_live_count(pre, hs);
            }
            // a handle already stale at entry is still stale: its slot was
            // either untouched or spent again by one of the closes
            assert forall|h: i32|
                1 <= h && h - 1 < pre.entries@.len() && !(#[trigger] pre.spec_is_valid(h))
                    implies !k.spec_is_valid(h) by {
                let y = h - 1;
                let m = n - self.unused_ix;
                if exists|x: int| 0 <= x < m && hs[x] - 1 == y {
                    let x = choose|x: int| 0 <= x < m && hs[x] - 1 == y;
                    assert(!k.spec_is_valid(hs[x]));
                } else {
                    assert(k.entries@[y] == pre.entries@[y]);
                }
            }
        }
    }

    /// Close every handle still held, then clear both the byte region
    /// and the handle region; called at the start of every read so no
    /// stale handle or payload leaks across reuse of the buffer.
    pub fn reset_handles(&mut self, k: &mut Kernel)
        requires
            old(k).wf(),
            old(self).wf(),
        ensures
            final(self).wf(),
            final(k).wf(),
            final(k).now == old(k).now,
            final(k).entries@.len() == old(k).entries@.len(),
            final(self)@.bytes.len() == 0,
            final(self)@.byte_cap == old(self)@.byte_cap,
            final(self)@.handle_cap == old(self)@.handle_cap,
            final(self)@.handles.len() == 0,
            final(k).closes@ == old(k).closes@ + spec_live_count(*old(k), old(self)@.handles),
            forall|y: i32|
                old(k).spec_is_valid(y) && !old(self)@.handles.contains(y)
                    ==> final(k).spec_is_valid(y) && final(k).spec_entry(y) == old(k).spec_entry(
                    y,
                ),
            forall|x: int|
                0 <= x < old(self)@.handles.len() ==> !final(k).spec_is_valid(
                    #[trigger] old(self)@.handles[x],
                ),
            forall|h: i32|
                1 <= h && h - 1 < old(k).entries@.len() && !(#[trigger] old(k).spec_is_valid(h))
                    ==> !final(k).spec_is_valid(h),
            spec_handles_clean(*old(k), old(self)@.handles) ==> *final(k) == *old(k),
    {
        self.drop_handles(k);
        self.bytes.clear();
        self.handles.clear();
        self.unused_ix = 0;
    }
}

/// A lazy, single-pass, non-restartable sequence of owned handles drained
/// from a [`MessageBuf`], each yielded exactly once in ascending index
/// order.
pub struct HandleIter {
    items: Vec<i32>,
    pos: usize,
}

impl View for HandleIter {
    type V = Seq<i32>;

    closed spec fn view(&self) -> Seq<i32> {
        self.items@.skip(self.pos as int)
    }
}

impl HandleIter {
    /// Each remaining handle occurs once, and the cursor never runs past
    /// the end.
    pub closed spec fn wf(self) -> bool {
        &&& spec_handles_distinct(self@)
        &&& self.pos <= self.items@.len()
    }

    /// The next remaining handle, as an owned [`Handle`], or nothing once
    /// the sequence is exhausted.
    pub fn next(&mut self) -> (r: Option<Handle>)
        requires
            old(self).wf(),
        ensures
            final(self).wf(),
            old(self)@.len() == 0 ==> r is None && final(self)@ == old(self)@,
            old(self)@.len() > 0 ==> r is Some && r->Some_0.spec_raw() == old(self)@[0] && final(self)@ == old(self)@.skip(1),
    {
        if self.pos >= self.items.len() {
            return None;
        }
        let h = self.items[self.pos];
        self.pos = self.pos + 1;
        proof {
            assert(old(self).items@.skip(old(self).pos as int).skip(1) =~= self.items@.skip(
                self.pos as int,
            ));
        }
        Some(Handle::from_raw(h))
    }

    /// Exactly how many handles remain.
    pub fn size_hint(&self) -> (r: (usize, Option<usize>))
        requires
            self.wf(),
        ensures
            r.0 == self@.len(),
            r.1 == Some(r.0),
    {
        let size = self.items.len() - self.pos;
        (size, Some(size))
    }
}

/// A message-pipe endpoint: the legacy flavor of the channel, with the
/// single retry inside `read` and the reply-pipe write discipline.
pub struct MessagePipe(Handle);

impl HandleBase for MessagePipe {
    closed spec fn raw_spec(&self) -> i32 {
        self.0.spec_raw()
    }

    fn get_ref(&self) -> (r: HandleRef<'_>) {
        self.0.get_ref()
    }

    fn from_handle(handle: Handle) -> (r: Self) {
        MessagePipe(handle)
    }
}

impl Peered for MessagePipe {

}

impl MessagePipe {
    /// Create a connected pair of message-pipe endpoints atomically.
    /// With [`crate::MX_FLAG_REPLY_PIPE`] the second endpoint is the
    /// reply side, whose writes must carry the endpoint itself.
    pub fn create(k: &mut Kernel, flags: u32) -> (r: Result<(MessagePipe, MessagePipe), Status>)
        requires
            old(k).wf(),
        ensures
            final(k).wf(),
            r is Err <==> old(k).entries@.len() + 2 > crate::kernel::MAX_HANDLES || old(
                k,
            ).objects@.len() + 2 > crate::kernel::MAX_OBJECTS,
            r is Err ==> *final(k) == *old(k) && r->Err_0 == Status(
                crate::status::ERR_NO_RESOURCES,
            ),
            r is Ok ==> old(k).spec_create_post(
                *final(k),
                flags,
                r->Ok_0.0.raw_spec(),
                r->Ok_0.1.raw_spec(),
            ),
    {
        let (st, h0, h1) = k.channel_create(flags);
        if st != NO_ERROR {
            Err(Status(st))
        } else {
            Ok((MessagePipe(Handle::from_raw(h0)), MessagePipe(Handle::from_raw(h1))))
        }
    }

    /// Read a message, retrying once with grown capacity if the pending
    /// message did not fit: the too-small probe never discards it, so the
    /// retry reads the same message. Any stale handles in the buffer are
    /// closed first.
    pub fn read(&self, k: &mut Kernel, flags: u32, buf: &mut MessageBuf) -> (r: Result<(), Status>)
        requires
            old(k).wf(),
            old(buf).wf(),
        ensures
            final(k).wf(),
            final(buf).wf(),
            final(k).now == old(k).now,
            // whatever the buffer held at entry: exactly its live handles
            // were closed by the reset, none of them is live afterwards,
            // no stale handle revives, and the table only grows
            final(k).closes@ == old(k).closes@ + spec_live_count(*old(k), old(buf)@.handles),
            final(k).entries@.len() >= old(k).entries@.len(),
            forall|x: int|
                0 <= x < old(buf)@.handles.len() && old(k).spec_is_valid(
                    #[trigger] old(buf)@.handles[x],
                ) ==> !final(k).spec_is_valid(old(buf)@.handles[x]),
            forall|h: i32|
                1 <= h && h - 1 < old(k).entries@.len() && !(#[trigger] old(k).spec_is_valid(h))
                    ==> !final(k).spec_is_valid(h),
            // the capacity retry is internal: a failure is a kernel
            // failure propagated 1:1 and never the capacity probe's code
            r is Err ==> r->Err_0.0 != NO_ERROR && r->Err_0.0 != ERR_BUFFER_TOO_SMALL,
            spec_handles_clean(*old(k), old(buf)@.handles) ==> ({
                let st = old(k).spec_read_status(
                    self.raw_spec(),
                    old(buf)@.byte_cap as usize,
                    old(buf)@.handle_cap as usize,
                );
                &&& (st != NO_ERROR && st != ERR_BUFFER_TOO_SMALL ==> r == Result::<(), Status>::Err(
                    Status(st),
                ) && *final(k) == *old(k))
                &&& (st == NO_ERROR ==> r is Ok && old(k).spec_read_post(
                    *final(k),
                    self.raw_spec(),
                    final(buf)@.bytes,
                    final(buf)@.handles,
                ))
                &&& (st == ERR_BUFFER_TOO_SMALL ==> {
                    let front = old(k).spec_obj_of(self.raw_spec()).kind->Channel_0.queue@[0];
                    let st2 = old(k).spec_read_status(
                        self.raw_spec(),
                        front.bytes@.len() as usize,
                        front.handles@.len() as usize,
                    );
                    &&& (st2 == NO_ERROR ==> r is Ok && old(k).spec_read_post(
                        *final(k),
                        self.raw_spec(),
                        final(buf)@.bytes,
                        final(buf)@.handles,
                    ))
                    &&& (st2 != NO_ERROR ==> r == Result::<(), Status>::Err(Status(st2)) && *final(k) == *old(k))
                })
            }),
    {
        let _ = flags;
        buf.reset_handles(k);
        let ghost kmid = *k;
        let ghost bc = buf@.byte_cap as usize;
        let ghost hc = buf@.handle_cap as usize;
        match k.channel_read(self.raw_handle(), buf.byte_cap, buf.handle_cap) {
            ReadOutcome::Msg(bytes, raws) => {
                buf.bytes = bytes;
                buf.handles = raws;
                buf.unused_ix = 0;
                proof {
                    assert(buf@.handles =~= buf.handles@);
                    assert forall|i: int, j: int|
                        0 <= i < j < buf@.handles.len() implies buf@.handles[i] == 0
                        || buf@.handles[i] != buf@.handles[j] by {
                        assert(buf@.handles[i] != buf@.handles[j]);
                    }
                    assert forall|h: i32|
                        1 <= h && h - 1 < kmid.entries@.len() && !(#[trigger] kmid.spec_is_valid(
                            h,
                        )) implies !k.spec_is_valid(h) by {
                        assert(k.entries@[h - 1] == kmid.entries@[h - 1]);
                    }
                }
                Ok(())
            },
            ReadOutcome::TooSmall(num_bytes, num_handles) => {
                proof {
                    assert(kmid.spec_read_status(self.raw_spec(), bc, hc) == ERR_BUFFER_TOO_SMALL);
                    assert(*k == kmid);
                }
                if num_bytes > buf.byte_cap {
                    buf.byte_cap = num_bytes;
                }
                ensure_capacity(&mut buf.bytes, num_bytes);
                if num_handles > buf.handle_cap {
                    buf.handle_cap = num_handles;
                }
                ensure_capacity(&mut buf.handles, num_handles);
                let ghost bc2 = buf@.byte_cap as usize;
                let ghost hc2 = buf@.handle_cap as usize;
                match k.channel_read(self.raw_handle(), buf.byte_cap, buf.handle_cap) {
                    ReadOutcome::Msg(bytes, raws) => {
                        buf.bytes = bytes;
                        buf.handles = raws;
                        buf.unused_ix = 0;
                        proof {
                            assert(buf@.handles =~= buf.handles@);
                            assert forall|i: int, j: int|
                                0 <= i < j < buf@.handles.len() implies buf@.handles[i] == 0
                                || buf@.handles[i] != buf@.handles[j] by {
                                assert(buf@.handles[i] != buf@.handles[j]);
                            }
                            assert forall|h: i32|
                                1 <= h && h - 1 < kmid.entries@.len() && !(
                            #[trigger] kmid.spec_is_valid(h)) implies !k.spec_is_valid(h) by {
                                assert(k.entries@[h - 1] == kmid.entries@[h - 1]);
                            }
                        }
                        Ok(())
                    },
                    ReadOutcome::TooSmall(_, _) => {
                        proof {
                            // the retry offered at least the reported
                            // counts, so the probe cannot report
                            // too-small again
                            assert(kmid.spec_read_status(self.raw_spec(), bc2, hc2)
                                != ERR_BUFFER_TOO_SMALL);
                            assert(false);
                        }
                        Err(Status(ERR_BUFFER_TOO_SMALL))
                    },
                    ReadOutcome::Fail(st) => {
                        proof {
                            let code2 = kmid.spec_read_status(self.raw_spec(), bc2, hc2);
                            assert(st == code2 && code2 != NO_ERROR && code2
                                != ERR_BUFFER_TOO_SMALL);
                        }
                        Err(Status(st))
                    },
                }
            },
            ReadOutcome::Fail(st) => {
                proof {
                    let code = kmid.spec_read_status(self.raw_spec(), bc, hc);
                    assert(st == code && code != NO_ERROR && code != ERR_BUFFER_TOO_SMALL);
                }
                Err(Status(st))
            },
        }
    }

    /// The shared write path: refuse counts beyond the 32-bit transport
    /// limit, hand payload and handle ownership to the kernel, and forget
    /// the handles locally only on success.
    #[verifier::loop_isolation(false)]
    fn write_raw(k: &mut Kernel, handle: i32, bytes: &[u8], handles: &mut Vec<Handle>, flags: u32)
        -> (r: Result<(), Status>)
        requires
            old(k).wf(),
        ensures
            final(k).wf(),
            bytes@.len() > u32::MAX || old(handles)@.len() > u32::MAX ==> r == Result::<
                (),
                Status,
            >::Err(Status(ERR_OUT_OF_RANGE)) && *final(k) == *old(k) && *final(handles) == *old(handles),
            bytes@.len() <= u32::MAX && old(handles)@.len() <= u32::MAX ==> ({
                let st = old(k).spec_write_status(handle, spec_raws(old(handles)@));
                &&& (st == NO_ERROR ==> r is Ok && final(handles)@.len() == 0 && old(k).spec_write_post(*final(k), handle, bytes@, spec_raws(old(handles)@)))
                &&& (st != NO_ERROR ==> r == Result::<(), Status>::Err(Status(st)) && *final(k)
                    == *old(k) && *final(handles) == *old(handles))
            }),
    {
        let _ = flags;
        if bytes.len() > u32::MAX as usize || handles.len() > u32::MAX as usize {
            return Err(Status(ERR_OUT_OF_RANGE));
        }
        let n = handles.len();
        let mut raws: Vec<i32> = Vec::new();
        let mut i: usize = 0;
        while i < n
            invariant
                i <= n,
                raws@.len() == i,
                forall|x: int| 0 <= x < i ==> raws@[x] == spec_raws(handles@)[x],
            decreases n - i,
        {
            let raw = handles[i].raw_handle();
            raws.push(raw);
            i = i + 1;
        }
        proof {
            assert(raws@ =~= spec_raws(handles@));
        }
        let st = k.channel_write(handle, bytes, &raws);
        if st == NO_ERROR {
            handles.clear();
            Ok(())
        } else {
            Err(Status(st))
        }
    }

    /// Write a message: on success ownership of every handle in
    /// `handles` has gone to the peer and the collection is emptied; on
    /// failure both the kernel and the collection are unchanged.
    pub fn write(&self, k: &mut Kernel, bytes: &[u8], handles: &mut Vec<Handle>, flags: u32) -> (r:
        Result<(), Status>)
        requires
            old(k).wf(),
        ensures
            final(k).wf(),
            bytes@.len() > u32::MAX || old(handles)@.len() > u32::MAX ==> r == Result::<
                (),
                Status,
            >::Err(Status(ERR_OUT_OF_RANGE)) && *final(k) == *old(k) && *final(handles) == *old(handles),
            bytes@.len() <= u32::MAX && old(handles)@.len() <= u32::MAX ==> ({
                let st = old(k).spec_write_status(self.raw_spec(), spec_raws(old(handles)@));
                &&& (st == NO_ERROR ==> r is Ok && final(handles)@.len() == 0 && old(k).spec_write_post(*final(k), self.raw_spec(), bytes@, spec_raws(old(handles)@)))
                &&& (st != NO_ERROR ==> r == Result::<(), Status>::Err(Status(st)) && *final(k)
                    == *old(k) && *final(handles) == *old(handles))
            }),
    {
        Self::write_raw(k, self.raw_handle(), bytes, handles, flags)
    }

    /// The reply-pipe discipline: the endpoint itself is appended to the
    /// outgoing handles, transferring itself away with the message. On
    /// failure the endpoint is reconstituted from the collection, so the
    /// caller regains a usable object and the collection is restored.
    pub fn write_reply(self, k: &mut Kernel, bytes: &[u8], handles: &mut Vec<Handle>, flags: u32)
        -> (r: Result<(), (Self, Status)>)
        requires
            old(k).wf(),
        ensures
            final(k).wf(),
            ({
                let raws = spec_raws(old(handles)@).push(self.raw_spec());
                &&& (bytes@.len() > u32::MAX || old(handles)@.len() + 1 > u32::MAX ==> r is Err
                    && r->Err_0.1 == Status(ERR_OUT_OF_RANGE) && r->Err_0.0.raw_spec()
                    == self.raw_spec() && *final(k) == *old(k) && final(handles)@ == old(handles)@)
                &&& (bytes@.len() <= u32::MAX && old(handles)@.len() + 1 <= u32::MAX ==> ({
                    let st = old(k).spec_write_status(self.raw_spec(), raws);
                    &&& (st == NO_ERROR ==> r is Ok && final(handles)@.len() == 0 && old(k).spec_write_post(*final(k), self.raw_spec(), bytes@, raws))
                    &&& (st != NO_ERROR ==> r is Err && r->Err_0.1 == Status(st)
                        && r->Err_0.0.raw_spec() == self.raw_spec() && *final(k) == *old(k)
                        && final(handles)@ == old(handles)@)
                }))
            }),
    {
        let raw_handle = self.raw_handle();
        handles.push(self.into_handle());
        proof {
            assert(spec_raws(handles@) =~= spec_raws(old(handles)@).push(raw_handle));
        }
        match Self::write_raw(k, raw_handle, bytes, handles, flags) {
            Ok(()) => Ok(()),
            Err(status) => {
                let recovered = match handles.pop() {
                    Some(h) => h,
                    None => vstd::pervasive::unreached(),
                };
                proof {
                    assert(handles@ =~= old(handles)@);
                }
                Err((Self::from_handle(recovered), status))
            },
        }
    }
}

} // verus!
