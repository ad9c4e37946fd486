use vstd::prelude::*;

use crate::handle::INVALID_HANDLE;
use crate::kernel::Entry;
use crate::kernel::Kernel;
use crate::kernel::spec_dup_rights;
use crate::kernel::spec_live_count;
use crate::signals::MX_RIGHT_SAME_RIGHTS;
use crate::signals::Rights;
use crate::status::ERR_ACCESS_DENIED;
use crate::status::ERR_BUFFER_TOO_SMALL;
use crate::status::ERR_NO_RESOURCES;
use crate::status::NO_ERROR;

verus! {

/// Round trip: writing a payload and a set of handles to one endpoint
/// and then reading on the peer (whose queue held nothing else) yields
/// back exactly that payload and one new live handle per written handle,
/// each referring to the same object with the same rights as the handle
/// that was sent — so each is individually usable.
pub proof fn lemma_write_read_round_trip(
    pre: Kernel,
    mid: Kernel,
    post: Kernel,
    a: i32,
    b: i32,
    bytes: Seq<u8>,
    raws: Seq<i32>,
    rbytes: Seq<u8>,
    rraws: Seq<i32>,
)
    requires
        pre.wf(),
        pre.spec_is_valid(a),
        pre.spec_obj_of(a).kind is Channel,
        mid.spec_is_valid(b),
        mid.spec_entry(b).obj == pre.spec_obj_of(a).kind->Channel_0.peer,
        pre.objects@[pre.spec_obj_of(a).kind->Channel_0.peer as int].kind->Channel_0.queue@.len()
            == 0,
        pre.spec_write_post(mid, a, bytes, raws),
        mid.spec_read_post(post, b, rbytes, rraws),
        forall|i: int| 0 <= i < raws.len() ==> pre.spec_is_valid(#[trigger] raws[i]),
    ensures
        rbytes == bytes,
        rraws.len() == raws.len(),
        forall|i: int|
            0 <= i < raws.len() ==> post.spec_is_valid(#[trigger] rraws[i]) && post.spec_entry(
                rraws[i],
            ).obj == pre.spec_entry(raws[i]).obj && post.spec_entry(rraws[i]).rights
                == pre.spec_entry(raws[i]).rights,
{
    let p = pre.spec_obj_of(a).kind->Channel_0.peer as int;
    let msg = mid.objects@[p].kind->Channel_0.queue@[0];
    assert(crate::kernel::spec_msg_matches(msg, pre, bytes, raws));
    assert forall|i: int|
        0 <= i < raws.len() implies post.spec_is_valid(#[trigger] rraws[i]) && post.spec_entry(
        rraws[i],
    ).obj == pre.spec_entry(raws[i]).obj && post.spec_entry(rraws[i]).rights == pre.spec_entry(
        raws[i],
    ).rights by {
        assert(msg.handles@[i].obj == pre.spec_entry(raws[i]).obj);
        assert(post.spec_entry(rraws[i]).obj == msg.handles@[i].obj);
    }
}

/// A too-small probe never discards the pending message: the probe
/// leaves the kernel unchanged, and a retry offering at least the
/// reported capacities can no longer fail for capacity — it either
/// delivers or the handle table itself is full — and whatever a
/// successful read delivers is exactly the payload that was pending at
/// the probe.
pub proof fn lemma_too_small_probe_preserves_message(
    k: Kernel,
    h: i32,
    byte_cap: usize,
    handle_cap: usize,
    retry_byte_cap: usize,
    retry_handle_cap: usize,
)
    requires
        k.wf(),
        k.spec_read_status(h, byte_cap, handle_cap) == ERR_BUFFER_TOO_SMALL,
        k.spec_obj_of(h).kind->Channel_0.queue@[0].bytes@.len() <= retry_byte_cap,
        k.spec_obj_of(h).kind->Channel_0.queue@[0].handles@.len() <= retry_handle_cap,
    ensures
        k.spec_read_status(h, retry_byte_cap, retry_handle_cap) == NO_ERROR || k.spec_read_status(
            h,
            retry_byte_cap,
            retry_handle_cap,
        ) == ERR_NO_RESOURCES,
        forall|post: Kernel, bytes: Seq<u8>, newraws: Seq<i32>|
            #[trigger] k.spec_read_post(post, h, bytes, newraws) ==> bytes == k.spec_obj_of(
                h,
            ).kind->Channel_0.queue@[0].bytes@,
{
}

/// Take-once: a successful take leaves the slot spent, which is exactly
/// the state in which `take_handle`'s contract answers every later call
/// at that index with absence — never a duplicate handle.
pub proof fn lemma_take_handle_once(
    pre: crate::channel::MessageBufView,
    post: crate::channel::MessageBufView,
    index: int,
)
    requires
        0 <= index < pre.handles.len(),
        pre.handles[index] != INVALID_HANDLE,
        post.handles == pre.handles.update(index, INVALID_HANDLE),
    ensures
        post.handles[index] == INVALID_HANDLE,
{
}

/// Taking one live handle out of a buffer lowers by exactly one the
/// number of closes that dropping the buffer's remaining handles
/// performs; a slot already taken contributes none, since the invalid
/// value never names a live handle.
pub proof fn lemma_take_reduces_close_count(k: Kernel, hs: Seq<i32>, index: int)
    requires
        0 <= index < hs.len(),
        k.spec_is_valid(hs[index]),
    ensures
        spec_live_count(k, hs.update(index, INVALID_HANDLE)) + 1 == spec_live_count(k, hs),
    decreases hs.len(),
{
    let updated = hs.update(index, INVALID_HANDLE);
    if index == hs.len() - 1 {
        assert(updated.drop_last() =~= hs.drop_last());
        assert(updated.last() == INVALID_HANDLE);
        assert(!k.spec_is_valid(INVALID_HANDLE));
    } else {
        assert(updated.drop_last() =~= hs.drop_last().update(index, INVALID_HANDLE));
        assert(updated.last() == hs.last());
        lemma_take_reduces_close_count(k, hs.drop_last(), index);
    }
}

/// A buffer whose handles are all live obliges exactly one close per
/// slot: dropping it right after a read that delivered `n` handles
/// performs exactly `n` close operations.
pub proof fn lemma_all_live_close_count(k: Kernel, hs: Seq<i32>)
    requires
        forall|i: int| 0 <= i < hs.len() ==> k.spec_is_valid(#[trigger] hs[i]),
    ensures
        spec_live_count(k, hs) == hs.len(),
    decreases hs.len(),
{
    if hs.len() > 0 {
        lemma_all_live_close_count(k, hs.drop_last());
        assert(k.spec_is_valid(hs[hs.len() - 1]));
    }
}

/// First-in, first-out: two messages written in order to one endpoint
/// whose peer's queue was empty are read back in the same order — the
/// first read delivers the first payload, and the second message is then
/// at the front.
pub proof fn lemma_fifo_delivery(
    pre: Kernel,
    mid1: Kernel,
    mid2: Kernel,
    post: Kernel,
    a: i32,
    b: i32,
    bytes1: Seq<u8>,
    raws1: Seq<i32>,
    bytes2: Seq<u8>,
    raws2: Seq<i32>,
    rbytes: Seq<u8>,
    rraws: Seq<i32>,
)
    requires
        pre.wf(),
        pre.spec_is_valid(a),
        pre.spec_obj_of(a).kind is Channel,
        mid1.spec_is_valid(a),
        mid1.spec_entry(a) == pre.spec_entry(a),
        mid2.spec_is_valid(b),
        mid2.spec_entry(b).obj == pre.spec_obj_of(a).kind->Channel_0.peer,
        pre.objects@[pre.spec_obj_of(a).kind->Channel_0.peer as int].kind->Channel_0.queue@.len()
            == 0,
        pre.spec_write_post(mid1, a, bytes1, raws1),
        mid1.spec_write_post(mid2, a, bytes2, raws2),
        mid2.spec_read_post(post, b, rbytes, rraws),
    ensures
        rbytes == bytes1,
        post.objects@[mid2.spec_entry(b).obj as int].kind->Channel_0.queue@[0].bytes@ == bytes2,
{
    let p = pre.spec_obj_of(a).kind->Channel_0.peer as int;
    // the first write did not move the writing endpoint's slot or
    // object, so the second write queued onto the same peer
    assert(mid1.spec_obj_of(a).kind->Channel_0.peer == p);
    let q2 = mid2.objects@[p].kind->Channel_0.queue@;
    assert(q2.len() == 2);
    assert(crate::kernel::spec_msg_matches(q2[0], pre, bytes1, raws1));
    assert(crate::kernel::spec_msg_matches(q2[1], mid1, bytes2, raws2));
    assert(post.objects@[p].kind->Channel_0.queue@ == q2.subrange(1, 2));
    assert(post.objects@[p].kind->Channel_0.queue@[0] == q2[1]);
}

/// A duplicate with a reduced rights mask is held to that mask: after a
/// successful duplication of a byte-object handle requesting rights that
/// lack `needed`, any access demanding `needed` is refused on the
/// duplicate with the permission failure, while the original handle — if
/// it holds `needed` — may still perform it. The two middle groups of
/// hypotheses are exactly what `HandleBase::duplicate` ensures on
/// success.
pub proof fn lemma_reduced_rights_duplicate(
    pre: Kernel,
    post: Kernel,
    orig: i32,
    dup: i32,
    rights: Rights,
    needed: Rights,
)
    requires
        pre.wf(),
        pre.spec_dup_status(orig, rights) == NO_ERROR,
        pre.spec_obj_of(orig).kind is ByteObject,
        rights != MX_RIGHT_SAME_RIGHTS,
        post.spec_is_valid(dup),
        post.spec_entry(dup) == (Entry {
            live: true,
            obj: pre.spec_entry(orig).obj,
            rights: spec_dup_rights(pre.spec_entry(orig).rights, rights),
        }),
        post.entries@ == pre.entries@.push(post.spec_entry(dup)),
        post.objects@[pre.spec_entry(orig).obj as int].kind == pre.spec_obj_of(orig).kind,
        rights & needed == 0,
        needed != 0,
    ensures
        post.spec_vmo_access_status(dup, needed) == ERR_ACCESS_DENIED,
        pre.spec_entry(orig).rights & needed == needed ==> post.spec_vmo_access_status(
            orig,
            needed,
        ) == NO_ERROR,
{
    assert(post.spec_entry(orig) == pre.spec_entry(orig));
    assert(post.spec_entry(dup).rights == rights);
    assert(rights & needed != needed);
}

} // verus!
