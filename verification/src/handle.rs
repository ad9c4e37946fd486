use vstd::prelude::*;

use core::marker::PhantomData;

use crate::kernel::Entry;
use crate::kernel::Kernel;
use crate::kernel::Time;
use crate::kernel::spec_close_post;
use crate::kernel::spec_dup_rights;
use crate::kernel::spec_obj_signals;
use crate::kernel::spec_wait_status;
use crate::signals::Rights;
use crate::signals::Signals;
use crate::signals::SignalsState;
use crate::status::ERR_BAD_HANDLE;
use crate::status::NO_ERROR;
use crate::status::Status;

verus! {

/// The raw value that never names a live handle.
pub const INVALID_HANDLE: i32 = 0;

/// An owned, untyped kernel handle: the sole owner of one raw handle
/// value. There is no implicit destructor in this model — a handle is
/// given up either by an explicit [`Handle::close`] (or [`handle_drop`] on
/// its raw value), or by transferring its ownership through a channel.
pub struct Handle {
    raw: i32,
}

impl Handle {
    /// The raw value this handle owns.
    pub closed spec fn spec_raw(&self) -> i32 {
        self.raw
    }

    /// Wrap a raw value into an owning handle. The caller is asserting
    /// that nothing else owns the value any more: exactly the
    /// channel-read boundary, where ownership arrives as a bare integer.
    pub fn from_raw(raw: i32) -> (h: Handle)
        ensures
            h.spec_raw() == raw,
    {
        Handle { raw }
    }

    /// Surrender ownership: hand the raw value out without closing it.
    /// Exactly one of a later close or a later re-wrap must follow.
    pub fn into_raw(self) -> (r: i32)
        ensures
            r == self.spec_raw(),
    {
        self.raw
    }

    /// Close this handle: its slot is spent and the object loses one
    /// reference.
    pub fn close(self, k: &mut Kernel)
        requires
            old(k).wf(),
        ensures
            final(k).wf(),
            spec_close_post(*old(k), *final(k), self.spec_raw()),
    {
        let _ = k.handle_close(self.raw);
    }
}

/// Close a raw handle value, best-effort: the result is ignored and a
/// stale value changes nothing (a failure to close is not actionable).
pub fn handle_drop(k: &mut Kernel, handle: i32)
    requires
        old(k).wf(),
    ensures
        final(k).wf(),
        spec_close_post(*old(k), *final(k), handle),
{
    let _ = k.handle_close(handle);
}

/// A transient, non-owning borrow of a handle's raw value, scoped to the
/// borrow's lifetime: it can duplicate and wait, never close.
pub struct HandleRef<'a> {
    pub handle: i32,
    pub phantom: PhantomData<&'a i32>,
}

impl<'a> HandleRef<'a> {
    fn duplicate(&self, k: &mut Kernel, rights: Rights) -> (r: Result<Handle, Status>)
        requires
            old(k).wf(),
        ensures
            final(k).wf(),
            final(k).closes == old(k).closes,
            final(k).now == old(k).now,
            ({
                let st = old(k).spec_dup_status(self.handle, rights);
                &&& (st != NO_ERROR ==> r == Result::<Handle, Status>::Err(Status(st)) && *final(k)
                    == *old(k))
                &&& (st == NO_ERROR ==> r is Ok && {
                    let nh = r->Ok_0.spec_raw();
                    &&& nh == old(k).entries@.len() + 1
                    &&& final(k).spec_is_valid(nh)
                    &&& final(k).entries@ == old(k).entries@.push(
                        Entry {
                            live: true,
                            obj: old(k).spec_entry(self.handle).obj,
                            rights: spec_dup_rights(
                                old(k).spec_entry(self.handle).rights,
                                rights,
                            ),
                        },
                    )
                    &&& final(k).objects@ == old(k).objects@.update(
                        old(k).spec_entry(self.handle).obj as int,
                        crate::kernel::Object {
                            refs: (old(k).objects@[old(k).spec_entry(self.handle).obj as int].refs
                                + 1) as u64,
                            kind: old(k).objects@[old(k).spec_entry(self.handle).obj as int].kind,
                        },
                    )
                })
            }),
    {
        let result = k.handle_duplicate(self.handle, rights);
        if result < 0 {
            Err(Status(result))
        } else {
            Ok(Handle { raw: result })
        }
    }

    fn wait(&self, k: &Kernel, signals: Signals, timeout: Time) -> (r: Result<
        SignalsState,
        Status,
    >)
        requires
            k.wf(),
        ensures
            !k.spec_is_valid(self.handle) ==> r == Result::<SignalsState, Status>::Err(
                Status(ERR_BAD_HANDLE),
            ),
            k.spec_is_valid(self.handle) ==> {
                let st = spec_obj_signals(k.spec_obj_of(self.handle));
                let code = spec_wait_status(st, signals);
                &&& (code == NO_ERROR ==> r == Result::<SignalsState, Status>::Ok(st))
                &&& (code != NO_ERROR ==> r == Result::<SignalsState, Status>::Err(Status(code)))
            },
    {
        let (code, state) = k.handle_wait_one(self.handle, signals, timeout);
        if code >= 0 {
            Ok(state)
        } else {
            Err(Status(code))
        }
    }
}

/// The capability interface every typed handle wrapper offers by
/// delegating to its embedded owning handle: borrow, duplicate, wait, and
/// explicit, checked conversion from and to the untyped [`Handle`].
pub trait HandleBase: Sized {
    /// The raw handle value this wrapper owns.
    spec fn raw_spec(&self) -> i32;

    /// Borrow the underlying handle for read-only or duplicating use.
    fn get_ref(&self) -> (r: HandleRef<'_>)
        ensures
            r.handle == self.raw_spec(),
    ;

    /// Wrap an untyped handle (an explicit conversion, never implicit).
    fn from_handle(handle: Handle) -> (r: Self)
        ensures
            r.raw_spec() == handle.spec_raw(),
    ;

    /// The raw value, without giving up ownership.
    fn raw_handle(&self) -> (r: i32)
        ensures
            r == self.raw_spec(),
    {
        self.get_ref().handle
    }

    /// Ask for a new, independently owned handle to the same object,
    /// carrying `rights` (a subset of those held, or the same-rights
    /// sentinel); the kernel enforces the subset, refusing with a
    /// permission failure. On failure nothing changes.
    fn duplicate(&self, k: &mut Kernel, rights: Rights) -> (r: Result<Self, Status>)
        requires
            old(k).wf(),
        ensures
            final(k).wf(),
            final(k).closes == old(k).closes,
            final(k).now == old(k).now,
            ({
                let st = old(k).spec_dup_status(self.raw_spec(), rights);
                &&& (st != NO_ERROR ==> r is Err && r->Err_0 == Status(st) && *final(k) == *old(k))
                &&& (st == NO_ERROR ==> r is Ok && {
                    let nh = r->Ok_0.raw_spec();
                    &&& nh == old(k).entries@.len() + 1
                    &&& final(k).spec_is_valid(nh)
                    &&& final(k).spec_entry(nh) == (Entry {
                        live: true,
                        obj: old(k).spec_entry(self.raw_spec()).obj,
                        rights: spec_dup_rights(old(k).spec_entry(self.raw_spec()).rights, rights),
                    })
                    &&& final(k).entries@ == old(k).entries@.push(final(k).spec_entry(nh))
                    &&& final(k).objects@ == old(k).objects@.update(
                        old(k).spec_entry(self.raw_spec()).obj as int,
                        crate::kernel::Object {
                            refs: (old(k).objects@[old(k).spec_entry(self.raw_spec()).obj as int].refs
                                + 1) as u64,
                            kind: old(k).objects@[old(k).spec_entry(self.raw_spec()).obj as int].kind,
                        },
                    )
                })
            }),
    {
        match self.get_ref().duplicate(k, rights) {
            Ok(handle) => Ok(Self::from_handle(handle)),
            Err(status) => Err(status),
        }
    }

    /// Wait for any signal of `signals` on the object, up to `timeout`.
    /// This is the layer's sole suspension point; in this model no
    /// concurrent actor can assert a signal meanwhile, so a wait that is
    /// neither satisfied nor hopeless reports that the deadline elapsed.
    fn wait(&self, k: &Kernel, signals: Signals, timeout: Time) -> (r: Result<
        SignalsState,
        Status,
    >)
        requires
            k.wf(),
        ensures
            !k.spec_is_valid(self.raw_spec()) ==> r == Result::<SignalsState, Status>::Err(
                Status(ERR_BAD_HANDLE),
            ),
            k.spec_is_valid(self.raw_spec()) ==> {
                let st = spec_obj_signals(k.spec_obj_of(self.raw_spec()));
                let code = spec_wait_status(st, signals);
                &&& (code == NO_ERROR ==> r == Result::<SignalsState, Status>::Ok(st))
                &&& (code != NO_ERROR ==> r == Result::<SignalsState, Status>::Err(Status(code)))
            },
    {
        self.get_ref().wait(k, signals, timeout)
    }

    /// Unwrap into an untyped handle, keeping ownership (nothing is
    /// closed).
    fn into_handle(self) -> (h: Handle)
        ensures
            h.spec_raw() == self.raw_spec(),
    {
        let raw = self.get_ref().handle;
        Handle { raw }
    }
}

impl HandleBase for Handle {
    open spec fn raw_spec(&self) -> i32 {
        self.spec_raw()
    }

    fn get_ref(&self) -> (r: HandleRef<'_>) {
        proof {
            assert(self.raw_spec() == self.spec_raw());
        }
        HandleRef { handle: self.raw, phantom: PhantomData }
    }

    fn from_handle(handle: Handle) -> (r: Self) {
        handle
    }
}

/// Marker capability of objects that come in connected pairs, where one
/// endpoint can observe the other's closing.
pub trait Peered: HandleBase {

}

} // verus!
