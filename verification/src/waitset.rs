use vstd::prelude::*;

use crate::handle::Handle;
use crate::handle::HandleBase;
use crate::handle::HandleRef;
use crate::kernel::Kernel;
use crate::kernel::Time;
use crate::kernel::WsReady;
use crate::kernel::spec_ws_results;
use crate::signals::MX_RIGHT_READ;
use crate::signals::MX_RIGHT_WRITE;
use crate::signals::Signals;
use crate::signals::SignalsState;
use crate::status::ERR_TIMED_OUT;
use crate::status::NO_ERROR;
use crate::status::Status;

verus! {

/// A wait set: a kernel-side registry mapping application-chosen 64-bit
/// cookies to (watched handle, signal mask) pairs, polled as one.
pub struct WaitSet(Handle);

impl HandleBase for WaitSet {
    closed spec fn raw_spec(&self) -> i32 {
        self.0.spec_raw()
    }

    fn get_ref(&self) -> (r: HandleRef<'_>) {
        self.0.get_ref()
    }

    fn from_handle(handle: Handle) -> (r: Self) {
        WaitSet(handle)
    }
}

/// One record of a wait-set poll: the registration's cookie, its own
/// outcome, and the observed signal snapshot. Not tied to anything beyond
/// the call that produced it.
pub struct WaitSetResult(WsReady);

impl View for WaitSetResult {
    type V = WsReady;

    closed spec fn view(&self) -> WsReady {
        self.0
    }
}

impl WaitSetResult {
    /// The application-chosen cookie of the ready registration.
    pub fn cookie(&self) -> (r: u64)
        ensures
            r == self@.cookie,
    {
        self.0.cookie
    }

    /// This registration's own outcome.
    pub fn wait_result(&self) -> (r: Status)
        ensures
            r == Status(self@.status),
    {
        Status(self.0.status)
    }

    /// The observed signal snapshot.
    pub fn signals_state(&self) -> (r: SignalsState)
        ensures
            r == self@.state,
    {
        self.0.state
    }
}

impl WaitSet {
    /// Create an empty wait set.
    pub fn create(k: &mut Kernel) -> (r: Result<WaitSet, Status>)
        requires
            old(k).wf(),
        ensures
            final(k).wf(),
            r is Err <==> old(k).entries@.len() >= crate::kernel::MAX_HANDLES || old(
                k,
            ).objects@.len() >= crate::kernel::MAX_OBJECTS,
            r is Err ==> *final(k) == *old(k) && r->Err_0 == Status(
                crate::status::ERR_NO_RESOURCES,
            ),
            r is Ok ==> {
                let h = r->Ok_0.raw_spec();
                &&& h == old(k).entries@.len() + 1
                &&& final(k).spec_is_valid(h)
                &&& final(k).spec_obj_of(h).kind is WaitRegistry
                &&& final(k).spec_obj_of(h).refs == 1
                &&& final(k).spec_ws_items(h).len() == 0
                &&& final(k).entries@.len() == old(k).entries@.len() + 1
                &&& forall|x: int|
                    0 <= x < old(k).entries@.len() ==> final(k).entries@[x] == old(k).entries@[x]
                &&& final(k).objects@.len() == old(k).objects@.len() + 1
                &&& forall|x: int|
                    0 <= x < old(k).objects@.len() ==> final(k).objects@[x] == old(k).objects@[x]
                &&& final(k).closes == old(k).closes
                &&& final(k).now == old(k).now
            },
    {
        let status = k.waitset_create();
        if status < 0 {
            Err(Status(status))
        } else {
            Ok(WaitSet::from_handle(Handle::from_raw(status)))
        }
    }

    /// Register a watch for `signals` on `handle` under `cookie`. A
    /// cookie already registered is refused with the already-exists
    /// failure, leaving every registration untouched.
    pub fn add<H: HandleBase>(&self, k: &mut Kernel, handle: &H, signals: Signals, cookie: u64)
        -> (r: Result<(), Status>)
        requires
            old(k).wf(),
        ensures
            final(k).wf(),
            ({
                let st = old(k).spec_ws_add_status(self.raw_spec(), handle.raw_spec(), cookie);
                &&& (st != NO_ERROR ==> r == Result::<(), Status>::Err(Status(st)) && *final(k)
                    == *old(k))
                &&& (st == NO_ERROR ==> r is Ok && final(k).spec_ws_items(self.raw_spec()) == old(k).spec_ws_items(self.raw_spec()).push(
                    crate::kernel::WsItem { cookie, watched: handle.raw_spec(), signals },
                ) && final(k).entries == old(k).entries && final(k).closes == old(k).closes
                    && final(k).now == old(k).now && forall|x: int|
                    0 <= x < old(k).objects@.len() && x != old(k).spec_entry(self.raw_spec()).obj
                        ==> final(k).objects@[x] == old(k).objects@[x])
            }),
    {
        let st = k.waitset_add(self.raw_handle(), handle.raw_handle(), signals, cookie);
        if st == NO_ERROR {
            Ok(())
        } else {
            Err(Status(st))
        }
    }

    /// Unregister the watch carrying `cookie`. An unknown cookie is
    /// refused with the not-found failure and leaves every other
    /// registration untouched; so does any other failure.
    pub fn remove(&self, k: &mut Kernel, cookie: u64) -> (r: Result<(), Status>)
        requires
            old(k).wf(),
        ensures
            final(k).wf(),
            r is Err ==> *final(k) == *old(k),
            old(k).spec_ws_status(self.raw_spec(), MX_RIGHT_WRITE) == NO_ERROR ==> ({
                let items = old(k).spec_ws_items(self.raw_spec());
                &&& (r == Result::<(), Status>::Err(Status(crate::status::ERR_NOT_FOUND)) <==> !(
                exists|x: int| 0 <= x < items.len() && (#[trigger] items[x]).cookie == cookie))
                &&& (r is Err ==> r == Result::<(), Status>::Err(
                    Status(crate::status::ERR_NOT_FOUND),
                ))
                &&& (r is Ok ==> exists|idx: int|
                    {
                        &&& 0 <= idx < items.len()
                        &&& (#[trigger] items[idx]).cookie == cookie
                        &&& forall|x: int| 0 <= x < idx ==> (#[trigger] items[x]).cookie != cookie
                        &&& final(k).spec_ws_items(self.raw_spec()) == items.remove(idx)
                        &&& final(k).entries == old(k).entries
                        &&& final(k).closes == old(k).closes
                        &&& final(k).now == old(k).now
                        &&& forall|x: int|
                            0 <= x < old(k).objects@.len() && x != old(k).spec_entry(
                                self.raw_spec(),
                            ).obj ==> final(k).objects@[x] == old(k).objects@[x]
                    })
            }),
            old(k).spec_ws_status(self.raw_spec(), MX_RIGHT_WRITE) != NO_ERROR ==> r
                == Result::<(), Status>::Err(
                Status(old(k).spec_ws_status(self.raw_spec(), MX_RIGHT_WRITE)),
            ),
    {
        let st = k.waitset_remove(self.raw_handle(), cookie);
        if st == NO_ERROR {
            Ok(())
        } else {
            Err(Status(st))
        }
    }

    /// Poll the wait set, filling `results` (growing it as needed) with
    /// one record per ready registration and returning the total ready
    /// count. With none ready the deadline elapses. Callers must not rely
    /// on the order of records within one batch.
    pub fn wait(&self, k: &Kernel, timeout: Time, results: &mut Vec<WaitSetResult>) -> (r: Result<
        usize,
        Status,
    >)
        requires
            k.wf(),
        ensures
            ({
                let st = k.spec_ws_status(self.raw_spec(), MX_RIGHT_READ);
                let ready = spec_ws_results(*k, k.spec_ws_items(self.raw_spec()));
                &&& (st != NO_ERROR ==> r == Result::<usize, Status>::Err(Status(st)) && final(results)@.len() == 0)
                &&& (st == NO_ERROR ==> {
                    &&& (ready.len() == 0 ==> r == Result::<usize, Status>::Err(
                        Status(ERR_TIMED_OUT),
                    ) && final(results)@.len() == 0)
                    &&& (ready.len() > 0 ==> r == Result::<usize, Status>::Ok(
                        ready.len() as usize,
                    ) && final(results)@.len() == ready.len() && forall|x: int|
                        0 <= x < ready.len() ==> (#[trigger] final(results)@[x])@ == ready[x])
                })
            }),
    {
        match k.waitset_wait(self.raw_handle(), timeout) {
            Err(st) => {
                results.clear();
                Err(Status(st))
            },
            Ok(ready) => {
                results.clear();
                let n = ready.len();
                let mut i: usize = 0;
                while i < n
                    invariant
                        i <= n,
                        n == ready@.len(),
                        results@.len() == i,
                        forall|x: int| 0 <= x < i ==> (#[trigger] results@[x])@ == ready@[x],
                    decreases n - i,
                {
                    results.push(WaitSetResult(ready[i]));
                    i = i + 1;
                }
                Ok(n)
            },
        }
    }
}

} // verus!
