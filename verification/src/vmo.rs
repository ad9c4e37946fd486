use vstd::prelude::*;

use crate::handle::Handle;
use crate::handle::HandleBase;
use crate::handle::HandleRef;
use crate::kernel::Kernel;
use crate::kernel::MAX_VMO_SIZE;
use crate::signals::MX_RIGHT_READ;
use crate::signals::MX_RIGHT_WRITE;
use crate::status::ERR_OUT_OF_RANGE;
use crate::status::NO_ERROR;
use crate::status::Status;

verus! {

/// A byte-addressable memory object of fixed current size, read and
/// written at arbitrary offsets, with accesses clamped at its end.
pub struct Vmo(Handle);

impl HandleBase for Vmo {
    closed spec fn raw_spec(&self) -> i32 {
        self.0.spec_raw()
    }

    fn get_ref(&self) -> (r: HandleRef<'_>) {
        self.0.get_ref()
    }

    fn from_handle(handle: Handle) -> (r: Self) {
        Vmo(handle)
    }
}

impl Vmo {
    /// Create a zero-filled byte object of `size` bytes.
    pub fn create(k: &mut Kernel, size: u64) -> (r: Result<Vmo, Status>)
        requires
            old(k).wf(),
        ensures
            final(k).wf(),
            r is Err ==> *final(k) == *old(k) && r->Err_0 == Status(
                old(k).spec_vmo_create_status(size),
            ) && old(k).spec_vmo_create_status(size) != NO_ERROR,
            r is Ok ==> {
                let h = r->Ok_0.raw_spec();
                &&& old(k).spec_vmo_create_status(size) == NO_ERROR
                &&& h == old(k).entries@.len() + 1
                &&& final(k).spec_is_valid(h)
                &&& final(k).spec_obj_of(h).kind is ByteObject
                &&& final(k).spec_obj_of(h).refs == 1
                &&& final(k).spec_obj_of(h).kind->ByteObject_0@.len() == size
                &&& (forall|i: int|
                    0 <= i < size ==> final(k).spec_obj_of(h).kind->ByteObject_0@[i] == 0)
                &&& final(k).spec_entry(h).rights == crate::kernel::VMO_RIGHTS
                &&& final(k).entries@.len() == old(k).entries@.len() + 1
                &&& (forall|x: int|
                    0 <= x < old(k).entries@.len() ==> final(k).entries@[x] == old(k).entries@[x])
                &&& final(k).objects@.len() == old(k).objects@.len() + 1
                &&& (forall|x: int|
                    0 <= x < old(k).objects@.len() ==> final(k).objects@[x] == old(k).objects@[x])
                &&& final(k).closes == old(k).closes
                &&& final(k).now == old(k).now
            },
    {
        let status = k.vmo_create(size);
        if status < 0 {
            Err(Status(status))
        } else {
            Ok(Vmo::from_handle(Handle::from_raw(status)))
        }
    }

    /// Read into `data` from `offset`: fills a prefix of `data` with the
    /// stored bytes from `offset`, clamped at the object's end, leaves
    /// the rest of `data` as it was, and returns how many bytes were
    /// read. An offset past the end is out of range.
    #[verifier::loop_isolation(false)]
    pub fn read(&self, k: &Kernel, data: &mut Vec<u8>, offset: u64) -> (r: Result<usize, Status>)
        requires
            k.wf(),
        ensures
            ({
                let st = k.spec_vmo_access_status(self.raw_spec(), MX_RIGHT_READ);
                &&& (st != NO_ERROR ==> r == Result::<usize, Status>::Err(Status(st)) && *final(data) == *old(data))
                &&& (st == NO_ERROR ==> {
                    let stored = k.spec_obj_of(self.raw_spec()).kind->ByteObject_0@;
                    &&& (offset > stored.len() ==> r == Result::<usize, Status>::Err(
                        Status(ERR_OUT_OF_RANGE),
                    ) && *final(data) == *old(data))
                    &&& (offset <= stored.len() ==> {
                        let n = if old(data)@.len() <= stored.len() - offset {
                            old(data)@.len() as int
                        } else {
                            stored.len() - offset
                        };
                        &&& r == Result::<usize, Status>::Ok(n as usize)
                        &&& final(data)@.len() == old(data)@.len()
                        &&& (forall|x: int|
                            0 <= x < n ==> final(data)@[x] == stored[offset + x])
                        &&& (forall|x: int|
                            n <= x < old(data)@.len() ==> final(data)@[x] == old(data)@[x])
                    })
                })
            }),
    {
        match k.vmo_read(self.raw_handle(), offset, data.len()) {
            Err(st) => Err(Status(st)),
            Ok(chunk) => {
                let n = chunk.len();
                let mut i: usize = 0;
                while i < n
                    invariant
                        i <= n,
                        data@.len() == old(data)@.len(),
                        forall|x: int| 0 <= x < i ==> data@[x] == chunk@[x],
                        forall|x: int| i <= x < data@.len() ==> data@[x] == old(data)@[x],
                    decreases n - i,
                {
                    let b = chunk[i];
                    data[i] = b;
                    i = i + 1;
                }
                proof {
                    let stored = k.spec_obj_of(self.raw_spec()).kind->ByteObject_0@;
                    assert forall|x: int| 0 <= x < n implies data@[x] == stored[offset + x] by {
                        assert(data@[x] == chunk@[x]);
                    }
                }
                Ok(n)
            },
        }
    }

    /// Write `data` at `offset`, clamped at the object's end: returns how
    /// many bytes were stored. Bytes outside the written window keep
    /// their values; an offset past the end is out of range and changes
    /// nothing, as does any other failure.
    pub fn write(&self, k: &mut Kernel, data: &[u8], offset: u64) -> (r: Result<usize, Status>)
        requires
            old(k).wf(),
        ensures
            final(k).wf(),
            ({
                let st = old(k).spec_vmo_access_status(self.raw_spec(), MX_RIGHT_WRITE);
                &&& (st != NO_ERROR ==> r == Result::<usize, Status>::Err(Status(st)) && *final(k)
                    == *old(k))
                &&& (st == NO_ERROR ==> {
                    let j = old(k).spec_entry(self.raw_spec()).obj as int;
                    let stored = old(k).objects@[j].kind->ByteObject_0@;
                    &&& (offset > stored.len() ==> r == Result::<usize, Status>::Err(
                        Status(ERR_OUT_OF_RANGE),
                    ) && *final(k) == *old(k))
                    &&& (offset <= stored.len() ==> {
                        let n = if data@.len() <= stored.len() - offset {
                            data@.len() as int
                        } else {
                            stored.len() - offset
                        };
                        let stored2 = final(k).objects@[j].kind->ByteObject_0@;
                        &&& r == Result::<usize, Status>::Ok(n as usize)
                        &&& final(k).objects@[j].kind is ByteObject
                        &&& final(k).objects@[j].refs == old(k).objects@[j].refs
                        &&& stored2.len() == stored.len()
                        &&& (forall|x: int| 0 <= x < n ==> stored2[offset + x] == data@[x])
                        &&& (forall|x: int|
                            0 <= x < stored.len() && !(offset <= x < offset + n) ==> stored2[x]
                                == stored[x])
                        &&& final(k).entries == old(k).entries
                        &&& final(k).closes == old(k).closes
                        &&& final(k).now == old(k).now
                        &&& final(k).objects@.len() == old(k).objects@.len()
                        &&& (forall|x: int|
                            0 <= x < old(k).objects@.len() && x != j ==> final(k).objects@[x]
                                == old(k).objects@[x])
                    })
                })
            }),
    {
        let (st, written) = k.vmo_write(self.raw_handle(), offset, data);
        if st != NO_ERROR {
            Err(Status(st))
        } else {
            Ok(written)
        }
    }

    /// The object's current size in bytes.
    pub fn get_size(&self, k: &Kernel) -> (r: Result<u64, Status>)
        requires
            k.wf(),
        ensures
            k.spec_vmo_status(self.raw_spec()) != NO_ERROR ==> r == Result::<u64, Status>::Err(
                Status(k.spec_vmo_status(self.raw_spec())),
            ),
            k.spec_vmo_status(self.raw_spec()) == NO_ERROR ==> r == Result::<u64, Status>::Ok(
                k.spec_obj_of(self.raw_spec()).kind->ByteObject_0@.len() as u64,
            ),
    {
        let (st, size) = k.vmo_get_size(self.raw_handle());
        if st != NO_ERROR {
            Err(Status(st))
        } else {
            Ok(size)
        }
    }

    /// Resize the object: kept bytes keep their values, new bytes are
    /// zero. On any failure nothing changes.
    pub fn set_size(&self, k: &mut Kernel, size: u64) -> (r: Result<(), Status>)
        requires
            old(k).wf(),
        ensures
            final(k).wf(),
            ({
                let st = old(k).spec_vmo_access_status(self.raw_spec(), MX_RIGHT_WRITE);
                &&& (st != NO_ERROR ==> r == Result::<(), Status>::Err(Status(st)) && *final(k)
                    == *old(k))
                &&& (st == NO_ERROR ==> {
                    let j = old(k).spec_entry(self.raw_spec()).obj as int;
                    let stored = old(k).objects@[j].kind->ByteObject_0@;
                    &&& (size > MAX_VMO_SIZE ==> r == Result::<(), Status>::Err(
                        Status(crate::status::ERR_NO_MEMORY),
                    ) && *final(k) == *old(k))
                    &&& (size <= MAX_VMO_SIZE ==> {
                        let stored2 = final(k).objects@[j].kind->ByteObject_0@;
                        &&& r is Ok
                        &&& final(k).objects@[j].kind is ByteObject
                        &&& final(k).objects@[j].refs == old(k).objects@[j].refs
                        &&& stored2.len() == size
                        &&& (forall|x: int|
                            0 <= x < size && x < stored.len() ==> stored2[x] == stored[x])
                        &&& (forall|x: int| stored.len() <= x < size ==> stored2[x] == 0)
                        &&& final(k).entries == old(k).entries
                        &&& final(k).closes == old(k).closes
                        &&& final(k).now == old(k).now
                        &&& final(k).objects@.len() == old(k).objects@.len()
                        &&& (forall|x: int|
                            0 <= x < old(k).objects@.len() && x != j ==> final(k).objects@[x]
                                == old(k).objects@[x])
                    })
                })
            }),
    {
        let st = k.vmo_set_size(self.raw_handle(), size);
        if st != NO_ERROR {
            Err(Status(st))
        } else {
            Ok(())
        }
    }
}

} // verus!
