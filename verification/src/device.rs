//! The block device as the resize core sees it: a flat store of bytes,
//! addressed by sector, and the writes that a resize performs on it.
//!
//! `Device` keeps the store in memory. A resize is described as a list of
//! `DeviceOp`s, whose effect on the bytes is fixed here by `run_ops`;
//! whoever owns a real device performs the same list on it.

use crate::error::{Error, IoFault};
use crate::fat32::layout::overwrite;
use vstd::prelude::*;
use vstd::slice::{slice_subrange, slice_to_vec};

verus! {

/// The points of the resize protocol at which an interruption is of
/// interest, in the order in which a run passes them.
#[derive(Debug, Clone, Copy, PartialEq, Eq)]
pub enum ProtocolPoint {
    /// The first checkpoint is on the device; no data has moved.
    AfterCheckpointStart,
    /// The data is shifted; the checkpoint still names the first phase.
    AfterDataShift,
    /// The checkpoint names the second phase; the boot sector is valid.
    AfterCheckpointDataCopied,
    /// The boot sector is invalidated; the FATs are not yet written.
    AfterBootInvalidate,
    /// The FATs are written; the checkpoint still names the second phase.
    AfterFatWrite,
    /// The checkpoint names the third phase.
    AfterCheckpointFatWritten,
}

/// One step of a resize on the device. Offsets and lengths are in bytes.
#[derive(Debug, Clone, PartialEq, Eq)]
pub enum DeviceOp {
    /// Write `data` at `offset`.
    Write { offset: u64, data: Vec<u8> },
    /// Read `len` bytes at `from`, then write them at `to`.
    Copy { from: u64, to: u64, len: u64 },
    /// Write `len` zero bytes at `offset`.
    Zero { offset: u64, len: u64 },
    /// Commit every write so far to stable storage.
    Sync,
    /// The run has reached a point of the protocol; the device is not
    /// touched.
    Reached(ProtocolPoint),
}

/// A device operation as contracts see it.
pub enum OpModel {
    Write { offset: int, data: Seq<u8> },
    Copy { from: int, to: int, len: int },
    Zero { offset: int, len: int },
    Sync,
    Reached(ProtocolPoint),
}

impl View for DeviceOp {
    type V = OpModel;

    open spec fn view(&self) -> OpModel {
        match *self {
            DeviceOp::Write { offset, data } => OpModel::Write { offset: offset as int, data: data@ },
            DeviceOp::Copy { from, to, len } => OpModel::Copy {
                from: from as int,
                to: to as int,
                len: len as int,
            },
            DeviceOp::Zero { offset, len } => OpModel::Zero { offset: offset as int, len: len as int },
            DeviceOp::Sync => OpModel::Sync,
            DeviceOp::Reached(point) => OpModel::Reached(point),
        }
    }
}

/// The models of a list of operations, in order.
pub open spec fn ops_model(ops: Seq<DeviceOp>) -> Seq<OpModel> {
    Seq::new(ops.len(), |i: int| ops[i]@)
}

/// `len` zero bytes.
pub open spec fn zeros(len: int) -> Seq<u8> {
    Seq::new(len as nat, |i: int| 0u8)
}

/// Whether the `len` bytes at `offset` lie within a store of `size` bytes.
pub open spec fn in_range(size: int, offset: int, len: int) -> bool {
    0 <= offset && 0 <= len && offset + len <= size
}

/// Whether an operation stays within a device of `size` bytes.
pub open spec fn op_fits(size: int, op: OpModel) -> bool {
    match op {
        OpModel::Write { offset, data } => in_range(size, offset, data.len() as int),
        OpModel::Copy { from, to, len } => in_range(size, from, len) && in_range(size, to, len),
        OpModel::Zero { offset, len } => in_range(size, offset, len),
        OpModel::Sync => true,
        OpModel::Reached(_) => true,
    }
}

/// The bytes of the device after an operation that fits.
pub open spec fn apply_op(bytes: Seq<u8>, op: OpModel) -> Seq<u8> {
    match op {
        OpModel::Write { offset, data } => overwrite(bytes, offset, data),
        OpModel::Copy { from, to, len } => overwrite(bytes, to, bytes.subrange(from, from + len)),
        OpModel::Zero { offset, len } => overwrite(bytes, offset, zeros(len)),
        OpModel::Sync => bytes,
        OpModel::Reached(_) => bytes,
    }
}

/// Whether every operation of the list stays within a device of `size`
/// bytes.
pub open spec fn ops_fit(size: int, ops: Seq<OpModel>) -> bool {
    forall|i: int| 0 <= i < ops.len() ==> op_fits(size, #[trigger] ops[i])
}

/// The bytes of the device after the operations of the list, performed in
/// order. The run stops before the first operation that does not fit.
pub open spec fn run_ops(bytes: Seq<u8>, ops: Seq<OpModel>) -> Seq<u8>
    decreases ops.len(),
{
    if ops.len() == 0 {
        bytes
    } else if !op_fits(bytes.len() as int, ops[0]) {
        bytes
    } else {
        run_ops(apply_op(bytes, ops[0]), ops.drop_first())
    }
}

/// No operation changes the size of the device.
pub proof fn lemma_run_keeps_size(bytes: Seq<u8>, ops: Seq<OpModel>)
    ensures
        run_ops(bytes, ops).len() == bytes.len(),
    decreases ops.len(),
{
    if ops.len() > 0 && op_fits(bytes.len() as int, ops[0]) {
        lemma_run_keeps_size(apply_op(bytes, ops[0]), ops.drop_first());
    }
}

/// Running a list that fits, and then another, is running the two in a
/// row.
pub proof fn lemma_run_concat(bytes: Seq<u8>, first: Seq<OpModel>, second: Seq<OpModel>)
    requires
        ops_fit(bytes.len() as int, first),
    ensures
        run_ops(bytes, first + second) == run_ops(run_ops(bytes, first), second),
    decreases first.len(),
{
    if first.len() == 0 {
        assert(first + second =~= second);
    } else {
        let next = apply_op(bytes, first[0]);
        assert(op_fits(bytes.len() as int, first[0]));
        assert((first + second)[0] == first[0]);
        assert((first + second).drop_first() =~= first.drop_first() + second);
        assert forall|i: int| 0 <= i < first.drop_first().len() implies op_fits(
            next.len() as int,
            #[trigger] first.drop_first()[i],
        ) by {
            assert(first.drop_first()[i] == first[i + 1]);
        }
        lemma_run_concat(next, first.drop_first(), second);
    }
}

/// Running a list and then one more operation that fits.
pub proof fn lemma_run_push(bytes: Seq<u8>, ops: Seq<OpModel>, op: OpModel)
    requires
        ops_fit(bytes.len() as int, ops),
        op_fits(bytes.len() as int, op),
    ensures
        run_ops(bytes, ops.push(op)) == apply_op(run_ops(bytes, ops), op),
        ops_fit(bytes.len() as int, ops.push(op)),
{
    assert(ops.push(op) =~= ops + seq![op]);
    lemma_run_concat(bytes, ops, seq![op]);
    lemma_run_keeps_size(bytes, ops);
    let mid = run_ops(bytes, ops);
    assert(seq![op].drop_first() =~= Seq::<OpModel>::empty());
    assert(run_ops(apply_op(mid, op), Seq::<OpModel>::empty()) == apply_op(mid, op));
    assert(run_ops(mid, seq![op]) == apply_op(mid, op));
}

/// A block device whose bytes are held in memory.
#[derive(Debug)]
pub struct Device {
    data: Vec<u8>,
    sector_size: u32,
    total_sectors: u64,
}

impl View for Device {
    type V = Seq<u8>;

    /// The bytes of the device.
    closed spec fn view(&self) -> Seq<u8> {
        self.data@
    }
}

impl Device {
    /// The sector size that the device is addressed with.
    pub closed spec fn spec_sector_size(&self) -> u32 {
        self.sector_size
    }

    /// The number of whole sectors of the device.
    pub closed spec fn spec_total_sectors(&self) -> u64 {
        self.total_sectors
    }

    /// The sector size is not zero and the sector count is the number of
    /// whole sectors among the bytes. Every constructor establishes this
    /// and every method keeps it.
    pub open spec fn wf(&self) -> bool {
        &&& self.spec_sector_size() > 0
        &&& self@.len() <= usize::MAX
        &&& self.spec_total_sectors() == self@.len() as int / self.spec_sector_size() as int
    }

    /// A device over the bytes of `image`, addressed in sectors of 512
    /// bytes until the boot sector tells the true size.
    pub fn from_image(image: Vec<u8>) -> (r: Self)
        ensures
            r.wf(),
            r@ == image@,
            r.spec_sector_size() == 512,
    {
        let total_sectors: u64 = (image.len() / 512) as u64;
        Device { data: image, sector_size: 512, total_sectors }
    }

    /// Gives the bytes of the device back.
    pub fn into_image(self) -> (r: Vec<u8>)
        ensures
            r@ == self@,
    {
        self.data
    }

    /// The sector size in bytes.
    pub fn sector_size(&self) -> (r: u32)
        ensures
            r == self.spec_sector_size(),
    {
        self.sector_size
    }

    /// Sets the sector size and counts the sectors anew.
    pub fn set_sector_size(&mut self, size: u32)
        requires
            old(self).wf(),
            size > 0,
        ensures
            final(self).wf(),
            final(self)@ == old(self)@,
            final(self).spec_sector_size() == size,
    {
        self.sector_size = size;
        self.total_sectors = (self.data.len() as u64) / (size as u64);
    }

    /// The number of whole sectors.
    pub fn total_sectors(&self) -> (r: u64)
        ensures
            r == self.spec_total_sectors(),
    {
        self.total_sectors
    }

    /// The size of the device in bytes.
    pub fn size_bytes(&self) -> (r: Result<u64, Error>)
        requires
            self.wf(),
        ensures
            r == Ok::<u64, Error>(self@.len() as u64),
    {
        Ok(self.data.len() as u64)
    }

    /// Reads `size` bytes at byte `offset`. Fails, with the device as it
    /// was, where the bytes do not all lie on the device.
    pub fn read_bytes_at(&self, offset: u64, size: usize) -> (r: Result<Vec<u8>, Error>)
        ensures
            in_range(self@.len() as int, offset as int, size as int) ==> r.is_ok() && r.unwrap()@
                == self@.subrange(offset as int, offset + size),
            !in_range(self@.len() as int, offset as int, size as int) ==> r == Err::<
                Vec<u8>,
                Error,
            >(Error::Io(IoFault::OutOfRange)),
    {
        let len: usize = self.data.len();
        if offset > len as u64 || size > len - offset as usize {
            return Err(Error::Io(IoFault::OutOfRange));
        }
        let start: usize = offset as usize;
        Ok(slice_to_vec(slice_subrange(self.data.as_slice(), start, start + size)))
    }

    /// Writes `data` at byte `offset`. Fails, with the device as it was,
    /// where the bytes do not all lie on the device.
    pub fn write_bytes_at(&mut self, offset: u64, data: &[u8]) -> (r: Result<(), Error>)
        requires
            old(self).wf(),
        ensures
            final(self).wf(),
            final(self).spec_sector_size() == old(self).spec_sector_size(),
            in_range(old(self)@.len() as int, offset as int, data@.len() as int) ==> r.is_ok()
                && final(self)@ == overwrite(old(self)@, offset as int, data@),
            !in_range(old(self)@.len() as int, offset as int, data@.len() as int) ==> r == Err::<
                (),
                Error,
            >(Error::Io(IoFault::OutOfRange)) && final(self)@ == old(self)@,
    {
        let len: usize = self.data.len();
        let size: usize = data.len();
        if offset > len as u64 || size > len - offset as usize {
            return Err(Error::Io(IoFault::OutOfRange));
        }
        let start: usize = offset as usize;
        let mut i: usize = 0;
        while i < size
            invariant
                i <= size,
                size == data@.len(),
                start + size <= len,
                len == self.data@.len(),
                len == old(self)@.len(),
                self.sector_size == old(self).sector_size,
                self.total_sectors == old(self).total_sectors,
                forall|j: int| 0 <= j < len ==> self.data@[j] == (if start <= j < start + i {
                    data@[j - start]
                } else {
                    old(self)@[j]
                }),
            decreases size - i,
        {
            self.data[start + i] = data[i];
            i += 1;
        }
        assert(self.data@ =~= overwrite(old(self)@, offset as int, data@));
        Ok(())
    }

    /// The byte at which sector `sector` starts, or `None` where that is
    /// more than 64 bits can hold.
    fn sector_offset(&self, sector: u64) -> (r: Option<u64>)
        ensures
            sector * self.spec_sector_size() <= u64::MAX ==> r == Some(
                (sector * self.spec_sector_size()) as u64,
            ),
            sector * self.spec_sector_size() > u64::MAX ==> r.is_none(),
    {
        sector.checked_mul(self.sector_size as u64)
    }

    /// Reads `count` sectors from sector `start_sector` on.
    pub fn read_sectors(&self, start_sector: u64, count: u32) -> (r: Result<Vec<u8>, Error>)
        requires
            count * self.spec_sector_size() <= usize::MAX,
        ensures
            in_range(
                self@.len() as int,
                start_sector * self.spec_sector_size(),
                count * self.spec_sector_size(),
            ) ==> r.is_ok() && r.unwrap()@ == self@.subrange(
                start_sector * self.spec_sector_size(),
                start_sector * self.spec_sector_size() + count * self.spec_sector_size(),
            ),
            !in_range(
                self@.len() as int,
                start_sector * self.spec_sector_size(),
                count * self.spec_sector_size(),
            ) ==> r == Err::<Vec<u8>, Error>(Error::Io(IoFault::OutOfRange)),
    {
        let device_len: usize = self.data.len();
        let size: usize = count as usize * self.sector_size as usize;
        match self.sector_offset(start_sector) {
            Some(offset) => self.read_bytes_at(offset, size),
            None => Err(Error::Io(IoFault::OutOfRange)),
        }
    }

    /// Reads one sector.
    pub fn read_sector(&self, sector: u64) -> (r: Result<Vec<u8>, Error>)
        ensures
            in_range(
                self@.len() as int,
                sector * self.spec_sector_size(),
                self.spec_sector_size() as int,
            ) ==> r.is_ok() && r.unwrap()@ == self@.subrange(
                sector * self.spec_sector_size(),
                sector * self.spec_sector_size() + self.spec_sector_size(),
            ),
            !in_range(
                self@.len() as int,
                sector * self.spec_sector_size(),
                self.spec_sector_size() as int,
            ) ==> r == Err::<Vec<u8>, Error>(Error::Io(IoFault::OutOfRange)),
    {
        let device_len: usize = self.data.len();
        match self.sector_offset(sector) {
            Some(offset) => {
                if self.sector_size as u64 > usize::MAX as u64 {
                    Err(Error::Io(IoFault::OutOfRange))
                } else {
                    self.read_bytes_at(offset, self.sector_size as usize)
                }
            },
            None => Err(Error::Io(IoFault::OutOfRange)),
        }
    }

    /// Writes `data` from sector `start_sector` on.
    pub fn write_sectors(&mut self, start_sector: u64, data: &[u8]) -> (r: Result<(), Error>)
        requires
            old(self).wf(),
        ensures
            final(self).wf(),
            final(self).spec_sector_size() == old(self).spec_sector_size(),
            in_range(
                old(self)@.len() as int,
                start_sector * old(self).spec_sector_size(),
                data@.len() as int,
            ) ==> r.is_ok() && final(self)@ == overwrite(
                old(self)@,
                start_sector * old(self).spec_sector_size(),
                data@,
            ),
            !in_range(
                old(self)@.len() as int,
                start_sector * old(self).spec_sector_size(),
                data@.len() as int,
            ) ==> r == Err::<(), Error>(Error::Io(IoFault::OutOfRange)) && final(self)@ == old(
                self,
            )@,
    {
        match self.sector_offset(start_sector) {
            Some(offset) => self.write_bytes_at(offset, data),
            None => Err(Error::Io(IoFault::OutOfRange)),
        }
    }

    /// Writes one sector. `data` must be exactly one sector long.
    pub fn write_sector(&mut self, sector: u64, data: &[u8]) -> (r: Result<(), Error>)
        requires
            old(self).wf(),
        ensures
            final(self).wf(),
            final(self).spec_sector_size() == old(self).spec_sector_size(),
            data@.len() != old(self).spec_sector_size() ==> r == Err::<(), Error>(
                Error::Io(IoFault::InvalidInput),
            ) && final(self)@ == old(self)@,
            data@.len() == old(self).spec_sector_size() && in_range(
                old(self)@.len() as int,
                sector * old(self).spec_sector_size(),
                data@.len() as int,
            ) ==> r.is_ok() && final(self)@ == overwrite(
                old(self)@,
                sector * old(self).spec_sector_size(),
                data@,
            ),
            data@.len() == old(self).spec_sector_size() && !in_range(
                old(self)@.len() as int,
                sector * old(self).spec_sector_size(),
                data@.len() as int,
            ) ==> r == Err::<(), Error>(Error::Io(IoFault::OutOfRange)) && final(self)@ == old(
                self,
            )@,
    {
        if data.len() as u64 != self.sector_size as u64 {
            return Err(Error::Io(IoFault::InvalidInput));
        }
        self.write_sectors(sector, data)
    }

    /// Commits all writes. A device in memory has nothing to commit.
    pub fn sync(&self) -> (r: Result<(), Error>)
        ensures
            r.is_ok(),
    {
        Ok(())
    }

    /// Performs one operation. Fails, with the device as it was, where
    /// the operation does not fit the device.
    pub fn apply(&mut self, op: &DeviceOp) -> (r: Result<(), Error>)
        requires
            old(self).wf(),
        ensures
            final(self).wf(),
            final(self).spec_sector_size() == old(self).spec_sector_size(),
            op_fits(old(self)@.len() as int, op@) ==> r.is_ok() && final(self)@ == apply_op(
                old(self)@,
                op@,
            ),
            !op_fits(old(self)@.len() as int, op@) ==> r == Err::<(), Error>(
                Error::Io(IoFault::OutOfRange),
            ) && final(self)@ == old(self)@,
    {
        let device_len: usize = self.data.len();
        match op {
            DeviceOp::Write { offset, data } => self.write_bytes_at(*offset, data.as_slice()),
            DeviceOp::Copy { from, to, len } => {
                if *len > usize::MAX as u64 {
                    return Err(Error::Io(IoFault::OutOfRange));
                }
                let size: usize = *len as usize;
                if *to > self.data.len() as u64 || size > self.data.len() - *to as usize {
                    return Err(Error::Io(IoFault::OutOfRange));
                }
                match self.read_bytes_at(*from, size) {
                    Ok(data) => self.write_bytes_at(*to, data.as_slice()),
                    Err(e) => Err(e),
                }
            },
            DeviceOp::Zero { offset, len } => {
                if *len > self.data.len() as u64 {
                    return Err(Error::Io(IoFault::OutOfRange));
                }
                let size: usize = *len as usize;
                let data: Vec<u8> = vec![0u8; size];
                assert(data@ =~= zeros(*len as int));
                self.write_bytes_at(*offset, data.as_slice())
            },
            DeviceOp::Sync => self.sync(),
            DeviceOp::Reached(_) => Ok(()),
        }
    }

    /// Performs the operations of the list in order, and stops at the
    /// first that does not fit the device.
    pub fn apply_all(&mut self, ops: &[DeviceOp]) -> (r: Result<(), Error>)
        requires
            old(self).wf(),
        ensures
            final(self).wf(),
            final(self).spec_sector_size() == old(self).spec_sector_size(),
            final(self)@ == run_ops(old(self)@, ops_model(ops@)),
            r.is_ok() <==> ops_fit(old(self)@.len() as int, ops_model(ops@)),
            r.is_err() ==> r == Err::<(), Error>(Error::Io(IoFault::OutOfRange)),
    {
        let ghost model = ops_model(ops@);
        let n: usize = ops.len();
        let mut i: usize = 0;
        while i < n
            invariant
                i <= n,
                n == ops@.len(),
                model == ops_model(ops@),
                self.wf(),
                self.spec_sector_size() == old(self).spec_sector_size(),
                self@.len() == old(self)@.len(),
                ops_fit(old(self)@.len() as int, model.subrange(0, i as int)),
                self@ == run_ops(old(self)@, model.subrange(0, i as int)),
            decreases n - i,
        {
            let ghost before = self@;
            let ghost done = model.subrange(0, i as int);
            assert(model[i as int] == ops@[i as int]@);
            assert(model.subrange(0, i + 1) =~= done.push(model[i as int]));
            match self.apply(&ops[i]) {
                Ok(()) => {
                    proof {
                        lemma_run_push(old(self)@, done, model[i as int]);
                    }
                },
                Err(e) => {
                    proof {
                        assert(model =~= done + model.subrange(i as int, n as int));
                        lemma_run_concat(old(self)@, done, model.subrange(i as int, n as int));
                        assert(model.subrange(i as int, n as int)[0] == model[i as int]);
                    }
                    return Err(e);
                },
            }
            i += 1;
        }
        assert(model.subrange(0, n as int) =~= model);
        Ok(())
    }
}

} // verus!
