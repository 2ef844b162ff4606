use vstd::prelude::*;
use crate::shared::Shared;

verus! {

/// The SmartPort interface of the hard drive: reading $C0F8 gives the bytes
/// of the block asked for, one after the other.
pub struct SmartPort {
    /// Content of the .hdv file of hard drive 0 (empty: not read)
    pub file_content: Vec<u8>,
    /// The block whose bytes are being given
    pub block_content: [u8; 512],
    pub block_content_index: usize,
    /// The block in `block_content`
    pub last_block_read: Option<u16>,
}

/// `new` and `sh1` are `old` and `sh0` after the port gave `r`, the next byte
/// of block `block_number` (see `SmartPort::next_byte`).
pub open spec fn byte_given(
    old: SmartPort,
    sh0: Shared,
    new: SmartPort,
    sh1: Shared,
    block_number: u16,
    r: Result<u8, ()>,
) -> bool {
    let load = old.last_block_read != Some(block_number);
    let fails = load && sh0.hard_drives[0].disk_info is Some
        && old.file_content@.len() == 0;
    let loads = load && sh0.hard_drives[0].disk_info is Some
        && old.file_content@.len() > 0;
    let content = if loads {
        old.file_content@.subrange(block_number * 512, block_number * 512 + 512)
    } else {
        old.block_content@
    };
    let index = if loads || old.block_content_index >= 512 {
        0
    } else {
        old.block_content_index as int
    };
    &&& fails ==> r is Err && new == old && sh1 == sh0
    &&& !fails ==> {
        &&& r == Ok::<u8, ()>(content[index])
        &&& new.block_content@ == content
        &&& new.block_content_index == index + 1
        &&& new.file_content == old.file_content
        &&& new.last_block_read == (if loads {
            Some(block_number)
        } else {
            old.last_block_read
        })
        &&& (loads ==> sh1.hard_drives[0].block_number == block_number
            && sh1.hard_drives[0].disk_info == sh0.hard_drives[0].disk_info
            && sh1.hard_drives[1] == sh0.hard_drives[1]
            && sh1 == (Shared { hard_drives: sh1.hard_drives, ..sh0 }))
        &&& (!loads ==> sh1 == sh0)
    }
}

impl SmartPort {
    pub fn default() -> (r: SmartPort)
        ensures
            r.file_content@.len() == 0,
            r.last_block_read is None,
            r.block_content_index == 0,
            forall|k: int| 0 <= k < 512 ==> #[trigger] r.block_content@[k] == 0,
    {
        SmartPort {
            last_block_read: None,
            block_content: [0; 512],
            block_content_index: 0,
            file_content: Vec::new(),
        }
    }

    /// Content of the hard drive's file, read by the caller.
    pub fn set_file_content(&mut self, content: Vec<u8>)
        ensures
            *final(self) == (SmartPort { file_content: content, ..*old(self) }),
    {
        self.file_content = content;
    }

    /// Block `block_number` can be read: it lies within the file when there
    /// is a hard drive whose file was read.
    pub open spec fn block_ok(&self, block_number: u16, shared: Shared) -> bool {
        shared.hard_drives[0].disk_info is Some && self.file_content@.len() > 0 ==> block_number * 512
            + 512 <= self.file_content@.len()
    }

    /// Load block `block_number` of the hard drive's file into the holding
    /// buffer. With no hard drive, nothing is done; with a file that was not
    /// read, this fails.
    pub fn read_block(&mut self, block_number: u16, shared: &mut Shared) -> (r: Result<(), ()>)
        requires
            old(self).block_ok(block_number, *old(shared)),
        ensures
            old(shared).hard_drives[0].disk_info is None ==> r is Ok && *final(self) == *old(self)
                && *final(shared) == *old(shared),
            old(shared).hard_drives[0].disk_info is Some && old(self).file_content@.len() == 0 ==> r is Err
                && *final(self) == *old(self) && *final(shared) == *old(shared),
            old(shared).hard_drives[0].disk_info is Some && old(self).file_content@.len() > 0 ==> {
                &&& r is Ok
                &&& final(self).block_content@ == old(self).file_content@.subrange(
                    block_number * 512,
                    block_number * 512 + 512,
                )
                &&& final(self).last_block_read == Some(block_number)
                &&& final(self).block_content_index == 0
                &&& final(self).file_content == old(self).file_content
                &&& final(shared).hard_drives[0].block_number == block_number
                &&& final(shared).hard_drives[0].disk_info == old(shared).hard_drives[0].disk_info
                &&& final(shared).hard_drives[1] == old(shared).hard_drives[1]
                &&& *final(shared) == (Shared { hard_drives: final(shared).hard_drives, ..*old(shared) })
            },
    {
        if shared.hard_drives[0].disk_info.is_some() {
            if self.file_content.len() == 0 {
                return Err(());
            }
            let offset = block_number as usize * 512;
            let mut k: usize = 0;
            while k < 512
                invariant
                    k <= 512,
                    offset == block_number * 512,
                    offset + 512 <= self.file_content@.len(),
                    self.file_content == old(self).file_content,
                    forall|q: int| 0 <= q < k ==> #[trigger] self.block_content@[q] == self.file_content@[offset + q],
                decreases 512 - k,
            {
                self.block_content[k] = self.file_content[offset + k];
                k += 1;
            }
            assert(self.block_content@ =~= self.file_content@.subrange(offset as int, offset + 512));
            self.last_block_read = Some(block_number);
            self.block_content_index = 0;
            shared.set_block_number(0, block_number);
        }
        Ok(())
    }

    /// The next byte of block `block_number` (after the 512th, the first
    /// again); the block is loaded when it is not the one being given.
    pub fn next_byte(&mut self, block_number: u16, shared: &mut Shared) -> (r: Result<u8, ()>)
        requires
            old(self).block_ok(block_number, *old(shared)),
            old(self).block_content_index <= 512,
        ensures
            final(self).block_content_index <= 512,
            byte_given(*old(self), *old(shared), *final(self), *final(shared), block_number, r),
    {
        let load = match self.last_block_read {
            Some(bn) => bn != block_number,
            None => true,
        };
        if load {
            let read = self.read_block(block_number, shared);
            if read.is_err() {
                return Err(());
            }
        }
        if self.block_content_index >= 512 {
            self.block_content_index = 0;
        }
        let result = self.block_content[self.block_content_index];
        self.block_content_index += 1;
        Ok(result)
    }
}

/// The port gives the bytes of a block in order, over and over: from a state
/// where another block (or none) was being given, with the hard drive's file
/// read, the `i`-th of consecutive reads of block `b` gives byte `i` of the
/// block for the first 512 reads, and the block starts again every 512 reads.
pub proof fn lemma_block_bytes_in_order(
    ports: Seq<SmartPort>,
    shareds: Seq<Shared>,
    results: Seq<Result<u8, ()>>,
    b: u16,
)
    requires
        ports.len() == results.len() + 1,
        shareds.len() == results.len() + 1,
        shareds[0].hard_drives[0].disk_info is Some,
        ports[0].file_content@.len() > 0,
        b * 512 + 512 <= ports[0].file_content@.len(),
        ports[0].last_block_read != Some(b),
        forall|i: int|
            0 <= i < results.len() ==> #[trigger] byte_given(
                ports[i],
                shareds[i],
                ports[i + 1],
                shareds[i + 1],
                b,
                results[i],
            ),
    ensures
        forall|i: int|
            0 <= i < results.len() ==> #[trigger] results[i] == Ok::<u8, ()>(ports[0].file_content@[b * 512 + i % 512]),
{
    lemma_block_prefix(ports, shareds, results, b, results.len() as int);
}

proof fn lemma_block_prefix(
    ports: Seq<SmartPort>,
    shareds: Seq<Shared>,
    results: Seq<Result<u8, ()>>,
    b: u16,
    k: int,
)
    requires
        ports.len() == results.len() + 1,
        shareds.len() == results.len() + 1,
        0 <= k <= results.len(),
        shareds[0].hard_drives[0].disk_info is Some,
        ports[0].file_content@.len() > 0,
        b * 512 + 512 <= ports[0].file_content@.len(),
        ports[0].last_block_read != Some(b),
        forall|i: int|
            0 <= i < results.len() ==> #[trigger] byte_given(
                ports[i],
                shareds[i],
                ports[i + 1],
                shareds[i + 1],
                b,
                results[i],
            ),
    ensures
        forall|i: int| 0 <= i < k ==> #[trigger] results[i] == Ok::<u8, ()>(ports[0].file_content@[b * 512 + i % 512]),
        k > 0 ==> {
            &&& ports[k].last_block_read == Some(b)
            &&& ports[k].file_content == ports[0].file_content
            &&& ports[k].block_content@ == ports[0].file_content@.subrange(b * 512, b * 512 + 512)
            &&& ports[k].block_content_index == (k - 1) % 512 + 1
            &&& shareds[k].hard_drives[0].disk_info == shareds[0].hard_drives[0].disk_info
        },
    decreases k,
{
    if k > 0 {
        lemma_block_prefix(ports, shareds, results, b, k - 1);
        assert(byte_given(ports[k - 1], shareds[k - 1], ports[(k - 1) + 1], shareds[(k - 1) + 1], b, results[k - 1]));
    }
}

} // verus!
