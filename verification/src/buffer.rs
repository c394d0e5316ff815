//! The byte buffers the engine pushes to the host.
//!
//! The boundary describes a buffer by an allocation, a data region inside it,
//! and the data's length. Host-side the pointers become offsets into the
//! allocation, so the region invariant is plain arithmetic: the data lies
//! within the allocation.

use vstd::prelude::*;

verus! {

/// Mathematical model of one message buffer.
#[verifier::ext_equal]
pub struct BufModel {
    pub alloc_len: nat,
    pub data_offset: nat,
    pub data: Seq<u8>,
}

impl BufModel {
    /// The data region lies entirely inside the allocation.
    pub open spec fn wf(self) -> bool {
        self.data_offset + self.data.len() <= self.alloc_len
    }

    /// The logical data length the boundary reports for this buffer.
    pub open spec fn data_len(self) -> nat {
        self.data.len()
    }
}

/// One message buffer, as the host retains it: the engine owns the original
/// allocation only for the duration of the delivery call, so the host copies
/// the logical data region out and remembers the allocation's geometry.
pub struct MessageBuffer {
    alloc_len: usize,
    data_offset: usize,
    data: Vec<u8>,
}

impl View for MessageBuffer {
    type V = BufModel;

    closed spec fn view(&self) -> BufModel {
        BufModel { alloc_len: self.alloc_len as nat, data_offset: self.data_offset as nat, data: self.data@ }
    }
}

impl MessageBuffer {
    /// Every buffer the host ever holds keeps its data region inside its
    /// allocation.
    #[verifier::type_invariant]
    pub open spec fn region_inv(self) -> bool {
        self@.wf()
    }

    /// Build a buffer; the data region must fit inside the allocation.
    pub fn new(alloc_len: usize, data_offset: usize, data: Vec<u8>) -> (b: MessageBuffer)
        requires
            data_offset + data@.len() <= alloc_len,
        ensures
            b@ == (BufModel { alloc_len: alloc_len as nat, data_offset: data_offset as nat, data: data@ }),
            b@.wf(),
    {
        MessageBuffer { alloc_len, data_offset, data }
    }

    /// The allocation's length.
    pub fn alloc_len(&self) -> (n: usize)
        ensures
            n as nat == self@.alloc_len,
    {
        self.alloc_len
    }

    /// Where the data region starts inside the allocation.
    pub fn data_offset(&self) -> (n: usize)
        ensures
            n as nat == self@.data_offset,
    {
        self.data_offset
    }

    /// The logical data length.
    pub fn data_len(&self) -> (n: usize)
        ensures
            n as nat == self@.data_len(),
    {
        self.data.len()
    }

    /// The copied-out data region.
    pub fn data(&self) -> (d: &Vec<u8>)
        ensures
            d@ == self@.data,
    {
        &self.data
    }

    /// An independent copy with the same model.
    pub fn duplicate(&self) -> (b: MessageBuffer)
        ensures
            b@ == self@,
    {
        proof {
            use_type_invariant(&*self);
        }
        let mut data: Vec<u8> = Vec::new();
        let mut i: usize = 0;
        let n = self.data.len();
        while i < n
            invariant
                n == self.data@.len(),
                0 <= i <= n,
                data@ == self.data@.take(i as int),
            decreases n - i,
        {
            data.push(self.data[i]);
            proof {
                assert(data@ =~= self.data@.take(i + 1 as int));
            }
            i += 1;
        }
        proof {
            assert(data@ =~= self.data@);
        }
        MessageBuffer { alloc_len: self.alloc_len, data_offset: self.data_offset, data }
    }
}

} // verus!
