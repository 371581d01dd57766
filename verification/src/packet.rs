use vstd::prelude::*;
use vstd::slice::{slice_subrange, slice_to_vec};

verus! {

/// A received or outgoing packet held as one byte string: the id byte
/// first, then the packet's data.
pub struct Packet {
    payload: Vec<u8>,
}

impl View for Packet {
    type V = Seq<u8>;

    /// The id byte followed by the data.
    closed spec fn view(&self) -> Seq<u8> {
        self.payload@
    }
}

impl Packet {
    /// A packet whose bytes are `payload`.
    pub fn new(payload: Vec<u8>) -> (r: Self)
        ensures
            r@ == payload@,
    {
        Self { payload }
    }

    /// A packet with id `id` and data `data`.
    pub fn create(id: u8, data: Vec<u8>) -> (r: Self)
        ensures
            r@ == seq![id] + data@,
    {
        let ghost given = data@;
        let mut data = data;
        data.insert(0, id);
        assert(data@ =~= seq![id] + given);
        Self { payload: data }
    }

    /// The count of bytes, id included.
    pub fn len(&self) -> (r: usize)
        ensures
            r == self@.len(),
    {
        self.payload.len()
    }

    /// The id byte.
    pub fn id(&self) -> (r: u8)
        requires
            self@.len() > 0,
        ensures
            r == self@[0],
    {
        self.payload[0]
    }

    /// The data after the id byte.
    pub fn data(&self) -> (r: &[u8])
        requires
            self@.len() > 0,
        ensures
            r@ == self@.skip(1),
    {
        slice_subrange(self.payload.as_slice(), 1, self.payload.len())
    }

    /// A copy of the data after the id byte.
    pub fn data_owned(&self) -> (r: Vec<u8>)
        requires
            self@.len() > 0,
        ensures
            r@ == self@.skip(1),
    {
        let mut data = slice_to_vec(self.payload.as_slice());
        data.split_off(1)
    }

    /// All bytes, id included.
    pub fn payload(&self) -> (r: &[u8])
        ensures
            r@ == self@,
    {
        self.payload.as_slice()
    }
}


/// A packet made with `create` gives back its id and its data.
pub proof fn create_then_read(id: u8, data: Seq<u8>)
    ensures
        (seq![id] + data).len() > 0,
        (seq![id] + data)[0] == id,
        (seq![id] + data).skip(1) == data,
{
    assert((seq![id] + data).skip(1) =~= data);
}

} // verus!
