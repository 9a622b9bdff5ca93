//! A one- or two-byte payload, without allocating.

use vstd::prelude::*;

verus! {

#[derive(Debug, Clone, Copy, PartialEq, Eq)]
pub struct Bytes {
    buf: [u8; 2],
    len: usize,
}

impl View for Bytes {
    type V = Seq<u8>;

    closed spec fn view(&self) -> Seq<u8> {
        self.buf@.take(self.len as int)
    }
}

impl Bytes {
    #[verifier::type_invariant]
    spec fn fits(&self) -> bool {
        self.len <= 2
    }

    pub fn one(a: u8) -> (bytes: Self)
        ensures
            bytes@ == seq![a],
    {
        let bytes = Self { buf: [a, 0], len: 1 };
        assert(bytes@ =~= seq![a]);
        bytes
    }

    pub fn two(a: u8, b: u8) -> (bytes: Self)
        ensures
            bytes@ == seq![a, b],
    {
        let bytes = Self { buf: [a, b], len: 2 };
        assert(bytes@ =~= seq![a, b]);
        bytes
    }

    pub fn as_slice(&self) -> (bytes: &[u8])
        ensures
            bytes@ == self@,
    {
        proof {
            use_type_invariant(self);
        }
        vstd::slice::slice_subrange(self.buf.as_slice(), 0, self.len)
    }
}

} // verus!
