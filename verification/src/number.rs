//! Cursor-style readers that pull fixed-width big-endian numbers off a byte
//! buffer, as the key-block and record-block meta sections store them.

use vstd::prelude::*;

use crate::unpack::{be_val, read_be_at};

verus! {

/// A byte buffer consumed number by number, each `number_width` bytes wide.
pub struct NumberBytes {
    tail: Vec<u8>,
    number_width: usize,
}

impl NumberBytes {
    /// Bytes not yet consumed.
    pub closed spec fn tail_spec(&self) -> Seq<u8> {
        self.tail@
    }

    /// Width of each stored number, in bytes.
    pub closed spec fn width_spec(&self) -> nat {
        self.number_width as nat
    }

    /// A reader over `bytes` that yields `number_width`-byte numbers.
    pub fn new(bytes: &Vec<u8>, number_width: usize) -> (r: NumberBytes)
        ensures
            r.tail_spec() == bytes@,
            r.width_spec() == number_width,
    {
        NumberBytes { tail: bytes.clone(), number_width }
    }

    /// Reads the next number, consuming its bytes; `None` when fewer than a
    /// full number's bytes remain or the width does not fit a 64-bit value.
    pub fn read_number(&mut self) -> (r: Option<u64>)
        ensures
            match r {
                Some(v) => {
                    &&& old(self).width_spec() <= 8
                    &&& old(self).tail_spec().len() >= old(self).width_spec()
                    &&& v == be_val(old(self).tail_spec().subrange(0, old(self).width_spec() as int))
                    &&& final(self).tail_spec() == old(self).tail_spec().skip(
                        old(self).width_spec() as int,
                    )
                },
                None => {
                    &&& (old(self).width_spec() > 8 || old(self).tail_spec().len() < old(
                        self,
                    ).width_spec())
                    &&& *final(self) == *old(self)
                },
            },
            final(self).width_spec() == old(self).width_spec(),
    {
        let w = self.number_width;
        if w > 8 || self.tail.len() < w {
            return None;
        }
        let v = read_be_at(self.tail.as_slice(), 0, w);
        let mut rest: Vec<u8> = Vec::new();
        let mut i: usize = w;
        let n = self.tail.len();
        while i < n
            invariant
                w <= i <= n,
                n == self.tail@.len(),
                rest@ =~= self.tail@.subrange(w as int, i as int),
            decreases n - i,
        {
            rest.push(self.tail[i]);
            i = i + 1;
        }
        proof {
            assert(rest@ =~= self.tail@.skip(w as int));
        }
        self.tail = rest;
        Some(v)
    }
}

/// All the big-endian numbers of one width packed in a buffer, read in order.
pub struct NumberFromBeBytes {
    numbers: Vec<u64>,
    index: usize,
}

/// The numbers stored in `bytes` as consecutive `width`-byte big-endian
/// chunks; a ragged tail shorter than `width` is ignored.
pub open spec fn be_numbers_spec(bytes: Seq<u8>, width: nat) -> Seq<int> {
    Seq::new(bytes.len() / width, |i: int| be_val(bytes.subrange(i * width, i * width + width)) as int)
}

impl NumberFromBeBytes {
    /// Numbers not yet yielded.
    pub closed spec fn remaining_spec(&self) -> Seq<u64> {
        if self.index <= self.numbers@.len() {
            self.numbers@.skip(self.index as int)
        } else {
            Seq::empty()
        }
    }

    /// Decodes every `width`-byte chunk of `bytes` up front.
    pub fn new(bytes: &[u8], width: u8) -> (r: NumberFromBeBytes)
        requires
            width == 2 || width == 4 || width == 8,
        ensures
            r.remaining_spec().map_values(|v: u64| v as int) =~= be_numbers_spec(
                bytes@,
                width as nat,
            ),
    {
        let w = width as usize;
        let n = bytes.len();
        let num_count = n / w;
        let mut numbers: Vec<u64> = Vec::new();
        let mut i: usize = 0;
        proof {
            vstd::arithmetic::div_mod::lemma_fundamental_div_mod(bytes@.len() as int, w as int);
        }
        while i < num_count
            invariant
                w == width as usize,
                width == 2 || width == 4 || width == 8,
                0 <= i <= num_count,
                n == bytes@.len(),
                num_count == bytes@.len() as int / w as int,
                num_count * w <= n,
                numbers@.len() == i,
                forall|j: int|
                    0 <= j < i ==> numbers@[j] == be_val(
                        bytes@.subrange(j * w, j * w + w),
                    ),
            decreases num_count - i,
        {
            proof {
                assert((i + 1) * w <= num_count * w && i * w >= 0 && (i + 1) * w == i * w + w)
                    by (nonlinear_arith)
                    requires
                        0 <= i < num_count,
                        w >= 1,
                ;
            }
            let start = i * w;
            let num = read_be_at(bytes, start, w);
            numbers.push(num);
            i = i + 1;
        }
        let r = NumberFromBeBytes { numbers, index: 0 };
        proof {
            assert(r.remaining_spec() =~= r.numbers@);
        }
        r
    }

    /// Yields the next number, or `None` when all are consumed.
    pub fn next(&mut self) -> (r: Option<u64>)
        ensures
            match r {
                Some(v) => {
                    &&& old(self).remaining_spec().len() > 0
                    &&& v == old(self).remaining_spec()[0]
                    &&& final(self).remaining_spec() == old(self).remaining_spec().skip(1)
                },
                None => {
                    &&& old(self).remaining_spec().len() == 0
                    &&& *final(self) == *old(self)
                },
            },
    {
        if self.index >= self.numbers.len() {
            proof {
                assert(self.remaining_spec().len() == 0);
            }
            None
        } else {
            let v = self.numbers[self.index];
            self.index = self.index + 1;
            proof {
                assert(final(self).remaining_spec() =~= old(self).remaining_spec().skip(1));
            }
            Some(v)
        }
    }
}

} // verus!
