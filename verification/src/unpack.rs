//! Endian-aware integer readers. MDX stores almost every number big-endian;
//! the header checksum and the per-block compression tag are little-endian.

use vstd::prelude::*;

verus! {

/// Byte order of a stored integer.
#[derive(Clone, Copy, Debug, PartialEq, Eq, Structural)]
pub enum Endian {
    LE,
    BE,
}

/// Value of a big-endian byte sequence (first byte most significant).
pub open spec fn be_val(s: Seq<u8>) -> nat
    decreases s.len(),
{
    if s.len() == 0 {
        0
    } else {
        (be_val(s.drop_last()) * 0x100 + s.last()) as nat
    }
}

/// Value of a little-endian byte sequence (first byte least significant).
pub open spec fn le_val_first(s: Seq<u8>) -> int
    decreases s.len(),
{
    if s.len() == 0 {
        0
    } else {
        s[0] + le_val_first(s.drop_first()) * 0x100
    }
}

/// 256 raised to `k`: the weight of the `k`-th byte.
pub open spec fn pow256(k: nat) -> int
    decreases k,
{
    if k == 0 {
        1
    } else {
        0x100 * pow256((k - 1) as nat)
    }
}

/// Every big-endian value fits under `256^len`.
pub proof fn lemma_be_val_bound(s: Seq<u8>)
    ensures
        0 <= be_val(s) < pow256(s.len()),
    decreases s.len(),
{
    if s.len() == 0 {
    } else {
        lemma_be_val_bound(s.drop_last());
        assert(be_val(s.drop_last()) * 0x100 <= (pow256((s.len() - 1) as nat) - 1) * 0x100)
            by (nonlinear_arith)
            requires
                be_val(s.drop_last()) <= pow256((s.len() - 1) as nat) - 1,
        ;
        assert(pow256(s.len()) == 0x100 * pow256((s.len() - 1) as nat));
        assert(be_val(s.drop_last()) * 0x100 >= 0) by (nonlinear_arith)
            requires
                be_val(s.drop_last()) >= 0,
        ;
    }
}

/// Reads `width` bytes at `pos` as a big-endian integer.
pub fn read_be_at(data: &[u8], pos: usize, width: usize) -> (r: u64)
    requires
        width <= 8,
        pos + width <= data@.len(),
    ensures
        r == be_val(data@.subrange(pos as int, pos + width)),
{
    let n = data.len();
    let mut acc: u64 = 0;
    let mut k: usize = 0;
    proof {
        reveal_with_fuel(pow256, 9);
        assert(pow256(8) == 0x1_0000_0000_0000_0000);
    }
    while k < width
        invariant
            0 <= k <= width <= 8,
            n == data@.len(),
            pos + width <= n,
            acc == be_val(data@.subrange(pos as int, pos + k)),
            pow256(8) == 0x1_0000_0000_0000_0000,
        decreases width - k,
    {
        proof {
            lemma_be_val_bound(data@.subrange(pos as int, pos + k));
            lemma_pow256_le(k as nat, 7);
            assert(acc * 0x100 + data@[pos + k] < pow256((k + 1) as nat)) by (nonlinear_arith)
                requires
                    acc < pow256(k as nat),
                    data@[pos + k] < 0x100,
                    pow256((k + 1) as nat) == 0x100 * pow256(k as nat),
            ;
            lemma_pow256_le((k + 1) as nat, 8);
            assert(data@.subrange(pos as int, pos + k + 1).drop_last() =~= data@.subrange(
                pos as int,
                pos + k,
            ));
        }
        acc = acc * 0x100 + data[pos + k] as u64;
        k = k + 1;
    }
    acc
}

/// `pow256` is monotone in its exponent.
pub proof fn lemma_pow256_le(a: nat, b: nat)
    requires
        a <= b,
    ensures
        pow256(a) <= pow256(b),
        pow256(a) >= 1,
    decreases b,
{
    if a == b {
        lemma_pow256_pos(a);
    } else {
        lemma_pow256_le(a, (b - 1) as nat);
    }
}

/// `pow256` is positive.
pub proof fn lemma_pow256_pos(k: nat)
    ensures
        pow256(k) >= 1,
    decreases k,
{
    if k > 0 {
        lemma_pow256_pos((k - 1) as nat);
    }
}

/// Reads four bytes at `pos` as a little-endian 32-bit integer.
pub fn read_le_u32_at(data: &[u8], pos: usize) -> (r: u32)
    requires
        pos + 4 <= data@.len(),
    ensures
        r == le_val_first(data@.subrange(pos as int, pos + 4)),
{
    let b0 = data[pos] as u32;
    let b1 = data[pos + 1] as u32;
    let b2 = data[pos + 2] as u32;
    let b3 = data[pos + 3] as u32;
    proof {
        reveal_with_fuel(le_val_first, 5);
        let s = data@.subrange(pos as int, pos + 4);
        assert(s.drop_first() =~= data@.subrange(pos + 1, pos + 4));
        assert(s.drop_first().drop_first() =~= data@.subrange(pos + 2, pos + 4));
        assert(s.drop_first().drop_first().drop_first() =~= data@.subrange(pos + 3, pos + 4));
        assert(s.drop_first().drop_first().drop_first().drop_first() =~= Seq::<u8>::empty());
    }
    b0 + b1 * 0x100 + b2 * 0x10000 + b3 * 0x1000000
}

/// What [`ReadBytes::read_number`] returns: the integer stored in the first
/// `width` bytes of the slice, in the given byte order, or nothing when the
/// slice is shorter than the width.
pub open spec fn read_number_spec(s: Seq<u8>, e: Endian, width: nat) -> Option<int> {
    if s.len() < width {
        None
    } else {
        match e {
            Endian::BE => Some(be_val(s.subrange(0, width as int)) as int),
            Endian::LE => Some(le_val_first(s.subrange(0, width as int))),
        }
    }
}

/// Fixed-width unsigned integers that can be unpacked from a byte slice.
pub trait ReadBytes: Sized {
    /// Stored width in bytes.
    spec fn width() -> nat;

    /// Converts the mathematical value into the concrete integer.
    spec fn of_int(v: int) -> Self;

    /// Reads the first [`Self::width`] bytes of `slice` in the given byte
    /// order; `None` when the slice is too short.
    fn read_number(slice: &[u8], byteorder: Endian) -> (r: Option<Self>)
        ensures
            match read_number_spec(slice@, byteorder, Self::width()) {
                Some(v) => r == Some(Self::of_int(v)),
                None => r is None,
            },
    ;
}

impl ReadBytes for u16 {
    open spec fn width() -> nat {
        2
    }

    open spec fn of_int(v: int) -> u16 {
        v as u16
    }

    fn read_number(slice: &[u8], byteorder: Endian) -> (r: Option<u16>) {
        if slice.len() < 2 {
            return None;
        }
        match byteorder {
            Endian::BE => {
                let v = read_be_at(slice, 0, 2);
                proof {
                    lemma_be_val_bound(slice@.subrange(0, 2));
                    reveal_with_fuel(pow256, 3);
                }
                Some(v as u16)
            },
            Endian::LE => {
                let lo = slice[0] as u16;
                let hi = slice[1] as u16;
                proof {
                    reveal_with_fuel(le_val_first, 3);
                    let s = slice@.subrange(0, 2);
                    assert(s.drop_first() =~= slice@.subrange(1, 2));
                    assert(s.drop_first().drop_first() =~= Seq::<u8>::empty());
                }
                Some(lo + hi * 0x100)
            },
        }
    }
}

impl ReadBytes for u32 {
    open spec fn width() -> nat {
        4
    }

    open spec fn of_int(v: int) -> u32 {
        v as u32
    }

    fn read_number(slice: &[u8], byteorder: Endian) -> (r: Option<u32>) {
        if slice.len() < 4 {
            return None;
        }
        match byteorder {
            Endian::BE => {
                let v = read_be_at(slice, 0, 4);
                proof {
                    lemma_be_val_bound(slice@.subrange(0, 4));
                    reveal_with_fuel(pow256, 5);
                }
                Some(v as u32)
            },
            Endian::LE => Some(read_le_u32_at(slice, 0)),
        }
    }
}

impl ReadBytes for u64 {
    open spec fn width() -> nat {
        8
    }

    open spec fn of_int(v: int) -> u64 {
        v as u64
    }

    fn read_number(slice: &[u8], byteorder: Endian) -> (r: Option<u64>) {
        if slice.len() < 8 {
            return None;
        }
        match byteorder {
            Endian::BE => Some(read_be_at(slice, 0, 8)),
            Endian::LE => {
                let lo = read_le_u32_at(slice, 0) as u64;
                let hi = read_le_u32_at(slice, 4) as u64;
                proof {
                    let s = slice@.subrange(0, 8);
                    lemma_le_val_first_split(s, 4);
                    assert(s.subrange(0, 4) =~= slice@.subrange(0, 4));
                    assert(s.subrange(4, 8) =~= slice@.subrange(4, 8));
                    lemma_le_val_first_bound(slice@.subrange(0, 4));
                    lemma_le_val_first_bound(slice@.subrange(4, 8));
                    reveal_with_fuel(pow256, 5);
                    assert(pow256(4) == 0x1_0000_0000);
                }
                Some(lo + hi * 0x1_0000_0000)
            },
        }
    }
}

/// Splitting a little-endian sequence at `k` splits its value at `256^k`.
pub proof fn lemma_le_val_first_split(s: Seq<u8>, k: nat)
    requires
        k <= s.len(),
    ensures
        le_val_first(s) == le_val_first(s.subrange(0, k as int)) + le_val_first(
            s.subrange(k as int, s.len() as int),
        ) * pow256(k),
    decreases k,
{
    if k == 0 {
        assert(s.subrange(0, 0) =~= Seq::<u8>::empty());
        assert(s.subrange(0, s.len() as int) =~= s);
    } else {
        let t = s.drop_first();
        lemma_le_val_first_split(t, (k - 1) as nat);
        assert(t.subrange(0, k - 1) =~= s.subrange(0, k as int).drop_first());
        assert(t.subrange(k - 1, t.len() as int) =~= s.subrange(k as int, s.len() as int));
        let head = s.subrange(0, k as int);
        let tail = s.subrange(k as int, s.len() as int);
        assert(le_val_first(t) == le_val_first(head.drop_first()) + le_val_first(tail) * pow256(
            (k - 1) as nat,
        ));
        assert((le_val_first(head.drop_first()) + le_val_first(tail) * pow256((k - 1) as nat))
            * 0x100 == le_val_first(head.drop_first()) * 0x100 + le_val_first(tail) * (0x100
            * pow256((k - 1) as nat))) by (nonlinear_arith);
        assert(head[0] == s[0]);
    }
}

/// Every little-endian value fits under `256^len`.
pub proof fn lemma_le_val_first_bound(s: Seq<u8>)
    ensures
        0 <= le_val_first(s) < pow256(s.len()),
    decreases s.len(),
{
    if s.len() == 0 {
    } else {
        lemma_le_val_first_bound(s.drop_first());
        assert(le_val_first(s.drop_first()) * 0x100 <= (pow256((s.len() - 1) as nat) - 1) * 0x100
            && le_val_first(s.drop_first()) * 0x100 >= 0) by (nonlinear_arith)
            requires
                0 <= le_val_first(s.drop_first()) <= pow256((s.len() - 1) as nat) - 1,
        ;
    }
}

/// Unpacks the first bytes of `slice` as an `R`, in the given byte order.
pub fn unpack<R: ReadBytes>(slice: &[u8], byteorder: Endian) -> (r: Option<R>)
    ensures
        match read_number_spec(slice@, byteorder, R::width()) {
            Some(v) => r == Some(R::of_int(v)),
            None => r is None,
        },
{
    R::read_number(slice, byteorder)
}

} // verus!
