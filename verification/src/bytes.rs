//! Endian-aware primitive decoders over borrowed byte slices.
//!
//! A multi-byte integer is read from a slice according to a byte order:
//! little endian (`Intel`) or big endian (`Moto`). Every decoder reports
//! a missing byte by returning `None`; none of them panics.

use vstd::prelude::*;

verus! {

/// Byte order of multi-byte reads: `Intel` is little endian, `Moto` big endian.
#[derive(Debug, PartialEq, Eq, Structural, Copy, Clone)]
pub enum Bytes {
    Intel,
    Moto,
}

/// 256 to the power `n`: the number of values of an `n`-byte integer.
pub open spec fn pow256(n: nat) -> int
    decreases n,
{
    if n == 0 {
        1
    } else {
        256 * pow256((n - 1) as nat)
    }
}

/// The values of `pow256` at the widths the decoders use.
pub proof fn lemma_pow256_values()
    ensures
        pow256(1) == 0x100,
        pow256(2) == 0x1_0000,
        pow256(4) == 0x1_0000_0000,
        pow256(8) == 0x1_0000_0000_0000_0000,
{
    reveal_with_fuel(pow256, 9);
}

/// `pow256` is at least 1 and does not decrease.
pub proof fn lemma_pow256_increases(m: nat, n: nat)
    requires
        m <= n,
    ensures
        1 <= pow256(m) <= pow256(n),
    decreases n,
{
    if n > 0 {
        if m == n {
            lemma_pow256_increases(0, (n - 1) as nat);
        } else {
            lemma_pow256_increases(m, (n - 1) as nat);
        }
    }
}

/// The integer that a byte sequence denotes in little-endian order:
/// the first byte is the least significant.
pub open spec fn le_value(s: Seq<u8>) -> int
    decreases s.len(),
{
    if s.len() == 0 {
        0
    } else {
        s[0] + 256 * le_value(s.subrange(1, s.len() as int))
    }
}

/// The integer that a byte sequence denotes in big-endian order:
/// the last byte is the least significant.
pub open spec fn be_value(s: Seq<u8>) -> int
    decreases s.len(),
{
    if s.len() == 0 {
        0
    } else {
        256 * be_value(s.subrange(0, s.len() - 1)) + s[s.len() - 1]
    }
}

/// The integer a byte sequence denotes in the given byte order.
pub open spec fn word(e: Bytes, s: Seq<u8>) -> int {
    match e {
        Bytes::Intel => le_value(s),
        Bytes::Moto => be_value(s),
    }
}

/// The `n`-byte little-endian encoding of `v`: least significant byte first.
pub open spec fn le_encode(v: int, n: nat) -> Seq<u8>
    decreases n,
{
    if n == 0 {
        Seq::empty()
    } else {
        seq![(v % 256) as u8] + le_encode(v / 256, (n - 1) as nat)
    }
}

/// The `n`-byte big-endian encoding of `v`: least significant byte last.
pub open spec fn be_encode(v: int, n: nat) -> Seq<u8>
    decreases n,
{
    if n == 0 {
        Seq::empty()
    } else {
        be_encode(v / 256, (n - 1) as nat) + seq![(v % 256) as u8]
    }
}

/// The `n`-byte encoding of `v` in the given byte order.
pub open spec fn encode(e: Bytes, v: int, n: nat) -> Seq<u8> {
    match e {
        Bytes::Intel => le_encode(v, n),
        Bytes::Moto => be_encode(v, n),
    }
}

/// Round trip of the decoders: reading back the `n`-byte encoding of any
/// value `v` that fits in `n` bytes, in either byte order, yields `v` again.
pub proof fn lemma_word_round_trip(e: Bytes, v: int, n: nat)
    requires
        0 <= v < pow256(n),
    ensures
        encode(e, v, n).len() == n,
        word(e, encode(e, v, n)) == v,
    decreases n,
{
    if n == 0 {
    } else {
        let d = v / 256;
        let r = v % 256;
        assert(v == 256 * d + r && 0 <= r < 256) by {
            vstd::arithmetic::div_mod::lemma_fundamental_div_mod(v, 256);
        }
        assert(d < pow256((n - 1) as nat));
        lemma_word_round_trip(e, d, (n - 1) as nat);
        match e {
            Bytes::Intel => {
                let s = le_encode(v, n);
                assert(s.subrange(1, s.len() as int) =~= le_encode(d, (n - 1) as nat));
            }
            Bytes::Moto => {
                let s = be_encode(v, n);
                assert(s.subrange(0, s.len() - 1) =~= be_encode(d, (n - 1) as nat));
            }
        }
    }
}

/// The characters that a byte sequence yields when each byte is taken as a
/// scalar code point, as the `ascii` decoder does.
pub open spec fn ascii_of(s: Seq<u8>) -> Seq<char> {
    Seq::new(s.len(), |k: int| s[k] as char)
}

/// Relies on `String::push`: appends exactly the given character.
#[verifier::external_body]
fn push_char(s: &mut String, c: char)
    ensures
        final(s)@ == old(s)@.push(c),
{
    s.push(c)
}

impl Bytes {
    /// Reads the `n`-byte word that starts at `at`, accumulating one byte per
    /// iteration: least-significant-first for `Intel`, most-significant-first
    /// for `Moto`.
    pub fn word_at(&self, i: &[u8], at: usize, n: usize) -> (r: u64)
        requires
            n <= 8,
            at + n <= i@.len(),
        ensures
            r == word(*self, i@.subrange(at as int, at + n)),
            r < pow256(n as nat),
    {
        let len = i.len();
        match *self {
            Bytes::Intel => {
                let mut v: u64 = 0;
                let mut k: usize = n;
                while k > 0
                    invariant
                        k <= n <= 8,
                        at + n <= len,
                        len == i@.len(),
                        v == le_value(i@.subrange(at + k, at + n)),
                        v < pow256((n - k) as nat),
                    decreases k,
                {
                    k = k - 1;
                    proof {
                        lemma_pow256_increases((n - k) as nat, 8);
                        lemma_pow256_values();
                    }
                    let b = *vstd::slice::slice_index_get(i, at + k);
                    proof {
                        assert(i@.subrange(at + k, at + n).subrange(1, (n - k) as int) =~= i@
                            .subrange(at + k + 1, at + n));
                    }
                    v = v * 256 + (b as u64);
                }
                proof {
                    assert(i@.subrange(at as int, at + n) =~= i@.subrange(at + 0, at + n));
                }
                v
            }
            Bytes::Moto => {
                let mut v: u64 = 0;
                let mut k: usize = 0;
                while k < n
                    invariant
                        k <= n <= 8,
                        at + n <= len,
                        len == i@.len(),
                        v == be_value(i@.subrange(at as int, at + k)),
                        v < pow256(k as nat),
                    decreases n - k,
                {
                    proof {
                        lemma_pow256_increases((k + 1) as nat, 8);
                        lemma_pow256_values();
                    }
                    let b = *vstd::slice::slice_index_get(i, at + k);
                    proof {
                        assert(i@.subrange(at as int, at + k + 1).subrange(0, k as int) =~= i@
                            .subrange(at as int, at + k));
                    }
                    v = v * 256 + (b as u64);
                    k = k + 1;
                }
                v
            }
        }
    }

    /// The byte at the start of the slice; `None` on an empty slice.
    pub fn u8(&self, i: &[u8]) -> (r: Option<u8>)
        ensures
            r is Some <==> i@.len() >= 1,
            r matches Some(v) ==> v == i@[0],
    {
        if i.len() < 1 {
            None
        } else {
            Some(*vstd::slice::slice_index_get(i, 0))
        }
    }

    /// The two-byte word at the start of the slice; `None` when a byte is missing.
    pub fn u16(&self, i: &[u8]) -> (r: Option<u16>)
        ensures
            r is Some <==> i@.len() >= 2,
            r matches Some(v) ==> v == word(*self, i@.subrange(0, 2)),
    {
        if i.len() < 2 {
            None
        } else {
            proof {
                lemma_pow256_values();
            }
            Some(self.word_at(i, 0, 2) as u16)
        }
    }

    /// The four-byte word at the start of the slice; `None` when a byte is missing.
    pub fn u32(&self, i: &[u8]) -> (r: Option<u32>)
        ensures
            r is Some <==> i@.len() >= 4,
            r matches Some(v) ==> v == word(*self, i@.subrange(0, 4)),
    {
        if i.len() < 4 {
            None
        } else {
            proof {
                lemma_pow256_values();
            }
            Some(self.word_at(i, 0, 4) as u32)
        }
    }

    /// The eight-byte word at the start of the slice; `None` when a byte is missing.
    pub fn u64(&self, i: &[u8]) -> (r: Option<u64>)
        ensures
            r is Some <==> i@.len() >= 8,
            r matches Some(v) ==> v == word(*self, i@.subrange(0, 8)),
    {
        if i.len() < 8 {
            None
        } else {
            Some(self.word_at(i, 0, 8))
        }
    }

    /// The first `n` bytes of the slice; `None` when the slice is shorter.
    pub fn u8_vec(&self, n: u64, i: &[u8]) -> (r: Option<Vec<u8>>)
        ensures
            r is Some <==> n <= i@.len(),
            r matches Some(v) ==> v@ == i@.subrange(0, n as int),
    {
        if n > i.len() as u64 {
            None
        } else {
            Some(vstd::slice::slice_to_vec(vstd::slice::slice_subrange(i, 0, n as usize)))
        }
    }

    /// The `n` consecutive two-byte words at the start of the slice;
    /// `None` when the slice is shorter than `2 * n` bytes.
    pub fn u16_vec(&self, n: u64, i: &[u8]) -> (r: Option<Vec<u16>>)
        ensures
            r is Some <==> 2 * n <= i@.len(),
            r matches Some(v) ==> v@.len() == n && forall|k: int|
                0 <= k < n ==> v@[k] == word(*self, i@.subrange(2 * k, 2 * k + 2)),
    {
        if n > (i.len() / 2) as u64 {
            None
        } else {
            let count = n as usize;
            let len = i.len();
            let mut v: Vec<u16> = Vec::new();
            let mut k: usize = 0;
            proof {
                lemma_pow256_values();
            }
            while k < count
                invariant
                    k <= count,
                    2 * count <= len == i@.len(),
                    v@.len() == k,
                    forall|m: int|
                        0 <= m < k ==> v@[m] == word(*self, i@.subrange(2 * m, 2 * m + 2)),
                    pow256(2) == 0x1_0000,
                decreases count - k,
            {
                let w = self.word_at(i, 2 * k, 2) as u16;
                v.push(w);
                k = k + 1;
            }
            Some(v)
        }
    }

    /// The `n` consecutive four-byte words at the start of the slice;
    /// `None` when the slice is shorter than `4 * n` bytes.
    pub fn u32_vec(&self, n: u64, i: &[u8]) -> (r: Option<Vec<u32>>)
        ensures
            r is Some <==> 4 * n <= i@.len(),
            r matches Some(v) ==> v@.len() == n && forall|k: int|
                0 <= k < n ==> v@[k] == word(*self, i@.subrange(4 * k, 4 * k + 4)),
    {
        if n > (i.len() / 4) as u64 {
            None
        } else {
            let count = n as usize;
            let len = i.len();
            let mut v: Vec<u32> = Vec::new();
            let mut k: usize = 0;
            proof {
                lemma_pow256_values();
            }
            while k < count
                invariant
                    k <= count,
                    4 * count <= len == i@.len(),
                    v@.len() == k,
                    forall|m: int|
                        0 <= m < k ==> v@[m] == word(*self, i@.subrange(4 * m, 4 * m + 4)),
                    pow256(4) == 0x1_0000_0000,
                decreases count - k,
            {
                let w = self.word_at(i, 4 * k, 4) as u32;
                v.push(w);
                k = k + 1;
            }
            Some(v)
        }
    }

    /// The `n` consecutive eight-byte words at the start of the slice;
    /// `None` when the slice is shorter than `8 * n` bytes.
    pub fn u64_vec(&self, n: u64, i: &[u8]) -> (r: Option<Vec<u64>>)
        ensures
            r is Some <==> 8 * n <= i@.len(),
            r matches Some(v) ==> v@.len() == n && forall|k: int|
                0 <= k < n ==> v@[k] == word(*self, i@.subrange(8 * k, 8 * k + 8)),
    {
        if n > (i.len() / 8) as u64 {
            None
        } else {
            let count = n as usize;
            let len = i.len();
            let mut v: Vec<u64> = Vec::new();
            let mut k: usize = 0;
            while k < count
                invariant
                    k <= count,
                    8 * count <= len == i@.len(),
                    v@.len() == k,
                    forall|m: int|
                        0 <= m < k ==> v@[m] == word(*self, i@.subrange(8 * m, 8 * m + 8)),
                decreases count - k,
            {
                let w = self.word_at(i, 8 * k, 8);
                v.push(w);
                k = k + 1;
            }
            Some(v)
        }
    }

    /// The string of the first `n` bytes, each byte taken as one character;
    /// `None` when the slice is shorter than `n` bytes.
    pub fn ascii(&self, n: u64, i: &[u8]) -> (r: Option<String>)
        ensures
            r is Some <==> n <= i@.len(),
            r matches Some(v) ==> v@ == ascii_of(i@.subrange(0, n as int)),
    {
        if n > i.len() as u64 {
            None
        } else {
            let count = n as usize;
            let mut s = String::new();
            let mut k: usize = 0;
            while k < count
                invariant
                    k <= count <= i@.len(),
                    s@ == ascii_of(i@.subrange(0, count as int)).subrange(0, k as int),
                decreases count - k,
            {
                let b = *vstd::slice::slice_index_get(i, k);
                push_char(&mut s, b as char);
                k = k + 1;
                proof {
                    assert(s@ =~= ascii_of(i@.subrange(0, count as int)).subrange(0, k as int));
                }
            }
            proof {
                assert(s@ =~= ascii_of(i@.subrange(0, count as int)));
            }
            Some(s)
        }
    }

    /// The unsigned rational at the start of the slice: a four-byte numerator
    /// followed by a four-byte denominator. `None` when a byte is missing.
    pub fn rational(&self, i: &[u8]) -> (r: Option<(u32, u32)>)
        ensures
            r is Some <==> i@.len() >= 8,
            r matches Some(v) ==> v.0 == word(*self, i@.subrange(0, 4)) && v.1 == word(
                *self,
                i@.subrange(4, 8),
            ),
    {
        if i.len() < 8 {
            None
        } else {
            proof {
                lemma_pow256_values();
            }
            let numer = self.word_at(i, 0, 4) as u32;
            let denom = self.word_at(i, 4, 4) as u32;
            Some((numer, denom))
        }
    }

    /// The `n` consecutive eight-byte rationals at the start of the slice;
    /// `None` when the slice is shorter than `8 * n` bytes.
    pub fn rational_vec(&self, n: u64, i: &[u8]) -> (r: Option<Vec<(u32, u32)>>)
        ensures
            r is Some <==> 8 * n <= i@.len(),
            r matches Some(v) ==> v@.len() == n && forall|k: int|
                0 <= k < n ==> v@[k].0 == word(*self, i@.subrange(8 * k, 8 * k + 4)) && v@[k].1
                    == word(*self, i@.subrange(8 * k + 4, 8 * k + 8)),
    {
        if n > (i.len() / 8) as u64 {
            None
        } else {
            let count = n as usize;
            let len = i.len();
            let mut v: Vec<(u32, u32)> = Vec::new();
            let mut k: usize = 0;
            proof {
                lemma_pow256_values();
            }
            while k < count
                invariant
                    k <= count,
                    8 * count <= len == i@.len(),
                    v@.len() == k,
                    forall|m: int|
                        0 <= m < k ==> v@[m].0 == word(*self, i@.subrange(8 * m, 8 * m + 4))
                            && v@[m].1 == word(*self, i@.subrange(8 * m + 4, 8 * m + 8)),
                    pow256(4) == 0x1_0000_0000,
                decreases count - k,
            {
                let numer = self.word_at(i, 8 * k, 4) as u32;
                let denom = self.word_at(i, 8 * k + 4, 4) as u32;
                v.push((numer, denom));
                k = k + 1;
            }
            Some(v)
        }
    }
}

} // verus!
