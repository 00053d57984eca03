//! Fixed-length bit vectors and the Hamming distance between them.

use vstd::prelude::*;
use crate::base64::{decode, encode, encode_spec, lemma_encode_injective};
use crate::error::ErrorKind;

verus! {

/// Bit `k` of `b`, counted from the least significant bit.
pub open spec fn bit_at(b: u8, k: u8) -> bool {
    (b >> k) & 1u8 == 1u8
}

/// The number of bytes that hold `size` bits.
pub open spec fn byte_len(size: nat) -> nat {
    (size + 7) / 8
}

/// The first `size` bits of `bytes`, least significant bit of each byte first.
pub open spec fn unpack(bytes: Seq<u8>, size: nat) -> Seq<bool> {
    Seq::new(size, |i: int| bit_at(bytes[i / 8], (i % 8) as u8))
}

/// No bit is set in the last byte at or beyond position `size`.
pub open spec fn padding_clear(bytes: Seq<u8>, size: nat) -> bool {
    size % 8 != 0 ==> bytes[bytes.len() - 1] >> ((size % 8) as u8) == 0u8
}

/// `bytes` is the canonical storage of a hash of `size` bits.
pub open spec fn canonical(bytes: Seq<u8>, size: nat) -> bool {
    &&& bytes.len() == byte_len(size)
    &&& padding_clear(bytes, size)
}

/// How many of the first `n` positions hold different bits in `a` and `b`.
pub open spec fn differing_upto(a: Seq<bool>, b: Seq<bool>, n: nat) -> nat
    decreases n,
{
    if n == 0 {
        0
    } else {
        differing_upto(a, b, (n - 1) as nat) + if a[n - 1] != b[n - 1] { 1nat } else { 0nat }
    }
}

/// The Hamming distance of two bit sequences of one length.
pub open spec fn hamming(a: Seq<bool>, b: Seq<bool>) -> nat {
    differing_upto(a, b, a.len())
}

/// How many of the lowest `n` bits of `x` are set.
pub open spec fn ones_upto(x: u8, n: nat) -> nat
    decreases n,
{
    if n == 0 {
        0
    } else {
        ones_upto(x, (n - 1) as nat) + if bit_at(x, (n - 1) as u8) { 1nat } else { 0nat }
    }
}

pub proof fn lemma_differing_bounded(a: Seq<bool>, b: Seq<bool>, n: nat)
    ensures
        differing_upto(a, b, n) <= n,
    decreases n,
{
    if n > 0 {
        lemma_differing_bounded(a, b, (n - 1) as nat);
    }
}

proof fn lemma_bit_stays_clear(b: u8, k: u8)
    requires
        k < 8,
        b >> k == 0u8,
    ensures
        !bit_at(b, k),
        k < 7 ==> b >> ((k + 1) as u8) == 0u8,
{
    assert(!((b >> k) & 1u8 == 1u8)) by (bit_vector)
        requires
            k < 8,
            b >> k == 0u8,
    ;
    if k < 7 {
        let k1: u8 = (k + 1) as u8;
        assert(b >> k1 == 0u8) by (bit_vector)
            requires
                k < 7,
                k1 == k + 1,
                b >> k == 0u8,
        ;
    }
}

proof fn lemma_bit_set(b: u8, k: u8)
    requires
        k < 8,
        b >> k == 0u8,
    ensures
        bit_at(b | (1u8 << k), k),
        k < 7 ==> (b | (1u8 << k)) >> ((k + 1) as u8) == 0u8,
{
    assert(((b | (1u8 << k)) >> k) & 1u8 == 1u8) by (bit_vector)
        requires
            k < 8,
            b >> k == 0u8,
    ;
    if k < 7 {
        let k1: u8 = (k + 1) as u8;
        assert((b | (1u8 << k)) >> k1 == 0u8) by (bit_vector)
            requires
                k < 7,
                k1 == k + 1,
                b >> k == 0u8,
        ;
    }
}

proof fn lemma_lower_bit_kept(b: u8, k: u8, j: u8)
    requires
        j < k < 8,
    ensures
        bit_at(b | (1u8 << k), j) == bit_at(b, j),
{
    assert((((b | (1u8 << k)) >> j) & 1u8 == 1u8) == ((b >> j) & 1u8 == 1u8)) by (bit_vector)
        requires
            j < k,
            k < 8,
    ;
}

proof fn lemma_xor_bit(x: u8, y: u8, k: u8)
    requires
        k < 8,
    ensures
        bit_at(x ^ y, k) == (bit_at(x, k) != bit_at(y, k)),
{
    assert((((x ^ y) >> k) & 1u8 == 1u8) == (((x >> k) & 1u8 == 1u8) != ((y >> k) & 1u8 == 1u8)))
        by (bit_vector)
        requires
            k < 8,
    ;
}

/// Within byte `i`, the differing positions among its first `j` bits are the
/// set bits among the lowest `j` bits of the exclusive or of the two bytes.
proof fn lemma_byte_step(x: Seq<u8>, y: Seq<u8>, size: nat, i: nat, j: nat)
    requires
        j <= 8,
        8 * i + j <= size,
        i < x.len(),
        i < y.len(),
    ensures
        differing_upto(unpack(x, size), unpack(y, size), 8 * i + j) == differing_upto(
            unpack(x, size),
            unpack(y, size),
            8 * i,
        ) + ones_upto(x[i as int] ^ y[i as int], j),
    decreases j,
{
    if j > 0 {
        lemma_byte_step(x, y, size, i, (j - 1) as nat);
        let p: int = 8 * i + j - 1;
        assert(p / 8 == i as int && p % 8 == j - 1);
        lemma_xor_bit(x[i as int], y[i as int], (j - 1) as u8);
        assert(unpack(x, size)[p] == bit_at(x[i as int], (j - 1) as u8));
        assert(unpack(y, size)[p] == bit_at(y[i as int], (j - 1) as u8));
    }
}

/// Counts the set bits among the lowest `n` bits of `x`; bits from `n`
/// upwards are masked out.
fn count_low_bits(x: u8, n: u8) -> (c: u8)
    requires
        n <= 8,
    ensures
        c == ones_upto(x, n as nat),
{
    let mut c: u8 = 0;
    let mut k: u8 = 0;
    while k < n
        invariant
            k <= n <= 8,
            c == ones_upto(x, k as nat),
            c <= k,
        decreases n - k,
    {
        if (x >> k) & 1u8 == 1u8 {
            c = c + 1;
        }
        k = k + 1;
    }
    c
}

/// A perceptual hash: `size` bits, stored least significant bit first in
/// `byte_len(size)` bytes whose unused high bits are zero.
#[derive(Debug, PartialEq, Eq)]
pub struct BitHash {
    size: usize,
    bytes: Vec<u8>,
}

impl View for BitHash {
    type V = Seq<bool>;

    closed spec fn view(&self) -> Seq<bool> {
        unpack(self.bytes@, self.size as nat)
    }
}

impl Clone for BitHash {
    fn clone(&self) -> (copy: Self)
        ensures
            copy@ == self@,
            copy.spec_bytes() == self.spec_bytes(),
            copy.spec_size() == self.spec_size(),
    {
        proof {
            use_type_invariant(self);
        }
        BitHash { size: self.size, bytes: self.bytes.clone() }
    }
}

impl BitHash {
    /// The backing bytes.
    pub closed spec fn spec_bytes(&self) -> Seq<u8> {
        self.bytes@
    }

    /// The number of bits.
    pub closed spec fn spec_size(&self) -> nat {
        self.size as nat
    }

    #[verifier::type_invariant]
    pub closed spec fn wf(&self) -> bool {
        canonical(self.bytes@, self.size as nat)
    }

    /// The bits are the unpacked backing bytes.
    pub proof fn lemma_view(&self)
        ensures
            self@ == unpack(self.spec_bytes(), self.spec_size()),
            self@.len() == self.spec_size(),
            self@.len() <= usize::MAX,
    {
    }

    /// Stores exactly `size` bits taken from `bytes`. Succeeds when `bytes`
    /// has the length that `size` bits need and no bit beyond `size` is set.
    pub fn new(size: usize, bytes: Vec<u8>) -> (made: Option<BitHash>)
        ensures
            made is Some <==> canonical(bytes@, size as nat),
            made is Some ==> made->0.spec_bytes() == bytes@ && made->0.spec_size() == size
                && made->0.wf() && made->0@ == unpack(bytes@, size as nat),
    {
        let full: usize = size / 8;
        let rest: usize = size % 8;
        let need: usize = if rest == 0 { full } else { full + 1 };
        if bytes.len() != need {
            return None;
        }
        if rest != 0 {
            let last: u8 = bytes[need - 1];
            if last >> (rest as u8) != 0 {
                return None;
            }
        }
        Some(BitHash { size, bytes })
    }

    /// The number of bits.
    pub fn size(&self) -> (n: usize)
        ensures
            n == self@.len(),
            n == self.spec_size(),
    {
        self.size
    }

    /// The backing bytes, `byte_len(size)` of them.
    pub fn as_bytes(&self) -> (bytes: &Vec<u8>)
        ensures
            bytes@ == self.spec_bytes(),
            canonical(bytes@, self.spec_size()),
    {
        proof {
            use_type_invariant(self);
        }
        &self.bytes
    }

    /// Packs `bits` into a hash of `bits.len()` bits, in the same order.
    pub fn from_bools(bits: &Vec<bool>) -> (made: BitHash)
        ensures
            made@ == bits@,
            made.spec_size() == bits@.len(),
    {
        let n: usize = bits.len();
        let mut bytes: Vec<u8> = Vec::new();
        let mut i: usize = 0;
        while i < n
            invariant
                i <= n,
                n == bits@.len(),
                bytes@.len() == byte_len(i as nat),
                padding_clear(bytes@, i as nat),
                forall|j: int| 0 <= j < i ==> bit_at(bytes@[j / 8], (j % 8) as u8) == #[trigger] bits@[j],
            decreases n - i,
        {
            let k: u8 = (i % 8) as u8;
            if k == 0 {
                bytes.push(0u8);
            }
            let last: usize = bytes.len() - 1;
            assert(last == i / 8);
            let ghost before = bytes@;
            let b: u8 = bytes[last];
            assert(b >> k == 0u8) by {
                if k == 0 {
                    assert(0u8 >> 0u8 == 0u8) by (bit_vector);
                }
            }
            if bits[i] {
                bytes.set(last, b | (1u8 << k));
                proof {
                    lemma_bit_set(b, k);
                    assert forall|j: int| 0 <= j < i implies bit_at(bytes@[j / 8], (j % 8) as u8)
                        == #[trigger] bits@[j] by {
                        if j / 8 == last as int {
                            lemma_lower_bit_kept(b, k, (j % 8) as u8);
                        } else {
                            assert(bytes@[j / 8] == before[j / 8]);
                        }
                    }
                }
            } else {
                proof {
                    lemma_bit_stays_clear(b, k);
                }
            }
            i = i + 1;
        }
        assert(unpack(bytes@, n as nat) =~= bits@);
        BitHash { size: n, bytes }
    }

    /// The Hamming distance to `other`: the number of positions at which the
    /// two hashes differ. Hashes of different sizes cannot be compared.
    pub fn distance(&self, other: &BitHash) -> (d: Result<u64, ErrorKind>)
        ensures
            self@.len() == other@.len() ==> d == Ok::<u64, ErrorKind>(
                hamming(self@, other@) as u64,
            ),
            self@.len() != other@.len() ==> d == Err::<u64, ErrorKind>(
                ErrorKind::DimensionMismatch,
            ),
            d is Ok ==> d->Ok_0 as nat == hamming(self@, other@) && d->Ok_0 <= self@.len(),
    {
        proof {
            use_type_invariant(self);
            use_type_invariant(other);
        }
        if self.size != other.size {
            return Err(ErrorKind::DimensionMismatch);
        }
        let n: usize = self.bytes.len();
        let mut total: u64 = 0;
        let mut i: usize = 0;
        while i < n
            invariant
                i <= n,
                n == self.bytes@.len(),
                n == other.bytes@.len(),
                n == byte_len(self.size as nat),
                self.size == other.size,
                8 * i <= self.size || i == n,
                i < n ==> total == differing_upto(self@, other@, (8 * i) as nat),
                i == n ==> total == differing_upto(self@, other@, self.size as nat),
                total <= self.size,
            decreases n - i,
        {
            let x: u8 = self.bytes[i] ^ other.bytes[i];
            let left: usize = self.size - 8 * i;
            let width: u8 = if left >= 8 { 8u8 } else { left as u8 };
            let c: u8 = count_low_bits(x, width);
            proof {
                lemma_byte_step(self.bytes@, other.bytes@, self.size as nat, i as nat, width as nat);
                lemma_differing_bounded(self@, other@, (8 * i + width) as nat);
            }
            total = total + c as u64;
            i = i + 1;
        }
        Ok(total)
    }

    /// The standard base64 encoding of the backing bytes. The size is not
    /// part of the text: whoever reads it back supplies it.
    pub fn to_base64(&self) -> (text: String)
        ensures
            text@ == encode_spec(self.spec_bytes()),
    {
        encode(&self.bytes)
    }

    /// Reads a hash of `size` bits from its base64 encoding. Fails on text
    /// that is not a base64 encoding, and on bytes of the wrong length for
    /// `size` or with a bit set beyond `size`.
    pub fn from_base64(text: &str, size: usize) -> (r: Result<BitHash, ErrorKind>)
        ensures
            decodes_to(text@, size as nat, r),
    {
        match decode(text) {
            None => Err(ErrorKind::Decode),
            Some(bytes) => {
                let ghost raw = bytes@;
                match BitHash::new(size, bytes) {
                    Some(h) => Ok(h),
                    None => {
                        proof {
                            assert forall|b: Seq<u8>|
                                !(encode_spec(b) == text@ && canonical(b, size as nat)) by {
                                if encode_spec(b) == text@ {
                                    lemma_encode_injective(b, raw);
                                }
                            }
                        }
                        Err(ErrorKind::Decode)
                    },
                }
            },
        }
    }

    /// Whether the two hashes have the same size and the same bits.
    pub fn same_bits(&self, other: &BitHash) -> (same: bool)
        ensures
            same == (self@ == other@),
    {
        match self.distance(other) {
            Ok(d) => {
                proof {
                    lemma_differing_bounded(self@, other@, self@.len());
                    if d == 0 {
                        lemma_hamming_zero(self@, other@, self@.len());
                        assert(self@ =~= other@);
                    } else {
                        lemma_hamming_self(self@, self@.len());
                    }
                }
                d == 0
            },
            Err(_) => false,
        }
    }

    /// Bit `i`, where the hash has one.
    pub fn get(&self, i: usize) -> (b: Option<bool>)
        ensures
            b is Some <==> i < self@.len(),
            b is Some ==> b->0 == self@[i as int],
    {
        proof {
            use_type_invariant(self);
        }
        if i >= self.size {
            return None;
        }
        let byte: u8 = self.bytes[i / 8];
        let k: u8 = (i % 8) as u8;
        Some((byte >> k) & 1u8 == 1u8)
    }
}

/// What reading a hash of `size` bits from `text` gives: the hash whose
/// canonical bytes encode to `text`, where there is one, and a decode error
/// where `text` is no encoding or its bytes do not fit `size`.
pub open spec fn decodes_to(text: Seq<char>, size: nat, r: Result<BitHash, ErrorKind>) -> bool {
    &&& r is Ok <==> exists|b: Seq<u8>| encode_spec(b) == text && canonical(b, size)
    &&& r is Ok ==> {
        &&& r->Ok_0.spec_size() == size
        &&& encode_spec(r->Ok_0.spec_bytes()) == text
        &&& canonical(r->Ok_0.spec_bytes(), size)
        &&& r->Ok_0@ == unpack(r->Ok_0.spec_bytes(), size)
    }
    &&& r is Err ==> r->Err_0 == ErrorKind::Decode
}

/// Writing a hash as base64 and reading it back with its own size gives the
/// hash again.
pub proof fn law_base64_round_trip(h: BitHash, text: Seq<char>, back: Result<BitHash, ErrorKind>)
    requires
        h.wf(),
        text == encode_spec(h.spec_bytes()),
        decodes_to(text, h.spec_size(), back),
    ensures
        back is Ok,
        back->Ok_0.spec_bytes() == h.spec_bytes(),
        back->Ok_0.spec_size() == h.spec_size(),
        back->Ok_0@ == h@,
{
    assert(encode_spec(h.spec_bytes()) == text && canonical(h.spec_bytes(), h.spec_size()));
    lemma_encode_injective(back->Ok_0.spec_bytes(), h.spec_bytes());
}

/// A hash is at distance zero from itself.
pub proof fn lemma_hamming_self(a: Seq<bool>, n: nat)
    ensures
        differing_upto(a, a, n) == 0,
    decreases n,
{
    if n > 0 {
        lemma_hamming_self(a, (n - 1) as nat);
    }
}

/// The count of differing positions does not depend on the order of the two
/// sequences.
pub proof fn lemma_hamming_symmetric(a: Seq<bool>, b: Seq<bool>, n: nat)
    ensures
        differing_upto(a, b, n) == differing_upto(b, a, n),
    decreases n,
{
    if n > 0 {
        lemma_hamming_symmetric(a, b, (n - 1) as nat);
    }
}

/// Going from `a` to `c` through `b` changes at least as many positions as
/// going directly.
pub proof fn lemma_hamming_triangle(a: Seq<bool>, b: Seq<bool>, c: Seq<bool>, n: nat)
    ensures
        differing_upto(a, c, n) <= differing_upto(a, b, n) + differing_upto(b, c, n),
    decreases n,
{
    if n > 0 {
        lemma_hamming_triangle(a, b, c, (n - 1) as nat);
    }
}

/// Sequences that differ nowhere among their first `n` positions agree there.
pub proof fn lemma_hamming_zero(a: Seq<bool>, b: Seq<bool>, n: nat)
    requires
        differing_upto(a, b, n) == 0,
    ensures
        forall|i: int| 0 <= i < n ==> a[i] == b[i],
    decreases n,
{
    if n > 0 {
        lemma_hamming_zero(a, b, (n - 1) as nat);
    }
}

/// Hamming distance is a metric on hashes of one size: every hash is at
/// distance zero from itself, the distance is the same in both directions,
/// and it lies between zero and the size.
pub proof fn law_distance_metric(a: BitHash, b: BitHash)
    requires
        a@.len() == b@.len(),
    ensures
        hamming(a@, a@) == 0,
        hamming(a@, b@) == hamming(b@, a@),
        0 <= hamming(a@, b@) <= a@.len(),
{
    lemma_hamming_self(a@, a@.len());
    lemma_hamming_symmetric(a@, b@, a@.len());
    lemma_differing_bounded(a@, b@, a@.len());
}

/// The triangle inequality: a detour through a third hash of the same size
/// is never shorter.
pub proof fn law_distance_triangle(a: BitHash, b: BitHash, c: BitHash)
    requires
        a@.len() == b@.len(),
        b@.len() == c@.len(),
    ensures
        hamming(a@, c@) <= hamming(a@, b@) + hamming(b@, c@),
{
    lemma_hamming_triangle(a@, b@, c@, a@.len());
}

/// Two hashes of one size at distance zero hold the same bits.
pub proof fn law_distance_zero_is_equal(a: BitHash, b: BitHash)
    requires
        a@.len() == b@.len(),
        hamming(a@, b@) == 0,
    ensures
        a@ == b@,
{
    lemma_hamming_zero(a@, b@, a@.len());
    assert(a@ =~= b@);
}

} // verus!
