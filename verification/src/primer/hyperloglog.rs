//! HyperLogLog: a cardinality estimator over hashed keys.
//!
//! A key is hashed to 64 bits. The leading `n_bits` bits of the hash select a
//! register; the register keeps the largest rank that was seen, the rank of
//! a hash being one more than the number of zero bits that lead its
//! remaining bits. The estimate is `0.79402 * m * m / sum(2^-register)`, rounded down,
//! where `m` is the number of registers.

use std::marker::PhantomData;
use vstd::arithmetic::div_mod::lemma_div_is_ordered;
use vstd::arithmetic::div_mod::lemma_div_multiples_vanish;
use vstd::arithmetic::div_mod::lemma_div_multiples_vanish_quotient;
use vstd::arithmetic::div_mod::lemma_fundamental_div_mod;
use vstd::arithmetic::div_mod::lemma_fundamental_div_mod_converse;
use vstd::arithmetic::div_mod::lemma_basic_div;
use vstd::arithmetic::div_mod::lemma_multiply_divide_lt;
use vstd::arithmetic::power2::lemma2_to64;
use vstd::arithmetic::power2::lemma2_to64_rest;
use vstd::arithmetic::power2::lemma_pow2_adds;
use vstd::arithmetic::power2::lemma_pow2_pos;
use vstd::arithmetic::power2::lemma_pow2_strictly_increases;
use vstd::arithmetic::power2::lemma_pow2_unfold;
use vstd::arithmetic::power2::pow2;
use vstd::bits::lemma_u64_shr_is_div;
use vstd::prelude::*;
use vstd::std_specs::bits::axiom_u64_leading_zeros;
use vstd::std_specs::bits::u64_leading_zeros;
use vstd::string::StringSliceAdditionalSpecFns;
use vstd::utf8::encode_utf8;

verus! {

/// Width of a hash, in bits.
pub const BITSET_CAPACITY: u64 = 64;

/// Largest number of index bits an estimator can be built with: the number
/// of registers, `2^30` at most, is counted in 32 bits.
pub const MAX_INDEX_BITS: i16 = 30;

/// A byte widened to 64 bits as a signed quantity.
pub open spec fn widen_byte(b: u8) -> u64 {
    if b < 128 {
        b as u64
    } else {
        (b as u64) | 0xffff_ffff_ffff_ff00u64
    }
}

/// One step of the hash: rotate-and-xor the next byte into the state.
pub open spec fn fold_byte(h: u64, b: u8) -> u64 {
    ((h << 5u64) ^ (h >> 27u64)) ^ widen_byte(b)
}

/// The hash state after the first `n` bytes: it starts at the number of
/// bytes, taken modulo `2^64`, and folds them in from left to right.
pub open spec fn hash_prefix(bytes: Seq<u8>, n: nat) -> u64
    decreases n,
{
    if n == 0 {
        (bytes.len() % 0x1_0000_0000_0000_0000) as u64
    } else {
        fold_byte(hash_prefix(bytes, (n - 1) as nat), bytes[n - 1])
    }
}

/// The 64-bit hash of a byte string.
pub open spec fn hash_bytes(bytes: Seq<u8>) -> u64 {
    hash_prefix(bytes, bytes.len())
}

/// The eight bytes of a word, least significant first.
pub open spec fn word_bytes(w: u64) -> Seq<u8> {
    Seq::new(8, |i: int| ((w >> ((8 * i) as u64)) & 0xffu64) as u8)
}

/// A signed integer as a 64-bit two's complement word.
pub open spec fn twos_complement(v: int) -> u64 {
    if v >= 0 {
        v as u64
    } else {
        (v + 0x1_0000_0000_0000_0000) as u64
    }
}

/// The bytes under which a text is hashed: its UTF-8 encoding and a
/// terminating zero byte.
pub open spec fn text_bytes(text: Seq<char>) -> Seq<u8> {
    encode_utf8(text).push(0u8)
}

fn fold_byte_into(h: u64, b: u8) -> (r: u64)
    ensures
        r == fold_byte(h, b),
{
    let wide: u64 = if b < 128 {
        b as u64
    } else {
        (b as u64) | 0xffff_ffff_ffff_ff00u64
    };
    ((h << 5u64) ^ (h >> 27u64)) ^ wide
}

/// A signed integer as a 128-bit two's complement number.
pub open spec fn wide_twos_complement(v: int) -> u128 {
    if v >= 0 {
        v as u128
    } else {
        (v + 0x1_0000_0000_0000_0000_0000_0000_0000_0000) as u128
    }
}

/// The sixteen bytes of a 128-bit number, least significant first.
pub open spec fn wide_bytes(w: u128) -> Seq<u8> {
    word_bytes((w % 0x1_0000_0000_0000_0000) as u64) + word_bytes(
        (w / 0x1_0000_0000_0000_0000) as u64,
    )
}

/// Folds the eight bytes of a word, which stand in `bytes` from `start` on,
/// into the hash state.
fn fold_word(h: u64, w: u64, Ghost(bytes): Ghost<Seq<u8>>, Ghost(start): Ghost<int>) -> (r: u64)
    requires
        0 <= start,
        start + 8 <= bytes.len(),
        bytes.subrange(start, start + 8) == word_bytes(w),
        h == hash_prefix(bytes, start as nat),
    ensures
        r == hash_prefix(bytes, (start + 8) as nat),
{
    let mut h: u64 = h;
    let mut i: u64 = 0;
    while i < 8
        invariant
            i <= 8,
            0 <= start,
            start + 8 <= bytes.len(),
            bytes.subrange(start, start + 8) == word_bytes(w),
            h == hash_prefix(bytes, (start + i) as nat),
        decreases 8 - i,
    {
        let shifted: u64 = (w >> (8 * i)) & 0xffu64;
        assert(shifted <= 0xff) by (bit_vector)
            requires
                shifted == (w >> (8 * i)) & 0xffu64,
        ;
        let b: u8 = shifted as u8;
        assert(bytes[start + i] == bytes.subrange(start, start + 8)[i as int]);
        assert(word_bytes(w)[i as int] == b);
        h = fold_byte_into(h, b);
        i = i + 1;
    }
    h
}

/// Hashes a 64-bit word by its eight bytes, least significant first.
pub fn hash_word(w: u64) -> (h: u64)
    ensures
        h == hash_bytes(word_bytes(w)),
{
    let ghost bytes = word_bytes(w);
    assert(bytes.subrange(0, 8) =~= bytes);
    fold_word(8, w, Ghost(bytes), Ghost(0))
}

/// Hashes a 128-bit number by its sixteen bytes, least significant first.
pub fn hash_wide(w: u128) -> (h: u64)
    ensures
        h == hash_bytes(wide_bytes(w)),
{
    let low: u64 = (w % 0x1_0000_0000_0000_0000) as u64;
    let high: u64 = (w / 0x1_0000_0000_0000_0000) as u64;
    let ghost bytes = wide_bytes(w);
    assert(bytes.len() == 16);
    assert(bytes.subrange(0, 8) =~= word_bytes(low));
    assert(bytes.subrange(8, 16) =~= word_bytes(high));
    let h = fold_word(16, low, Ghost(bytes), Ghost(0));
    fold_word(h, high, Ghost(bytes), Ghost(8))
}

/// Hashes a text by its UTF-8 bytes and a terminating zero byte.
pub fn hash_text(s: &str) -> (h: u64)
    ensures
        h == hash_bytes(text_bytes(s@)),
{
    let bytes = s.as_bytes();
    let n: usize = bytes.len();
    let ghost full = text_bytes(s@);
    assert(full.len() == n + 1);
    let mut h: u64 = if n as u64 == u64::MAX {
        0
    } else {
        n as u64 + 1
    };
    let mut i: usize = 0;
    while i < n
        invariant
            i <= n,
            n == bytes@.len(),
            full == bytes@.push(0u8),
            h == hash_prefix(full, i as nat),
        decreases n - i,
    {
        assert(full[i as int] == bytes@[i as int]);
        h = fold_byte_into(h, bytes[i]);
        i = i + 1;
    }
    assert(full[n as int] == 0u8);
    fold_byte_into(h, 0)
}

fn word_of(v: i64) -> (w: u64)
    ensures
        w == twos_complement(v as int),
{
    if v >= 0 {
        v as u64
    } else {
        let below: u64 = (-(v + 1)) as u64;
        u64::MAX - below
    }
}

fn wide_of(v: i128) -> (w: u128)
    ensures
        w == wide_twos_complement(v as int),
{
    if v >= 0 {
        v as u128
    } else {
        let below: u128 = (-(v + 1)) as u128;
        u128::MAX - below
    }
}

/// A key that an estimator can count: it says under which bytes it is
/// hashed. An integer of up to 64 bits is hashed as a 64-bit word, a wider
/// one as a 128-bit number, both in two's complement and least significant
/// byte first; a text by its UTF-8 bytes and a terminating zero byte.
pub trait HashKey {
    /// The bytes that stand for the key.
    spec fn key_bytes(&self) -> Seq<u8>;

    /// The hash of the key's bytes.
    fn key_hash(&self) -> (h: u64)
        ensures
            h == hash_bytes(self.key_bytes()),
    ;
}

impl HashKey for i8 {
    open spec fn key_bytes(&self) -> Seq<u8> {
        word_bytes(twos_complement(*self as int))
    }

    fn key_hash(&self) -> (h: u64) {
        hash_word(word_of(*self as i64))
    }
}

impl HashKey for i16 {
    open spec fn key_bytes(&self) -> Seq<u8> {
        word_bytes(twos_complement(*self as int))
    }

    fn key_hash(&self) -> (h: u64) {
        hash_word(word_of(*self as i64))
    }
}

impl HashKey for i32 {
    open spec fn key_bytes(&self) -> Seq<u8> {
        word_bytes(twos_complement(*self as int))
    }

    fn key_hash(&self) -> (h: u64) {
        hash_word(word_of(*self as i64))
    }
}

impl HashKey for i64 {
    open spec fn key_bytes(&self) -> Seq<u8> {
        word_bytes(twos_complement(*self as int))
    }

    fn key_hash(&self) -> (h: u64) {
        hash_word(word_of(*self))
    }
}

impl HashKey for isize {
    open spec fn key_bytes(&self) -> Seq<u8> {
        word_bytes(twos_complement(*self as int))
    }

    fn key_hash(&self) -> (h: u64) {
        hash_word(word_of(*self as i64))
    }
}

impl HashKey for i128 {
    open spec fn key_bytes(&self) -> Seq<u8> {
        wide_bytes(wide_twos_complement(*self as int))
    }

    fn key_hash(&self) -> (h: u64) {
        hash_wide(wide_of(*self))
    }
}

impl HashKey for u8 {
    open spec fn key_bytes(&self) -> Seq<u8> {
        word_bytes(*self as u64)
    }

    fn key_hash(&self) -> (h: u64) {
        hash_word(*self as u64)
    }
}

impl HashKey for u16 {
    open spec fn key_bytes(&self) -> Seq<u8> {
        word_bytes(*self as u64)
    }

    fn key_hash(&self) -> (h: u64) {
        hash_word(*self as u64)
    }
}

impl HashKey for u32 {
    open spec fn key_bytes(&self) -> Seq<u8> {
        word_bytes(*self as u64)
    }

    fn key_hash(&self) -> (h: u64) {
        hash_word(*self as u64)
    }
}

impl HashKey for u64 {
    open spec fn key_bytes(&self) -> Seq<u8> {
        word_bytes(*self)
    }

    fn key_hash(&self) -> (h: u64) {
        hash_word(*self)
    }
}

impl HashKey for usize {
    open spec fn key_bytes(&self) -> Seq<u8> {
        word_bytes(*self as u64)
    }

    fn key_hash(&self) -> (h: u64) {
        hash_word(*self as u64)
    }
}

impl HashKey for u128 {
    open spec fn key_bytes(&self) -> Seq<u8> {
        wide_bytes(*self)
    }

    fn key_hash(&self) -> (h: u64) {
        hash_wide(*self)
    }
}

impl<'a> HashKey for &'a str {
    open spec fn key_bytes(&self) -> Seq<u8> {
        text_bytes(self@)
    }

    fn key_hash(&self) -> (h: u64) {
        hash_text(*self)
    }
}

impl HashKey for String {
    open spec fn key_bytes(&self) -> Seq<u8> {
        text_bytes(self@)
    }

    fn key_hash(&self) -> (h: u64) {
        hash_text(self.as_str())
    }
}

/// The register that a hash falls into: its leading `index_bits` bits.
pub open spec fn register_of(hash: u64, index_bits: nat) -> int {
    hash as int / pow2((64 - index_bits) as nat) as int
}

/// The bits of a hash that follow its leading `index_bits` bits, moved to
/// the left end of the word.
pub open spec fn tail_of(hash: u64, index_bits: nat) -> u64 {
    hash << (index_bits as u64)
}

/// Position of the first set bit of a word, counted from the left and
/// starting at zero: the number of zero bits that lead the word. It is 64
/// where no bit is set.
pub open spec fn leftmost_one(bset: u64) -> u64 {
    u64_leading_zeros(bset) as u64
}

/// The rank of a word: one more than the position of its first set bit.
pub open spec fn rank_of(bset: u64) -> u64 {
    (u64_leading_zeros(bset) + 1) as u64
}

/// The weight of a register in the estimate: `2^(65 - value)`, which is
/// `2^65` times `2^-value`.
pub open spec fn weight(value: u64) -> nat {
    pow2((65 - value) as nat)
}

/// The sum of the registers' weights.
pub open spec fn weight_sum(registers: Seq<u64>) -> nat
    decreases registers.len(),
{
    if registers.len() == 0 {
        0
    } else {
        weight_sum(registers.drop_last()) + weight(registers.last())
    }
}

/// The estimate for a set of registers: `0.79402 * m * m / sum(2^-register)`
/// rounded down, and 0 where there is no register.
pub open spec fn estimate(registers: Seq<u64>) -> nat {
    if registers.len() == 0 {
        0
    } else {
        (79402 * registers.len() * registers.len() * pow2(65)) / (100000 * weight_sum(registers))
    }
}

/// The registers after a hash was counted in: the register that the hash
/// falls into is raised to the rank of the hash's tail, unless it is there
/// already.
pub open spec fn registers_with(registers: Seq<u64>, index_bits: nat, hash: u64) -> Seq<u64> {
    let slot = register_of(hash, index_bits);
    let seen = rank_of(tail_of(hash, index_bits));
    if registers.len() == 0 {
        registers
    } else if registers[slot] >= seen {
        registers
    } else {
        registers.update(slot, seen)
    }
}

/// Whether there are no registers at all, or one for each value of the
/// index bits.
pub open spec fn registers_fit(registers: Seq<u64>, index_bits: nat) -> bool {
    index_bits <= 64 && (registers.len() == 0 || registers.len() == pow2(index_bits))
}

/// Every hash falls into one of the `2^index_bits` registers.
pub proof fn lemma_register_in_range(hash: u64, index_bits: nat)
    requires
        index_bits <= 64,
    ensures
        0 <= register_of(hash, index_bits) < pow2(index_bits),
{
    let width = (64 - index_bits) as nat;
    lemma2_to64();
    lemma_pow2_pos(index_bits);
    lemma_pow2_pos(width);
    lemma_pow2_adds(width, index_bits);
    lemma_multiply_divide_lt(hash as int, pow2(width) as int, pow2(index_bits) as int);
    vstd::arithmetic::div_mod::lemma_div_pos_is_pos(hash as int, pow2(width) as int);
}

/// Counting a hash in twice is counting it in once.
pub proof fn law_counting_is_idempotent(registers: Seq<u64>, index_bits: nat, hash: u64)
    requires
        registers_fit(registers, index_bits),
    ensures
        registers_with(registers_with(registers, index_bits, hash), index_bits, hash)
            == registers_with(registers, index_bits, hash),
{
    lemma_register_in_range(hash, index_bits);
}

/// The order in which two hashes are counted in does not matter.
pub proof fn law_counting_commutes(registers: Seq<u64>, index_bits: nat, first: u64, second: u64)
    requires
        registers_fit(registers, index_bits),
    ensures
        registers_with(registers_with(registers, index_bits, first), index_bits, second)
            == registers_with(registers_with(registers, index_bits, second), index_bits, first),
{
    lemma_register_in_range(first, index_bits);
    lemma_register_in_range(second, index_bits);
    let a = registers_with(registers_with(registers, index_bits, first), index_bits, second);
    let b = registers_with(registers_with(registers, index_bits, second), index_bits, first);
    assert(a =~= b);
}

/// Counting a hash in keeps the number of registers. No register goes
/// down, and only the register that the hash falls into changes.
pub proof fn law_registers_only_rise(registers: Seq<u64>, index_bits: nat, hash: u64, j: int)
    requires
        registers_fit(registers, index_bits),
        0 <= j < registers.len(),
    ensures
        registers_with(registers, index_bits, hash).len() == registers.len(),
        registers_with(registers, index_bits, hash)[j] >= registers[j],
        j != register_of(hash, index_bits) ==> registers_with(registers, index_bits, hash)[j]
            == registers[j],
{
    lemma_register_in_range(hash, index_bits);
}

proof fn lemma_weight_sum_bounds(registers: Seq<u64>)
    requires
        forall|j: int| 0 <= j < registers.len() ==> #[trigger] registers[j] <= 65,
    ensures
        registers.len() <= weight_sum(registers) <= registers.len() * pow2(65),
    decreases registers.len(),
{
    if registers.len() > 0 {
        let front = registers.drop_last();
        assert forall|j: int| 0 <= j < front.len() implies #[trigger] front[j] <= 65 by {
            assert(front[j] == registers[j]);
        }
        lemma_weight_sum_bounds(front);
        let last = registers.last();
        assert(last == registers[registers.len() - 1]);
        lemma_pow2_pos((65 - last) as nat);
        if last > 0 {
            lemma_pow2_strictly_increases((65 - last) as nat, 65);
        }
        assert(registers.len() * pow2(65) == front.len() * pow2(65) + pow2(65)) by (nonlinear_arith)
            requires
                registers.len() == front.len() + 1,
        ;
    }
}

/// A HyperLogLog estimator for keys of one type.
pub struct HyperLogLog<KeyType> {
    n_bits: u16,
    buckets: Vec<u64>,
    cardinality: usize,
    _marker: PhantomData<KeyType>,
}

impl<KeyType: HashKey> HyperLogLog<KeyType> {
    /// Number of leading hash bits that select a register.
    pub closed spec fn index_bits(&self) -> nat {
        self.n_bits as nat
    }

    /// The registers.
    pub closed spec fn registers(&self) -> Seq<u64> {
        self.buckets@
    }

    /// The estimate that was computed last.
    pub closed spec fn cardinality(&self) -> usize {
        self.cardinality
    }

    /// The estimator is well formed: it has no register at all or one for
    /// each value of the index bits, and no register is past 65.
    pub closed spec fn wf(&self) -> bool {
        &&& self.n_bits <= MAX_INDEX_BITS
        &&& (self.buckets@.len() == 0 || self.buckets@.len() == pow2(self.n_bits as nat))
        &&& forall|j: int| 0 <= j < self.buckets@.len() ==> #[trigger] self.buckets@[j] <= 65
    }

    /// What a well-formed estimator is: it has at most 30 index bits; it
    /// has no register at all or one for each value of the index bits; and
    /// no register is past 65.
    pub proof fn lemma_wf(&self)
        requires
            self.wf(),
        ensures
            self.index_bits() <= MAX_INDEX_BITS,
            registers_fit(self.registers(), self.index_bits()),
            forall|j: int|
                0 <= j < self.registers().len() ==> #[trigger] self.registers()[j] <= 65,
    {
    }

    /// An estimator with `2^n_bits` registers, all zero. With a negative
    /// `n_bits` it has no register, counts nothing and estimates 0.
    pub fn new(n_bits: i16) -> (hll: Self)
        requires
            n_bits <= MAX_INDEX_BITS,
        ensures
            hll.wf(),
            hll.cardinality() == 0,
            n_bits < 0 ==> hll.index_bits() == 0 && hll.registers().len() == 0,
            n_bits >= 0 ==> hll.index_bits() == n_bits && hll.registers() == Seq::new(
                pow2(n_bits as nat),
                |j: int| 0u64,
            ),
    {
        if n_bits < 0 {
            return Self { n_bits: 0, buckets: Vec::new(), cardinality: 0, _marker: PhantomData };
        }
        let mut num_buckets: usize = 1;
        let mut b: i16 = 0;
        proof {
            lemma2_to64();
        }
        while b < n_bits
            invariant
                0 <= b <= n_bits <= MAX_INDEX_BITS,
                num_buckets == pow2(b as nat),
                num_buckets <= 0x4000_0000,
            decreases n_bits - b,
        {
            proof {
                lemma2_to64();
                lemma_pow2_unfold((b + 1) as nat);
                if b + 1 < 30 {
                    lemma_pow2_strictly_increases((b + 1) as nat, 30);
                }
            }
            num_buckets = num_buckets * 2;
            b = b + 1;
        }
        let mut buckets: Vec<u64> = Vec::with_capacity(num_buckets);
        let mut j: usize = 0;
        while j < num_buckets
            invariant
                j <= num_buckets,
                buckets@ == Seq::new(j as nat, |k: int| 0u64),
            decreases num_buckets - j,
        {
            buckets.push(0);
            assert(buckets@ =~= Seq::new((j + 1) as nat, |k: int| 0u64));
            j = j + 1;
        }
        Self { n_bits: n_bits as u16, buckets, cardinality: 0, _marker: PhantomData }
    }

    /// The estimate that `compute_cardinality` computed last; 0 before the
    /// first computation.
    pub fn get_cardinality(&self) -> (c: usize)
        ensures
            c == self.cardinality(),
    {
        self.cardinality
    }

    /// The registers, in the order of the hash bits that select them.
    pub fn buckets(&self) -> (buckets: &Vec<u64>)
        ensures
            buckets@ == self.registers(),
    {
        &self.buckets
    }

    /// Counts a key in: the register that its hash falls into is raised to
    /// the rank of the hash's tail, unless it is there already. The number
    /// of registers and the estimate are left as they were.
    pub fn add_elem(&mut self, val: KeyType)
        requires
            old(self).wf(),
        ensures
            final(self).wf(),
            final(self).index_bits() == old(self).index_bits(),
            final(self).cardinality() == old(self).cardinality(),
            final(self).registers().len() == old(self).registers().len(),
            final(self).registers() == registers_with(
                old(self).registers(),
                old(self).index_bits(),
                hash_bytes(val.key_bytes()),
            ),
    {
        let hash = self.calculate_hash(&val);
        self.add_hash(hash);
    }

    /// Counts in a key by its hash.
    pub fn add_hash(&mut self, hash: u64)
        requires
            old(self).wf(),
        ensures
            final(self).wf(),
            final(self).index_bits() == old(self).index_bits(),
            final(self).cardinality() == old(self).cardinality(),
            final(self).registers().len() == old(self).registers().len(),
            final(self).registers() == registers_with(
                old(self).registers(),
                old(self).index_bits(),
                hash,
            ),
    {
        if self.buckets.len() == 0 {
            return ;
        }
        let binary = self.compute_binary(hash);
        let n_bits: u64 = self.n_bits as u64;
        let index: usize = if n_bits == 0 {
            0
        } else {
            (binary >> (BITSET_CAPACITY - n_bits)) as usize
        };
        proof {
            lemma2_to64();
            lemma_register_in_range(hash, n_bits as nat);
            if n_bits == 0 {
                lemma_basic_div(hash as int, pow2(64) as int);
            } else {
                lemma_u64_shr_is_div(hash, (64 - n_bits) as u64);
            }
            assert(index == register_of(hash, n_bits as nat));
        }
        let seen = self.position_of_leftmost_one(binary << n_bits) + 1;
        if self.buckets[index] < seen {
            self.buckets[index] = seen;
        }
        assert(self.buckets@ =~= registers_with(old(self).buckets@, n_bits as nat, hash));
    }

    /// Recomputes the estimate from the registers: `0.79402 * m * m /
    /// sum(2^-register)` rounded down, capped at `usize::MAX`, and 0 where
    /// there is no register.
    pub fn compute_cardinality(&mut self)
        requires
            old(self).wf(),
        ensures
            final(self).wf(),
            final(self).index_bits() == old(self).index_bits(),
            final(self).registers() == old(self).registers(),
            final(self).cardinality() == if estimate(old(self).registers()) > usize::MAX {
                usize::MAX as nat
            } else {
                estimate(old(self).registers())
            },
    {
        let m: usize = self.buckets.len();
        if m == 0 {
            self.cardinality = 0;
            return ;
        }
        let powers = powers_of_two();
        let mut sum: u128 = 0;
        let mut j: usize = 0;
        proof {
            lemma2_to64();
            lemma2_to64_rest();
            lemma_pow2_unfold(65);
        }
        assert(m <= 0x4000_0000) by {
            if self.n_bits < 30 {
                lemma_pow2_strictly_increases(self.n_bits as nat, 30);
            }
        }
        while j < m
            invariant
                j <= m,
                m == self.buckets@.len(),
                m <= 0x4000_0000,
                forall|k: int| 0 <= k < m ==> #[trigger] self.buckets@[k] <= 65,
                powers@.len() == 66,
                forall|e: int| 0 <= e < 66 ==> #[trigger] powers@[e] == pow2(e as nat),
                sum == weight_sum(self.buckets@.subrange(0, j as int)),
                pow2(65) == 0x2_0000_0000_0000_0000,
            decreases m - j,
        {
            let value = self.buckets[j];
            let term = powers[(65 - value) as usize];
            proof {
                let before = self.buckets@.subrange(0, j as int);
                let after = self.buckets@.subrange(0, j + 1);
                assert(after.drop_last() =~= before);
                assert(after.last() == value);
                assert forall|k: int| 0 <= k < after.len() implies #[trigger] after[k] <= 65 by {
                    assert(after[k] == self.buckets@[k]);
                }
                lemma_weight_sum_bounds(after);
                assert(after.len() * pow2(65) <= 0x4000_0000 * 0x2_0000_0000_0000_0000) by (
                    nonlinear_arith)
                    requires
                        after.len() <= 0x4000_0000,
                        pow2(65) == 0x2_0000_0000_0000_0000,
                ;
            }
            sum = sum + term;
            j = j + 1;
        }
        proof {
            assert(self.buckets@.subrange(0, m as int) =~= self.buckets@);
            lemma_weight_sum_bounds(self.buckets@);
            assert(m * pow2(65) <= 0x4000_0000 * 0x2_0000_0000_0000_0000) by (nonlinear_arith)
                requires
                    m <= 0x4000_0000,
                    pow2(65) == 0x2_0000_0000_0000_0000,
            ;
        }
        assert(m * m <= 0x4000_0000 * 0x4000_0000) by (nonlinear_arith)
            requires
                m <= 0x4000_0000,
        ;
        let squared: u128 = (m as u128) * (m as u128);
        let numerator: u128 = 39701 * squared;
        let denominator: u128 = 3125 * sum;
        let quotient = scaled_quotient(numerator, denominator, usize::MAX as u128);
        proof {
            let n = numerator * pow2(61);
            let d = denominator as int;
            lemma_div_multiples_vanish_quotient(32, n as int, d);
            assert(32 * n == 79402 * m * m * pow2(65)) by (nonlinear_arith)
                requires
                    n == (39701 * (m * m)) * 0x2000_0000_0000_0000,
                    pow2(65) == 0x2_0000_0000_0000_0000,
            ;
            assert(32 * d == 100000 * weight_sum(self.buckets@));
            assert(n as int / d == estimate(self.buckets@));
        }
        self.cardinality = match quotient {
            Some(q) => q as usize,
            None => usize::MAX,
        };
    }

    /// The hash of a key.
    pub fn calculate_hash(&self, val: &KeyType) -> (h: u64)
        ensures
            h == hash_bytes(val.key_bytes()),
    {
        val.key_hash()
    }

    /// The bit set that a hash is read as: the hash itself.
    pub fn compute_binary(&self, hash: u64) -> (bset: u64)
        ensures
            bset == hash,
    {
        hash
    }

    /// Position of the first set bit of `bset`, counted from the left and
    /// starting at zero: the number of zero bits that lead `bset`. It is 64
    /// where no bit is set.
    pub fn position_of_leftmost_one(&self, bset: u64) -> (position: u64)
        ensures
            position == leftmost_one(bset),
            position == u64_leading_zeros(bset),
            0 <= position <= 64,
            position == 64 <==> bset == 0,
    {
        proof {
            axiom_u64_leading_zeros(bset);
        }
        bset.leading_zeros() as u64
    }
}

/// The quotient of `a * 2^61` by `d`, rounded down; `None` where it is past
/// `cap`. The quotient is built bit by bit, by doubling quotient and
/// remainder and taking the divisor off the remainder where it fits, so
/// that no number of the computation is wider than 128 bits.
fn scaled_quotient(a: u128, d: u128, cap: u128) -> (quotient: Option<u128>)
    requires
        0 < d < 0x800_0000_0000_0000_0000_0000_0000,
        cap <= u64::MAX,
    ensures
        match quotient {
            Some(q) => q == (a * pow2(61)) / (d as int) && q <= cap,
            None => (a * pow2(61)) / (d as int) > cap,
        },
{
    let mut q: u128 = a / d;
    let mut r: u128 = a % d;
    let mut i: u32 = 0;
    proof {
        lemma2_to64();
        lemma_fundamental_div_mod(a as int, d as int);
        assert(a * pow2(0) == q * d + r) by (nonlinear_arith)
            requires
                a == d * q + r,
                pow2(0) == 1,
        ;
    }
    while i < 61
        invariant
            i <= 61,
            0 < d < 0x800_0000_0000_0000_0000_0000_0000,
            cap <= u64::MAX,
            r < d,
            a * pow2(i as nat) == q * d + r,
        decreases 61 - i,
    {
        if q > cap {
            proof {
                lemma_scaled_at_least(a as int, d as int, q as int, r as int, i as nat);
            }
            return None;
        }
        proof {
            lemma_pow2_unfold((i + 1) as nat);
            assert(a * pow2((i + 1) as nat) == (2 * q) * d + 2 * r) by (nonlinear_arith)
                requires
                    a * pow2(i as nat) == q * d + r,
                    pow2((i + 1) as nat) == 2 * pow2(i as nat),
            ;
            assert((2 * q + 1) * d + (2 * r - d) == (2 * q) * d + 2 * r) by (nonlinear_arith);
        }
        q = 2 * q;
        r = 2 * r;
        if r >= d {
            r = r - d;
            q = q + 1;
        }
        i = i + 1;
    }
    proof {
        lemma_fundamental_div_mod_converse(a * pow2(61), d as int, q as int, r as int);
    }
    if q > cap {
        None
    } else {
        Some(q)
    }
}

/// A quotient that was reached after `i` of the 61 doublings is no more
/// than the full quotient.
proof fn lemma_scaled_at_least(a: int, d: int, q: int, r: int, i: nat)
    requires
        0 <= a,
        0 < d,
        0 <= q,
        0 <= r,
        i <= 61,
        a * pow2(i) == q * d + r,
    ensures
        (a * pow2(61)) / d >= q,
{
    if i < 61 {
        lemma_pow2_strictly_increases(i, 61);
    }
    assert(a * pow2(61) >= a * pow2(i)) by (nonlinear_arith)
        requires
            0 <= a,
            pow2(61) >= pow2(i),
    ;
    assert(d * q == q * d) by (nonlinear_arith);
    lemma_div_is_ordered(d * q, a * pow2(61), d);
    lemma_div_multiples_vanish(q, d);
}

/// The powers of two from `2^0` to `2^65`.
fn powers_of_two() -> (powers: Vec<u128>)
    ensures
        powers@.len() == 66,
        forall|e: int| 0 <= e < 66 ==> #[trigger] powers@[e] == pow2(e as nat),
{
    let mut powers: Vec<u128> = Vec::new();
    let mut power: u128 = 1;
    let mut e: usize = 0;
    proof {
        lemma2_to64();
        lemma_pow2_unfold(65);
        lemma_pow2_unfold(66);
    }
    while e < 66
        invariant
            e <= 66,
            powers@.len() == e,
            power == pow2(e as nat),
            pow2(66) == 0x4_0000_0000_0000_0000,
            forall|k: int| 0 <= k < e ==> #[trigger] powers@[k] == pow2(k as nat),
        decreases 66 - e,
    {
        powers.push(power);
        proof {
            lemma_pow2_unfold((e + 1) as nat);
            if e + 1 < 66 {
                lemma_pow2_strictly_increases((e + 1) as nat, 66);
            }
        }
        power = power * 2;
        e = e + 1;
    }
    powers
}

} // verus!
