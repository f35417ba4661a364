//! HyperLogLog sketches of fixed precision: 4096 registers, about 4 KiB, with
//! a standard error of about 1.6 %.
//!
//! A sketch holds, for each register, the largest rank seen. It is fed by
//! hashes of visitor keys, so the keys themselves are never stored. The
//! estimate is evaluated in exact integer arithmetic.

use crate::visitors::ln::ln_ratio_units;
use std::collections::hash_map::DefaultHasher;
use std::hash::Hasher;
use vstd::prelude::*;
use vstd::std_specs::bits::*;
use vstd::std_specs::hash::*;
use vstd::utf8::*;

verus! {

/// Bits of a hash that pick the register.
pub const HLL_P: u32 = 12;

/// Register count.
pub const HLL_M: usize = 4096;

/// The largest rank that a hash can have: all bits below the register index
/// are zero.
pub const MAX_RANK: u8 = 65;

/// The register that a hash falls into: its top twelve bits.
pub open spec fn register_of(hash: u64) -> int {
    (hash >> 52) as int
}

/// The rank of a hash: the position of the first one bit below the register
/// index.
pub open spec fn rank_of(hash: u64) -> u8 {
    (u64_leading_zeros(hash << 12) + 1) as u8
}

/// The sketch with one more hash folded in.
pub open spec fn folded(registers: Seq<u8>, hash: u64) -> Seq<u8> {
    let i = register_of(hash);
    if rank_of(hash) > registers[i] {
        registers.update(i, rank_of(hash))
    } else {
        registers
    }
}

/// The hash of a visitor key: its bytes and a closing byte that occurs in no
/// text, through the standard hasher.
pub open spec fn key_hash(key: Seq<char>) -> u64 {
    DefaultHasher::spec_finish(seq![encode_utf8(key), seq![0xffu8]])
}

/// Registers of a sketch.
pub open spec fn valid_registers(registers: Seq<u8>) -> bool {
    &&& registers.len() == HLL_M
    &&& forall|i: int| 0 <= i < registers.len() ==> #[trigger] registers[i] <= MAX_RANK
}

/// Two to the power of `n`.
pub open spec fn pow2(n: nat) -> nat
    decreases n,
{
    if n == 0 {
        1
    } else {
        2 * pow2((n - 1) as nat)
    }
}

/// The sum over the registers of two to the minus rank, in units of two to
/// the minus 65.
pub open spec fn rank_sum(registers: Seq<u8>) -> nat
    decreases registers.len(),
{
    if registers.len() == 0 {
        0
    } else {
        rank_sum(registers.drop_last()) + pow2((MAX_RANK - registers.last()) as nat)
    }
}

/// How many registers no hash has fallen into.
pub open spec fn zeros(registers: Seq<u8>) -> nat
    decreases registers.len(),
{
    if registers.len() == 0 {
        0
    } else {
        zeros(registers.drop_last()) + if registers.last() == 0 {
            1nat
        } else {
            0nat
        }
    }
}

/// The raw estimate is `alpha * m * m / sum` with
/// `alpha = 0.7213 / (1 + 1.079 / m)` and `m = 4096`, as a fraction: this is
/// its numerator.
pub open spec fn raw_numerator() -> int {
    7213 * 4096 * 4096 * 4096 * pow2(65) as int
}

/// The denominator of the raw estimate.
pub open spec fn raw_denominator(registers: Seq<u8>) -> int {
    10 * 4097079 * rank_sum(registers) as int
}

/// The integer nearest to a fraction, rounded up half way, and at most the
/// largest 64-bit number.
pub open spec fn nearest(numerator: int, denominator: int) -> u64 {
    let n = (2 * numerator + denominator) / (2 * denominator);
    if n > u64::MAX {
        u64::MAX
    } else {
        n as u64
    }
}

/// The estimated distinct count: while the raw estimate is at most two and a
/// half per register and some register is empty, linear counting gives
/// `m * ln(m / zeros)`; else the raw estimate.
pub open spec fn estimated(registers: Seq<u8>) -> u64 {
    if raw_numerator() <= 10240 * raw_denominator(registers) && zeros(registers) > 0 {
        nearest(
            4096 * crate::visitors::ln::ln_ratio(zeros(registers) as int, 4096),
            pow2(64) as int,
        )
    } else {
        nearest(raw_numerator(), raw_denominator(registers))
    }
}

/// HyperLogLog sketch over hashed visitor keys.
#[derive(Debug, Clone)]
pub struct Hll {
    registers: Vec<u8>,
}

impl View for Hll {
    type V = Seq<u8>;

    closed spec fn view(&self) -> Seq<u8> {
        self.registers@
    }
}

proof fn lemma_hash_parts(hash: u64)
    ensures
        0 <= register_of(hash) < HLL_M,
        1 <= rank_of(hash) <= MAX_RANK,
        u64_leading_zeros(hash << 12) <= 64,
{
    assert(hash >> 52 < 4096) by (bit_vector);
    axiom_u64_leading_zeros(hash << 12);
}

impl Hll {
    /// What every sketch keeps.
    pub open spec fn wf(&self) -> bool {
        valid_registers(self@)
    }

    /// Empty sketch (estimates zero).
    #[must_use]
    pub fn new() -> (r: Self)
        ensures
            r.wf(),
            r@ == empty_registers(),
    {
        let registers: Vec<u8> = vec![0u8; HLL_M];
        assert(registers@ =~= empty_registers());
        Hll { registers }
    }

    /// Folds one pre-hashed visitor into the sketch.
    pub fn add_hash(&mut self, hash: u64)
        requires
            old(self).wf(),
        ensures
            final(self).wf(),
            final(self)@ == folded(old(self)@, hash),
    {
        proof {
            lemma_hash_parts(hash);
        }
        let idx: usize = (hash >> 52) as usize;
        let rank: u8 = ((hash << 12).leading_zeros() + 1) as u8;
        if rank > self.registers[idx] {
            self.registers.set(idx, rank);
        }
    }

    /// Folds one visitor key into the sketch.
    pub fn add(&mut self, visitor_key: &str)
        requires
            old(self).wf(),
        ensures
            final(self).wf(),
            final(self)@ == folded(old(self)@, key_hash(visitor_key@)),
    {
        self.add_hash(hash_key(visitor_key));
    }

    /// Estimated distinct count (linear counting for small ranges).
    #[must_use]
    pub fn estimate(&self) -> (r: u64)
        requires
            self.wf(),
        ensures
            r == estimated(self@),
    {
        let (sum, empty) = self.totals();
        proof {
            lemma_pow2_values();
            lemma_rank_sum_bounds(self@);
            lemma_zeros_bound(self@);
        }
        let numerator: u128 = 7213 * 4096 * 4096 * 4096 * 0x2_0000_0000_0000_0000;
        let denominator: u128 = 40_970_790 * sum;
        if numerator <= 10_240 * denominator && empty > 0 {
            nearest_of(4096 * ln_ratio_units(empty), 0x1_0000_0000_0000_0000)
        } else {
            nearest_of(numerator, denominator)
        }
    }

    fn totals(&self) -> (r: (u128, u32))
        requires
            self.wf(),
        ensures
            r.0 == rank_sum(self@),
            r.1 == zeros(self@),
    {
        let powers = powers_of_two();
        let mut sum: u128 = 0;
        let mut empty: u32 = 0;
        let mut i: usize = 0;
        proof {
            lemma_pow2_values();
        }
        while i < HLL_M
            invariant
                i <= HLL_M,
                self.wf(),
                pow2(65) == 0x2_0000_0000_0000_0000,
                powers@.len() == 66,
                forall|n: int| 0 <= n < 66 ==> #[trigger] powers@[n] == pow2(n as nat),
                sum == rank_sum(self@.take(i as int)),
                sum <= i * pow2(65),
                empty == zeros(self@.take(i as int)),
                empty <= i,
            decreases HLL_M - i,
        {
            let ghost next = self@.take(i + 1);
            assert(next.drop_last() =~= self@.take(i as int));
            assert(next.last() == self@[i as int]);
            let rank: u8 = self.registers[i];
            assert(rank <= MAX_RANK);
            proof {
                lemma_pow2_monotone((MAX_RANK - rank) as nat, 65);
                assert((i + 1) * pow2(65) == i * pow2(65) + pow2(65)) by (nonlinear_arith);
                assert(i * pow2(65) <= 4096 * pow2(65)) by (nonlinear_arith)
                    requires
                        i <= 4096,
                ;
            }
            sum = sum + powers[(MAX_RANK - rank) as usize];
            if rank == 0 {
                empty = empty + 1;
            }
            i = i + 1;
        }
        assert(self@.take(HLL_M as int) =~= self@);
        (sum, empty)
    }
}

proof fn lemma_pow2_values()
    ensures
        pow2(64) == 0x1_0000_0000_0000_0000,
        pow2(65) == 0x2_0000_0000_0000_0000,
{
    reveal_with_fuel(pow2, 66);
}

proof fn lemma_pow2_monotone(a: nat, b: nat)
    requires
        a <= b,
    ensures
        1 <= pow2(a) <= pow2(b),
    decreases b,
{
    if a < b {
        lemma_pow2_monotone(a, (b - 1) as nat);
    } else if b > 0 {
        lemma_pow2_monotone((a - 1) as nat, (b - 1) as nat);
    }
}

proof fn lemma_rank_sum_bounds(registers: Seq<u8>)
    requires
        forall|i: int| 0 <= i < registers.len() ==> #[trigger] registers[i] <= MAX_RANK,
    ensures
        registers.len() <= rank_sum(registers) <= registers.len() * pow2(65),
    decreases registers.len(),
{
    if registers.len() > 0 {
        let before = registers.drop_last();
        assert forall|i: int| 0 <= i < before.len() implies #[trigger] before[i] <= MAX_RANK by {
            assert(before[i] == registers[i]);
        }
        lemma_rank_sum_bounds(before);
        assert(registers.last() <= MAX_RANK);
        lemma_pow2_monotone((MAX_RANK - registers.last()) as nat, 65);
        assert(registers.len() * pow2(65) == before.len() * pow2(65) + pow2(65))
            by (nonlinear_arith)
            requires
                registers.len() == before.len() + 1,
        ;
    }
}

proof fn lemma_zeros_bound(registers: Seq<u8>)
    ensures
        zeros(registers) <= registers.len(),
    decreases registers.len(),
{
    if registers.len() > 0 {
        lemma_zeros_bound(registers.drop_last());
    }
}

fn powers_of_two() -> (r: Vec<u128>)
    ensures
        r@.len() == 66,
        forall|n: int| 0 <= n < 66 ==> #[trigger] r@[n] == pow2(n as nat),
{
    let mut out: Vec<u128> = Vec::new();
    let mut p: u128 = 1;
    let mut n: usize = 0;
    proof {
        lemma_pow2_values();
    }
    while n < 66
        invariant
            n <= 66,
            out@.len() == n,
            p == pow2(n as nat),
            pow2(65) == 0x2_0000_0000_0000_0000,
            forall|i: int| 0 <= i < n ==> #[trigger] out@[i] == pow2(i as nat),
        decreases 66 - n,
    {
        proof {
            lemma_pow2_monotone(n as nat, 65);
        }
        out.push(p);
        p = p * 2;
        n = n + 1;
    }
    out
}

fn nearest_of(numerator: u128, denominator: u128) -> (r: u64)
    requires
        denominator > 0,
        2 * numerator + denominator <= u128::MAX,
        2 * denominator <= u128::MAX,
    ensures
        r == nearest(numerator as int, denominator as int),
{
    let n: u128 = (2 * numerator + denominator) / (2 * denominator);
    if n > u64::MAX as u128 {
        u64::MAX
    } else {
        n as u64
    }
}

impl Default for Hll {
    fn default() -> (r: Self)
        ensures
            r.wf(),
            r@ == empty_registers(),
    {
        Hll::new()
    }
}

fn hash_key(key: &str) -> (r: u64)
    ensures
        r == key_hash(key@),
{
    let mut h = DefaultHasher::new();
    h.write(key.as_bytes());
    let closing: [u8; 1] = [0xff];
    assert(closing@ =~= seq![0xffu8]);
    h.write(closing.as_slice());
    assert(h@ =~= seq![encode_utf8(key@), seq![0xffu8]]);
    h.finish()
}

/// Folding a hash in again changes nothing: duplicates do not count.
pub proof fn law_duplicates_are_ignored(registers: Seq<u8>, hash: u64)
    requires
        valid_registers(registers),
    ensures
        folded(folded(registers, hash), hash) == folded(registers, hash),
{
    lemma_hash_parts(hash);
}

/// The order in which hashes are folded in does not matter.
pub proof fn law_order_does_not_matter(registers: Seq<u8>, a: u64, b: u64)
    requires
        valid_registers(registers),
    ensures
        folded(folded(registers, a), b) == folded(folded(registers, b), a),
{
    lemma_hash_parts(a);
    lemma_hash_parts(b);
    assert(folded(folded(registers, a), b) =~= folded(folded(registers, b), a));
}

/// Folding keeps a sketch valid and lowers no register.
pub proof fn law_registers_only_grow(registers: Seq<u8>, hash: u64)
    requires
        valid_registers(registers),
    ensures
        valid_registers(folded(registers, hash)),
        forall|i: int|
            0 <= i < registers.len() ==> registers[i] <= #[trigger] folded(registers, hash)[i],
{
    lemma_hash_parts(hash);
}

/// The registers of an empty sketch.
pub open spec fn empty_registers() -> Seq<u8> {
    Seq::new(HLL_M as nat, |i: int| 0u8)
}

proof fn lemma_zeros_of_zeros(registers: Seq<u8>)
    requires
        forall|i: int| 0 <= i < registers.len() ==> #[trigger] registers[i] == 0,
    ensures
        zeros(registers) == registers.len(),
    decreases registers.len(),
{
    if registers.len() > 0 {
        let before = registers.drop_last();
        assert forall|i: int| 0 <= i < before.len() implies #[trigger] before[i] == 0 by {
            assert(before[i] == registers[i]);
        }
        lemma_zeros_of_zeros(before);
    }
}

proof fn lemma_zeros_update(registers: Seq<u8>, i: int, rank: u8)
    requires
        0 <= i < registers.len(),
        registers[i] == 0,
        rank > 0,
    ensures
        zeros(registers.update(i, rank)) == zeros(registers) - 1,
    decreases registers.len(),
{
    let updated = registers.update(i, rank);
    if i == registers.len() - 1 {
        assert(updated.drop_last() =~= registers.drop_last());
    } else {
        assert(updated.drop_last() =~= registers.drop_last().update(i, rank));
        lemma_zeros_update(registers.drop_last(), i, rank);
    }
}

proof fn lemma_rank_sum_of_zeros(registers: Seq<u8>)
    ensures
        rank_sum(registers) >= zeros(registers) * pow2(65),
    decreases registers.len(),
{
    if registers.len() > 0 {
        let before = registers.drop_last();
        lemma_rank_sum_of_zeros(before);
        if registers.last() == 0 {
            assert(zeros(registers) == zeros(before) + 1);
            assert((zeros(before) + 1) * pow2(65) == zeros(before) * pow2(65) + pow2(65))
                by (nonlinear_arith);
            assert(rank_sum(registers) == rank_sum(before) + pow2(65));
        }
    } else {
        assert(zeros(registers) * pow2(65) == 0) by (nonlinear_arith)
            requires
                zeros(registers) == 0,
        ;
    }
}

proof fn lemma_small_range(registers: Seq<u8>)
    requires
        zeros(registers) >= 4095,
    ensures
        raw_numerator() <= 10240 * raw_denominator(registers),
{
    lemma_pow2_values();
    lemma_rank_sum_of_zeros(registers);
    assert(zeros(registers) * pow2(65) >= 4095 * pow2(65)) by (nonlinear_arith)
        requires
            zeros(registers) >= 4095,
    ;
    assert(raw_numerator() == 18287127558892437345991440440754176);
    assert(rank_sum(registers) >= 151078833963681227735040);
    assert(raw_denominator(registers) == 40_970_790 * rank_sum(registers));
}

/// Nobody seen is estimated as nobody.
pub proof fn law_empty_sketch_estimates_zero()
    ensures
        estimated(empty_registers()) == 0,
{
    lemma_zeros_of_zeros(empty_registers());
    lemma_small_range(empty_registers());
    lemma_pow2_values();
}

/// One visitor is estimated as one, whatever the key hashes to and however
/// often the visitor comes back.
pub proof fn law_one_visitor_estimates_one(hash: u64)
    ensures
        estimated(folded(empty_registers(), hash)) == 1,
        estimated(folded(folded(empty_registers(), hash), hash)) == 1,
{
    lemma_hash_parts(hash);
    let registers = folded(empty_registers(), hash);
    law_duplicates_are_ignored(empty_registers(), hash);
    lemma_zeros_of_zeros(empty_registers());
    lemma_zeros_update(empty_registers(), register_of(hash), rank_of(hash));
    assert(zeros(registers) == 4095);
    lemma_small_range(registers);
    lemma_pow2_values();
    reveal_with_fuel(crate::visitors::ln::ln_ratio, 2);
    reveal_with_fuel(crate::visitors::ln::series, 5);
    assert(crate::visitors::ln::ln_ratio(4095, 4096) == crate::visitors::ln::ln_step(4095));
    crate::visitors::ln::lemma_last_step();
}

/// Estimates are rounded to nearest: unless it saturates, the integer is at
/// most one half away from the fraction.
pub proof fn law_estimates_are_rounded_to_nearest(numerator: int, denominator: int)
    requires
        numerator >= 0,
        denominator > 0,
    ensures
        nearest(numerator, denominator) < u64::MAX ==> {
            let r = nearest(numerator, denominator) as int;
            2 * numerator - denominator <= 2 * (denominator * r) <= 2 * numerator + denominator
        },
{
    let a = 2 * numerator + denominator;
    let b = 2 * denominator;
    let n = a / b;
    assert(b * n <= a < b * n + b) by (nonlinear_arith)
        requires
            b > 0,
            n == a / b,
    ;
    assert(b * n == 2 * (denominator * n)) by (nonlinear_arith)
        requires
            b == 2 * denominator,
    ;
    assert(n >= 0) by (nonlinear_arith)
        requires
            a >= 0,
            b > 0,
            n == a / b,
    ;
}

/// Linear counting is accurate: the estimate for `z` empty registers differs
/// from `4096 * ln(4096 / z)`, taken without rounding and with twenty-one
/// terms or more, by at most one half and 400 million units of two to the
/// minus 64, which is less than a thousand millionth.
pub proof fn law_linear_counting_is_accurate(z: int, n: nat)
    requires
        1 <= z <= 4096,
        n >= 21,
    ensures
        ({
            let r = nearest(4096 * crate::visitors::ln::ln_ratio(z, 4096), pow2(64) as int) as int;
            let exact = 4096real * crate::visitors::ln::exact_ln_ratio(z, 4096, n);
            let units = 0x1_0000_0000_0000_0000int;
            &&& (units * r) as real <= exact + (units / 2) as real
            &&& exact <= (units * r) as real + (units / 2) as real + 400_000_000real
        }),
{
    let units = 0x1_0000_0000_0000_0000int;
    let l = crate::visitors::ln::ln_ratio(z, 4096);
    lemma_pow2_values();
    crate::visitors::ln::law_logarithm_is_accurate(z, 4096, n);
    crate::visitors::ln::lemma_ln_ratio_bound(z, 4096);
    assert((4096 - z) * (2 * crate::visitors::ln::TWICE_ONE) <= 4096 * (2
        * crate::visitors::ln::TWICE_ONE)) by (nonlinear_arith)
        requires
            z >= 1,
    ;
    law_estimates_are_rounded_to_nearest(4096 * l, units);
    let r = nearest(4096 * l, units) as int;
    assert(pow2(64) as int == units);
    assert((2 * (4096 * l) + units) / (2 * units) == (8192 * l + units)
        / 0x2_0000_0000_0000_0000int);
    assert(r < u64::MAX);
    assert(2 * (4096 * l) - units <= 2 * (units * r) <= 2 * (4096 * l) + units);
    assert((4096 * l) as real == 4096real * (l as real));
    assert((23 * (4096 - z)) as real <= 94_208real);
}

proof fn lemma_pow2_is_standard(n: nat)
    ensures
        pow2(n) == vstd::arithmetic::power2::pow2(n),
    decreases n,
{
    if n == 0 {
        vstd::arithmetic::power2::lemma2_to64();
    } else {
        lemma_pow2_is_standard((n - 1) as nat);
        vstd::arithmetic::power2::lemma_pow2_unfold(n);
    }
}

proof fn lemma_rank_sum_is_standard(
    registers: Seq<u8>,
    weight: spec_fn(u8) -> int,
    plus: spec_fn(int, int) -> int,
)
    requires
        forall|i: int| 0 <= i < registers.len() ==> #[trigger] registers[i] <= 65,
        forall|r: u8| r <= 65 ==> #[trigger] weight(r) == vstd::arithmetic::power2::pow2(
            (65 - r) as nat,
        ),
        forall|a: int, b: int| #[trigger] plus(a, b) == a + b,
    ensures
        rank_sum(registers) == registers.map_values(weight).fold_left(0int, plus),
    decreases registers.len(),
{
    if registers.len() > 0 {
        let before = registers.drop_last();
        assert forall|i: int| 0 <= i < before.len() implies #[trigger] before[i] <= 65 by {
            assert(before[i] == registers[i]);
        }
        lemma_rank_sum_is_standard(before, weight, plus);
        assert(registers.map_values(weight).drop_last() =~= before.map_values(weight));
        assert(registers.last() <= 65);
        lemma_pow2_is_standard((65 - registers.last()) as nat);
        assert(registers.map_values(weight).last() == weight(registers.last()));
    }
}

proof fn lemma_zeros_is_standard(registers: Seq<u8>, empty: spec_fn(u8) -> bool)
    requires
        forall|r: u8| #[trigger] empty(r) == (r == 0),
    ensures
        zeros(registers) == registers.filter(empty).len(),
    decreases registers.len(),
{
    reveal(Seq::filter);
    if registers.len() > 0 {
        lemma_zeros_is_standard(registers.drop_last(), empty);
    }
}

proof fn lemma_no_zeros(registers: Seq<u8>)
    requires
        forall|i: int| 0 <= i < registers.len() ==> #[trigger] registers[i] != 0,
    ensures
        zeros(registers) == 0,
    decreases registers.len(),
{
    if registers.len() > 0 {
        let before = registers.drop_last();
        assert forall|i: int| 0 <= i < before.len() implies #[trigger] before[i] != 0 by {
            assert(before[i] == registers[i]);
        }
        lemma_no_zeros(before);
    }
}

/// Above two and a half visitors per register, and wherever no register is
/// empty, the estimate is the raw one, `alpha * m * m / sum` over the sum of
/// two to the minus rank, rounded to nearest: whether or not some registers
/// are empty. It saturates only where the raw estimate is that large.
pub proof fn law_large_estimates_are_raw(registers: Seq<u8>)
    requires
        registers.len() == 4096,
        forall|i: int| 0 <= i < registers.len() ==> #[trigger] registers[i] <= 65,
    ensures
        ({
            let sum = registers.map_values(
                |r: u8| vstd::arithmetic::power2::pow2((65 - r) as nat) as int,
            ).fold_left(0int, |a: int, b: int| a + b);
            let num = 7213 * 4096 * 4096 * 4096 * 0x2_0000_0000_0000_0000;
            let den = 10 * 4097079 * sum;
            let r = estimated(registers) as int;
            (2 * num > 5 * 4096 * den || forall|i: int|
                0 <= i < registers.len() ==> #[trigger] registers[i] != 0) ==> {
                &&& den > 0
                &&& r < u64::MAX ==> 2 * num - den <= 2 * (den * r) <= 2 * num + den
                &&& r == u64::MAX ==> 2 * (den * r) <= 2 * num + den
            }
        }),
{
    let weight = |r: u8| vstd::arithmetic::power2::pow2((65 - r) as nat) as int;
    let plus = |a: int, b: int| a + b;
    lemma_rank_sum_is_standard(registers, weight, plus);
    lemma_rank_sum_bounds(registers);
    lemma_pow2_values();
    let sum = registers.map_values(weight).fold_left(0int, plus);
    let num = 7213 * 4096 * 4096 * 4096 * 0x2_0000_0000_0000_0000int;
    let den = 10 * 4097079 * sum;
    assert(sum == rank_sum(registers));
    assert(sum >= 4096);
    assert(den == 40_970_790 * sum);
    assert(num == raw_numerator() && den == raw_denominator(registers));
    assert(5 * 4096 * den == 2 * (10240 * den)) by (nonlinear_arith);
    if forall|i: int| 0 <= i < registers.len() ==> #[trigger] registers[i] != 0 {
        lemma_no_zeros(registers);
    }
    law_estimates_are_rounded_to_nearest(num, den);
    let n = (2 * num + den) / (2 * den);
    assert((2 * den) * n <= 2 * num + den) by (nonlinear_arith)
        requires
            den > 0,
            n == (2 * num + den) / (2 * den),
    ;
    if n >= u64::MAX {
        assert(2 * (den * (u64::MAX as int)) <= (2 * den) * n) by (nonlinear_arith)
            requires
                den > 0,
                u64::MAX as int <= n,
        ;
    }
}

/// Up to two and a half visitors per register, while some register is empty,
/// the estimate is that of linear counting: it differs from
/// `4096 * ln(4096 / z)`, where `z` is the number of empty registers, by at
/// most one half and a thousand millionth.
pub proof fn law_small_estimates_count_empty_registers(registers: Seq<u8>, n: nat)
    requires
        registers.len() == 4096,
        forall|i: int| 0 <= i < registers.len() ==> #[trigger] registers[i] <= 65,
        n >= 21,
    ensures
        ({
            let sum = registers.map_values(
                |r: u8| vstd::arithmetic::power2::pow2((65 - r) as nat) as int,
            ).fold_left(0int, |a: int, b: int| a + b);
            let num = 7213 * 4096 * 4096 * 4096 * 0x2_0000_0000_0000_0000;
            let den = 10 * 4097079 * sum;
            let z = registers.filter(|r: u8| r == 0).len();
            let r = estimated(registers) as int;
            let exact = 4096real * crate::visitors::ln::exact_ln_ratio(z as int, 4096, n);
            let units = 0x1_0000_0000_0000_0000int;
            z > 0 && 2 * num <= 5 * 4096 * den ==> {
                &&& (units * r) as real <= exact + (units / 2) as real
                &&& exact <= (units * r) as real + (units / 2) as real + 400_000_000real
            }
        }),
{
    let weight = |r: u8| vstd::arithmetic::power2::pow2((65 - r) as nat) as int;
    let plus = |a: int, b: int| a + b;
    let empty = |r: u8| r == 0;
    lemma_rank_sum_is_standard(registers, weight, plus);
    lemma_zeros_is_standard(registers, empty);
    lemma_zeros_bound(registers);
    lemma_pow2_values();
    let z = registers.filter(empty).len();
    let sum = registers.map_values(weight).fold_left(0int, plus);
    let num = 7213 * 4096 * 4096 * 4096 * 0x2_0000_0000_0000_0000int;
    let den = 10 * 4097079 * sum;
    assert(den == 40_970_790 * sum);
    assert(num == raw_numerator() && den == raw_denominator(registers));
    assert(5 * 4096 * den == 2 * (10240 * den)) by (nonlinear_arith);
    if z > 0 {
        law_linear_counting_is_accurate(z as int, n);
    }
}

/// Folding in a hash raises one register, the one that the top twelve bits
/// name, to the rank of the hash where that is larger, and no other.
pub proof fn law_one_register_is_raised(registers: Seq<u8>, hash: u64, i: int)
    requires
        registers.len() == 4096,
        0 <= i < 4096,
    ensures
        folded(registers, hash).len() == 4096,
        folded(registers, hash)[i] == (if i == hash as int / 0x10_0000_0000_0000 && rank_of(hash)
            > registers[i] {
            rank_of(hash)
        } else {
            registers[i]
        }),
{
    lemma_hash_parts(hash);
    assert(hash >> 52 == hash / 0x10_0000_0000_0000) by (bit_vector);
}

/// The rank of a hash is the place of the first one among its lower fifty-two
/// bits, counted from one; without any it is 65.
pub proof fn law_rank_is_first_one(hash: u64)
    ensures
        ({
            let low = hash as int % 0x10_0000_0000_0000;
            let rank = rank_of(hash) as int;
            &&& low == 0 ==> rank == 65
            &&& low > 0 ==> {
                &&& 1 <= rank <= 52
                &&& vstd::arithmetic::power2::pow2((52 - rank) as nat) <= low
                &&& low < vstd::arithmetic::power2::pow2((53 - rank) as nat)
            }
        }),
{
    let x = hash << 12;
    let low = hash % 0x10_0000_0000_0000;
    assert(x == low * 4096 && low < 0x10_0000_0000_0000) by (bit_vector)
        requires
            x == hash << 12,
            low == hash % 0x10_0000_0000_0000,
    ;
    axiom_u64_leading_zeros(x);
    let z = u64_leading_zeros(x) as u64;
    if low > 0 {
        assert(x != 0);
        let e = (63 - z) as u64;
        assert(e >= 12) by (bit_vector)
            requires
                x == low * 4096,
                low < 0x10_0000_0000_0000,
                e < 64,
                (x >> e) & 1 != 0,
        ;
        let d = (e - 12) as u64;
        assert((x >> e) & 1 != 0);
        assert(low >> d != 0 && (d < 63 ==> low >> ((d + 1) as u64) == 0)) by (bit_vector)
            requires
                low < 0x10_0000_0000_0000,
                x == low * 4096,
                12 <= e < 64,
                d == e - 12,
                (x >> e) & 1 != 0,
                e < 63 ==> x >> ((e + 1) as u64) == 0,
        ;
        vstd::bits::lemma_u64_shr_is_div(low, d);
        vstd::bits::lemma_u64_shr_is_div(low, (d + 1) as u64);
        let a = vstd::arithmetic::power2::pow2(d as nat) as int;
        let b = vstd::arithmetic::power2::pow2((d + 1) as nat) as int;
        vstd::arithmetic::power2::lemma_pow2_pos(d as nat);
        vstd::arithmetic::power2::lemma_pow2_pos((d + 1) as nat);
        assert(a <= low as int) by (nonlinear_arith)
            requires
                a > 0,
                low as int / a != 0,
                low >= 0,
        ;
        assert((low as int) < b) by (nonlinear_arith)
            requires
                b > 0,
                low as int / b == 0,
                low >= 0,
        ;
    }
}

/// The hasher is fed the whole key, byte for byte, and one closing byte.
pub proof fn law_whole_keys_are_hashed(key: Seq<char>)
    ensures
        key_hash(key) == DefaultHasher::spec_finish(seq![encode_utf8(key), seq![255u8]]),
{
}

/// Linear counting without the logarithm: with `z` empty registers, and up to
/// two and a half visitors per register, the estimate lies, but for rounding,
/// between 4096 times the sum of `2 / (2k + 1)` for `k` from `z` up to 4095 and
/// the same sum with `2 / ((2k + 1) * ((2k + 1)^2 - 1))` added to each term.
pub proof fn law_small_estimates_lie_between(registers: Seq<u8>)
    requires
        registers.len() == 4096,
        forall|i: int| 0 <= i < registers.len() ==> #[trigger] registers[i] <= 65,
    ensures
        ({
            let sum = registers.map_values(
                |r: u8| vstd::arithmetic::power2::pow2((65 - r) as nat) as int,
            ).fold_left(0int, |a: int, b: int| a + b);
            let num = 7213 * 4096 * 4096 * 4096 * 0x2_0000_0000_0000_0000;
            let den = 10 * 4097079 * sum;
            let z = registers.filter(|r: u8| r == 0).len() as int;
            let plus = |a: real, b: real| a + b;
            let low = Seq::new(
                (4096 - z) as nat,
                |i: int| 2real / (2 * (z + i) + 1) as real,
            ).fold_left(0real, plus);
            let high = Seq::new(
                (4096 - z) as nat,
                |i: int|
                    2real / (2 * (z + i) + 1) as real + 2real / ((2 * (z + i) + 1) as real * ((2 * (
                    z + i) + 1) * (2 * (z + i) + 1) - 1) as real),
            ).fold_left(0real, plus);
            let r = (estimated(registers) as int) as real;
            z > 0 && 2 * num <= 5 * 4096 * den ==> {
                &&& 1000real * (4096real * low) <= 1000real * r + 501real
                &&& 2real * r <= 2real * (4096real * high) + 1real
            }
        }),
{
    let weight = |r: u8| vstd::arithmetic::power2::pow2((65 - r) as nat) as int;
    let adds = |a: int, b: int| a + b;
    let empty = |r: u8| r == 0;
    let z = registers.filter(empty).len() as int;
    let plus = |a: real, b: real| a + b;
    let below = |i: int| 2real / (2 * (z + i) + 1) as real;
    let above = |i: int|
        2real / (2 * (z + i) + 1) as real + 2real / ((2 * (z + i) + 1) as real * ((2 * (z + i) + 1)
            * (2 * (z + i) + 1) - 1) as real);
    lemma_zeros_is_standard(registers, empty);
    lemma_zeros_bound(registers);
    let sum = registers.map_values(weight).fold_left(0int, adds);
    let num = 7213 * 4096 * 4096 * 4096 * 0x2_0000_0000_0000_0000int;
    let den = 10 * 4097079 * sum;
    if z > 0 && 2 * num <= 5 * 4096 * den {
        law_small_estimates_count_empty_registers(registers, 21);
        crate::visitors::ln::lemma_ln_ratio_between(z, 4096, 21, below, above, plus);
        let units = 0x1_0000_0000_0000_0000int;
        let u = units as real;
        let e = estimated(registers) as int;
        let r = e as real;
        let low = Seq::new((4096 - z) as nat, below).fold_left(0real, plus);
        let high = Seq::new((4096 - z) as nat, above).fold_left(0real, plus);
        let exact = 4096real * crate::visitors::ln::exact_ln_ratio(z, 4096, 21);
        assert((units * e) as real == u * r) by (nonlinear_arith)
            requires
                u == units as real,
                r == e as real,
        ;
        assert(u * (4096real * low) <= exact) by (nonlinear_arith)
            requires
                u * low <= crate::visitors::ln::exact_ln_ratio(z, 4096, 21),
                exact == 4096real * crate::visitors::ln::exact_ln_ratio(z, 4096, 21),
        ;
        assert(exact <= u * (4096real * high)) by (nonlinear_arith)
            requires
                crate::visitors::ln::exact_ln_ratio(z, 4096, 21) <= u * high,
                exact == 4096real * crate::visitors::ln::exact_ln_ratio(z, 4096, 21),
        ;
        let half = (units / 2) as real;
        assert(2real * half == u);
        assert(400_000_000_000real <= u);
        let l = 4096real * low;
        let h = 4096real * high;
        assert(1000real * l <= 1000real * r + 501real) by (nonlinear_arith)
            requires
                u > 0real,
                1000real * (u * l) <= 1000real * (u * r) + 501real * u,
        ;
        assert(2real * r <= 2real * h + 1real) by (nonlinear_arith)
            requires
                u > 0real,
                2real * (u * r) <= 2real * (u * h) + u,
        ;
    }
}

} // verus!
