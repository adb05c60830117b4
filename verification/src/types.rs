//! Core domain identifiers and value types.
//!
//! Newtypes keep worker, dataset, lease and checkpoint identifiers from being
//! mixed up at call sites; `ShardRange` carries the half-open range invariant.

use crate::error::DtrError;
use crate::error::ErrorView;
use crate::pool;
use crate::text;
use vstd::prelude::*;

verus! {

/// Stable worker identity chosen by the trainer (e.g. "rank-0").
#[derive(Debug, PartialEq, Eq, Hash)]
pub struct WorkerId(pub String);

impl View for WorkerId {
    type V = Seq<char>;

    open spec fn view(&self) -> Seq<char> {
        self.0@
    }
}

impl WorkerId {
    pub fn new(s: &str) -> (out: Self)
        ensures
            out@ == s@,
    {
        Self(s.to_owned())
    }

    pub fn as_str(&self) -> (out: &str)
        ensures
            out@ == self@,
    {
        self.0.as_str()
    }

    /// The identifier as text.
    pub fn to_string(&self) -> (out: String)
        ensures
            out@ == self@,
    {
        self.0.clone()
    }
}

impl From<&str> for WorkerId {
    fn from(s: &str) -> (out: Self)
        ensures
            out@ == s@,
    {
        Self(s.to_owned())
    }
}

impl vstd::std_specs::convert::FromSpecImpl<&str> for WorkerId {
    open spec fn obeys_from_spec() -> bool {
        false
    }

    open spec fn from_spec(s: &str) -> Self {
        arbitrary()
    }
}

impl Clone for WorkerId {
    fn clone(&self) -> (out: Self)
        ensures
            out == *self,
    {
        Self(self.0.clone())
    }
}

/// Coordinator-assigned dataset handle.
#[derive(Debug, PartialEq, Eq, Hash)]
pub struct DatasetId(pub String);

impl View for DatasetId {
    type V = Seq<char>;

    open spec fn view(&self) -> Seq<char> {
        self.0@
    }
}

impl DatasetId {
    pub fn new(s: &str) -> (out: Self)
        ensures
            out@ == s@,
    {
        Self(s.to_owned())
    }

    pub fn as_str(&self) -> (out: &str)
        ensures
            out@ == self@,
    {
        self.0.as_str()
    }

    /// The identifier as text.
    pub fn to_string(&self) -> (out: String)
        ensures
            out@ == self@,
    {
        self.0.clone()
    }
}

impl From<&str> for DatasetId {
    fn from(s: &str) -> (out: Self)
        ensures
            out@ == s@,
    {
        Self(s.to_owned())
    }
}

impl vstd::std_specs::convert::FromSpecImpl<&str> for DatasetId {
    open spec fn obeys_from_spec() -> bool {
        false
    }

    open spec fn from_spec(s: &str) -> Self {
        arbitrary()
    }
}

impl Clone for DatasetId {
    fn clone(&self) -> (out: Self)
        ensures
            out == *self,
    {
        Self(self.0.clone())
    }
}

/// Handle for one TTL-bound shard lease.
#[derive(Debug, PartialEq, Eq, Hash)]
pub struct LeaseId(pub String);

impl View for LeaseId {
    type V = Seq<char>;

    open spec fn view(&self) -> Seq<char> {
        self.0@
    }
}

impl LeaseId {
    pub fn new(s: &str) -> (out: Self)
        ensures
            out@ == s@,
    {
        Self(s.to_owned())
    }

    pub fn as_str(&self) -> (out: &str)
        ensures
            out@ == self@,
    {
        self.0.as_str()
    }

    /// The identifier as text.
    pub fn to_string(&self) -> (out: String)
        ensures
            out@ == self@,
    {
        self.0.clone()
    }
}

impl From<&str> for LeaseId {
    fn from(s: &str) -> (out: Self)
        ensures
            out@ == s@,
    {
        Self(s.to_owned())
    }
}

impl vstd::std_specs::convert::FromSpecImpl<&str> for LeaseId {
    open spec fn obeys_from_spec() -> bool {
        false
    }

    open spec fn from_spec(s: &str) -> Self {
        arbitrary()
    }
}

impl Clone for LeaseId {
    fn clone(&self) -> (out: Self)
        ensures
            out == *self,
    {
        Self(self.0.clone())
    }
}

/// Barrier token shared by all ranks of one checkpoint step.
#[derive(Debug, PartialEq, Eq, Hash)]
pub struct CheckpointToken(pub String);

impl View for CheckpointToken {
    type V = Seq<char>;

    open spec fn view(&self) -> Seq<char> {
        self.0@
    }
}

impl CheckpointToken {
    pub fn new(s: &str) -> (out: Self)
        ensures
            out@ == s@,
    {
        Self(s.to_owned())
    }

    pub fn as_str(&self) -> (out: &str)
        ensures
            out@ == self@,
    {
        self.0.as_str()
    }

    /// The identifier as text.
    pub fn to_string(&self) -> (out: String)
        ensures
            out@ == self@,
    {
        self.0.clone()
    }
}

impl From<&str> for CheckpointToken {
    fn from(s: &str) -> (out: Self)
        ensures
            out@ == s@,
    {
        Self(s.to_owned())
    }
}

impl vstd::std_specs::convert::FromSpecImpl<&str> for CheckpointToken {
    open spec fn obeys_from_spec() -> bool {
        false
    }

    open spec fn from_spec(s: &str) -> Self {
        arbitrary()
    }
}

impl Clone for CheckpointToken {
    fn clone(&self) -> (out: Self)
        ensures
            out == *self,
    {
        Self(self.0.clone())
    }
}

/// Handle for a registered checkpoint destination.
#[derive(Debug, PartialEq, Eq, Hash)]
pub struct TargetId(pub String);

impl View for TargetId {
    type V = Seq<char>;

    open spec fn view(&self) -> Seq<char> {
        self.0@
    }
}

impl TargetId {
    pub fn new(s: &str) -> (out: Self)
        ensures
            out@ == s@,
    {
        Self(s.to_owned())
    }

    pub fn as_str(&self) -> (out: &str)
        ensures
            out@ == self@,
    {
        self.0.as_str()
    }

    /// The identifier as text.
    pub fn to_string(&self) -> (out: String)
        ensures
            out@ == self@,
    {
        self.0.clone()
    }
}

impl From<&str> for TargetId {
    fn from(s: &str) -> (out: Self)
        ensures
            out@ == s@,
    {
        Self(s.to_owned())
    }
}

impl vstd::std_specs::convert::FromSpecImpl<&str> for TargetId {
    open spec fn obeys_from_spec() -> bool {
        false
    }

    open spec fn from_spec(s: &str) -> Self {
        arbitrary()
    }
}

impl Clone for TargetId {
    fn clone(&self) -> (out: Self)
        ensures
            out == *self,
    {
        Self(self.0.clone())
    }
}

/// A contiguous half-open range of shard indices `[begin, end)`.
#[derive(Debug, Clone, Copy, PartialEq, Eq, Structural)]
pub struct ShardRange {
    pub begin: u32,
    pub end: u32,
}

/// Why a range that ends before it begins is refused.
pub open spec fn range_order_message(begin: u32, end: u32) -> Seq<char> {
    "shard range begin ("@ + text::decimal(begin as nat) + ") must be <= end ("@ + text::decimal(
        end as nat,
    ) + ")"@
}

impl ShardRange {
    /// The range does not end before it begins.
    pub open spec fn ordered(self) -> bool {
        self.begin <= self.end
    }

    /// The shard indices in the range.
    pub open spec fn shards(self) -> Set<u32> {
        pool::span(self.begin as int, self.end as int)
    }

    /// Construct a range, enforcing `begin <= end`.
    pub fn new(begin: u32, end: u32) -> (out: Result<Self, DtrError>)
        ensures
            match out {
                Ok(range) => begin <= end && range.begin == begin && range.end == end,
                Err(e) => begin > end && e@ == ErrorView::InvalidArgument(
                    range_order_message(begin, end),
                ),
            },
    {
        if begin > end {
            let mut message: String = "shard range begin (".to_owned();
            message.append(text::decimal_string(begin as u64).as_str());
            message.append(") must be <= end (");
            message.append(text::decimal_string(end as u64).as_str());
            message.append(")");
            return Err(DtrError::InvalidArgument(message));
        }
        Ok(Self { begin, end })
    }

    /// How many shards are in the range.
    pub fn len(&self) -> (out: u32)
        requires
            self.ordered(),
        ensures
            out == self.end - self.begin,
    {
        self.end - self.begin
    }

    pub fn is_empty(&self) -> (out: bool)
        ensures
            out == (self.begin == self.end),
    {
        self.begin == self.end
    }

    pub fn contains(&self, shard: u32) -> (out: bool)
        ensures
            out == self.shards().contains(shard),
    {
        shard >= self.begin && shard < self.end
    }
}

/// The lengths of ranges and their contents agree: an ordered range is empty
/// exactly if no shard lies in it.
pub proof fn empty_range_holds_no_shard(range: ShardRange)
    requires
        range.ordered(),
    ensures
        (range.begin == range.end) == (range.shards() == Set::<u32>::empty()),
{
    if range.begin == range.end {
        assert(range.shards() =~= Set::<u32>::empty());
    } else {
        assert(range.shards().contains(range.begin));
    }
}

/// Quorum policy for checkpoint barriers.
#[derive(Debug, Clone, Copy, PartialEq, Eq, Structural)]
pub enum QuorumPolicy {
    /// Every expected participant must report before commit.
    AllRanks,
    /// A fraction in (0, 1] of the expected participants suffices. The fraction
    /// is held as the bit pattern of an IEEE 754 double.
    Fraction(u64),
}

/// The sign bit of a double.
pub const SIGN_BIT: u64 = 0x8000_0000_0000_0000;

/// The number of mantissa patterns of a double.
pub const MANTISSAS: u64 = 0x10_0000_0000_0000;

/// The bit pattern of the double 1.
pub const ONE_BITS: u64 = 0x3FF0_0000_0000_0000;

/// The smallest whole number that a double's significand cannot hold apart
/// from its neighbours.
pub const SIGNIFICANDS: u128 = 0x20_0000_0000_0000;

/// The exponent field of a double.
pub open spec fn exponent_field(bits: u64) -> nat {
    (bits / MANTISSAS) as nat % 2048
}

/// The mantissa field of a double.
pub open spec fn mantissa_field(bits: u64) -> nat {
    bits as nat % MANTISSAS as nat
}

/// Whether a double is "not a number".
pub open spec fn is_nan(bits: u64) -> bool {
    exponent_field(bits) == 2047 && mantissa_field(bits) != 0
}

/// The whole number `m` of the value `m / 2^k` of a non-negative double.
pub open spec fn significand(bits: u64) -> nat {
    if exponent_field(bits) == 0 {
        mantissa_field(bits)
    } else {
        MANTISSAS as nat + mantissa_field(bits)
    }
}

/// The `k` of the value `m / 2^k` of a double below one.
pub open spec fn scale(bits: u64) -> nat {
    if exponent_field(bits) == 0 {
        1074
    } else {
        (1075 - exponent_field(bits)) as nat
    }
}

/// The distance between neighbouring doubles at the whole number `p`.
pub open spec fn spacing(p: nat) -> nat
    decreases p,
{
    if p < SIGNIFICANDS {
        1
    } else {
        2 * spacing(p / 2)
    }
}

/// The double nearest to the whole number `p`, the even one of two equally
/// near.
pub open spec fn nearest_double(p: nat) -> nat {
    let unit = spacing(p);
    let below = p / unit;
    let rest = p % unit;
    if 2 * rest > unit || (2 * rest == unit && below % 2 == 1) {
        (below + 1) * unit
    } else {
        below * unit
    }
}

/// `ceil(fraction * expected)` in double arithmetic, for a fraction in [0, 1).
pub open spec fn share(bits: u64, expected: nat) -> nat {
    let divisor = vstd::arithmetic::power2::pow2(scale(bits));
    ((nearest_double(significand(bits) * expected) + divisor - 1) / divisor as int) as nat
}

impl QuorumPolicy {
    /// The policy is usable: a fraction lies in (0, 1].
    pub open spec fn valid(self) -> bool {
        match self {
            QuorumPolicy::AllRanks => true,
            QuorumPolicy::Fraction(bits) => 0 < bits <= ONE_BITS,
        }
    }

    /// Number of participants that have to report.
    pub open spec fn threshold(self, expected: u32) -> u32 {
        match self {
            QuorumPolicy::AllRanks => expected,
            QuorumPolicy::Fraction(bits) => if expected == 0 || bits >= SIGN_BIT || is_nan(bits) {
                1
            } else if bits >= ONE_BITS {
                expected
            } else {
                let part = share(bits, expected as nat);
                if part < 1 {
                    1
                } else if part > expected {
                    expected
                } else {
                    part as u32
                }
            },
        }
    }

    /// Whether the policy is usable.
    pub fn is_valid(&self) -> (out: bool)
        ensures
            out == self.valid(),
    {
        match self {
            QuorumPolicy::AllRanks => true,
            QuorumPolicy::Fraction(bits) => 0 < *bits && *bits <= ONE_BITS,
        }
    }

    /// Number of participants required to commit given the expected set size.
    /// A fraction is rounded up and never asks for nobody.
    pub fn required(&self, expected: u32) -> (out: u32)
        ensures
            out == self.threshold(expected),
    {
        match self {
            QuorumPolicy::AllRanks => expected,
            QuorumPolicy::Fraction(bits) => required_share(*bits, expected),
        }
    }
}

fn spacing_of(p: u128) -> (out: u128)
    requires
        p < 0x1000_0000_0000_0000_0000_0000,
    ensures
        out == spacing(p as nat),
        1 <= out <= p || out == 1,
        p >= SIGNIFICANDS ==> out <= p / 2,
    decreases p,
{
    if p < SIGNIFICANDS {
        1
    } else {
        2 * spacing_of(p / 2)
    }
}

fn required_share(bits: u64, expected: u32) -> (out: u32)
    ensures
        out == QuorumPolicy::Fraction(bits).threshold(expected),
{
    if expected == 0 {
        return 1;
    }
    let exponent: u64 = (bits / MANTISSAS) % 2048;
    let mantissa: u64 = bits % MANTISSAS;
    if bits >= SIGN_BIT || (exponent == 2047 && mantissa != 0) {
        return 1;
    }
    if bits >= ONE_BITS {
        return expected;
    }
    assert(exponent < 1023);
    let m: u64 = if exponent == 0 {
        mantissa
    } else {
        MANTISSAS + mantissa
    };
    let k: u64 = if exponent == 0 {
        1074
    } else {
        1075 - exponent
    };
    assert(m as nat == significand(bits) && k as nat == scale(bits));
    assert(m * expected < 0x20_0000_0000_0000 * 0x1_0000_0000) by (nonlinear_arith)
        requires
            m < 0x20_0000_0000_0000,
            expected < 0x1_0000_0000,
    ;
    let product: u128 = m as u128 * expected as u128;
    let unit: u128 = spacing_of(product);
    let below: u128 = product / unit;
    let rest: u128 = product % unit;
    let up: bool = rest > unit - rest || (rest == unit - rest && below % 2 == 1);
    proof {
        vstd::arithmetic::div_mod::lemma_fundamental_div_mod(product as int, unit as int);
        assert(below * unit == unit * below) by (nonlinear_arith);
        assert((below + 1) * unit == below * unit + unit) by (nonlinear_arith);
    }
    let floor: u128 = product - rest;
    let rounded: u128 = if up {
        floor + unit
    } else {
        floor
    };
    assert(rounded as nat == nearest_double(product as nat));
    assert(rounded <= 2 * product + 1);
    if k > 100 {
        proof {
            lemma_pow2_at_least(k as nat, 100);
            let divisor = vstd::arithmetic::power2::pow2(k as nat);
            assert(share(bits, expected as nat) <= 1) by (nonlinear_arith)
                requires
                    divisor > 0,
                    rounded <= divisor,
                    share(bits, expected as nat) == ((rounded + divisor - 1) / divisor as int),
            ;
        }
        return 1;
    }
    let mut divisor: u128 = 1;
    let mut i: u64 = 0;
    proof {
        vstd::arithmetic::power2::lemma2_to64();
    }
    while i < k
        invariant
            i <= k <= 100,
            divisor == vstd::arithmetic::power2::pow2(i as nat),
            1 <= divisor <= 0x10_0000_0000_0000_0000_0000_0000,
        decreases k - i,
    {
        proof {
            vstd::arithmetic::power2::lemma_pow2_unfold((i + 1) as nat);
            lemma_pow2_at_least(99, i as nat);
            lemma_pow2_99();
        }
        divisor = divisor * 2;
        i = i + 1;
    }
    let part: u128 = (rounded + (divisor - 1)) / divisor;
    if part < 1 {
        1
    } else if part > expected as u128 {
        expected
    } else {
        part as u32
    }
}

proof fn lemma_pow2_at_least(k: nat, least: nat)
    requires
        least <= k,
    ensures
        vstd::arithmetic::power2::pow2(least) <= vstd::arithmetic::power2::pow2(k),
        least == 100 ==> vstd::arithmetic::power2::pow2(k) >= 0x10_0000_0000_0000_0000_0000_0000,
    decreases k,
{
    if k == least {
        if least == 100 {
            lemma_pow2_99();
            vstd::arithmetic::power2::lemma_pow2_unfold(100);
        }
    } else {
        lemma_pow2_at_least((k - 1) as nat, least);
        vstd::arithmetic::power2::lemma_pow2_unfold(k);
    }
}

proof fn lemma_pow2_99()
    ensures
        vstd::arithmetic::power2::pow2(99) == 0x8_0000_0000_0000_0000_0000_0000,
{
    vstd::arithmetic::power2::lemma2_to64();
    vstd::arithmetic::power2::lemma2_to64_rest();
    vstd::arithmetic::power2::lemma_pow2_adds(49, 50);
}

/// Whatever the policy, nobody is asked for twice: the threshold never exceeds
/// the expected participants where there are any. A fraction never asks for
/// nobody.
pub proof fn quorum_is_within_bounds(policy: QuorumPolicy, expected: u32)
    ensures
        expected > 0 ==> 1 <= policy.threshold(expected) <= expected,
        policy is Fraction ==> 1 <= policy.threshold(expected),
{
}

/// A quorum of everybody and the fraction one are the same policy.
pub proof fn full_fraction_is_all_ranks(expected: u32)
    requires
        expected > 0,
    ensures
        QuorumPolicy::Fraction(ONE_BITS).threshold(expected) == QuorumPolicy::AllRanks.threshold(
            expected,
        ),
{
}

proof fn lemma_spacing(p: nat)
    ensures
        spacing(p) >= 1,
        p < SIGNIFICANDS * spacing(p),
        spacing(p) == 1 || MANTISSAS * spacing(p) <= p,
    decreases p,
{
    if p >= SIGNIFICANDS {
        lemma_spacing(p / 2);
    }
}

proof fn lemma_spacing_grows(p: nat, q: nat)
    requires
        p <= q,
    ensures
        spacing(p) == spacing(q) || 2 * spacing(p) <= spacing(q),
    decreases q,
{
    if p >= SIGNIFICANDS {
        lemma_spacing_grows(p / 2, q / 2);
    } else if q >= SIGNIFICANDS {
        lemma_spacing(q / 2);
    }
}

/// A whole number lies between its neighbouring doubles, and is rounded to one of
/// them.
proof fn lemma_nearest_double(p: nat)
    ensures
        ({
            let unit = spacing(p);
            let below = p / unit;
            &&& unit >= 1
            &&& below * unit <= p < (below + 1) * unit
            &&& nearest_double(p) == below * unit || nearest_double(p) == (below + 1) * unit
            &&& unit == 1 ==> nearest_double(p) == p
        }),
{
    lemma_spacing(p);
    let unit = spacing(p);
    let below = p / unit;
    vstd::arithmetic::div_mod::lemma_fundamental_div_mod(p as int, unit as int);
    assert(below * unit == unit * below) by (nonlinear_arith);
    assert((below + 1) * unit == below * unit + unit) by (nonlinear_arith);
}

/// Rounding to doubles keeps the order.
proof fn lemma_rounding_keeps_order(p: nat, q: nat)
    requires
        p <= q,
    ensures
        nearest_double(p) <= nearest_double(q),
{
    lemma_spacing(p);
    lemma_spacing(q);
    lemma_spacing_grows(p, q);
    lemma_nearest_double(p);
    lemma_nearest_double(q);
    let unit = spacing(p);
    let below = p / unit;
    if spacing(q) == unit {
        let above = q / unit;
        vstd::arithmetic::div_mod::lemma_div_is_ordered(p as int, q as int, unit as int);
        if below < above {
            assert((below + 1) * unit <= above * unit) by (nonlinear_arith)
                requires
                    below + 1 <= above,
            ;
            assert(below * unit <= (below + 1) * unit) by (nonlinear_arith);
        } else {
            vstd::arithmetic::div_mod::lemma_fundamental_div_mod(p as int, unit as int);
            vstd::arithmetic::div_mod::lemma_fundamental_div_mod(q as int, unit as int);
            assert(below * unit <= (below + 1) * unit) by (nonlinear_arith);
        }
    } else {
        let wide = spacing(q);
        let above = q / wide;
        let border = SIGNIFICANDS as nat * unit;
        assert((below + 1) * unit <= border) by (nonlinear_arith)
            requires
                below * unit <= p,
                p < SIGNIFICANDS as nat * unit,
                border == SIGNIFICANDS as nat * unit,
                unit >= 1,
        ;
        assert(below * unit <= (below + 1) * unit) by (nonlinear_arith);
        assert(above >= MANTISSAS) by (nonlinear_arith)
            requires
                MANTISSAS * wide <= q,
                q < (above + 1) * wide,
                wide >= 1,
        ;
        assert(border <= above * wide) by (nonlinear_arith)
            requires
                border == SIGNIFICANDS as nat * unit,
                SIGNIFICANDS as nat == 2 * MANTISSAS as nat,
                2 * unit <= wide,
                above >= MANTISSAS,
        ;
        assert(above * wide <= (above + 1) * wide) by (nonlinear_arith);
    }
}

/// Doubling a number doubles what it is rounded to.
proof fn lemma_rounding_doubles(q: nat)
    ensures
        nearest_double(2 * q) == 2 * nearest_double(q),
{
    lemma_spacing(q);
    lemma_nearest_double(q);
    lemma_nearest_double(2 * q);
    if 2 * q >= SIGNIFICANDS {
        let unit = spacing(q);
        let below = q / unit;
        let rest = q % unit;
        assert((2 * q) / 2 == q);
        assert(spacing(2 * q) == 2 * unit);
        vstd::arithmetic::div_mod::lemma_fundamental_div_mod(q as int, unit as int);
        assert(2 * q == below * (2 * unit) + 2 * rest) by (nonlinear_arith)
            requires
                q == unit * below + rest,
        ;
        vstd::arithmetic::div_mod::lemma_fundamental_div_mod_converse(
            (2 * q) as int,
            (2 * unit) as int,
            below as int,
            (2 * rest) as int,
        );
        assert(below * (2 * unit) == 2 * (below * unit)) by (nonlinear_arith);
        assert((below + 1) * (2 * unit) == 2 * ((below + 1) * unit)) by (nonlinear_arith);
    }
}

proof fn lemma_rounding_scales(q: nat, d: nat)
    ensures
        nearest_double(q * vstd::arithmetic::power2::pow2(d)) == nearest_double(q)
            * vstd::arithmetic::power2::pow2(d),
    decreases d,
{
    vstd::arithmetic::power2::lemma2_to64();
    if d > 0 {
        let c = vstd::arithmetic::power2::pow2((d - 1) as nat);
        vstd::arithmetic::power2::lemma_pow2_unfold(d);
        lemma_rounding_scales(q, (d - 1) as nat);
        lemma_rounding_doubles(q * c);
        assert(q * (2 * c) == 2 * (q * c)) by (nonlinear_arith);
        assert(nearest_double(q) * (2 * c) == 2 * (nearest_double(q) * c)) by (nonlinear_arith);
    } else {
        let one = vstd::arithmetic::power2::pow2(d);
        assert(q * one == q && nearest_double(q) * one == nearest_double(q)) by (nonlinear_arith)
            requires
                one == 1,
        ;
    }
}

/// Division that rounds up, told by what it is between.
proof fn lemma_ceiling(x: nat, divisor: nat)
    requires
        divisor > 0,
    ensures
        ({
            let t = (x + divisor - 1) / divisor as int;
            (t - 1) * divisor < x <= t * divisor
        }),
{
    let t = (x + divisor - 1) / divisor as int;
    vstd::arithmetic::div_mod::lemma_fundamental_div_mod(x + divisor - 1, divisor as int);
    assert(divisor as int * t == t * divisor) by (nonlinear_arith);
    assert((t - 1) * divisor == t * divisor - divisor) by (nonlinear_arith);
}

proof fn lemma_ceiling_at_most(x: nat, divisor: nat, t: int)
    requires
        divisor > 0,
        x <= t * divisor,
    ensures
        (x + divisor - 1) / divisor as int <= t,
{
    lemma_ceiling(x, divisor);
    let least = (x + divisor - 1) / divisor as int;
    assert(least <= t) by (nonlinear_arith)
        requires
            (least - 1) * divisor < t * divisor,
            divisor > 0,
    ;
}

/// A double below one, written out.
proof fn lemma_fraction_parts(bits: u64)
    requires
        bits < ONE_BITS,
    ensures
        exponent_field(bits) == bits / MANTISSAS,
        exponent_field(bits) <= 1022,
        significand(bits) < SIGNIFICANDS,
        exponent_field(bits) > 0 ==> significand(bits) >= MANTISSAS,
        exponent_field(bits) == 0 ==> significand(bits) < MANTISSAS,
        53 <= scale(bits) <= 1074,
        bits > 0 ==> significand(bits) > 0,
{
    assert(bits / MANTISSAS < 1023);
}

proof fn lemma_share_follows_the_fraction(f: u64, g: u64, expected: nat)
    requires
        f <= g < ONE_BITS,
    ensures
        share(f, expected) <= share(g, expected),
{
    lemma_fraction_parts(f);
    lemma_fraction_parts(g);
    let ef = exponent_field(f);
    let eg = exponent_field(g);
    assert(ef <= eg) by {
        vstd::arithmetic::div_mod::lemma_div_is_ordered(f as int, g as int, MANTISSAS as int);
    }
    let d = (scale(f) - scale(g)) as nat;
    let c = vstd::arithmetic::power2::pow2(d);
    let mf = significand(f);
    let mg = significand(g);
    vstd::arithmetic::power2::lemma2_to64();
    assert(mf <= mg * c) by {
        if ef == eg {
            assert(mf <= mg);
            assert(mg * c == mg) by (nonlinear_arith)
                requires
                    c == 1,
            ;
        } else {
            if ef > 0 {
                lemma_pow2_at_least(d, 1);
                assert(c >= 2);
                assert(mg * c >= mg * 2) by (nonlinear_arith)
                    requires
                        c >= 2,
                ;
            } else {
                lemma_pow2_at_least(d, 0);
                assert(mg * c >= mg) by (nonlinear_arith)
                    requires
                        c >= 1,
                ;
            }
        }
    }
    let p = mf * expected;
    let q = mg * expected;
    assert(p <= q * c) by (nonlinear_arith)
        requires
            mf <= mg * c,
            p == mf * expected,
            q == mg * expected,
    ;
    lemma_rounding_keeps_order(p, q * c);
    lemma_rounding_scales(q, d);
    let wide = vstd::arithmetic::power2::pow2(scale(f));
    let narrow = vstd::arithmetic::power2::pow2(scale(g));
    vstd::arithmetic::power2::lemma_pow2_adds(scale(g), d);
    vstd::arithmetic::power2::lemma_pow2_pos(scale(f));
    vstd::arithmetic::power2::lemma_pow2_pos(scale(g));
    let x = nearest_double(q);
    let t = (x + narrow - 1) / narrow as int;
    lemma_ceiling(x, narrow);
    assert(nearest_double(p) <= t * wide) by (nonlinear_arith)
        requires
            nearest_double(p) <= x * c,
            x <= t * narrow,
            wide == narrow * c,
    ;
    lemma_ceiling_at_most(nearest_double(p), wide, t);
    lemma_ceiling(nearest_double(p), wide);
    assert(t >= 0) by (nonlinear_arith)
        requires
            x <= t * narrow,
            x >= 0,
            narrow > 0,
    ;
    assert((nearest_double(p) + wide - 1) / wide as int >= 0) by (nonlinear_arith)
        requires
            wide > 0,
    ;
}

proof fn lemma_share_follows_the_ranks(f: u64, a: nat, b: nat)
    requires
        a <= b,
    ensures
        share(f, a) <= share(f, b),
{
    let m = significand(f);
    let divisor = vstd::arithmetic::power2::pow2(scale(f));
    vstd::arithmetic::power2::lemma_pow2_pos(scale(f));
    assert(m * a <= m * b) by (nonlinear_arith)
        requires
            a <= b,
    ;
    lemma_rounding_keeps_order(m * a, m * b);
    vstd::arithmetic::div_mod::lemma_div_is_ordered(
        nearest_double(m * a) + divisor - 1,
        nearest_double(m * b) + divisor - 1,
        divisor as int,
    );
    assert((nearest_double(m * a) + divisor - 1) / divisor as int >= 0) by (nonlinear_arith)
        requires
            divisor > 0,
    ;
}

/// A fraction below one asks for the least whole number of ranks that is not
/// below the fraction of the expected ones, the product taken in double
/// arithmetic.
pub proof fn quorum_is_the_least_share(bits: u64, expected: u32)
    requires
        0 < bits < ONE_BITS,
        expected > 0,
    ensures
        ({
            let t = QuorumPolicy::Fraction(bits).threshold(expected);
            let divisor = vstd::arithmetic::power2::pow2(scale(bits));
            let product = nearest_double(significand(bits) * expected as nat);
            (t - 1) * divisor < product <= t * divisor
        }),
{
    let m = significand(bits);
    let n = expected as nat;
    let divisor = vstd::arithmetic::power2::pow2(scale(bits));
    let product = nearest_double(m * n);
    lemma_fraction_parts(bits);
    lemma_pow2_at_least(scale(bits), 53);
    vstd::arithmetic::power2::lemma2_to64();
    vstd::arithmetic::power2::lemma2_to64_rest();
    lemma_ceiling(product, divisor);
    assert(1 <= m * n <= n * divisor) by (nonlinear_arith)
        requires
            1 <= m <= divisor,
            n >= 1,
    ;
    lemma_rounding_keeps_order(1, m * n);
    lemma_nearest_double(1);
    lemma_rounding_keeps_order(m * n, n * divisor);
    lemma_rounding_scales(n, scale(bits));
    lemma_nearest_double(n);
    assert(spacing(n) == 1);
    lemma_ceiling_at_most(product, divisor, n as int);
    let part = (product + divisor - 1) / divisor as int;
    assert(part >= 1) by (nonlinear_arith)
        requires
            1 <= product <= part * divisor,
            divisor > 0,
    ;
}

/// A larger fraction asks for no fewer ranks, and no fraction asks for more than
/// all of them.
pub proof fn quorum_grows_with_the_fraction(f: u64, g: u64, expected: u32)
    requires
        0 < f <= g <= ONE_BITS,
        expected > 0,
    ensures
        QuorumPolicy::Fraction(f).threshold(expected) <= QuorumPolicy::Fraction(g).threshold(
            expected,
        ) <= QuorumPolicy::AllRanks.threshold(expected),
{
    if g < ONE_BITS {
        lemma_share_follows_the_fraction(f, g, expected as nat);
    }
}

/// With more ranks expected a valid policy asks for no fewer.
pub proof fn quorum_grows_with_the_ranks(policy: QuorumPolicy, a: u32, b: u32)
    requires
        policy.valid(),
        a <= b,
    ensures
        policy.threshold(a) <= policy.threshold(b),
{
    if let QuorumPolicy::Fraction(bits) = policy {
        lemma_share_follows_the_ranks(bits, a as nat, b as nat);
    }
}

/// Where all ranks are asked for, as many must report as are expected.
pub proof fn all_ranks_means_every_rank(expected: u32)
    ensures
        QuorumPolicy::AllRanks.threshold(expected) == expected,
{
}

/// Which fractions are usable, and what an unusable one asks for: a fraction above
/// one asks for everybody, one that is negative or no number at all for one rank,
/// as every fraction of nobody does.
pub proof fn fractions_are_read_as_doubles(bits: u64, expected: u32)
    ensures
        QuorumPolicy::AllRanks.valid(),
        QuorumPolicy::Fraction(bits).valid() <==> 0 < bits <= 0x3FF0_0000_0000_0000,
        expected == 0 ==> QuorumPolicy::Fraction(bits).threshold(expected) == 1,
        bits > 0x7FF0_0000_0000_0000 ==> QuorumPolicy::Fraction(bits).threshold(expected) == 1,
        expected > 0 && 0x3FF0_0000_0000_0000 <= bits <= 0x7FF0_0000_0000_0000
            ==> QuorumPolicy::Fraction(bits).threshold(expected) == expected,
{
    if bits < 0x8000_0000_0000_0000 {
        assert(bits / MANTISSAS < 2048);
        assert(exponent_field(bits) == bits / MANTISSAS);
        assert(bits == (bits / MANTISSAS) * MANTISSAS + bits % MANTISSAS);
    }
}

proof fn lemma_spacing_is_a_power(p: nat) -> (k: nat)
    ensures
        spacing(p) == vstd::arithmetic::power2::pow2(k),
    decreases p,
{
    vstd::arithmetic::power2::lemma2_to64();
    if p < SIGNIFICANDS {
        0
    } else {
        let k = lemma_spacing_is_a_power(p / 2);
        vstd::arithmetic::power2::lemma_pow2_unfold(k + 1);
        k + 1
    }
}

/// A fraction below one asks for the least whole number of ranks that is not below
/// the product of the fraction and the expected ranks. The product is rounded to
/// the nearest number with fifty-three binary digits, a tie to the even one; both
/// are counted in units of the fraction's last binary place, and the result names
/// the rounded product and the binary exponent that it was rounded at.
pub proof fn a_fraction_asks_for_its_share(exponent: u64, mantissa: u64, expected: u32) -> (r: (
    nat,
    nat,
))
    requires
        exponent < 1023,
        mantissa < 0x10_0000_0000_0000,
        exponent > 0 || mantissa > 0,
        expected > 0,
    ensures
        ({
            let bits = (exponent * 0x10_0000_0000_0000 + mantissa) as u64;
            let t = QuorumPolicy::Fraction(bits).threshold(expected);
            let digits = if exponent == 0 {
                mantissa as int
            } else {
                0x10_0000_0000_0000 + mantissa
            };
            let place = (if exponent == 0 {
                1074
            } else {
                1075 - exponent
            }) as nat;
            let one = vstd::arithmetic::power2::pow2(place);
            let exact = digits * expected;
            let (product, k) = r;
            let unit = vstd::arithmetic::power2::pow2(k);
            &&& exact < 0x20_0000_0000_0000 * unit
            &&& k == 0 || 0x10_0000_0000_0000 * unit <= exact
            &&& product % unit == 0
            &&& -unit <= 2 * (product - exact) <= unit
            &&& 2 * (product - exact) == unit || 2 * (product - exact) == -unit ==> (product
                / unit) % 2 == 0
            &&& (t - 1) * one < product <= t * one
        }),
{
    let bits = (exponent * 0x10_0000_0000_0000 + mantissa) as u64;
    assert(exponent * 0x10_0000_0000_0000 + mantissa < 0x3FF0_0000_0000_0000);
    assert(bits / MANTISSAS == exponent && bits % MANTISSAS == mantissa);
    let digits = significand(bits);
    let exact = digits * expected as nat;
    let k = lemma_spacing_is_a_power(exact);
    let unit = spacing(exact);
    let product = nearest_double(exact);
    let below = exact / unit;
    let rest = exact % unit;
    lemma_spacing(exact);
    lemma_nearest_double(exact);
    quorum_is_the_least_share(bits, expected);
    vstd::arithmetic::div_mod::lemma_fundamental_div_mod(exact as int, unit as int);
    assert(unit * below == below * unit) by (nonlinear_arith);
    assert((below + 1) * unit == below * unit + unit) by (nonlinear_arith);
    vstd::arithmetic::div_mod::lemma_mod_multiples_basic(below as int, unit as int);
    vstd::arithmetic::div_mod::lemma_mod_multiples_basic(below as int + 1, unit as int);
    vstd::arithmetic::div_mod::lemma_div_by_multiple(below as int, unit as int);
    vstd::arithmetic::div_mod::lemma_div_by_multiple(below as int + 1, unit as int);
    if k > 0 {
        vstd::arithmetic::power2::lemma_pow2_unfold(k);
        vstd::arithmetic::power2::lemma_pow2_pos((k - 1) as nat);
    }
    if 2 * rest == unit {
        assert(product == below * unit <==> below % 2 == 0);
    }
    (product, k)
}

/// A range holds the shards from its begin up to, but not with, its end.
pub proof fn a_range_holds_begin_up_to_end(range: ShardRange, shard: u32)
    ensures
        range.shards().contains(shard) <==> range.begin <= shard < range.end,
        range.ordered() <==> range.begin <= range.end,
{
}

/// A range that is refused is told with both of its ends.
pub proof fn refused_ranges_are_told(begin: u32, end: u32)
    ensures
        range_order_message(begin, end) == "shard range begin ("@ + text::decimal(begin as nat)
            + ") must be <= end ("@ + text::decimal(end as nat) + ")"@,
{
}

} // verus!
