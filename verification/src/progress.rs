//! Progress figures: percentage, time left, transfer rate and size labels.
//!
//! Numbers only; the UI layer turns them into sentences.
use crate::text::{dec, digit_char, push_char, push_dec, push_str};
use vstd::prelude::*;

verus! {

/// A stage of the job, listed on the progress screen.
#[derive(Debug, Clone, Copy, PartialEq, Eq, Structural)]
pub enum Stage {
    /// Looking up the latest release.
    Resolving,
    Downloading,
    Extracting,
    /// Reading the source stick's partition table (cloning).
    Analyzing,
    /// Locking the stick and clearing its layout.
    Preparing,
    Writing,
    /// Optional read-back check.
    Verifying,
    /// Flushing and releasing the device.
    Finishing,
}

/// One snapshot of progress.
#[derive(Debug, Clone, PartialEq)]
pub struct Progress {
    pub stage: Stage,
    /// 0..=100, or None when the total is unknown.
    pub percent: Option<u8>,
    pub done_bytes: u64,
    pub total_bytes: Option<u64>,
    pub bytes_per_sec: Option<u64>,
    pub eta_secs: Option<u64>,
}

pub open spec fn percent_spec(done: u64, total: Option<u64>) -> Option<u8> {
    match total {
        None => None,
        Some(t) => if t == 0 {
            None
        } else {
            let p = (done as nat) * 100 / (t as nat);
            Some(if p > 100 { 100u8 } else { p as u8 })
        },
    }
}

/// Whole-number percentage clamped to 0..=100; None when the total is missing or 0.
///
/// The product is taken in 128 bits, so huge totals cannot overflow it.
pub fn percent(done: u64, total: Option<u64>) -> (r: Option<u8>)
    ensures
        r == percent_spec(done, total),
{
    let total = match total {
        Some(t) => t,
        None => return None,
    };
    if total == 0 {
        return None;
    }
    let p: u128 = (done as u128) * 100 / (total as u128);
    let p = if p > 100 { 100 } else { p };
    Some(p as u8)
}

/// The percentage shown never passes 100, and never goes down while the
/// total stays the same and more is done.
pub proof fn law_percent_is_bounded_and_monotone(a: u64, b: u64, total: Option<u64>)
    requires
        a <= b,
    ensures
        percent_spec(a, total) matches Some(p) ==> p <= 100,
        percent_spec(a, total) is Some <==> percent_spec(b, total) is Some,
        percent_spec(a, total) matches Some(p) ==> p <= percent_spec(b, total)->Some_0,
{
    if let Some(t) = total {
        if t > 0 {
            vstd::arithmetic::div_mod::lemma_div_is_ordered(
                (a as nat * 100) as int,
                (b as nat * 100) as int,
                t as int,
            );
        }
    }
}

pub open spec fn eta_spec(done: u64, total: Option<u64>, rate: Option<u64>) -> Option<u64> {
    match (total, rate) {
        (Some(t), Some(r)) => if r == 0 {
            None
        } else {
            Some((if t >= done { (t - done) as u64 } else { 0u64 }) / r)
        },
        _ => None,
    }
}

/// Seconds left: what remains divided by the rate. None when either is unknown
/// or the rate is 0; 0 once `done` has reached the total.
pub fn eta_secs(done: u64, total: Option<u64>, bytes_per_sec: Option<u64>) -> (r: Option<u64>)
    ensures
        r == eta_spec(done, total, bytes_per_sec),
{
    let total = match total {
        Some(t) => t,
        None => return None,
    };
    let rate = match bytes_per_sec {
        Some(r) => r,
        None => return None,
    };
    if rate == 0 {
        return None;
    }
    Some(total.saturating_sub(done) / rate)
}

/// Smoothed transfer rate (an exponential moving average, weight 3/10 on the
/// newest sample). Time is counted in microseconds.
#[derive(Debug, Clone)]
pub struct RateEstimator {
    smoothed: Option<u64>,
}

pub open spec fn ema(prev: Option<u64>, instant: u64) -> u64 {
    match prev {
        None => instant,
        Some(p) => ((3 * (instant as nat) + 7 * (p as nat)) / 10) as u64,
    }
}

pub open spec fn instant_rate(bytes: u64, micros: u64) -> u64 {
    let r = (bytes as nat) * 1_000_000 / (micros as nat);
    if r > u64::MAX { u64::MAX } else { r as u64 }
}

impl RateEstimator {
    pub closed spec fn current_spec(&self) -> Option<u64> {
        self.smoothed
    }

    pub fn new() -> (r: Self)
        ensures
            r.current_spec() is None,
    {
        RateEstimator { smoothed: None }
    }

    /// Takes one sample and returns the estimate. A sample over zero time is
    /// ignored: it cannot be divided and timer resolution does produce it.
    pub fn sample(&mut self, bytes: u64, elapsed_micros: u64) -> (r: Option<u64>)
        ensures
            elapsed_micros == 0 ==> final(self).current_spec() == old(self).current_spec(),
            elapsed_micros > 0 ==> final(self).current_spec() == Some(
                ema(old(self).current_spec(), instant_rate(bytes, elapsed_micros)),
            ),
            r == final(self).current_spec(),
    {
        if elapsed_micros == 0 {
            return self.smoothed;
        }
        let wide: u128 = (bytes as u128) * 1_000_000 / (elapsed_micros as u128);
        let instant: u64 = if wide > u64::MAX as u128 {
            u64::MAX
        } else {
            wide as u64
        };
        let next = match self.smoothed {
            None => instant,
            Some(prev) => {
                let v: u128 = (3 * (instant as u128) + 7 * (prev as u128)) / 10;
                v as u64
            },
        };
        self.smoothed = Some(next);
        self.smoothed
    }

    pub fn current(&self) -> (r: Option<u64>)
        ensures
            r == self.current_spec(),
    {
        self.smoothed
    }
}

impl Default for RateEstimator {
    fn default() -> (r: Self)
        ensures
            r.current_spec() is None,
    {
        Self::new()
    }
}

/// 2 to the `k`.
pub open spec fn p2(k: nat) -> nat
    decreases k,
{
    if k == 0 {
        1
    } else {
        2 * p2((k - 1) as nat)
    }
}

/// Where a double's 53-bit significand starts: 2^52.
pub open spec fn lo53() -> nat {
    4503599627370496
}

/// One past a double's largest significand: 2^53.
pub open spec fn hi53() -> nat {
    9007199254740992
}

pub open spec fn unit_name(i: nat) -> Seq<char> {
    if i == 0 {
        "B"@
    } else if i == 1 {
        "KB"@
    } else if i == 2 {
        "MB"@
    } else if i == 3 {
        "GB"@
    } else {
        "TB"@
    }
}

pub open spec fn pow10(k: nat) -> nat {
    if k == 0 {
        1
    } else if k == 1 {
        10
    } else {
        100
    }
}

/// `n / m` rounded to the nearest integer, ties to even.
pub open spec fn round_half_even(n: nat, m: nat) -> nat {
    let q = n / m;
    let r = n % m;
    if 2 * r > m || (2 * r == m && q % 2 == 1) {
        q + 1
    } else {
        q
    }
}

pub open spec fn frac_text(f: nat, w: nat) -> Seq<char> {
    if w == 0 {
        Seq::empty()
    } else if w == 1 {
        seq!['.', digit_char(f)]
    } else {
        seq!['.', digit_char(f / 10), digit_char(f % 10)]
    }
}

// A double of at least 1 is held as a significand `m` and an exponent `e`:
// the value `m * 2^e`, with `2^52 <= m < 2^53`. The label is computed as
// with `f64`: the byte count rounded to a double, divided by 1000 with
// rounding to nearest (ties to even) at each step, and printed rounded to
// nearest, ties to even.

/// A significand that rounding carried to 2^53 moves to the next binade.
pub open spec fn carry(m: nat, e: int) -> (nat, int) {
    if m == hi53() {
        (lo53(), e + 1)
    } else {
        (m, e)
    }
}

/// `m * 2^e` with `m` doubled until it fills 53 bits.
pub open spec fn lifted(m: nat, e: int) -> (nat, int)
    decreases hi53() - m,
{
    if m == 0 || m >= lo53() {
        (m, e)
    } else {
        lifted(2 * m, e - 1)
    }
}

/// The least `k` from `k0` on with `b < 2^(53 + k)`.
pub open spec fn excess_bits(b: nat, k: nat) -> nat
    decreases 64 - k,
{
    if k < 64 && b >= hi53() * p2(k) {
        excess_bits(b, k + 1)
    } else {
        k
    }
}

/// `b as f64`, for `b >= 1`.
pub open spec fn to_double(b: nat) -> (nat, int) {
    if b < hi53() {
        lifted(b, 0)
    } else {
        let k = excess_bits(b, 0);
        carry(round_half_even(b, p2(k)), k as int)
    }
}

/// `m * 2^e / 1000.0` as `f64` division gives it.
pub open spec fn div1000(m: nat, e: int) -> (nat, int) {
    if m * 1024 < 1000 * hi53() {
        carry(round_half_even(m * 1024, 1000), e - 10)
    } else {
        carry(round_half_even(m * 512, 1000), e - 9)
    }
}

/// Whether `m * 2^e >= c`.
pub open spec fn at_least(m: nat, e: int, c: nat) -> bool {
    if e >= 0 {
        m * p2(e as nat) >= c
    } else {
        m >= c * p2((-e) as nat)
    }
}

/// The value divided by 1000 while it is at least 1000, up to TB, with the
/// unit index reached.
pub open spec fn scaled(m: nat, e: int, i: nat) -> (nat, int, nat)
    decreases 4 - i,
{
    if i < 4 && at_least(m, e, 1000) {
        let d = div1000(m, e);
        scaled(d.0, d.1, i + 1)
    } else {
        (m, e, i)
    }
}

/// Fraction digits shown: none from 100 up, one from 10 up, two below.
pub open spec fn frac_width(m: nat, e: int) -> nat {
    if at_least(m, e, 100) {
        0
    } else if at_least(m, e, 10) {
        1
    } else {
        2
    }
}

/// `m * 2^e * 10^w`, rounded to the nearest integer, ties to even.
pub open spec fn shown(m: nat, e: int, w: nat) -> nat {
    if e >= 0 {
        m * pow10(w) * p2(e as nat)
    } else {
        round_half_even(m * pow10(w), p2((-e) as nat))
    }
}

/// The label `format_bytes` produces: decimal units, three significant digits.
pub open spec fn format_bytes_spec(bytes: u64) -> Seq<char> {
    let b = bytes as nat;
    if b < 1000 {
        dec(b) + " B"@
    } else {
        let d = to_double(b);
        let v = scaled(d.0, d.1, 0);
        let w = frac_width(v.0, v.1);
        let q = shown(v.0, v.1, w);
        dec(q / pow10(w)) + frac_text(q % pow10(w), w) + " "@ + unit_name(v.2)
    }
}

proof fn lemma_p2_facts(a: nat, b: nat)
    ensures
        p2(a) >= 1,
        a <= b ==> p2(a) <= p2(b),
        p2(a + 1) == 2 * p2(a),
    decreases b,
{
    lemma_p2_pos(a);
    if b > 0 && a <= b && a != b {
        lemma_p2_facts(a, (b - 1) as nat);
        lemma_p2_pos((b - 1) as nat);
    }
}

proof fn lemma_p2_pos(a: nat)
    ensures
        p2(a) >= 1,
    decreases a,
{
    if a > 0 {
        lemma_p2_pos((a - 1) as nat);
    }
}

proof fn lemma_p2_add(a: nat, b: nat)
    ensures
        p2(a + b) == p2(a) * p2(b),
    decreases b,
{
    if b > 0 {
        let c: nat = (b - 1) as nat;
        lemma_p2_add(a, c);
        let x = p2(a);
        let y = p2(c);
        assert(p2(b) == 2 * y);
        assert(p2(a + c) == x * y);
        assert(a + b == (a + c) + 1);
        assert(p2(a + b) == 2 * p2(a + c));
        assert(2 * (x * y) == x * (2 * y)) by (nonlinear_arith);
        assert(x * p2(b) == x * (2 * y));
        assert(p2(a + b) == x * p2(b));
    } else {
        assert(p2(0) == 1);
        assert(a + b == a);
        assert(p2(a) * 1 == p2(a));
    }
}

/// The powers of two the label needs.
proof fn lemma_p2_values()
    ensures
        p2(11) == 2048,
        p2(12) == 4096,
        p2(42) == 0x400_0000_0000,
        p2(52) == lo53(),
        p2(53) == hi53(),
        p2(100) == 0x10_0000_0000_0000_0000_0000_0000,
        p2(121) == 0x200_0000_0000_0000_0000_0000_0000_0000,
{
    reveal_with_fuel(p2, 13);
    assert(p2(10) == 1024);
    assert(p2(11) == 2048);
    assert(p2(12) == 4096);
    assert(p2(2) == 4);
    assert(p2(1) == 2);
    lemma_p2_add(10, 10);
    assert(p2(20) == 0x10_0000);
    lemma_p2_add(20, 20);
    assert(p2(40) == 0x100_0000_0000);
    lemma_p2_add(40, 2);
    assert(p2(42) == 0x400_0000_0000);
    lemma_p2_add(40, 12);
    assert(p2(52) == 0x10_0000_0000_0000);
    lemma_p2_add(52, 1);
    assert(p2(53) == 0x20_0000_0000_0000);
    lemma_p2_add(40, 40);
    assert(p2(80) == 0x1_0000_0000_0000_0000_0000);
    lemma_p2_add(80, 20);
    assert(p2(100) == 0x10_0000_0000_0000_0000_0000_0000);
    lemma_p2_add(100, 20);
    assert(p2(120) == 0x100_0000_0000_0000_0000_0000_0000_0000);
    lemma_p2_add(120, 1);
}

/// `n / d` rounded stays at or below `t` when `n < d * t`.
proof fn lemma_round_below(n: nat, d: nat, t: nat)
    requires
        d > 1,
        n < d * t,
    ensures
        round_half_even(n, d) <= t,
{
    vstd::arithmetic::div_mod::lemma_multiply_divide_lt(n as int, d as int, t as int);
}

/// And at or above `t` when `n >= d * t`.
proof fn lemma_round_above(n: nat, d: nat, t: nat)
    requires
        d > 1,
        n >= d * t,
    ensures
        round_half_even(n, d) >= t,
{
    vstd::arithmetic::div_mod::lemma_div_is_ordered((d * t) as int, n as int, d as int);
    vstd::arithmetic::div_mod::lemma_div_multiples_vanish(t as int, d as int);
}

/// 2^k as a `u128`.
fn pow2_of(k: u64) -> (r: u128)
    requires
        k <= 120,
    ensures
        r == p2(k as nat),
{
    proof {
        lemma_p2_values();
    }
    let mut r: u128 = 1;
    let mut j: u64 = 0;
    while j < k
        invariant
            j <= k <= 120,
            r == p2(j as nat),
            p2(121) == 0x200_0000_0000_0000_0000_0000_0000_0000,
        decreases k - j,
    {
        proof {
            lemma_p2_facts((j + 1) as nat, 121);
        }
        r = r * 2;
        j += 1;
    }
    r
}

/// `n / d` rounded to the nearest integer, ties to even.
fn round_even(n: u128, d: u128) -> (r: u128)
    requires
        d > 0,
    ensures
        r == round_half_even(n as nat, d as nat),
{
    let q = n / d;
    let rem = n % d;
    proof {
        assert(q <= n) by (nonlinear_arith)
            requires
                q == n / d,
                d > 0,
        ;
        assert(q * d <= n) by (nonlinear_arith)
            requires
                q == n / d,
                d > 0,
        ;
    }
    if rem > d - rem || (rem == d - rem && q % 2 == 1) {
        proof {
            if q == n {
                assert(d == 1 || n == 0) by (nonlinear_arith)
                    requires
                        q == n / d,
                        q == n,
                        d > 0,
                ;
            }
        }
        q + 1
    } else {
        q
    }
}

fn unit_label(i: usize) -> (r: &'static str)
    requires
        i <= 4,
    ensures
        r@ == unit_name(i as nat),
{
    if i == 0 {
        "B"
    } else if i == 1 {
        "KB"
    } else if i == 2 {
        "MB"
    } else if i == 3 {
        "GB"
    } else {
        "TB"
    }
}

fn digit(d: u64) -> (c: char)
    requires
        d < 10,
    ensures
        c == digit_char(d as nat),
{
    let b: u8 = d as u8;
    (48u8 + b) as char
}

/// Whether `m * 2^e >= c`.
fn at_least_exec(m: u128, e: i64, c: u128) -> (r: bool)
    requires
        m < 0x20_0000_0000_0000,
        -100 <= e <= 12,
        c <= 1000,
    ensures
        r == at_least(m as nat, e as int, c as nat),
{
    proof {
        lemma_p2_values();
    }
    if e >= 0 {
        let p = pow2_of(e as u64);
        proof {
            lemma_p2_facts(e as nat, 12);
            assert(m * p <= 0x20_0000_0000_0000 * 4096) by (nonlinear_arith)
                requires
                    m < 0x20_0000_0000_0000,
                    p <= 4096,
            ;
        }
        m * p >= c
    } else {
        let p = pow2_of((-e) as u64);
        proof {
            lemma_p2_facts((-e) as nat, 100);
            assert(c * p <= 1000 * 0x10_0000_0000_0000_0000_0000_0000) by (nonlinear_arith)
                requires
                    c <= 1000,
                    p <= 0x10_0000_0000_0000_0000_0000_0000,
            ;
        }
        m >= c * p
    }
}

/// Human-readable size in decimal units, as storage vendors print them on the
/// stick: "999 B", "1.00 KB", "30.8 GB", "606 MB".
///
/// Computed as with `f64`: the count rounded to a double, divided by 1000 at
/// each step with rounding, and printed rounded to nearest, ties to even.
pub fn format_bytes(bytes: u64) -> (s: String)
    ensures
        s@ == format_bytes_spec(bytes),
{
    let mut s = String::new();
    if bytes < 1000 {
        push_dec(&mut s, bytes);
        push_str(&mut s, " B");
        return s;
    }
    proof {
        lemma_p2_values();
        lemma_p2_values();
    }
    let lo: u128 = 0x10_0000_0000_0000;
    let hi: u128 = 0x20_0000_0000_0000;
    // The count as a double.
    let mut m: u128;
    let mut e: i64;
    if (bytes as u128) < hi {
        m = bytes as u128;
        e = 0;
        proof {
            assert(p2(0) == 1);
            assert((bytes as nat) * p2(0) == bytes as nat) by (nonlinear_arith)
                requires
                    p2(0) == 1,
            ;
        }
        while m < lo
            invariant
                1000 <= bytes,
                1000 <= m < hi,
                -52 <= e <= 0,
                m == (bytes as nat) * p2((-e) as nat),
                lifted(m as nat, e as int) == to_double(bytes as nat),
                lo == lo53(),
                hi == hi53(),
            decreases hi - m,
        {
            proof {
                lemma_p2_values();
                lemma_p2_facts((-e) as nat, 52);
                if -e >= 43 {
                    lemma_p2_facts(42, 0);
                    lemma_p2_facts(43, (-e) as nat);
                    assert((bytes as nat) * p2((-e) as nat) >= 1000 * 0x800_0000_0000) by (nonlinear_arith)
                        requires
                            bytes >= 1000,
                            p2((-e) as nat) >= 0x800_0000_0000,
                    ;
                }
                lemma_p2_facts((-e) as nat, 0);
                assert((bytes as nat) * p2((-e + 1) as nat) == 2 * ((bytes as nat) * p2((-e) as nat))) by (nonlinear_arith)
                    requires
                        p2((-e + 1) as nat) == 2 * p2((-e) as nat),
                ;
            }
            m = m * 2;
            e = e - 1;
        }
    } else {
        let mut k: u64 = 0;
        let mut d: u128 = 1;
        while k < 64 && (bytes as u128) >= hi * d
            invariant
                k <= 64,
                d == p2(k as nat),
                hi == hi53(),
                (bytes as nat) >= hi53() * p2((k - 1) as nat) || k == 0,
                excess_bits(bytes as nat, k as nat) == excess_bits(bytes as nat, 0),
                k <= 11,
            decreases 64 - k,
        {
            proof {
                lemma_p2_values();
                lemma_p2_facts(k as nat, 0);
                if k >= 11 {
                    lemma_p2_facts(11, k as nat);
                    assert(hi53() * p2(k as nat) >= hi53() * 2048) by (nonlinear_arith)
                        requires
                            p2(k as nat) >= 2048,
                    ;
                }
            }
            d = d * 2;
            k += 1;
        }
        proof {
            assert(excess_bits(bytes as nat, k as nat) == k);
            lemma_p2_facts(k as nat, 0);
            if k > 0 {
                lemma_p2_facts((k - 1) as nat, 0);
            }
            lemma_round_below(bytes as nat, d as nat, hi53());
            lemma_round_above(bytes as nat, d as nat, lo53());
        }
        m = round_even(bytes as u128, d);
        e = k as i64;
        if m == hi {
            m = lo;
            e = e + 1;
        }
    }
    let ghost d0 = to_double(bytes as nat);
    assert(d0 == (m as nat, e as int));
    proof {
        // The count is at least 1000, so it is divided at least once.
        if e < 0 {
            assert(at_least(m as nat, e as int, 1000)) by {
                assert((bytes as nat) * p2((-e) as nat) >= 1000 * p2((-e) as nat)) by (nonlinear_arith)
                    requires
                        bytes >= 1000,
                ;
            }
        } else {
            lemma_p2_facts(e as nat, 0);
            assert(m * p2(e as nat) >= m) by (nonlinear_arith)
                requires
                    p2(e as nat) >= 1,
            ;
        }
    }
    // Divided by 1000 while at least 1000, up to TB.
    let mut i: usize = 0;
    while i < 4 && at_least_exec(m, e, 1000)
        invariant
            i <= 4,
            lo <= m < hi,
            lo == lo53(),
            hi == hi53(),
            -52 - 10 * (i as int) <= e <= 12 - 8 * (i as int),
            i == 0 ==> at_least(m as nat, e as int, 1000),
            scaled(m as nat, e as int, i as nat) == scaled(d0.0, d0.1, 0),
        decreases 4 - i,
    {
        if m * 1024 < 1000 * hi {
            proof {
                lemma_round_below((m * 1024) as nat, 1000, hi53());
                lemma_round_above((m * 1024) as nat, 1000, lo53());
            }
            m = round_even(m * 1024, 1000);
            e = e - 10;
        } else {
            proof {
                lemma_round_below((m * 512) as nat, 1000, hi53());
                lemma_round_above((m * 512) as nat, 1000, lo53());
            }
            m = round_even(m * 512, 1000);
            e = e - 9;
        }
        if m == hi {
            m = lo;
            e = e + 1;
        }
        i += 1;
    }
    proof {
        assert(scaled(m as nat, e as int, i as nat) == (m as nat, e as int, i as nat));
        assert(scaled(d0.0, d0.1, 0) == (m as nat, e as int, i as nat));
    }
    let w: u64 = if at_least_exec(m, e, 100) {
        0
    } else if at_least_exec(m, e, 10) {
        1
    } else {
        2
    };
    let scale: u128 = if w == 0 {
        1
    } else if w == 1 {
        10
    } else {
        100
    };
    let q: u128 = if e >= 0 {
        let p = pow2_of(e as u64);
        proof {
            lemma_p2_facts(e as nat, 12);
            assert(m * scale * p <= 0x20_0000_0000_0000 * 100 * 4096) by (nonlinear_arith)
                requires
                    m < 0x20_0000_0000_0000,
                    scale <= 100,
                    p <= 4096,
            ;
        }
        m * scale * p
    } else {
        let p = pow2_of((-e) as u64);
        proof {
            lemma_p2_facts((-e) as nat, 0);
        }
        round_even(m * scale, p)
    };
    let whole: u128 = q / scale;
    let frac: u128 = q % scale;
    proof {
        assert(q == shown(m as nat, e as int, w as nat));
        assert(whole <= q) by (nonlinear_arith)
            requires
                whole == q / scale,
                scale >= 1,
        ;
        assert(i >= 1);
        assert(whole <= u64::MAX) by {
            if e < 0 {
                assert(q <= m * scale) by (nonlinear_arith)
                    requires
                        q == round_half_even((m * scale) as nat, p2((-e) as nat)),
                        p2((-e) as nat) >= 1,
                ;
                assert(whole <= m) by (nonlinear_arith)
                    requires
                        whole == q / scale,
                        q <= m * scale,
                        scale >= 1,
                ;
            } else {
                lemma_p2_facts(e as nat, 4);
                lemma_p2_values();
                assert(p2(4) == 16) by {
                    reveal_with_fuel(p2, 5);
                }
                assert(whole == m * p2(e as nat)) by (nonlinear_arith)
                    requires
                        whole == q / scale,
                        q == m * scale * p2(e as nat),
                        scale >= 1,
                ;
                assert(m * p2(e as nat) <= 0x20_0000_0000_0000 * 16) by (nonlinear_arith)
                    requires
                        m < 0x20_0000_0000_0000,
                        p2(e as nat) <= 16,
                ;
            }
        }
    }
    push_dec(&mut s, whole as u64);
    if w == 1 {
        push_char(&mut s, '.');
        push_char(&mut s, digit(frac as u64));
    } else if w == 2 {
        push_char(&mut s, '.');
        push_char(&mut s, digit((frac / 10) as u64));
        push_char(&mut s, digit((frac % 10) as u64));
    }
    push_str(&mut s, " ");
    push_str(&mut s, unit_label(i));
    proof {
        assert(w as nat == frac_width(m as nat, e as int));
        assert(scale as nat == pow10(w as nat));
        assert(whole as nat == (q as nat) / pow10(w as nat));
        assert(frac as nat == (q as nat) % pow10(w as nat));
        assert(q as nat == shown(m as nat, e as int, w as nat));
        assert(format_bytes_spec(bytes) == dec(whole as nat) + frac_text(frac as nat, w as nat) + " "@
            + unit_name(i as nat));
        assert(s@ =~= format_bytes_spec(bytes));
    }
    s
}

} // verus!
