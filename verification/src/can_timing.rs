//! Bit timing of the FlexCAN controller: the search for a prescaler that
//! approximates a requested bitrate, and the CTRL1 value that programs it.

use vstd::prelude::*;
use crate::can_types::Clock;

verus! {

/// The number of time quanta per bit when the clock is divided by `divisor + 1`.
pub open spec fn quanta(clock: nat, baud: nat, divisor: nat) -> nat {
    clock / baud / (divisor + 1)
}

/// The distance between two integers.
pub open spec fn distance(a: int, b: int) -> nat {
    if a >= b { (a - b) as nat } else { (b - a) as nat }
}

/// The bitrate error of the undivided clock, which the search starts from.
pub open spec fn initial_error(clock: nat, baud: nat) -> nat {
    let q = quanta(clock, baud, 0);
    distance(baud as int, (clock / (if q >= 1 { q } else { 1 })) as int)
}

/// The bitrate error of dividing the clock by `divisor + 1`.
pub open spec fn divisor_error(clock: nat, baud: nat, divisor: nat) -> nat {
    distance(baud as int, (clock / (quanta(clock, baud, divisor) * (divisor + 1))) as int)
}

/// A bit of 5 to 25 time quanta can be programmed.
pub open spec fn usable_quanta(q: nat) -> bool {
    5 <= q <= 25
}

/// The clock divisor `divisor + 1` fits the 8-bit PRESDIV field of CTRL1.
pub open spec fn usable_divisor(divisor: nat) -> bool {
    divisor <= 255
}

/// Among equally good divisors, one giving 12 to 18 quanta is preferred.
pub open spec fn preferred_quanta(q: nat) -> bool {
    12 <= q <= 18
}

/// The best `(divisor, error)` after considering the divisors `1..=n`, starting
/// from divisor 0 with its initial error: a later divisor that fits PRESDIV and
/// gives a usable quanta count replaces the best one when its error is
/// smaller, or equal with a preferred quanta count.
pub open spec fn best_divisor_upto(clock: nat, baud: nat, n: nat) -> (nat, nat)
    decreases n,
{
    if n == 0 {
        (0, initial_error(clock, baud))
    } else {
        let prev = best_divisor_upto(clock, baud, (n - 1) as nat);
        let q = quanta(clock, baud, n);
        let e = divisor_error(clock, baud, n);
        if usable_divisor(n) && usable_quanta(q) && (e < prev.1 || (e == prev.1 && preferred_quanta(q))) {
            (n, e)
        } else {
            prev
        }
    }
}

/// `n` is the first divisor at which a bit has at most 5 quanta: the search
/// considers the divisors up to and including `n`.
pub open spec fn search_end(clock: nat, baud: nat, n: nat) -> bool {
    &&& quanta(clock, baud, n) <= 5
    &&& forall|d: nat| d < n ==> quanta(clock, baud, d) > 5
}

/// The outcome of the search that ends at `n`: the chosen divisor and its quanta
/// count, when they are usable and the bitrate error is at most 300.
pub open spec fn timing_outcome(clock: nat, baud: nat, n: nat) -> Option<(u32, u32)> {
    let best = best_divisor_upto(clock, baud, n);
    let q = quanta(clock, baud, best.0);
    if usable_quanta(q) && best.1 <= 300 {
        Some((best.0 as u32, q as u32))
    } else {
        None
    }
}

/// The search end is unique, so the outcome of the search is determined.
pub proof fn lemma_search_end_unique(clock: nat, baud: nat, n1: nat, n2: nat)
    requires
        search_end(clock, baud, n1),
        search_end(clock, baud, n2),
    ensures
        n1 == n2,
{
    if n1 < n2 {
        assert(quanta(clock, baud, n1) > 5);
    } else if n2 < n1 {
        assert(quanta(clock, baud, n2) > 5);
    }
}

/// The error the search keeps with its best divisor is that divisor's own
/// bitrate error, whenever the divisor gives at least one quantum.
proof fn lemma_best_is_scored(clock: nat, baud: nat, n: nat)
    ensures
        best_divisor_upto(clock, baud, n).0 <= n,
        usable_divisor(best_divisor_upto(clock, baud, n).0),
        quanta(clock, baud, best_divisor_upto(clock, baud, n).0) >= 1 ==> best_divisor_upto(clock, baud, n).1
            == divisor_error(clock, baud, best_divisor_upto(clock, baud, n).0),
    decreases n,
{
    if n > 0 {
        lemma_best_is_scored(clock, baud, (n - 1) as nat);
    } else {
        let q = quanta(clock, baud, 0);
        assert(q * 1 == q) by (nonlinear_arith);
        assert(divisor_error(clock, baud, 0) == distance(baud as int, (clock / q) as int));
    }
}

/// Once the search has met a divisor that fits PRESDIV and splits the bit
/// exactly into 12 to 18 quanta, the divisor it keeps has no bitrate error and
/// a usable quanta count.
proof fn lemma_exact_split_kept(clock: nat, baud: nat, d: nat, k: nat)
    requires
        d <= k,
        d <= 255,
        12 <= quanta(clock, baud, d) <= 18,
        divisor_error(clock, baud, d) == 0,
    ensures
        best_divisor_upto(clock, baud, k).1 == 0,
        5 <= quanta(clock, baud, best_divisor_upto(clock, baud, k).0) <= 25,
    decreases k,
{
    if k == d {
        if d == 0 {
            lemma_best_is_scored(clock, baud, 0);
        }
    } else {
        lemma_exact_split_kept(clock, baud, d, (k - 1) as nat);
    }
}

/// A bitrate that some divisor fitting PRESDIV splits exactly into 12 to 18
/// quanta is always found: the search returns a timing with no bitrate error.
pub proof fn lemma_exact_split_is_found(clock: nat, baud: nat, n: nat, d: nat)
    requires
        clock <= u32::MAX,
        baud > 0,
        search_end(clock, baud, n),
        d <= 255,
        12 <= quanta(clock, baud, d) <= 18,
        distance(baud as int, (clock / (quanta(clock, baud, d) * (d + 1))) as int) == 0,
    ensures
        timing_outcome(clock, baud, n) matches Some((dv, q))
            && 5 <= q <= 25
            && distance(baud as int, (clock / (q as nat * (dv as nat + 1))) as int) == 0,
{
    if d > n {
        vstd::arithmetic::div_mod::lemma_div_is_ordered_by_denominator((clock / baud) as int, (n + 1) as int, (d + 1) as int);
    }
    lemma_exact_split_kept(clock, baud, d, n);
    lemma_best_is_scored(clock, baud, n);
    let best = best_divisor_upto(clock, baud, n);
    assert(best.0 as u32 as nat == best.0);
    let q = quanta(clock, baud, best.0);
    assert(q as u32 as nat == q);
}

/// `(PROPSEG, PSEG1, PSEG2)` for a bit of `q` quanta, for `q` in `5..=25`.
pub open spec fn segment_table() -> Seq<(u32, u32, u32)> {
    seq![
        (0, 0, 1), (1, 0, 1), (1, 1, 1), (2, 1, 1), (2, 2, 1), (2, 3, 1), (2, 3, 2),
        (2, 4, 2), (2, 5, 2), (2, 5, 3), (2, 6, 3), (2, 7, 3), (2, 7, 4), (3, 7, 4),
        (3, 7, 5), (4, 7, 5), (4, 7, 6), (5, 7, 6), (6, 7, 6), (6, 7, 7), (7, 7, 7),
    ]
}

/// The CTRL1 value that divides the clock by `divisor + 1` and splits a bit of
/// `q` quanta into its segments, with the error interrupt masked and triple
/// sampling enabled.
pub open spec fn ctrl1_for(divisor: u32, q: u32) -> u32 {
    let seg = segment_table()[q - 5];
    seg.0 | 0x40_0000u32 | (seg.1 << 19u32) | (seg.2 << 16u32) | 0x4000u32 | (divisor << 24u32)
}

/// The clock divisor (PRESDIV + 1) that a CTRL1 value programs.
pub open spec fn ctrl1_divisor(ctrl1: u32) -> nat {
    ((ctrl1 >> 24u32) + 1) as nat
}

/// The time quanta per bit that a CTRL1 value programs: the sync segment, the
/// propagation segment and both phase segments (each field holds its length
/// minus one).
pub open spec fn ctrl1_quanta(ctrl1: u32) -> nat {
    ((ctrl1 & 7u32) + ((ctrl1 >> 19u32) & 7u32) + ((ctrl1 >> 16u32) & 7u32) + 4) as nat
}

/// Each segment of the table fits its 3-bit field, and the segments of row
/// `q - 5` add up to a bit of `q` quanta.
proof fn lemma_segment_row(q: u32)
    requires
        5 <= q <= 25,
    ensures
        ({
            let s = segment_table()[q - 5];
            s.0 <= 7 && s.1 <= 7 && s.2 <= 7 && s.0 + s.1 + s.2 + 4 == q
        }),
{
    let t = segment_table();
    assert(t.len() == 21);
    if q == 5 {
        assert(t[0] == t[q - 5]);
    } else if q == 6 {
        assert(t[1] == t[q - 5]);
    } else if q == 7 {
        assert(t[2] == t[q - 5]);
    } else if q == 8 {
        assert(t[3] == t[q - 5]);
    } else if q == 9 {
        assert(t[4] == t[q - 5]);
    } else if q == 10 {
        assert(t[5] == t[q - 5]);
    } else if q == 11 {
        assert(t[6] == t[q - 5]);
    } else if q == 12 {
        assert(t[7] == t[q - 5]);
    } else if q == 13 {
        assert(t[8] == t[q - 5]);
    } else if q == 14 {
        assert(t[9] == t[q - 5]);
    } else if q == 15 {
        assert(t[10] == t[q - 5]);
    } else if q == 16 {
        assert(t[11] == t[q - 5]);
    } else if q == 17 {
        assert(t[12] == t[q - 5]);
    } else if q == 18 {
        assert(t[13] == t[q - 5]);
    } else if q == 19 {
        assert(t[14] == t[q - 5]);
    } else if q == 20 {
        assert(t[15] == t[q - 5]);
    } else if q == 21 {
        assert(t[16] == t[q - 5]);
    } else if q == 22 {
        assert(t[17] == t[q - 5]);
    } else if q == 23 {
        assert(t[18] == t[q - 5]);
    } else if q == 24 {
        assert(t[19] == t[q - 5]);
    } else if q == 25 {
        assert(t[20] == t[q - 5]);
    }
}

/// A timing that the search settles on is what CTRL1 then programs: a divisor
/// that fits PRESDIV and 5 to 25 quanta per bit, and the bitrate of that
/// programmed value comes within 300 bit/s of the requested one.
pub proof fn lemma_programmed_rate_within_tolerance(clock: nat, baud: nat, n: nat)
    requires
        clock <= u32::MAX,
        baud > 0,
    ensures
        timing_outcome(clock, baud, n) matches Some((d, q)) ==> {
            let w = ctrl1_for(d, q);
            &&& usable_divisor(d as nat)
            &&& usable_quanta(q as nat)
            &&& q as nat == quanta(clock, baud, d as nat)
            &&& ctrl1_divisor(w) == d + 1
            &&& ctrl1_quanta(w) == q
            &&& distance(baud as int, (clock / (ctrl1_quanta(w) * ctrl1_divisor(w))) as int) <= 300
        },
{
    let best = best_divisor_upto(clock, baud, n);
    lemma_best_is_scored(clock, baud, n);
    let q = quanta(clock, baud, best.0);
    if usable_quanta(q) && best.1 <= 300 {
        let d = best.0 as u32;
        let qq = q as u32;
        assert(d as nat == best.0);
        lemma_segment_row(qq);
        let s = segment_table()[qq - 5];
        let (a, b, c) = (s.0, s.1, s.2);
        let w = ctrl1_for(d, qq);
        assert(w == a | 0x40_0000u32 | (b << 19u32) | (c << 16u32) | 0x4000u32 | (d << 24u32));
        assert((w >> 24u32) == d && (w & 7u32) == a && ((w >> 19u32) & 7u32) == b && ((w >> 16u32) & 7u32) == c)
            by (bit_vector)
            requires
                w == a | 0x40_0000u32 | (b << 19u32) | (c << 16u32) | 0x4000u32 | (d << 24u32),
                a <= 7, b <= 7, c <= 7, d <= 255,
        ;
        assert(ctrl1_quanta(w) * ctrl1_divisor(w) == q * (best.0 + 1));
    }
}

fn distance_u32(a: u32, b: u32) -> (r: u32)
    ensures
        r == distance(a as int, b as int),
{
    if a >= b { a - b } else { b - a }
}

/// Searches the clock divisor and quanta count for the requested bitrate.
///
/// The search keeps the best divisor that fits PRESDIV and gives 5 to 25
/// quanta per bit, and returns it with its quanta count when its bitrate comes
/// within 300 bit/s of `baud`; otherwise it returns `None`. The timing it
/// returns can be programmed exactly (see `lemma_programmed_rate_within_tolerance`).
pub fn baud_timing(clock: Clock, baud: u32) -> (r: Option<(u32, u32)>)
    requires
        baud > 0,
        clock.frequency() > 0,
    ensures
        exists|n: nat| #[trigger]
            search_end(clock.frequency() as nat, baud as nat, n)
                && r == timing_outcome(clock.frequency() as nat, baud as nat, n),
{
    let clock_hz = clock.hz();
    let ghost c = clock_hz as nat;
    let ghost b = baud as nat;
    let mut divisor: u32 = 0;
    let mut best_divisor: u32 = 0;
    let mut result: u32 = clock_hz / baud / (divisor + 1);
    let first = if result >= 1 { result } else { 1 };
    let mut best_error: u32 = distance_u32(baud, clock_hz / first);
    assert(clock_hz / baud <= clock_hz) by (nonlinear_arith)
        requires baud > 0;
    while result > 5
        invariant
            baud > 0,
            clock_hz == c,
            b == baud,
            c <= 80_000_000,
            result as nat == quanta(c, b, divisor as nat),
            (best_divisor as nat, best_error as nat) == best_divisor_upto(c, b, divisor as nat),
            forall|d: nat| d < divisor ==> quanta(c, b, d) > 5,
            divisor as nat <= c,
            best_divisor <= divisor,
        decreases c - divisor,
    {
        let ghost prev = divisor;
        assert((divisor as nat) + 1 < c) by (nonlinear_arith)
            requires
                c / b / (divisor as nat + 1) > 5,
                b > 0,
                c / b <= c,
        {
            let x = c / b;
            let y = divisor as nat + 1;
            assert(x / y * y <= x);
            assert(x / y >= 6);
            assert(6 * y <= x / y * y);
        }
        divisor = divisor.saturating_add(1);
        assert(divisor == prev + 1);
        result = clock_hz / baud / (divisor + 1);
        if divisor <= 255 && 5 <= result && result <= 25 {
            assert((result as nat) * (divisor as nat + 1) <= c / b) by (nonlinear_arith)
                requires
                    result as nat == c / b / (divisor as nat + 1),
                    divisor as nat + 1 > 0,
            ;
            assert(clock_hz / baud <= clock_hz) by (nonlinear_arith)
                requires baud > 0;
            assert((result as nat) * (divisor as nat + 1) >= 5) by (nonlinear_arith)
                requires
                    result >= 5,
                    divisor as nat + 1 >= 1,
            ;
            let error = distance_u32(baud, clock_hz / (result * (divisor + 1)));
            if error < best_error || (error == best_error && 12 <= result && result <= 18) {
                best_error = error;
                best_divisor = divisor;
            }
        }
        assert(forall|d: nat| d < divisor ==> quanta(c, b, d) > 5) by {
            assert forall|d: nat| d < divisor implies quanta(c, b, d) > 5 by {
                if d < prev {
                } else {
                    assert(d == prev);
                }
            }
        }
    }
    assert(search_end(c, b, divisor as nat));
    divisor = best_divisor;
    let q = clock_hz / baud / (divisor + 1);
    if !(5 <= q && q <= 25) || best_error > 300 {
        None
    } else {
        Some((divisor, q))
    }
}

/// The CTRL1 value for a bit of `q` quanta with the clock divided by `divisor + 1`.
pub fn timing_ctrl1(divisor: u32, q: u32) -> (r: u32)
    requires
        5 <= q <= 25,
    ensures
        r == ctrl1_for(divisor, q),
{
    let timings: [(u32, u32, u32); 21] = [
        (0, 0, 1), (1, 0, 1), (1, 1, 1), (2, 1, 1), (2, 2, 1), (2, 3, 1), (2, 3, 2),
        (2, 4, 2), (2, 5, 2), (2, 5, 3), (2, 6, 3), (2, 7, 3), (2, 7, 4), (3, 7, 4),
        (3, 7, 5), (4, 7, 5), (4, 7, 6), (5, 7, 6), (6, 7, 6), (6, 7, 7), (7, 7, 7),
    ];
    assert(timings@ =~= segment_table());
    let seg = timings[(q - 5) as usize];
    assert(seg == segment_table()[q - 5]);
    let (propseg, pseg1, pseg2) = seg;
    propseg | 0x40_0000u32 | (pseg1 << 19) | (pseg2 << 16) | 0x4000u32 | (divisor << 24)
}

} // verus!
