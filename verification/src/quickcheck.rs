//! Property-based testing: a seeded generator, shrinkable value generators,
//! and a runner that shrinks a failing input before reporting it.
//!
//! Generation is driven by a seeded [`Rng`], so a failing case reports the seed
//! that reproduces it. Numeric generators are biased towards the values that
//! find bugs: zero, one and the type's bounds. Every shrink candidate is
//! strictly simpler than the value it came from, so shrinking terminates.
use vstd::prelude::*;
use crate::clock::nanos_since_epoch;
use crate::text::{chars_of, debug_text, decimal, push_char, push_u64};

verus! {

/// Default number of inputs generated per property.
pub const DEFAULT_CASES: u32 = 256;

/// Default cap on shrink steps before the smallest case found is reported.
pub const DEFAULT_SHRINK_ITERS: u32 = 1024;

/// The state a seed starts the generator in: xorshift is degenerate at zero,
/// so a zero seed is remapped.
pub open spec fn seeded(seed: u64) -> u64 {
    if seed == 0 {
        0x9E37_79B9_7F4A_7C15
    } else {
        seed
    }
}

/// One xorshift step of the generator's state.
pub open spec fn xorshift(x: u64) -> u64 {
    let a = x ^ (x >> 12u64);
    let b = a ^ (a << 25u64);
    b ^ (b >> 27u64)
}

/// The output drawn from a state (xorshift64*).
pub open spec fn scramble(x: u64) -> u64 {
    x.wrapping_mul(0x2545_F491_4F6C_DD1D)
}

/// The next state.
pub open spec fn next_state(s: u64) -> u64 {
    xorshift(s)
}

/// The value drawn when leaving state `s`.
pub open spec fn draw(s: u64) -> u64 {
    scramble(xorshift(s))
}

/// A small deterministic PRNG (xorshift64*).
#[derive(Debug, Clone)]
pub struct Rng {
    state: u64,
}

impl Rng {
    /// The generator's state.
    pub closed spec fn state(&self) -> u64 {
        self.state
    }

    /// Creates a generator from an explicit seed.
    pub fn new(seed: u64) -> (r: Self)
        ensures
            r.state() == seeded(seed),
    {
        Rng {
            state: if seed == 0 {
                0x9E37_79B9_7F4A_7C15
            } else {
                seed
            },
        }
    }

    /// Returns the next raw 64-bit value.
    pub fn next_u64(&mut self) -> (r: u64)
        ensures
            r == draw(old(self).state()),
            final(self).state() == next_state(old(self).state()),
    {
        let mut x = self.state;
        x = x ^ (x >> 12u64);
        x = x ^ (x << 25u64);
        x = x ^ (x >> 27u64);
        self.state = x;
        x.wrapping_mul(0x2545_F491_4F6C_DD1D)
    }

    /// Returns the next raw 32-bit value: the high half of the next 64-bit one.
    pub fn next_u32(&mut self) -> (r: u32)
        ensures
            r == draw(old(self).state()) / 0x1_0000_0000,
            final(self).state() == next_state(old(self).state()),
    {
        let x = self.next_u64();
        (x / 0x1_0000_0000) as u32
    }

    /// Returns a value in `0..bound`, or `0` (drawing nothing) when `bound` is
    /// zero.
    pub fn below(&mut self, bound: u64) -> (r: u64)
        ensures
            bound == 0 ==> r == 0 && final(self).state() == old(self).state(),
            bound > 0 ==> r == draw(old(self).state()) % bound && final(self).state()
                == next_state(old(self).state()),
    {
        if bound == 0 {
            0
        } else {
            self.next_u64() % bound
        }
    }

    /// Returns `true` with probability `1 / n`; always `false`, drawing
    /// nothing, when `n` is zero.
    pub fn one_in(&mut self, n: u64) -> (r: bool)
        ensures
            n == 0 ==> !r && final(self).state() == old(self).state(),
            n > 0 ==> r == (draw(old(self).state()) % n == 0) && final(self).state()
                == next_state(old(self).state()),
    {
        n > 0 && self.below(n) == 0
    }
}

/// One of `choices`, chosen by the generator.
fn pick<T: Copy>(rng: &mut Rng, choices: &[T]) -> (r: T)
    requires
        0 < choices@.len() <= u64::MAX,
    ensures
        r == choices@[(draw(old(rng).state()) as int) % (choices@.len() as int)],
        final(rng).state() == next_state(old(rng).state()),
{
    let k = rng.below(choices.len() as u64);
    choices[k as usize]
}

// ── Shrinking numbers ───────────────────────────────────────────────────────

/// `v - step / 2`, `v - step / 4`, ... down to a step of one.
pub open spec fn halving_ladder(v: int, step: int) -> Seq<int>
    decreases step,
{
    if step > 1 {
        seq![v - step / 2] + halving_ladder(v, step / 2)
    } else {
        seq![]
    }
}

/// `s` without consecutive repeats.
pub open spec fn dedup(s: Seq<int>) -> Seq<int>
    decreases s.len(),
{
    if s.len() <= 1 {
        s
    } else if s[s.len() - 2] == s.last() {
        dedup(s.drop_last())
    } else {
        dedup(s.drop_last()).push(s.last())
    }
}

/// The shrink candidates of an unsigned value: 0 and 1 first, then a halving
/// ladder towards the value, then its predecessor; only values below it, with
/// consecutive repeats dropped.
pub open spec fn unsigned_candidates(v: int) -> Seq<int> {
    if v == 0 {
        seq![]
    } else {
        dedup((seq![0, 1] + halving_ladder(v, v) + seq![v - 1]).filter(|c: int| c < v))
    }
}

/// The signed ladder towards zero: `v ∓ |v| / 2`, `v ∓ |v| / 4`, ...
pub open spec fn signed_ladder(v: int, step: int) -> Seq<int>
    decreases step,
{
    if step > 1 {
        seq![
            if v < 0 {
                v + step / 2
            } else {
                v - step / 2
            },
        ] + signed_ladder(v, step / 2)
    } else {
        seq![]
    }
}

/// The magnitude of `v`.
pub open spec fn magnitude(v: int) -> int {
    if v < 0 {
        -v
    } else {
        v
    }
}

/// The shrink candidates of a signed value of a type whose least value is
/// `min`: 0, 1 and -1, the positive counterpart of a negative value (but for
/// `min`), then a ladder towards zero; only values of smaller magnitude, with
/// consecutive repeats dropped.
pub open spec fn signed_candidates(v: int, min: int) -> Seq<int> {
    if v == 0 {
        seq![]
    } else {
        dedup(
            (seq![0, 1, -1] + (if v != min && v < 0 {
                seq![-v]
            } else {
                seq![]
            }) + signed_ladder(v, magnitude(v))).filter(|c: int| magnitude(c) < magnitude(v)),
        )
    }
}

proof fn lemma_dedup_members(s: Seq<int>)
    ensures
        forall|i: int| 0 <= i < dedup(s).len() ==> s.contains(#[trigger] dedup(s)[i]),
    decreases s.len(),
{
    if s.len() > 1 {
        lemma_dedup_members(s.drop_last());
        assert forall|i: int| 0 <= i < dedup(s).len() implies s.contains(#[trigger] dedup(s)[i]) by {
            let d = dedup(s.drop_last());
            if i < d.len() {
                assert(s.drop_last().contains(d[i]));
                let k = choose|k: int| 0 <= k < s.drop_last().len() && s.drop_last()[k] == d[i];
                assert(s[k] == d[i]);
            } else {
                assert(s[s.len() - 1] == s.last());
            }
        }
    } else {
        assert forall|i: int| 0 <= i < dedup(s).len() implies s.contains(#[trigger] dedup(s)[i]) by {
            assert(s[i] == dedup(s)[i]);
        }
    }
}

/// Every shrink candidate of an unsigned value is below it.
pub proof fn lemma_unsigned_candidates_simpler(v: int)
    ensures
        forall|i: int|
            0 <= i < unsigned_candidates(v).len() ==> #[trigger] unsigned_candidates(v)[i] < v,
{
    if v != 0 {
        let s = (seq![0, 1] + halving_ladder(v, v) + seq![v - 1]).filter(|c: int| c < v);
        lemma_dedup_members(s);
        assert forall|i: int| 0 <= i < unsigned_candidates(v).len() implies #[trigger] unsigned_candidates(v)[i] < v by {
            let x = unsigned_candidates(v)[i];
            assert(s.contains(x));
            let k = choose|k: int| 0 <= k < s.len() && s[k] == x;
            let base = seq![0, 1] + halving_ladder(v, v) + seq![v - 1];
            base.filter_lemma(|c: int| c < v);
            assert(s[k] < v);
        }
    }
}

/// Every shrink candidate of a signed value has a smaller magnitude.
pub proof fn lemma_signed_candidates_simpler(v: int, min: int)
    ensures
        forall|i: int|
            0 <= i < signed_candidates(v, min).len() ==> magnitude(
                #[trigger] signed_candidates(v, min)[i],
            ) < magnitude(v),
{
    if v != 0 {
        let base = seq![0, 1, -1] + (if v != min && v < 0 {
            seq![-v]
        } else {
            seq![]
        }) + signed_ladder(v, magnitude(v));
        let s = base.filter(|c: int| magnitude(c) < magnitude(v));
        lemma_dedup_members(s);
        assert forall|i: int| 0 <= i < signed_candidates(v, min).len() implies magnitude(
            #[trigger] signed_candidates(v, min)[i],
        ) < magnitude(v) by {
            let x = signed_candidates(v, min)[i];
            assert(s.contains(x));
            let k = choose|k: int| 0 <= k < s.len() && s[k] == x;
            base.filter_lemma(|c: int| magnitude(c) < magnitude(v));
            assert(magnitude(s[k]) < magnitude(v));
        }
    }
}

/// The unsigned values of `xs` below `v`, in order.
fn retain_below(xs: &Vec<u128>, v: u128) -> (r: Vec<u128>)
    ensures
        r@.map_values(|x: u128| x as int) == xs@.map_values(|x: u128| x as int).filter(
            |c: int| c < v,
        ),
{
    let ghost all = xs@.map_values(|x: u128| x as int);
    let mut out: Vec<u128> = Vec::new();
    let mut i: usize = 0;
    proof {
        assert(all.take(0) =~= Seq::<int>::empty());
        reveal_with_fuel(Seq::<_>::filter, 1);
        assert(out@.map_values(|x: u128| x as int) =~= all.take(0).filter(|c: int| c < v));
    }
    while i < xs.len()
        invariant
            all == xs@.map_values(|x: u128| x as int),
            i <= xs@.len(),
            out@.map_values(|x: u128| x as int) == all.take(i as int).filter(|c: int| c < v),
        decreases xs@.len() - i,
    {
        proof {
            assert(all.take(i + 1).drop_last() =~= all.take(i as int));
            reveal_with_fuel(Seq::<_>::filter, 1);
        }
        if xs[i] < v {
            out.push(xs[i]);
        }
        proof {
            assert(out@.map_values(|x: u128| x as int) =~= all.take(i + 1).filter(|c: int| c < v));
        }
        i = i + 1;
    }
    proof {
        assert(all.take(xs@.len() as int) =~= all);
    }
    out
}

/// `xs` without consecutive repeats.
fn dedup_unsigned(xs: &Vec<u128>) -> (r: Vec<u128>)
    ensures
        r@.map_values(|x: u128| x as int) == dedup(xs@.map_values(|x: u128| x as int)),
{
    let ghost all = xs@.map_values(|x: u128| x as int);
    let mut out: Vec<u128> = Vec::new();
    let mut i: usize = 0;
    proof {
        assert(all.take(0) =~= Seq::<int>::empty());
        assert(out@.map_values(|x: u128| x as int) =~= dedup(all.take(0)));
    }
    while i < xs.len()
        invariant
            all == xs@.map_values(|x: u128| x as int),
            i <= xs@.len(),
            out@.map_values(|x: u128| x as int) == dedup(all.take(i as int)),
        decreases xs@.len() - i,
    {
        let ghost t = all.take(i + 1);
        proof {
            assert(t.drop_last() =~= all.take(i as int));
        }
        if i == 0 || xs[i] != xs[i - 1] {
            out.push(xs[i]);
            proof {
                if i == 0 {
                    assert(out@.map_values(|x: u128| x as int) =~= t);
                } else {
                    assert(out@.map_values(|x: u128| x as int) =~= dedup(t));
                }
            }
        }
        i = i + 1;
    }
    proof {
        assert(all.take(xs@.len() as int) =~= all);
    }
    out
}

/// The shrink candidates of an unsigned value.
fn shrink_unsigned(v: u128) -> (r: Vec<u128>)
    ensures
        r@.map_values(|x: u128| x as int) == unsigned_candidates(v as int),
{
    if v == 0 {
        proof {
            assert(Seq::<u128>::empty().map_values(|x: u128| x as int) =~= Seq::<int>::empty());
        }
        return Vec::new();
    }
    let mut cands: Vec<u128> = Vec::new();
    cands.push(0);
    cands.push(1);
    let mut step = v;
    proof {
        assert(cands@.map_values(|x: u128| x as int) =~= seq![0int, 1]);
    }
    while step > 1
        invariant
            0 < v,
            step <= v,
            cands@.map_values(|x: u128| x as int) + halving_ladder(v as int, step as int) == seq![
                0int,
                1,
            ] + halving_ladder(v as int, v as int),
        decreases step,
    {
        let ghost before = cands@.map_values(|x: u128| x as int);
        let ghost old_step = step as int;
        step = step / 2;
        cands.push(v - step);
        proof {
            let x = (v - step) as int;
            assert(halving_ladder(v as int, old_step) == seq![v as int - old_step / 2]
                + halving_ladder(v as int, old_step / 2));
            assert(cands@.map_values(|y: u128| y as int) =~= before.push(x));
            assert(before.push(x) + halving_ladder(v as int, step as int) =~= before + (seq![x]
                + halving_ladder(v as int, step as int)));
        }
    }
    let ghost ladder = cands@.map_values(|x: u128| x as int);
    cands.push(v - 1);
    proof {
        assert(ladder =~= seq![0int, 1] + halving_ladder(v as int, v as int));
        assert(cands@.map_values(|x: u128| x as int) =~= seq![0int, 1] + halving_ladder(
            v as int,
            v as int,
        ) + seq![v - 1]);
    }
    let kept = retain_below(&cands, v);
    dedup_unsigned(&kept)
}

/// The magnitude of `x`.
fn magnitude_of(x: i128) -> (r: u128)
    ensures
        r == magnitude(x as int),
{
    if x >= 0 {
        x as u128
    } else if x == i128::MIN {
        0x8000_0000_0000_0000_0000_0000_0000_0000u128
    } else {
        (-x) as u128
    }
}

/// The signed values of `xs` of smaller magnitude than `v`, in order.
fn retain_smaller(xs: &Vec<i128>, v: i128) -> (r: Vec<i128>)
    ensures
        r@.map_values(|x: i128| x as int) == xs@.map_values(|x: i128| x as int).filter(
            |c: int| magnitude(c) < magnitude(v as int),
        ),
{
    let ghost all = xs@.map_values(|x: i128| x as int);
    let bound = magnitude_of(v);
    let mut out: Vec<i128> = Vec::new();
    let mut i: usize = 0;
    proof {
        assert(all.take(0) =~= Seq::<int>::empty());
        reveal_with_fuel(Seq::<_>::filter, 1);
        assert(out@.map_values(|x: i128| x as int) =~= all.take(0).filter(
            |c: int| magnitude(c) < magnitude(v as int),
        ));
    }
    while i < xs.len()
        invariant
            all == xs@.map_values(|x: i128| x as int),
            bound == magnitude(v as int),
            i <= xs@.len(),
            out@.map_values(|x: i128| x as int) == all.take(i as int).filter(
                |c: int| magnitude(c) < magnitude(v as int),
            ),
        decreases xs@.len() - i,
    {
        proof {
            assert(all.take(i + 1).drop_last() =~= all.take(i as int));
            reveal_with_fuel(Seq::<_>::filter, 1);
        }
        if magnitude_of(xs[i]) < bound {
            out.push(xs[i]);
        }
        proof {
            assert(out@.map_values(|x: i128| x as int) =~= all.take(i + 1).filter(
                |c: int| magnitude(c) < magnitude(v as int),
            ));
        }
        i = i + 1;
    }
    proof {
        assert(all.take(xs@.len() as int) =~= all);
    }
    out
}

/// `xs` without consecutive repeats.
fn dedup_signed(xs: &Vec<i128>) -> (r: Vec<i128>)
    ensures
        r@.map_values(|x: i128| x as int) == dedup(xs@.map_values(|x: i128| x as int)),
{
    let ghost all = xs@.map_values(|x: i128| x as int);
    let mut out: Vec<i128> = Vec::new();
    let mut i: usize = 0;
    proof {
        assert(all.take(0) =~= Seq::<int>::empty());
        assert(out@.map_values(|x: i128| x as int) =~= dedup(all.take(0)));
    }
    while i < xs.len()
        invariant
            all == xs@.map_values(|x: i128| x as int),
            i <= xs@.len(),
            out@.map_values(|x: i128| x as int) == dedup(all.take(i as int)),
        decreases xs@.len() - i,
    {
        let ghost t = all.take(i + 1);
        proof {
            assert(t.drop_last() =~= all.take(i as int));
        }
        if i == 0 || xs[i] != xs[i - 1] {
            out.push(xs[i]);
            proof {
                if i == 0 {
                    assert(out@.map_values(|x: i128| x as int) =~= t);
                } else {
                    assert(out@.map_values(|x: i128| x as int) =~= dedup(t));
                }
            }
        }
        i = i + 1;
    }
    proof {
        assert(all.take(xs@.len() as int) =~= all);
    }
    out
}

/// The shrink candidates of a signed value of a type whose least value is
/// `min`.
fn shrink_signed(v: i128, min: i128) -> (r: Vec<i128>)
    requires
        min <= v,
        min < 0,
    ensures
        r@.map_values(|x: i128| x as int) == signed_candidates(v as int, min as int),
{
    if v == 0 {
        proof {
            assert(Seq::<i128>::empty().map_values(|x: i128| x as int) =~= Seq::<int>::empty());
        }
        return Vec::new();
    }
    let mut cands: Vec<i128> = Vec::new();
    cands.push(0);
    cands.push(1);
    cands.push(-1);
    if v != min && v < 0 {
        cands.push(-v);
    }
    let ghost head = cands@.map_values(|x: i128| x as int);
    proof {
        assert(head =~= seq![0int, 1, -1] + (if v != min && v < 0 {
            seq![-(v as int)]
        } else {
            seq![]
        }));
    }
    let mut step = magnitude_of(v);
    while step > 1
        invariant
            v != 0,
            step <= magnitude(v as int),
            cands@.map_values(|x: i128| x as int) + signed_ladder(v as int, step as int) == head
                + signed_ladder(v as int, magnitude(v as int)),
        decreases step,
    {
        let ghost before = cands@.map_values(|x: i128| x as int);
        let ghost old_step = step as int;
        step = step / 2;
        let delta = step as i128;
        let c = if v < 0 {
            v + delta
        } else {
            v - delta
        };
        cands.push(c);
        proof {
            assert(signed_ladder(v as int, old_step) == seq![c as int] + signed_ladder(
                v as int,
                old_step / 2,
            ));
            assert(cands@.map_values(|y: i128| y as int) =~= before.push(c as int));
            assert(before.push(c as int) + signed_ladder(v as int, step as int) =~= before + (seq![
                c as int,
            ] + signed_ladder(v as int, step as int)));
        }
    }
    proof {
        assert(cands@.map_values(|x: i128| x as int) =~= head + signed_ladder(
            v as int,
            magnitude(v as int),
        ));
    }
    let kept = retain_smaller(&cands, v);
    dedup_signed(&kept)
}

// ── Generating numbers ──────────────────────────────────────────────────────

/// The edge values an unsigned generator favours.
pub open spec fn unsigned_edges(max: int) -> Seq<int> {
    seq![0, 1, 2, max, max - 1]
}

/// The edge values a signed generator favours.
pub open spec fn signed_edges(min: int, max: int) -> Seq<int> {
    seq![0, 1, -1, max, min, max - 1]
}

/// What an unsigned generator with largest value `max` yields from state `s`,
/// and the state it leaves: one draw in four picks an edge value, else the
/// next draw is truncated to the type.
pub open spec fn unsigned_arbitrary(s: u64, max: int) -> (int, u64) {
    let o1 = draw(s);
    let o2 = draw(next_state(s));
    let s2 = next_state(next_state(s));
    if o1 % 4 == 0 {
        (unsigned_edges(max)[(o2 as int) % 5], s2)
    } else {
        ((o2 as int) % (max + 1), s2)
    }
}

/// `x` truncated to a two's-complement type with range `min..=max`.
pub open spec fn wrapped(x: int, min: int, max: int) -> int {
    let m = x % (max - min + 1);
    if m > max {
        m - (max - min + 1)
    } else {
        m
    }
}

/// What a signed generator with range `min..=max` yields from state `s`, and
/// the state it leaves: one draw in four picks an edge value, else the next
/// draw is truncated to the type.
pub open spec fn signed_arbitrary(s: u64, min: int, max: int) -> (int, u64) {
    let o1 = draw(s);
    let o2 = draw(next_state(s));
    let s2 = next_state(next_state(s));
    if o1 % 4 == 0 {
        (signed_edges(min, max)[(o2 as int) % 6], s2)
    } else {
        (wrapped(o2 as int, min, max), s2)
    }
}

/// An edge value of an unsigned type, chosen by the generator.
fn pick_unsigned_edge(rng: &mut Rng, max: u128) -> (r: u128)
    requires
        max >= 2,
    ensures
        r as int == unsigned_edges(max as int)[(draw(old(rng).state()) as int) % 5],
        final(rng).state() == next_state(old(rng).state()),
        r <= max,
{
    let edges: Vec<u128> = vec![0, 1, 2, max, max - 1];
    let r = pick(rng, edges.as_slice());
    proof {
        let j = (draw(old(rng).state()) as int) % 5;
        assert(edges@.map_values(|x: u128| x as int) =~= unsigned_edges(max as int));
        assert(r as int == edges@.map_values(|x: u128| x as int)[j]);
    }
    r
}

/// `x` truncated to the unsigned type whose largest value is `max`.
fn truncate_unsigned(x: u64, max: u128) -> (r: u128)
    requires
        max >= 2,
    ensures
        r as int == (x as int) % (max as int + 1),
        r <= max,
{
    if max >= 0xFFFF_FFFF_FFFF_FFFF {
        proof {
            vstd::arithmetic::div_mod::lemma_small_mod(x as nat, (max + 1) as nat);
        }
        x as u128
    } else {
        (x as u128) % (max + 1)
    }
}

/// Generates an unsigned value of the type whose largest value is `max`.
fn generate_unsigned(rng: &mut Rng, max: u128) -> (r: u128)
    requires
        max >= 2,
    ensures
        r as int == unsigned_arbitrary(old(rng).state(), max as int).0,
        final(rng).state() == unsigned_arbitrary(old(rng).state(), max as int).1,
        r <= max,
{
    if rng.one_in(4) {
        pick_unsigned_edge(rng, max)
    } else {
        let x = rng.next_u64();
        truncate_unsigned(x, max)
    }
}

/// An edge value of a signed type, chosen by the generator.
fn pick_signed_edge(rng: &mut Rng, min: i128, max: i128) -> (r: i128)
    requires
        1 <= max,
        min == -max - 1,
    ensures
        r as int == signed_edges(min as int, max as int)[(draw(old(rng).state()) as int) % 6],
        final(rng).state() == next_state(old(rng).state()),
        min <= r <= max,
{
    let edges: Vec<i128> = vec![0, 1, -1, max, min, max - 1];
    let r = pick(rng, edges.as_slice());
    proof {
        let j = (draw(old(rng).state()) as int) % 6;
        assert(edges@.map_values(|x: i128| x as int) =~= signed_edges(min as int, max as int));
        assert(r as int == edges@.map_values(|x: i128| x as int)[j]);
    }
    r
}

/// `x` truncated to the two's-complement type with range `min..=max`.
fn truncate_signed(x: u64, min: i128, max: i128) -> (r: i128)
    requires
        1 <= max,
        min == -max - 1,
        max <= i64::MAX || max == i128::MAX,
    ensures
        r as int == wrapped(x as int, min as int, max as int),
        min <= r <= max,
{
    if max == i128::MAX {
        proof {
            vstd::arithmetic::div_mod::lemma_small_mod(x as nat, (max - min + 1) as nat);
        }
        x as i128
    } else {
        let modulus: u128 = (max as u128) * 2 + 2;
        let m = (x as u128) % modulus;
        proof {
            assert(modulus as int == max - min + 1);
        }
        if m > max as u128 {
            (m as i128) - (modulus as i128)
        } else {
            m as i128
        }
    }
}

/// Generates a signed value of the two's-complement type with range
/// `min..=max`.
fn generate_signed(rng: &mut Rng, min: i128, max: i128) -> (r: i128)
    requires
        1 <= max,
        min == -max - 1,
        max <= i64::MAX || max == i128::MAX,
    ensures
        r as int == signed_arbitrary(old(rng).state(), min as int, max as int).0,
        final(rng).state() == signed_arbitrary(old(rng).state(), min as int, max as int).1,
        min <= r <= max,
{
    if rng.one_in(4) {
        pick_signed_edge(rng, min, max)
    } else {
        let x = rng.next_u64();
        truncate_signed(x, min, max)
    }
}

// ── Generators ──────────────────────────────────────────────────────────────

/// A type that a property test can generate and shrink; the runner also
/// needs it to be `Clone`.
///
/// `shrink` returns progressively simpler candidates, simplest first; each must
/// be strictly simpler than `self` by some measure, so that shrinking ends.
pub trait Arbitrary: Sized + core::fmt::Debug {
    /// Whether generating from state `state` under the size budget `size`
    /// gives `value` and leaves the state `next`.
    spec fn generates(state: u64, size: u32, value: Self, next: u64) -> bool;

    /// Whether `candidates` are the shrink candidates of `value`, in order.
    spec fn shrunk(value: Self, candidates: Seq<Self>) -> bool;

    /// Generates one value; `size` bounds collection lengths.
    fn arbitrary(rng: &mut Rng, size: u32) -> (r: Self)
        ensures
            Self::generates(old(rng).state(), size, r, final(rng).state()),
    ;

    /// Simpler candidates for a failing value.
    fn shrink(&self) -> (r: Vec<Self>)
        ensures
            Self::shrunk(*self, r@),
    ;
}

impl Arbitrary for u8 {
    open spec fn generates(state: u64, size: u32, value: u8, next: u64) -> bool {
        &&& (value as int == unsigned_arbitrary(state, u8::MAX as int).0)
        &&& (next == unsigned_arbitrary(state, u8::MAX as int).1)
    }

    open spec fn shrunk(value: u8, candidates: Seq<u8>) -> bool {
        &&& (candidates.map_values(|x: u8| x as int) == unsigned_candidates(value as int))
    }

    fn arbitrary(rng: &mut Rng, _size: u32) -> (r: u8)
        ensures
            r as int == unsigned_arbitrary(old(rng).state(), u8::MAX as int).0,
            final(rng).state() == unsigned_arbitrary(old(rng).state(), u8::MAX as int).1,
    {
        generate_unsigned(rng, u8::MAX as u128) as u8
    }

    fn shrink(&self) -> (r: Vec<u8>)
        ensures
            r@.map_values(|x: u8| x as int) == unsigned_candidates(*self as int),
    {
        let wide = shrink_unsigned(*self as u128);
        let ghost c = unsigned_candidates(*self as int);
        proof {
            lemma_unsigned_candidates_simpler(*self as int);
        }
        let mut out: Vec<u8> = Vec::new();
        let mut i: usize = 0;
        proof {
            assert(out@.map_values(|x: u8| x as int) =~= c.take(0));
        }
        while i < wide.len()
            invariant
                wide@.map_values(|x: u128| x as int) == c,
                c == unsigned_candidates(*self as int),
                forall|k: int| 0 <= k < c.len() ==> #[trigger] c[k] < *self,
                i <= wide@.len(),
                out@.map_values(|x: u8| x as int) == c.take(i as int),
            decreases wide@.len() - i,
        {
            let w = wide[i];
            proof {
                assert(c[i as int] == w as int);
                assert(c[i as int] < *self);
            }
            let narrow = w as u8;
            proof {
                assert(narrow as int == c[i as int]);
            }
            let ghost before = out@.map_values(|x: u8| x as int);
            out.push(narrow);
            proof {
                assert(out@.map_values(|x: u8| x as int) =~= before.push(narrow as int));
                assert(c.take(i + 1) =~= c.take(i as int).push(c[i as int]));
            }
            i = i + 1;
        }
        proof {
            assert(c.take(c.len() as int) =~= c);
        }
        out
    }
}

impl Arbitrary for u16 {
    open spec fn generates(state: u64, size: u32, value: u16, next: u64) -> bool {
        &&& (value as int == unsigned_arbitrary(state, u16::MAX as int).0)
        &&& (next == unsigned_arbitrary(state, u16::MAX as int).1)
    }

    open spec fn shrunk(value: u16, candidates: Seq<u16>) -> bool {
        &&& (candidates.map_values(|x: u16| x as int) == unsigned_candidates(value as int))
    }

    fn arbitrary(rng: &mut Rng, _size: u32) -> (r: u16)
        ensures
            r as int == unsigned_arbitrary(old(rng).state(), u16::MAX as int).0,
            final(rng).state() == unsigned_arbitrary(old(rng).state(), u16::MAX as int).1,
    {
        generate_unsigned(rng, u16::MAX as u128) as u16
    }

    fn shrink(&self) -> (r: Vec<u16>)
        ensures
            r@.map_values(|x: u16| x as int) == unsigned_candidates(*self as int),
    {
        let wide = shrink_unsigned(*self as u128);
        let ghost c = unsigned_candidates(*self as int);
        proof {
            lemma_unsigned_candidates_simpler(*self as int);
        }
        let mut out: Vec<u16> = Vec::new();
        let mut i: usize = 0;
        proof {
            assert(out@.map_values(|x: u16| x as int) =~= c.take(0));
        }
        while i < wide.len()
            invariant
                wide@.map_values(|x: u128| x as int) == c,
                c == unsigned_candidates(*self as int),
                forall|k: int| 0 <= k < c.len() ==> #[trigger] c[k] < *self,
                i <= wide@.len(),
                out@.map_values(|x: u16| x as int) == c.take(i as int),
            decreases wide@.len() - i,
        {
            let w = wide[i];
            proof {
                assert(c[i as int] == w as int);
                assert(c[i as int] < *self);
            }
            let narrow = w as u16;
            proof {
                assert(narrow as int == c[i as int]);
            }
            let ghost before = out@.map_values(|x: u16| x as int);
            out.push(narrow);
            proof {
                assert(out@.map_values(|x: u16| x as int) =~= before.push(narrow as int));
                assert(c.take(i + 1) =~= c.take(i as int).push(c[i as int]));
            }
            i = i + 1;
        }
        proof {
            assert(c.take(c.len() as int) =~= c);
        }
        out
    }
}

impl Arbitrary for u32 {
    open spec fn generates(state: u64, size: u32, value: u32, next: u64) -> bool {
        &&& (value as int == unsigned_arbitrary(state, u32::MAX as int).0)
        &&& (next == unsigned_arbitrary(state, u32::MAX as int).1)
    }

    open spec fn shrunk(value: u32, candidates: Seq<u32>) -> bool {
        &&& (candidates.map_values(|x: u32| x as int) == unsigned_candidates(value as int))
    }

    fn arbitrary(rng: &mut Rng, _size: u32) -> (r: u32)
        ensures
            r as int == unsigned_arbitrary(old(rng).state(), u32::MAX as int).0,
            final(rng).state() == unsigned_arbitrary(old(rng).state(), u32::MAX as int).1,
    {
        generate_unsigned(rng, u32::MAX as u128) as u32
    }

    fn shrink(&self) -> (r: Vec<u32>)
        ensures
            r@.map_values(|x: u32| x as int) == unsigned_candidates(*self as int),
    {
        let wide = shrink_unsigned(*self as u128);
        let ghost c = unsigned_candidates(*self as int);
        proof {
            lemma_unsigned_candidates_simpler(*self as int);
        }
        let mut out: Vec<u32> = Vec::new();
        let mut i: usize = 0;
        proof {
            assert(out@.map_values(|x: u32| x as int) =~= c.take(0));
        }
        while i < wide.len()
            invariant
                wide@.map_values(|x: u128| x as int) == c,
                c == unsigned_candidates(*self as int),
                forall|k: int| 0 <= k < c.len() ==> #[trigger] c[k] < *self,
                i <= wide@.len(),
                out@.map_values(|x: u32| x as int) == c.take(i as int),
            decreases wide@.len() - i,
        {
            let w = wide[i];
            proof {
                assert(c[i as int] == w as int);
                assert(c[i as int] < *self);
            }
            let narrow = w as u32;
            proof {
                assert(narrow as int == c[i as int]);
            }
            let ghost before = out@.map_values(|x: u32| x as int);
            out.push(narrow);
            proof {
                assert(out@.map_values(|x: u32| x as int) =~= before.push(narrow as int));
                assert(c.take(i + 1) =~= c.take(i as int).push(c[i as int]));
            }
            i = i + 1;
        }
        proof {
            assert(c.take(c.len() as int) =~= c);
        }
        out
    }
}

impl Arbitrary for u64 {
    open spec fn generates(state: u64, size: u32, value: u64, next: u64) -> bool {
        &&& (value as int == unsigned_arbitrary(state, u64::MAX as int).0)
        &&& (next == unsigned_arbitrary(state, u64::MAX as int).1)
    }

    open spec fn shrunk(value: u64, candidates: Seq<u64>) -> bool {
        &&& (candidates.map_values(|x: u64| x as int) == unsigned_candidates(value as int))
    }

    fn arbitrary(rng: &mut Rng, _size: u32) -> (r: u64)
        ensures
            r as int == unsigned_arbitrary(old(rng).state(), u64::MAX as int).0,
            final(rng).state() == unsigned_arbitrary(old(rng).state(), u64::MAX as int).1,
    {
        generate_unsigned(rng, u64::MAX as u128) as u64
    }

    fn shrink(&self) -> (r: Vec<u64>)
        ensures
            r@.map_values(|x: u64| x as int) == unsigned_candidates(*self as int),
    {
        let wide = shrink_unsigned(*self as u128);
        let ghost c = unsigned_candidates(*self as int);
        proof {
            lemma_unsigned_candidates_simpler(*self as int);
        }
        let mut out: Vec<u64> = Vec::new();
        let mut i: usize = 0;
        proof {
            assert(out@.map_values(|x: u64| x as int) =~= c.take(0));
        }
        while i < wide.len()
            invariant
                wide@.map_values(|x: u128| x as int) == c,
                c == unsigned_candidates(*self as int),
                forall|k: int| 0 <= k < c.len() ==> #[trigger] c[k] < *self,
                i <= wide@.len(),
                out@.map_values(|x: u64| x as int) == c.take(i as int),
            decreases wide@.len() - i,
        {
            let w = wide[i];
            proof {
                assert(c[i as int] == w as int);
                assert(c[i as int] < *self);
            }
            let narrow = w as u64;
            proof {
                assert(narrow as int == c[i as int]);
            }
            let ghost before = out@.map_values(|x: u64| x as int);
            out.push(narrow);
            proof {
                assert(out@.map_values(|x: u64| x as int) =~= before.push(narrow as int));
                assert(c.take(i + 1) =~= c.take(i as int).push(c[i as int]));
            }
            i = i + 1;
        }
        proof {
            assert(c.take(c.len() as int) =~= c);
        }
        out
    }
}

impl Arbitrary for u128 {
    open spec fn generates(state: u64, size: u32, value: u128, next: u64) -> bool {
        &&& (value as int == unsigned_arbitrary(state, u128::MAX as int).0)
        &&& (next == unsigned_arbitrary(state, u128::MAX as int).1)
    }

    open spec fn shrunk(value: u128, candidates: Seq<u128>) -> bool {
        &&& (candidates.map_values(|x: u128| x as int) == unsigned_candidates(value as int))
    }

    fn arbitrary(rng: &mut Rng, _size: u32) -> (r: u128)
        ensures
            r as int == unsigned_arbitrary(old(rng).state(), u128::MAX as int).0,
            final(rng).state() == unsigned_arbitrary(old(rng).state(), u128::MAX as int).1,
    {
        generate_unsigned(rng, u128::MAX as u128) as u128
    }

    fn shrink(&self) -> (r: Vec<u128>)
        ensures
            r@.map_values(|x: u128| x as int) == unsigned_candidates(*self as int),
    {
        let wide = shrink_unsigned(*self as u128);
        let ghost c = unsigned_candidates(*self as int);
        proof {
            lemma_unsigned_candidates_simpler(*self as int);
        }
        let mut out: Vec<u128> = Vec::new();
        let mut i: usize = 0;
        proof {
            assert(out@.map_values(|x: u128| x as int) =~= c.take(0));
        }
        while i < wide.len()
            invariant
                wide@.map_values(|x: u128| x as int) == c,
                c == unsigned_candidates(*self as int),
                forall|k: int| 0 <= k < c.len() ==> #[trigger] c[k] < *self,
                i <= wide@.len(),
                out@.map_values(|x: u128| x as int) == c.take(i as int),
            decreases wide@.len() - i,
        {
            let w = wide[i];
            proof {
                assert(c[i as int] == w as int);
                assert(c[i as int] < *self);
            }
            let narrow = w as u128;
            proof {
                assert(narrow as int == c[i as int]);
            }
            let ghost before = out@.map_values(|x: u128| x as int);
            out.push(narrow);
            proof {
                assert(out@.map_values(|x: u128| x as int) =~= before.push(narrow as int));
                assert(c.take(i + 1) =~= c.take(i as int).push(c[i as int]));
            }
            i = i + 1;
        }
        proof {
            assert(c.take(c.len() as int) =~= c);
        }
        out
    }
}

impl Arbitrary for usize {
    open spec fn generates(state: u64, size: u32, value: usize, next: u64) -> bool {
        &&& (value as int == unsigned_arbitrary(state, usize::MAX as int).0)
        &&& (next == unsigned_arbitrary(state, usize::MAX as int).1)
    }

    open spec fn shrunk(value: usize, candidates: Seq<usize>) -> bool {
        &&& (candidates.map_values(|x: usize| x as int) == unsigned_candidates(value as int))
    }

    fn arbitrary(rng: &mut Rng, _size: u32) -> (r: usize)
        ensures
            r as int == unsigned_arbitrary(old(rng).state(), usize::MAX as int).0,
            final(rng).state() == unsigned_arbitrary(old(rng).state(), usize::MAX as int).1,
    {
        generate_unsigned(rng, usize::MAX as u128) as usize
    }

    fn shrink(&self) -> (r: Vec<usize>)
        ensures
            r@.map_values(|x: usize| x as int) == unsigned_candidates(*self as int),
    {
        let wide = shrink_unsigned(*self as u128);
        let ghost c = unsigned_candidates(*self as int);
        proof {
            lemma_unsigned_candidates_simpler(*self as int);
        }
        let mut out: Vec<usize> = Vec::new();
        let mut i: usize = 0;
        proof {
            assert(out@.map_values(|x: usize| x as int) =~= c.take(0));
        }
        while i < wide.len()
            invariant
                wide@.map_values(|x: u128| x as int) == c,
                c == unsigned_candidates(*self as int),
                forall|k: int| 0 <= k < c.len() ==> #[trigger] c[k] < *self,
                i <= wide@.len(),
                out@.map_values(|x: usize| x as int) == c.take(i as int),
            decreases wide@.len() - i,
        {
            let w = wide[i];
            proof {
                assert(c[i as int] == w as int);
                assert(c[i as int] < *self);
            }
            let narrow = w as usize;
            proof {
                assert(narrow as int == c[i as int]);
            }
            let ghost before = out@.map_values(|x: usize| x as int);
            out.push(narrow);
            proof {
                assert(out@.map_values(|x: usize| x as int) =~= before.push(narrow as int));
                assert(c.take(i + 1) =~= c.take(i as int).push(c[i as int]));
            }
            i = i + 1;
        }
        proof {
            assert(c.take(c.len() as int) =~= c);
        }
        out
    }
}

impl Arbitrary for i8 {
    open spec fn generates(state: u64, size: u32, value: i8, next: u64) -> bool {
        &&& (value as int == signed_arbitrary(state, i8::MIN as int, i8::MAX as int).0)
        &&& (next == signed_arbitrary(state, i8::MIN as int, i8::MAX as int).1)
    }

    open spec fn shrunk(value: i8, candidates: Seq<i8>) -> bool {
        &&& (candidates.map_values(|x: i8| x as int) == signed_candidates(value as int, i8::MIN as int))
    }

    fn arbitrary(rng: &mut Rng, _size: u32) -> (r: i8)
        ensures
            r as int == signed_arbitrary(old(rng).state(), i8::MIN as int, i8::MAX as int).0,
            final(rng).state() == signed_arbitrary(old(rng).state(), i8::MIN as int, i8::MAX as int).1,
    {
        generate_signed(rng, i8::MIN as i128, i8::MAX as i128) as i8
    }

    fn shrink(&self) -> (r: Vec<i8>)
        ensures
            r@.map_values(|x: i8| x as int) == signed_candidates(*self as int, i8::MIN as int),
    {
        let wide = shrink_signed(*self as i128, i8::MIN as i128);
        let ghost c = signed_candidates(*self as int, i8::MIN as int);
        proof {
            lemma_signed_candidates_simpler(*self as int, i8::MIN as int);
        }
        let mut out: Vec<i8> = Vec::new();
        let mut i: usize = 0;
        proof {
            assert(out@.map_values(|x: i8| x as int) =~= c.take(0));
        }
        while i < wide.len()
            invariant
                wide@.map_values(|x: i128| x as int) == c,
                c == signed_candidates(*self as int, i8::MIN as int),
                forall|k: int| 0 <= k < c.len() ==> magnitude(#[trigger] c[k]) < magnitude(*self as int),
                i <= wide@.len(),
                out@.map_values(|x: i8| x as int) == c.take(i as int),
            decreases wide@.len() - i,
        {
            let w = wide[i];
            proof {
                assert(c[i as int] == w as int);
                assert(magnitude(c[i as int]) < magnitude(*self as int));
            }
            let narrow = w as i8;
            proof {
                assert(narrow as int == c[i as int]);
            }
            let ghost before = out@.map_values(|x: i8| x as int);
            out.push(narrow);
            proof {
                assert(out@.map_values(|x: i8| x as int) =~= before.push(narrow as int));
                assert(c.take(i + 1) =~= c.take(i as int).push(c[i as int]));
            }
            i = i + 1;
        }
        proof {
            assert(c.take(c.len() as int) =~= c);
        }
        out
    }
}

impl Arbitrary for i16 {
    open spec fn generates(state: u64, size: u32, value: i16, next: u64) -> bool {
        &&& (value as int == signed_arbitrary(state, i16::MIN as int, i16::MAX as int).0)
        &&& (next == signed_arbitrary(state, i16::MIN as int, i16::MAX as int).1)
    }

    open spec fn shrunk(value: i16, candidates: Seq<i16>) -> bool {
        &&& (candidates.map_values(|x: i16| x as int) == signed_candidates(value as int, i16::MIN as int))
    }

    fn arbitrary(rng: &mut Rng, _size: u32) -> (r: i16)
        ensures
            r as int == signed_arbitrary(old(rng).state(), i16::MIN as int, i16::MAX as int).0,
            final(rng).state() == signed_arbitrary(old(rng).state(), i16::MIN as int, i16::MAX as int).1,
    {
        generate_signed(rng, i16::MIN as i128, i16::MAX as i128) as i16
    }

    fn shrink(&self) -> (r: Vec<i16>)
        ensures
            r@.map_values(|x: i16| x as int) == signed_candidates(*self as int, i16::MIN as int),
    {
        let wide = shrink_signed(*self as i128, i16::MIN as i128);
        let ghost c = signed_candidates(*self as int, i16::MIN as int);
        proof {
            lemma_signed_candidates_simpler(*self as int, i16::MIN as int);
        }
        let mut out: Vec<i16> = Vec::new();
        let mut i: usize = 0;
        proof {
            assert(out@.map_values(|x: i16| x as int) =~= c.take(0));
        }
        while i < wide.len()
            invariant
                wide@.map_values(|x: i128| x as int) == c,
                c == signed_candidates(*self as int, i16::MIN as int),
                forall|k: int| 0 <= k < c.len() ==> magnitude(#[trigger] c[k]) < magnitude(*self as int),
                i <= wide@.len(),
                out@.map_values(|x: i16| x as int) == c.take(i as int),
            decreases wide@.len() - i,
        {
            let w = wide[i];
            proof {
                assert(c[i as int] == w as int);
                assert(magnitude(c[i as int]) < magnitude(*self as int));
            }
            let narrow = w as i16;
            proof {
                assert(narrow as int == c[i as int]);
            }
            let ghost before = out@.map_values(|x: i16| x as int);
            out.push(narrow);
            proof {
                assert(out@.map_values(|x: i16| x as int) =~= before.push(narrow as int));
                assert(c.take(i + 1) =~= c.take(i as int).push(c[i as int]));
            }
            i = i + 1;
        }
        proof {
            assert(c.take(c.len() as int) =~= c);
        }
        out
    }
}

impl Arbitrary for i32 {
    open spec fn generates(state: u64, size: u32, value: i32, next: u64) -> bool {
        &&& (value as int == signed_arbitrary(state, i32::MIN as int, i32::MAX as int).0)
        &&& (next == signed_arbitrary(state, i32::MIN as int, i32::MAX as int).1)
    }

    open spec fn shrunk(value: i32, candidates: Seq<i32>) -> bool {
        &&& (candidates.map_values(|x: i32| x as int) == signed_candidates(value as int, i32::MIN as int))
    }

    fn arbitrary(rng: &mut Rng, _size: u32) -> (r: i32)
        ensures
            r as int == signed_arbitrary(old(rng).state(), i32::MIN as int, i32::MAX as int).0,
            final(rng).state() == signed_arbitrary(old(rng).state(), i32::MIN as int, i32::MAX as int).1,
    {
        generate_signed(rng, i32::MIN as i128, i32::MAX as i128) as i32
    }

    fn shrink(&self) -> (r: Vec<i32>)
        ensures
            r@.map_values(|x: i32| x as int) == signed_candidates(*self as int, i32::MIN as int),
    {
        let wide = shrink_signed(*self as i128, i32::MIN as i128);
        let ghost c = signed_candidates(*self as int, i32::MIN as int);
        proof {
            lemma_signed_candidates_simpler(*self as int, i32::MIN as int);
        }
        let mut out: Vec<i32> = Vec::new();
        let mut i: usize = 0;
        proof {
            assert(out@.map_values(|x: i32| x as int) =~= c.take(0));
        }
        while i < wide.len()
            invariant
                wide@.map_values(|x: i128| x as int) == c,
                c == signed_candidates(*self as int, i32::MIN as int),
                forall|k: int| 0 <= k < c.len() ==> magnitude(#[trigger] c[k]) < magnitude(*self as int),
                i <= wide@.len(),
                out@.map_values(|x: i32| x as int) == c.take(i as int),
            decreases wide@.len() - i,
        {
            let w = wide[i];
            proof {
                assert(c[i as int] == w as int);
                assert(magnitude(c[i as int]) < magnitude(*self as int));
            }
            let narrow = w as i32;
            proof {
                assert(narrow as int == c[i as int]);
            }
            let ghost before = out@.map_values(|x: i32| x as int);
            out.push(narrow);
            proof {
                assert(out@.map_values(|x: i32| x as int) =~= before.push(narrow as int));
                assert(c.take(i + 1) =~= c.take(i as int).push(c[i as int]));
            }
            i = i + 1;
        }
        proof {
            assert(c.take(c.len() as int) =~= c);
        }
        out
    }
}

impl Arbitrary for i64 {
    open spec fn generates(state: u64, size: u32, value: i64, next: u64) -> bool {
        &&& (value as int == signed_arbitrary(state, i64::MIN as int, i64::MAX as int).0)
        &&& (next == signed_arbitrary(state, i64::MIN as int, i64::MAX as int).1)
    }

    open spec fn shrunk(value: i64, candidates: Seq<i64>) -> bool {
        &&& (candidates.map_values(|x: i64| x as int) == signed_candidates(value as int, i64::MIN as int))
    }

    fn arbitrary(rng: &mut Rng, _size: u32) -> (r: i64)
        ensures
            r as int == signed_arbitrary(old(rng).state(), i64::MIN as int, i64::MAX as int).0,
            final(rng).state() == signed_arbitrary(old(rng).state(), i64::MIN as int, i64::MAX as int).1,
    {
        generate_signed(rng, i64::MIN as i128, i64::MAX as i128) as i64
    }

    fn shrink(&self) -> (r: Vec<i64>)
        ensures
            r@.map_values(|x: i64| x as int) == signed_candidates(*self as int, i64::MIN as int),
    {
        let wide = shrink_signed(*self as i128, i64::MIN as i128);
        let ghost c = signed_candidates(*self as int, i64::MIN as int);
        proof {
            lemma_signed_candidates_simpler(*self as int, i64::MIN as int);
        }
        let mut out: Vec<i64> = Vec::new();
        let mut i: usize = 0;
        proof {
            assert(out@.map_values(|x: i64| x as int) =~= c.take(0));
        }
        while i < wide.len()
            invariant
                wide@.map_values(|x: i128| x as int) == c,
                c == signed_candidates(*self as int, i64::MIN as int),
                forall|k: int| 0 <= k < c.len() ==> magnitude(#[trigger] c[k]) < magnitude(*self as int),
                i <= wide@.len(),
                out@.map_values(|x: i64| x as int) == c.take(i as int),
            decreases wide@.len() - i,
        {
            let w = wide[i];
            proof {
                assert(c[i as int] == w as int);
                assert(magnitude(c[i as int]) < magnitude(*self as int));
            }
            let narrow = w as i64;
            proof {
                assert(narrow as int == c[i as int]);
            }
            let ghost before = out@.map_values(|x: i64| x as int);
            out.push(narrow);
            proof {
                assert(out@.map_values(|x: i64| x as int) =~= before.push(narrow as int));
                assert(c.take(i + 1) =~= c.take(i as int).push(c[i as int]));
            }
            i = i + 1;
        }
        proof {
            assert(c.take(c.len() as int) =~= c);
        }
        out
    }
}

impl Arbitrary for i128 {
    open spec fn generates(state: u64, size: u32, value: i128, next: u64) -> bool {
        &&& (value as int == signed_arbitrary(state, i128::MIN as int, i128::MAX as int).0)
        &&& (next == signed_arbitrary(state, i128::MIN as int, i128::MAX as int).1)
    }

    open spec fn shrunk(value: i128, candidates: Seq<i128>) -> bool {
        &&& (candidates.map_values(|x: i128| x as int) == signed_candidates(value as int, i128::MIN as int))
    }

    fn arbitrary(rng: &mut Rng, _size: u32) -> (r: i128)
        ensures
            r as int == signed_arbitrary(old(rng).state(), i128::MIN as int, i128::MAX as int).0,
            final(rng).state() == signed_arbitrary(old(rng).state(), i128::MIN as int, i128::MAX as int).1,
    {
        generate_signed(rng, i128::MIN as i128, i128::MAX as i128) as i128
    }

    fn shrink(&self) -> (r: Vec<i128>)
        ensures
            r@.map_values(|x: i128| x as int) == signed_candidates(*self as int, i128::MIN as int),
    {
        let wide = shrink_signed(*self as i128, i128::MIN as i128);
        let ghost c = signed_candidates(*self as int, i128::MIN as int);
        proof {
            lemma_signed_candidates_simpler(*self as int, i128::MIN as int);
        }
        let mut out: Vec<i128> = Vec::new();
        let mut i: usize = 0;
        proof {
            assert(out@.map_values(|x: i128| x as int) =~= c.take(0));
        }
        while i < wide.len()
            invariant
                wide@.map_values(|x: i128| x as int) == c,
                c == signed_candidates(*self as int, i128::MIN as int),
                forall|k: int| 0 <= k < c.len() ==> magnitude(#[trigger] c[k]) < magnitude(*self as int),
                i <= wide@.len(),
                out@.map_values(|x: i128| x as int) == c.take(i as int),
            decreases wide@.len() - i,
        {
            let w = wide[i];
            proof {
                assert(c[i as int] == w as int);
                assert(magnitude(c[i as int]) < magnitude(*self as int));
            }
            let narrow = w as i128;
            proof {
                assert(narrow as int == c[i as int]);
            }
            let ghost before = out@.map_values(|x: i128| x as int);
            out.push(narrow);
            proof {
                assert(out@.map_values(|x: i128| x as int) =~= before.push(narrow as int));
                assert(c.take(i + 1) =~= c.take(i as int).push(c[i as int]));
            }
            i = i + 1;
        }
        proof {
            assert(c.take(c.len() as int) =~= c);
        }
        out
    }
}

impl Arbitrary for isize {
    open spec fn generates(state: u64, size: u32, value: isize, next: u64) -> bool {
        &&& (value as int == signed_arbitrary(state, isize::MIN as int, isize::MAX as int).0)
        &&& (next == signed_arbitrary(state, isize::MIN as int, isize::MAX as int).1)
    }

    open spec fn shrunk(value: isize, candidates: Seq<isize>) -> bool {
        &&& (candidates.map_values(|x: isize| x as int) == signed_candidates(value as int, isize::MIN as int))
    }

    fn arbitrary(rng: &mut Rng, _size: u32) -> (r: isize)
        ensures
            r as int == signed_arbitrary(old(rng).state(), isize::MIN as int, isize::MAX as int).0,
            final(rng).state() == signed_arbitrary(old(rng).state(), isize::MIN as int, isize::MAX as int).1,
    {
        generate_signed(rng, isize::MIN as i128, isize::MAX as i128) as isize
    }

    fn shrink(&self) -> (r: Vec<isize>)
        ensures
            r@.map_values(|x: isize| x as int) == signed_candidates(*self as int, isize::MIN as int),
    {
        let wide = shrink_signed(*self as i128, isize::MIN as i128);
        let ghost c = signed_candidates(*self as int, isize::MIN as int);
        proof {
            lemma_signed_candidates_simpler(*self as int, isize::MIN as int);
        }
        let mut out: Vec<isize> = Vec::new();
        let mut i: usize = 0;
        proof {
            assert(out@.map_values(|x: isize| x as int) =~= c.take(0));
        }
        while i < wide.len()
            invariant
                wide@.map_values(|x: i128| x as int) == c,
                c == signed_candidates(*self as int, isize::MIN as int),
                forall|k: int| 0 <= k < c.len() ==> magnitude(#[trigger] c[k]) < magnitude(*self as int),
                i <= wide@.len(),
                out@.map_values(|x: isize| x as int) == c.take(i as int),
            decreases wide@.len() - i,
        {
            let w = wide[i];
            proof {
                assert(c[i as int] == w as int);
                assert(magnitude(c[i as int]) < magnitude(*self as int));
            }
            let narrow = w as isize;
            proof {
                assert(narrow as int == c[i as int]);
            }
            let ghost before = out@.map_values(|x: isize| x as int);
            out.push(narrow);
            proof {
                assert(out@.map_values(|x: isize| x as int) =~= before.push(narrow as int));
                assert(c.take(i + 1) =~= c.take(i as int).push(c[i as int]));
            }
            i = i + 1;
        }
        proof {
            assert(c.take(c.len() as int) =~= c);
        }
        out
    }
}

impl Arbitrary for bool {
    open spec fn generates(state: u64, size: u32, value: bool, next: u64) -> bool {
        &&& (value == ((draw(state) / 0x1_0000_0000) % 2 == 1))
        &&& (next == next_state(state))
    }

    open spec fn shrunk(value: bool, candidates: Seq<bool>) -> bool {
        &&& (candidates == if value {
            seq![false]
        } else {
            seq![]
        })
    }

    fn arbitrary(rng: &mut Rng, _size: u32) -> (r: bool)
        ensures
            r == ((draw(old(rng).state()) / 0x1_0000_0000) % 2 == 1),
            final(rng).state() == next_state(old(rng).state()),
    {
        rng.next_u32() % 2 == 1
    }

    fn shrink(&self) -> (r: Vec<bool>)
        ensures
            r@ == if *self {
                seq![false]
            } else {
                seq![]
            },
    {
        let mut out: Vec<bool> = Vec::new();
        if *self {
            out.push(false);
        }
        proof {
            assert(out@ =~= if *self {
                seq![false]
            } else {
                seq![]
            });
        }
        out
    }
}

/// The printable ASCII character a draw selects.
pub open spec fn printable(o: u64) -> char {
    (32 + (o as int) % 95) as char
}

impl Arbitrary for char {
    open spec fn generates(state: u64, size: u32, value: char, next: u64) -> bool {
        &&& (value == printable(draw(state)))
        &&& (next == next_state(state))
    }

    open spec fn shrunk(value: char, candidates: Seq<char>) -> bool {
        &&& (candidates == if value == 'a' {
            seq![]
        } else {
            seq!['a']
        })
    }

    fn arbitrary(rng: &mut Rng, _size: u32) -> (r: char)
        ensures
            r == printable(draw(old(rng).state())),
            final(rng).state() == next_state(old(rng).state()),
    {
        let k = rng.below(95);
        let b = (k as u8) + 32;
        b as char
    }

    fn shrink(&self) -> (r: Vec<char>)
        ensures
            r@ == if *self == 'a' {
                seq![]
            } else {
                seq!['a']
            },
    {
        let mut out: Vec<char> = Vec::new();
        if *self != 'a' {
            out.push('a');
        }
        proof {
            assert(out@ =~= if *self == 'a' {
                seq![]
            } else {
                seq!['a']
            });
        }
        out
    }
}

/// `n` printable characters drawn from state `s`, and the state left.
pub open spec fn printable_chars(s: u64, n: nat) -> (Seq<char>, u64)
    decreases n,
{
    if n == 0 {
        (seq![], s)
    } else {
        let (cs, s1) = printable_chars(s, (n - 1) as nat);
        (cs.push(printable(draw(s1))), next_state(s1))
    }
}

/// How many elements a collection generator produces from state `s` under
/// the size budget `size`.
pub open spec fn drawn_length(s: u64, size: u32) -> nat {
    ((draw(s) as int) % (if size < 1 {
        1
    } else {
        size as int
    })) as nat
}

/// The shrink candidates of a string: the empty string, its first half and
/// all but its last character, with consecutive repeats dropped.
pub open spec fn string_candidates(s: Seq<char>) -> Seq<Seq<char>> {
    let n = s.len();
    if n == 0 {
        seq![]
    } else if n == 1 {
        seq![seq![]]
    } else if n == 2 {
        seq![seq![], s.take(1)]
    } else {
        seq![seq![], s.take(n as int / 2), s.take(n - 1)]
    }
}

/// The first `k` characters of `cs`.
fn prefix_string(cs: &Vec<char>, k: usize) -> (r: String)
    requires
        k <= cs@.len(),
    ensures
        r@ == cs@.take(k as int),
{
    let mut out = String::new();
    let mut i: usize = 0;
    while i < k
        invariant
            k <= cs@.len(),
            i <= k,
            out@ == cs@.take(i as int),
        decreases k - i,
    {
        push_char(&mut out, cs[i]);
        proof {
            assert(cs@.take(i + 1) =~= cs@.take(i as int).push(cs@[i as int]));
        }
        i = i + 1;
    }
    out
}

impl Arbitrary for String {
    open spec fn generates(state: u64, size: u32, value: String, next: u64) -> bool {
        &&& (value@ == printable_chars(next_state(state), drawn_length(state, size)).0)
        &&& (next == printable_chars(
            next_state(state),
            drawn_length(state, size),
        ).1)
    }

    open spec fn shrunk(value: String, candidates: Seq<String>) -> bool {
        &&& (candidates.map_values(|c: String| c@) == string_candidates(value@))
    }

    fn arbitrary(rng: &mut Rng, size: u32) -> (r: String)
        ensures
            r@ == printable_chars(next_state(old(rng).state()), drawn_length(old(rng).state(), size)).0,
            final(rng).state() == printable_chars(
                next_state(old(rng).state()),
                drawn_length(old(rng).state(), size),
            ).1,
    {
        let bound: u32 = if size < 1 {
            1
        } else {
            size
        };
        let len = rng.below(bound as u64);
        let ghost s0 = rng.state();
        let mut out = String::new();
        let mut i: u64 = 0;
        proof {
            assert(out@ =~= printable_chars(s0, 0).0);
        }
        while i < len
            invariant
                i <= len,
                out@ == printable_chars(s0, i as nat).0,
                rng.state() == printable_chars(s0, i as nat).1,
            decreases len - i,
        {
            let c = char::arbitrary(rng, size);
            push_char(&mut out, c);
            i = i + 1;
        }
        out
    }

    fn shrink(&self) -> (r: Vec<String>)
        ensures
            r@.map_values(|c: String| c@) == string_candidates(self@),
    {
        let cs = chars_of(self.as_str());
        let n = cs.len();
        let mut out: Vec<String> = Vec::new();
        if n == 0 {
            proof {
                assert(out@.map_values(|c: String| c@) =~= string_candidates(self@));
            }
            return out;
        }
        let empty = String::new();
        let half = prefix_string(&cs, n / 2);
        let most = prefix_string(&cs, n - 1);
        let keep_half = half != empty;
        let keep_most = most != half;
        out.push(empty);
        if keep_half {
            out.push(half);
        }
        if keep_most {
            out.push(most);
        }
        proof {
            assert(self@.take(0) =~= Seq::<char>::empty());
            if n == 2 {
                assert(self@.take(1) =~= self@.take(n as int / 2));
            }
            if n >= 3 {
                assert(self@.take(n as int / 2).len() > 0);
                assert(self@.take(n as int / 2).len() != self@.take(n - 1).len());
            }
            assert(out@.map_values(|c: String| c@) =~= string_candidates(self@));
        }
        out
    }
}

impl<T: Arbitrary + Clone> Arbitrary for Option<T> {
    /// `None` one time in four, by the first draw; else a value generated
    /// from the state after it.
    open spec fn generates(state: u64, size: u32, value: Option<T>, next: u64) -> bool {
        if draw(state) % 4 == 0 {
            value is None && next == next_state(state)
        } else {
            value matches Some(x) && T::generates(next_state(state), size, x, next)
        }
    }

    /// `None` first, then the contained value's own candidates, each wrapped.
    open spec fn shrunk(value: Option<T>, candidates: Seq<Option<T>>) -> bool {
        match value {
            None => candidates.len() == 0,
            Some(x) => {
                &&& candidates.len() >= 1
                &&& candidates[0] is None
                &&& forall|i: int| 1 <= i < candidates.len() ==> #[trigger] candidates[i] is Some
                &&& T::shrunk(x, candidates.skip(1).map_values(|o: Option<T>| o->0))
            },
        }
    }

    fn arbitrary(rng: &mut Rng, size: u32) -> (r: Option<T>)
        ensures
            (draw(old(rng).state()) % 4 == 0) <==> r is None,
            r is None ==> final(rng).state() == next_state(old(rng).state()),
    {
        if rng.one_in(4) {
            None
        } else {
            Some(T::arbitrary(rng, size))
        }
    }

    fn shrink(&self) -> (r: Vec<Option<T>>)
        ensures
            self is None ==> r@.len() == 0,
            self is Some ==> r@.len() >= 1 && r@[0] is None && forall|i: int|
                1 <= i < r@.len() ==> #[trigger] r@[i] is Some,
    {
        let mut out: Vec<Option<T>> = Vec::new();
        match self {
            None => {},
            Some(value) => {
                out.push(None);
                let mut simpler = value.shrink();
                let ghost c = simpler@;
                let ghost mut j: int = 0;
                while simpler.len() > 0
                    invariant
                        T::shrunk(*value, c),
                        0 <= j <= c.len(),
                        simpler@ == c.skip(j),
                        out@.len() == 1 + j,
                        out@[0] is None,
                        forall|i: int| 1 <= i < out@.len() ==> #[trigger] out@[i] == Some(c[i - 1]),
                    decreases simpler@.len(),
                {
                    let replacement = simpler.remove(0);
                    let ghost before = out@;
                    out.push(Some(replacement));
                    proof {
                        assert(c.skip(j)[0] == c[j]);
                        assert(simpler@ =~= c.skip(j + 1));
                        j = j + 1;
                        assert forall|i: int| 1 <= i < out@.len() implies #[trigger] out@[i] == Some(
                            c[i - 1],
                        ) by {
                            if i < before.len() {
                                assert(out@[i] == before[i]);
                            }
                        }
                    }
                }
                proof {
                    assert(out@.skip(1).map_values(|o: Option<T>| o->0) =~= c);
                }
            },
        }
        out
    }
}

/// Whether generating from state `state`, one after another, gives `values`
/// and leaves the state `next`: some chain of states leads from `state` to
/// `next`, each value generated from one state and leaving the next.
pub open spec fn generates_each<T: Arbitrary>(state: u64, size: u32, values: Seq<T>, next: u64) -> bool {
    exists|states: Seq<u64>| #[trigger] state_chain(states, state, size, values, next)
}

/// `states` is a chain of generator states along which `values` are generated
/// in turn, from `state` to `next`.
pub open spec fn state_chain<T: Arbitrary>(
    states: Seq<u64>,
    state: u64,
    size: u32,
    values: Seq<T>,
    next: u64,
) -> bool {
    &&& states.len() == values.len() + 1
    &&& states[0] == state
    &&& states.last() == next
    &&& forall|i: int|
        0 <= i < values.len() ==> T::generates(states[i], size, #[trigger] values[i], states[i + 1])
}

proof fn lemma_generates_each_push<T: Arbitrary>(
    state: u64,
    size: u32,
    values: Seq<T>,
    x: T,
    mid: u64,
    next: u64,
)
    requires
        generates_each(state, size, values, mid),
        T::generates(mid, size, x, next),
    ensures
        generates_each(state, size, values.push(x), next),
{
    let states = choose|states: Seq<u64>| #[trigger] state_chain(states, state, size, values, mid);
    let longer = states.push(next);
    let vs = values.push(x);
    assert forall|i: int| 0 <= i < vs.len() implies T::generates(
        longer[i],
        size,
        #[trigger] vs[i],
        longer[i + 1],
    ) by {
        if i < values.len() {
            assert(vs[i] == values[i]);
            assert(T::generates(states[i], size, values[i], states[i + 1]));
        }
    }
    assert(state_chain(longer, state, size, vs, next));
}

proof fn lemma_generates_each_empty<T: Arbitrary>(state: u64, size: u32)
    ensures
        generates_each(state, size, Seq::<T>::empty(), state),
{
    assert(state_chain(seq![state], state, size, Seq::<T>::empty(), state));
}

impl<T: Arbitrary + Clone> Arbitrary for Vec<T> {
    /// A length drawn under the size budget, then that many elements generated
    /// in turn.
    open spec fn generates(state: u64, size: u32, value: Vec<T>, next: u64) -> bool {
        &&& value@.len() == drawn_length(state, size)
        &&& generates_each(next_state(state), size, value@, next)
    }

    open spec fn shrunk(value: Vec<T>, candidates: Seq<Vec<T>>) -> bool {
        &&& (value@.len() == 0 ==> candidates.len() == 0)
        &&& (value@.len() > 0 ==> {
            &&& candidates.len() >= 2 + value@.len()
            &&& candidates[0]@.len() == 0
            &&& clone_prefix(value@, (value@.len() / 2) as int, candidates[1]@)
            &&& forall|k: int|
                2 <= k < 2 + value@.len() ==> clone_without(value@, k - 2, (#[trigger] candidates[k])@)
            &&& exists|ss: Seq<Seq<T>>|
                #[trigger] element_shrinks(value@, ss, candidates.skip(2 + value@.len() as int))
        })
    }

    fn arbitrary(rng: &mut Rng, size: u32) -> (r: Vec<T>)
        ensures
            r@.len() == drawn_length(old(rng).state(), size),
    {
        let bound: u32 = if size < 1 {
            1
        } else {
            size
        };
        let len = rng.below(bound as u64);
        let ghost start = rng.state();
        let mut out: Vec<T> = Vec::new();
        let mut i: u64 = 0;
        proof {
            lemma_generates_each_empty::<T>(start, size);
            assert(out@ =~= Seq::<T>::empty());
        }
        while i < len
            invariant
                i <= len,
                out@.len() == i,
                generates_each(start, size, out@, rng.state()),
            decreases len - i,
        {
            let ghost m = rng.state();
            let ghost before = out@;
            let x = T::arbitrary(rng, size);
            out.push(x);
            proof {
                assert(out@ == before.push(x));
                lemma_generates_each_push(start, size, before, x, m, rng.state());
            }
            i = i + 1;
        }
        out
    }

    /// The empty vector and the first half first, then the vector without each
    /// element in turn, then, for each element in turn, the vector with that
    /// element replaced by each of its own shrink candidates.
    fn shrink(&self) -> (r: Vec<Vec<T>>) {
        let n = self.len();
        let mut out: Vec<Vec<T>> = Vec::new();
        if n == 0 {
            return out;
        }
        out.push(Vec::new());
        let mut half: Vec<T> = Vec::new();
        let mut k: usize = 0;
        while k < n / 2
            invariant
                n == self@.len(),
                k <= n / 2,
                clone_prefix(self@, k as int, half@),
            decreases n / 2 - k,
        {
            let c = self[k].clone();
            half.push(c);
            k = k + 1;
        }
        out.push(half);
        let mut index: usize = 0;
        while index < n
            invariant
                n == self@.len(),
                n > 0,
                index <= n,
                out@.len() == 2 + index,
                out@[0]@.len() == 0,
                clone_prefix(self@, (n / 2) as int, out@[1]@),
                forall|j: int| 2 <= j < out@.len() ==> clone_without(self@, j - 2, (#[trigger] out@[j])@),
            decreases n - index,
        {
            let mut without = self.clone();
            let ghost copy = without@;
            without.remove(index);
            proof {
                assert forall|j: int| index <= j < without@.len() implies vstd::pervasive::cloned(
                    self@[j + 1],
                    #[trigger] without@[j],
                ) by {
                    assert(without@[j] == copy[j + 1]);
                }
                assert forall|j: int| 0 <= j < index implies vstd::pervasive::cloned(
                    self@[j],
                    #[trigger] without@[j],
                ) by {
                    assert(without@[j] == copy[j]);
                }
            }
            out.push(without);
            index = index + 1;
        }
        let ghost base = out@;
        let ghost mut ss: Seq<Seq<T>> = Seq::empty();
        let mut index: usize = 0;
        while index < n
            invariant
                n == self@.len(),
                n > 0,
                index <= n,
                base.len() == 2 + n,
                0 <= total_len(ss),
                out@.len() == 2 + n + total_len(ss),
                out@.take(2 + n) == base,
                ss.len() == index,
                forall|k: int| 0 <= k < index ==> T::shrunk(self@[k], #[trigger] ss[k]),
                forall|k: int, m: int|
                    0 <= k < index && 0 <= m < ss[k].len() ==> replaced_at(
                        self@,
                        k,
                        #[trigger] ss[k][m],
                        out@[2 + n + total_len(ss.take(k)) + m]@,
                    ),
            decreases n - index,
        {
            let mut simpler = self[index].shrink();
            let ghost c = simpler@;
            let ghost mut j: int = 0;
            while simpler.len() > 0
                invariant
                    n == self@.len(),
                    index < n,
                    base.len() == 2 + n,
                    out@.take(2 + n) == base,
                    ss.len() == index,
                    0 <= total_len(ss),
                    T::shrunk(self@[index as int], c),
                    0 <= j <= c.len(),
                    simpler@ == c.skip(j),
                    out@.len() == 2 + n + total_len(ss) + j,
                    forall|k: int, m: int|
                        0 <= k < index && 0 <= m < ss[k].len() ==> replaced_at(
                            self@,
                            k,
                            #[trigger] ss[k][m],
                            out@[2 + n + total_len(ss.take(k)) + m]@,
                        ),
                    forall|m: int|
                        0 <= m < j ==> replaced_at(
                            self@,
                            index as int,
                            #[trigger] c[m],
                            out@[2 + n + total_len(ss) + m]@,
                        ),
                decreases simpler@.len(),
            {
                let replacement = simpler.remove(0);
                let mut candidate = self.clone();
                candidate.set(index, replacement);
                let ghost before = out@;
                out.push(candidate);
                proof {
                    assert(c.skip(j)[0] == c[j]);
                    assert(simpler@ =~= c.skip(j + 1));
                    assert(replaced_at(self@, index as int, c[j], candidate@));
                    assert(out@.take(2 + n) =~= before.take(2 + n));
                    assert forall|k: int, m: int|
                        0 <= k < index && 0 <= m < ss[k].len() implies replaced_at(
                            self@,
                            k,
                            #[trigger] ss[k][m],
                            out@[2 + n + total_len(ss.take(k)) + m]@,
                        ) by {
                        lemma_total_len_take(ss, k);
                        assert(out@[2 + n + total_len(ss.take(k)) + m] == before[2 + n
                            + total_len(ss.take(k)) + m]);
                    }
                    j = j + 1;
                    assert forall|m: int| 0 <= m < j implies replaced_at(
                        self@,
                        index as int,
                        #[trigger] c[m],
                        out@[2 + n + total_len(ss) + m]@,
                    ) by {
                        if m < j - 1 {
                            assert(out@[2 + n + total_len(ss) + m] == before[2 + n + total_len(ss)
                                + m]);
                        }
                    }
                }
            }
            proof {
                assert(j == c.len());
                let done = ss;
                ss = ss.push(c);
                assert(ss.drop_last() =~= done);
                assert(total_len(ss) == total_len(done) + c.len());
                assert(ss.take(index as int) =~= done);
                assert forall|k: int| 0 <= k < index implies #[trigger] ss.take(k) =~= done.take(k) by {}
                assert forall|k: int, m: int|
                    0 <= k < index + 1 && 0 <= m < ss[k].len() implies replaced_at(
                        self@,
                        k,
                        #[trigger] ss[k][m],
                        out@[2 + n + total_len(ss.take(k)) + m]@,
                    ) by {
                    if k < index {
                        assert(ss.take(k) =~= done.take(k));
                        assert(ss[k] == done[k]);
                    } else {
                        assert(ss[k] == c);
                    }
                }
            }
            index = index + 1;
        }
        proof {
            let rest = out@.skip(2 + n as int);
            assert forall|k: int, m: int|
                0 <= k < n && 0 <= m < ss[k].len() implies replaced_at(
                    self@,
                    k,
                    #[trigger] ss[k][m],
                    rest[total_len(ss.take(k)) + m]@,
                ) by {
                lemma_total_len_take(ss, k);
                assert(rest[total_len(ss.take(k)) + m] == out@[2 + n + total_len(ss.take(k)) + m]);
            }
            assert(element_shrinks(self@, ss, rest));
            assert forall|k: int| 2 <= k < 2 + n implies clone_without(
                self@,
                k - 2,
                (#[trigger] out@[k])@,
            ) by {
                assert(out@[k] == out@.take(2 + n)[k]);
            }
            assert(out@[0] == out@.take(2 + n)[0]);
            assert(out@[1] == out@.take(2 + n)[1]);
        }
        out
    }
}

/// `c` holds clones of the first `k` elements of `v`.
pub open spec fn clone_prefix<T: Clone>(v: Seq<T>, k: int, c: Seq<T>) -> bool {
    &&& c.len() == k
    &&& forall|j: int| 0 <= j < k ==> vstd::pervasive::cloned(v[j], #[trigger] c[j])
}

/// `c` holds clones of the elements of `v` but the one at `index`, in order.
pub open spec fn clone_without<T: Clone>(v: Seq<T>, index: int, c: Seq<T>) -> bool {
    &&& c.len() == v.len() - 1
    &&& forall|j: int| 0 <= j < index ==> vstd::pervasive::cloned(v[j], #[trigger] c[j])
    &&& forall|j: int| index <= j < c.len() ==> vstd::pervasive::cloned(v[j + 1], #[trigger] c[j])
}

/// The total length of a sequence of sequences.
pub open spec fn total_len<T>(ss: Seq<Seq<T>>) -> int
    decreases ss.len(),
{
    if ss.len() == 0 {
        0
    } else {
        total_len(ss.drop_last()) + ss.last().len()
    }
}

proof fn lemma_total_len_take<T>(ss: Seq<Seq<T>>, k: int)
    requires
        0 <= k < ss.len(),
    ensures
        0 <= total_len(ss.take(k)),
        total_len(ss.take(k)) + ss[k].len() <= total_len(ss),
    decreases ss.len(),
{
    if k == ss.len() - 1 {
        assert(ss.take(k) =~= ss.drop_last());
        lemma_total_len_nonnegative(ss.drop_last());
    } else {
        lemma_total_len_take(ss.drop_last(), k);
        assert(ss.drop_last().take(k) =~= ss.take(k));
    }
}

proof fn lemma_total_len_nonnegative<T>(ss: Seq<Seq<T>>)
    ensures
        0 <= total_len(ss),
    decreases ss.len(),
{
    if ss.len() > 0 {
        lemma_total_len_nonnegative(ss.drop_last());
    }
}

/// `rest` holds, for each element of `v` in order, `v` with that element
/// replaced by each of its own shrink candidates `ss[k]`, in order.
pub open spec fn element_shrinks<T: Arbitrary + Clone>(
    v: Seq<T>,
    ss: Seq<Seq<T>>,
    rest: Seq<Vec<T>>,
) -> bool {
    &&& ss.len() == v.len()
    &&& rest.len() == total_len(ss)
    &&& forall|k: int| 0 <= k < v.len() ==> T::shrunk(v[k], #[trigger] ss[k])
    &&& forall|k: int, m: int|
        0 <= k < v.len() && 0 <= m < ss[k].len() ==> replaced_at(
            v,
            k,
            #[trigger] ss[k][m],
            rest[total_len(ss.take(k)) + m]@,
        )
}

/// `c` is `v` with the element at `index` replaced by `x`, every other
/// element a clone of `v`'s.
pub open spec fn replaced_at<T: Clone>(v: Seq<T>, index: int, x: T, c: Seq<T>) -> bool {
    &&& clone_except(v, index, c)
    &&& c[index] == x
}

/// `c` has the length of `v` and a clone of its element everywhere but at `index`.
pub open spec fn clone_except<T: Clone>(v: Seq<T>, index: int, c: Seq<T>) -> bool {
    &&& c.len() == v.len()
    &&& 0 <= index < v.len()
    &&& forall|j: int| 0 <= j < c.len() && j != index ==> vstd::pervasive::cloned(v[j], #[trigger] c[j])
}

impl<A: Arbitrary + Clone> Arbitrary for (A,) {
    /// Each position generated in turn, from the state the previous one left.
    open spec fn generates(state: u64, size: u32, value: (A,), next: u64) -> bool {
        A::generates(state, size, value.0, next)
    }

    /// Each position's own candidates in turn, the other positions clones of
    /// the value's.
    open spec fn shrunk(value: (A,), candidates: Seq<(A,)>) -> bool {
        exists|s0: Seq<A>| #[trigger] A::shrunk(value.0, s0) && (candidates.len() == s0.len() && forall|i: int| 0 <= i < s0.len() ==> { let c = #[trigger] candidates[i]; c.0 == s0[i - (0)] })
    }

    fn arbitrary(rng: &mut Rng, size: u32) -> (r: (A,)) {
        let ghost s0 = rng.state();
        let v0 = A::arbitrary(rng, size);
        let ghost s1 = rng.state();
        (v0,)
    }

    /// Candidates that simplify one position at a time, in order, holding the
    /// others fixed: each keeps a clone of every other position.
    fn shrink(&self) -> (r: Vec<(A,)>) {
        let mut out: Vec<(A,)> = Vec::new();
        let mut simpler = self.0.shrink();
        let ghost c0 = simpler@;
        let ghost mut j: int = 0;
        while simpler.len() > 0
            invariant
                A::shrunk(self.0, c0),
                0 <= j <= c0.len(),
                simpler@ == c0.skip(j),
                out@.len() == 0 + j,
                forall|i: int| 0 <= i < 0 + j ==> { let c = #[trigger] out@[i]; c.0 == c0[i - (0)] },
            decreases simpler@.len(),
        {
            let replacement = simpler.remove(0);
            let ghost before = out@;
            out.push((replacement,));
            proof {
                assert(c0.skip(j)[0] == c0[j]);
                assert(simpler@ =~= c0.skip(j + 1));
                j = j + 1;
                assert forall|i: int| 0 <= i < 0 + j implies {
                    let c = #[trigger] out@[i]; c.0 == c0[i - (0)]
                } by {
                    if i < before.len() {
                        assert(out@[i] == before[i]);
                    }
                }
            }
        }
        out
    }
}

impl<A: Arbitrary + Clone, B: Arbitrary + Clone> Arbitrary for (A, B) {
    /// Each position generated in turn, from the state the previous one left.
    open spec fn generates(state: u64, size: u32, value: (A, B), next: u64) -> bool {
        exists|s1: u64| #[trigger] A::generates(state, size, value.0, s1) && B::generates(s1, size, value.1, next)
    }

    /// Each position's own candidates in turn, the other positions clones of
    /// the value's.
    open spec fn shrunk(value: (A, B), candidates: Seq<(A, B)>) -> bool {
        exists|s0: Seq<A>| #[trigger] A::shrunk(value.0, s0) && exists|s1: Seq<B>| #[trigger] B::shrunk(value.1, s1) && (candidates.len() == s0.len() + s1.len() && forall|i: int| 0 <= i < s0.len() ==> { let c = #[trigger] candidates[i]; c.0 == s0[i - (0)] && vstd::pervasive::cloned(value.1, c.1) } && forall|i: int| s0.len() <= i < s0.len() + s1.len() ==> { let c = #[trigger] candidates[i]; c.1 == s1[i - (s0.len())] && vstd::pervasive::cloned(value.0, c.0) })
    }

    fn arbitrary(rng: &mut Rng, size: u32) -> (r: (A, B)) {
        let ghost s0 = rng.state();
        let v0 = A::arbitrary(rng, size);
        let ghost s1 = rng.state();
        let v1 = B::arbitrary(rng, size);
        let ghost s2 = rng.state();
        let r = (v0, v1);
        proof {
            assert(A::generates(s0, size, r.0, s1));
            assert(B::generates(s1, size, r.1, s2));
        }
        r
    }

    /// Candidates that simplify one position at a time, in order, holding the
    /// others fixed: each keeps a clone of every other position.
    fn shrink(&self) -> (r: Vec<(A, B)>) {
        let mut out: Vec<(A, B)> = Vec::new();
        let mut simpler = self.0.shrink();
        let ghost c0 = simpler@;
        let ghost mut j: int = 0;
        while simpler.len() > 0
            invariant
                A::shrunk(self.0, c0),
                0 <= j <= c0.len(),
                simpler@ == c0.skip(j),
                out@.len() == 0 + j,
                forall|i: int| 0 <= i < 0 + j ==> { let c = #[trigger] out@[i]; c.0 == c0[i - (0)] && vstd::pervasive::cloned(self.1, c.1) },
            decreases simpler@.len(),
        {
            let replacement = simpler.remove(0);
            let k1 = self.1.clone();
            let ghost before = out@;
            out.push((replacement, k1));
            proof {
                assert(c0.skip(j)[0] == c0[j]);
                assert(simpler@ =~= c0.skip(j + 1));
                j = j + 1;
                assert forall|i: int| 0 <= i < 0 + j implies {
                    let c = #[trigger] out@[i]; c.0 == c0[i - (0)] && vstd::pervasive::cloned(self.1, c.1)
                } by {
                    if i < before.len() {
                        assert(out@[i] == before[i]);
                    }
                }
            }
        }
        let mut simpler = self.1.shrink();
        let ghost c1 = simpler@;
        let ghost mut j: int = 0;
        while simpler.len() > 0
            invariant
                A::shrunk(self.0, c0),
                B::shrunk(self.1, c1),
                0 <= j <= c1.len(),
                simpler@ == c1.skip(j),
                out@.len() == c0.len() + j,
                forall|i: int| 0 <= i < c0.len() ==> { let c = #[trigger] out@[i]; c.0 == c0[i - (0)] && vstd::pervasive::cloned(self.1, c.1) },
                forall|i: int| c0.len() <= i < c0.len() + j ==> { let c = #[trigger] out@[i]; c.1 == c1[i - (c0.len())] && vstd::pervasive::cloned(self.0, c.0) },
            decreases simpler@.len(),
        {
            let replacement = simpler.remove(0);
            let k0 = self.0.clone();
            let ghost before = out@;
            out.push((k0, replacement));
            proof {
                assert(c1.skip(j)[0] == c1[j]);
                assert(simpler@ =~= c1.skip(j + 1));
                j = j + 1;
                assert forall|i: int| 0 <= i < c0.len() implies {
                    let c = #[trigger] out@[i]; c.0 == c0[i - (0)] && vstd::pervasive::cloned(self.1, c.1)
                } by {
                    if i < before.len() {
                        assert(out@[i] == before[i]);
                    }
                }
                assert forall|i: int| c0.len() <= i < c0.len() + j implies {
                    let c = #[trigger] out@[i]; c.1 == c1[i - (c0.len())] && vstd::pervasive::cloned(self.0, c.0)
                } by {
                    if i < before.len() {
                        assert(out@[i] == before[i]);
                    }
                }
            }
        }
        out
    }
}

impl<A: Arbitrary + Clone, B: Arbitrary + Clone, C: Arbitrary + Clone> Arbitrary for (A, B, C) {
    /// Each position generated in turn, from the state the previous one left.
    open spec fn generates(state: u64, size: u32, value: (A, B, C), next: u64) -> bool {
        exists|s1: u64| #[trigger] A::generates(state, size, value.0, s1) && exists|s2: u64| #[trigger] B::generates(s1, size, value.1, s2) && C::generates(s2, size, value.2, next)
    }

    /// Each position's own candidates in turn, the other positions clones of
    /// the value's.
    open spec fn shrunk(value: (A, B, C), candidates: Seq<(A, B, C)>) -> bool {
        exists|s0: Seq<A>| #[trigger] A::shrunk(value.0, s0) && exists|s1: Seq<B>| #[trigger] B::shrunk(value.1, s1) && exists|s2: Seq<C>| #[trigger] C::shrunk(value.2, s2) && (candidates.len() == s0.len() + s1.len() + s2.len() && forall|i: int| 0 <= i < s0.len() ==> { let c = #[trigger] candidates[i]; c.0 == s0[i - (0)] && vstd::pervasive::cloned(value.1, c.1) && vstd::pervasive::cloned(value.2, c.2) } && forall|i: int| s0.len() <= i < s0.len() + s1.len() ==> { let c = #[trigger] candidates[i]; c.1 == s1[i - (s0.len())] && vstd::pervasive::cloned(value.0, c.0) && vstd::pervasive::cloned(value.2, c.2) } && forall|i: int| s0.len() + s1.len() <= i < s0.len() + s1.len() + s2.len() ==> { let c = #[trigger] candidates[i]; c.2 == s2[i - (s0.len() + s1.len())] && vstd::pervasive::cloned(value.0, c.0) && vstd::pervasive::cloned(value.1, c.1) })
    }

    fn arbitrary(rng: &mut Rng, size: u32) -> (r: (A, B, C)) {
        let ghost s0 = rng.state();
        let v0 = A::arbitrary(rng, size);
        let ghost s1 = rng.state();
        let v1 = B::arbitrary(rng, size);
        let ghost s2 = rng.state();
        let v2 = C::arbitrary(rng, size);
        let ghost s3 = rng.state();
        let r = (v0, v1, v2);
        proof {
            assert(A::generates(s0, size, r.0, s1));
            assert(B::generates(s1, size, r.1, s2));
            assert(C::generates(s2, size, r.2, s3));
            assert(exists|w2: u64| #[trigger] B::generates(s1, size, r.1, w2) && C::generates(w2, size, r.2, s3));
        }
        r
    }

    /// Candidates that simplify one position at a time, in order, holding the
    /// others fixed: each keeps a clone of every other position.
    fn shrink(&self) -> (r: Vec<(A, B, C)>) {
        let mut out: Vec<(A, B, C)> = Vec::new();
        let mut simpler = self.0.shrink();
        let ghost c0 = simpler@;
        let ghost mut j: int = 0;
        while simpler.len() > 0
            invariant
                A::shrunk(self.0, c0),
                0 <= j <= c0.len(),
                simpler@ == c0.skip(j),
                out@.len() == 0 + j,
                forall|i: int| 0 <= i < 0 + j ==> { let c = #[trigger] out@[i]; c.0 == c0[i - (0)] && vstd::pervasive::cloned(self.1, c.1) && vstd::pervasive::cloned(self.2, c.2) },
            decreases simpler@.len(),
        {
            let replacement = simpler.remove(0);
            let k1 = self.1.clone();
            let k2 = self.2.clone();
            let ghost before = out@;
            out.push((replacement, k1, k2));
            proof {
                assert(c0.skip(j)[0] == c0[j]);
                assert(simpler@ =~= c0.skip(j + 1));
                j = j + 1;
                assert forall|i: int| 0 <= i < 0 + j implies {
                    let c = #[trigger] out@[i]; c.0 == c0[i - (0)] && vstd::pervasive::cloned(self.1, c.1) && vstd::pervasive::cloned(self.2, c.2)
                } by {
                    if i < before.len() {
                        assert(out@[i] == before[i]);
                    }
                }
            }
        }
        let mut simpler = self.1.shrink();
        let ghost c1 = simpler@;
        let ghost mut j: int = 0;
        while simpler.len() > 0
            invariant
                A::shrunk(self.0, c0),
                B::shrunk(self.1, c1),
                0 <= j <= c1.len(),
                simpler@ == c1.skip(j),
                out@.len() == c0.len() + j,
                forall|i: int| 0 <= i < c0.len() ==> { let c = #[trigger] out@[i]; c.0 == c0[i - (0)] && vstd::pervasive::cloned(self.1, c.1) && vstd::pervasive::cloned(self.2, c.2) },
                forall|i: int| c0.len() <= i < c0.len() + j ==> { let c = #[trigger] out@[i]; c.1 == c1[i - (c0.len())] && vstd::pervasive::cloned(self.0, c.0) && vstd::pervasive::cloned(self.2, c.2) },
            decreases simpler@.len(),
        {
            let replacement = simpler.remove(0);
            let k0 = self.0.clone();
            let k2 = self.2.clone();
            let ghost before = out@;
            out.push((k0, replacement, k2));
            proof {
                assert(c1.skip(j)[0] == c1[j]);
                assert(simpler@ =~= c1.skip(j + 1));
                j = j + 1;
                assert forall|i: int| 0 <= i < c0.len() implies {
                    let c = #[trigger] out@[i]; c.0 == c0[i - (0)] && vstd::pervasive::cloned(self.1, c.1) && vstd::pervasive::cloned(self.2, c.2)
                } by {
                    if i < before.len() {
                        assert(out@[i] == before[i]);
                    }
                }
                assert forall|i: int| c0.len() <= i < c0.len() + j implies {
                    let c = #[trigger] out@[i]; c.1 == c1[i - (c0.len())] && vstd::pervasive::cloned(self.0, c.0) && vstd::pervasive::cloned(self.2, c.2)
                } by {
                    if i < before.len() {
                        assert(out@[i] == before[i]);
                    }
                }
            }
        }
        let mut simpler = self.2.shrink();
        let ghost c2 = simpler@;
        let ghost mut j: int = 0;
        while simpler.len() > 0
            invariant
                A::shrunk(self.0, c0),
                B::shrunk(self.1, c1),
                C::shrunk(self.2, c2),
                0 <= j <= c2.len(),
                simpler@ == c2.skip(j),
                out@.len() == c0.len() + c1.len() + j,
                forall|i: int| 0 <= i < c0.len() ==> { let c = #[trigger] out@[i]; c.0 == c0[i - (0)] && vstd::pervasive::cloned(self.1, c.1) && vstd::pervasive::cloned(self.2, c.2) },
                forall|i: int| c0.len() <= i < c0.len() + c1.len() ==> { let c = #[trigger] out@[i]; c.1 == c1[i - (c0.len())] && vstd::pervasive::cloned(self.0, c.0) && vstd::pervasive::cloned(self.2, c.2) },
                forall|i: int| c0.len() + c1.len() <= i < c0.len() + c1.len() + j ==> { let c = #[trigger] out@[i]; c.2 == c2[i - (c0.len() + c1.len())] && vstd::pervasive::cloned(self.0, c.0) && vstd::pervasive::cloned(self.1, c.1) },
            decreases simpler@.len(),
        {
            let replacement = simpler.remove(0);
            let k0 = self.0.clone();
            let k1 = self.1.clone();
            let ghost before = out@;
            out.push((k0, k1, replacement));
            proof {
                assert(c2.skip(j)[0] == c2[j]);
                assert(simpler@ =~= c2.skip(j + 1));
                j = j + 1;
                assert forall|i: int| 0 <= i < c0.len() implies {
                    let c = #[trigger] out@[i]; c.0 == c0[i - (0)] && vstd::pervasive::cloned(self.1, c.1) && vstd::pervasive::cloned(self.2, c.2)
                } by {
                    if i < before.len() {
                        assert(out@[i] == before[i]);
                    }
                }
                assert forall|i: int| c0.len() <= i < c0.len() + c1.len() implies {
                    let c = #[trigger] out@[i]; c.1 == c1[i - (c0.len())] && vstd::pervasive::cloned(self.0, c.0) && vstd::pervasive::cloned(self.2, c.2)
                } by {
                    if i < before.len() {
                        assert(out@[i] == before[i]);
                    }
                }
                assert forall|i: int| c0.len() + c1.len() <= i < c0.len() + c1.len() + j implies {
                    let c = #[trigger] out@[i]; c.2 == c2[i - (c0.len() + c1.len())] && vstd::pervasive::cloned(self.0, c.0) && vstd::pervasive::cloned(self.1, c.1)
                } by {
                    if i < before.len() {
                        assert(out@[i] == before[i]);
                    }
                }
            }
        }
        out
    }
}

impl<A: Arbitrary + Clone, B: Arbitrary + Clone, C: Arbitrary + Clone, D: Arbitrary + Clone> Arbitrary for (A, B, C, D) {
    /// Each position generated in turn, from the state the previous one left.
    open spec fn generates(state: u64, size: u32, value: (A, B, C, D), next: u64) -> bool {
        exists|s1: u64| #[trigger] A::generates(state, size, value.0, s1) && exists|s2: u64| #[trigger] B::generates(s1, size, value.1, s2) && exists|s3: u64| #[trigger] C::generates(s2, size, value.2, s3) && D::generates(s3, size, value.3, next)
    }

    /// Each position's own candidates in turn, the other positions clones of
    /// the value's.
    open spec fn shrunk(value: (A, B, C, D), candidates: Seq<(A, B, C, D)>) -> bool {
        exists|s0: Seq<A>| #[trigger] A::shrunk(value.0, s0) && exists|s1: Seq<B>| #[trigger] B::shrunk(value.1, s1) && exists|s2: Seq<C>| #[trigger] C::shrunk(value.2, s2) && exists|s3: Seq<D>| #[trigger] D::shrunk(value.3, s3) && (candidates.len() == s0.len() + s1.len() + s2.len() + s3.len() && forall|i: int| 0 <= i < s0.len() ==> { let c = #[trigger] candidates[i]; c.0 == s0[i - (0)] && vstd::pervasive::cloned(value.1, c.1) && vstd::pervasive::cloned(value.2, c.2) && vstd::pervasive::cloned(value.3, c.3) } && forall|i: int| s0.len() <= i < s0.len() + s1.len() ==> { let c = #[trigger] candidates[i]; c.1 == s1[i - (s0.len())] && vstd::pervasive::cloned(value.0, c.0) && vstd::pervasive::cloned(value.2, c.2) && vstd::pervasive::cloned(value.3, c.3) } && forall|i: int| s0.len() + s1.len() <= i < s0.len() + s1.len() + s2.len() ==> { let c = #[trigger] candidates[i]; c.2 == s2[i - (s0.len() + s1.len())] && vstd::pervasive::cloned(value.0, c.0) && vstd::pervasive::cloned(value.1, c.1) && vstd::pervasive::cloned(value.3, c.3) } && forall|i: int| s0.len() + s1.len() + s2.len() <= i < s0.len() + s1.len() + s2.len() + s3.len() ==> { let c = #[trigger] candidates[i]; c.3 == s3[i - (s0.len() + s1.len() + s2.len())] && vstd::pervasive::cloned(value.0, c.0) && vstd::pervasive::cloned(value.1, c.1) && vstd::pervasive::cloned(value.2, c.2) })
    }

    fn arbitrary(rng: &mut Rng, size: u32) -> (r: (A, B, C, D)) {
        let ghost s0 = rng.state();
        let v0 = A::arbitrary(rng, size);
        let ghost s1 = rng.state();
        let v1 = B::arbitrary(rng, size);
        let ghost s2 = rng.state();
        let v2 = C::arbitrary(rng, size);
        let ghost s3 = rng.state();
        let v3 = D::arbitrary(rng, size);
        let ghost s4 = rng.state();
        let r = (v0, v1, v2, v3);
        proof {
            assert(A::generates(s0, size, r.0, s1));
            assert(B::generates(s1, size, r.1, s2));
            assert(C::generates(s2, size, r.2, s3));
            assert(D::generates(s3, size, r.3, s4));
            assert(exists|w3: u64| #[trigger] C::generates(s2, size, r.2, w3) && D::generates(w3, size, r.3, s4));
            assert(exists|w2: u64| #[trigger] B::generates(s1, size, r.1, w2) && exists|w3: u64| #[trigger] C::generates(w2, size, r.2, w3) && D::generates(w3, size, r.3, s4));
        }
        r
    }

    /// Candidates that simplify one position at a time, in order, holding the
    /// others fixed: each keeps a clone of every other position.
    fn shrink(&self) -> (r: Vec<(A, B, C, D)>) {
        let mut out: Vec<(A, B, C, D)> = Vec::new();
        let mut simpler = self.0.shrink();
        let ghost c0 = simpler@;
        let ghost mut j: int = 0;
        while simpler.len() > 0
            invariant
                A::shrunk(self.0, c0),
                0 <= j <= c0.len(),
                simpler@ == c0.skip(j),
                out@.len() == 0 + j,
                forall|i: int| 0 <= i < 0 + j ==> { let c = #[trigger] out@[i]; c.0 == c0[i - (0)] && vstd::pervasive::cloned(self.1, c.1) && vstd::pervasive::cloned(self.2, c.2) && vstd::pervasive::cloned(self.3, c.3) },
            decreases simpler@.len(),
        {
            let replacement = simpler.remove(0);
            let k1 = self.1.clone();
            let k2 = self.2.clone();
            let k3 = self.3.clone();
            let ghost before = out@;
            out.push((replacement, k1, k2, k3));
            proof {
                assert(c0.skip(j)[0] == c0[j]);
                assert(simpler@ =~= c0.skip(j + 1));
                j = j + 1;
                assert forall|i: int| 0 <= i < 0 + j implies {
                    let c = #[trigger] out@[i]; c.0 == c0[i - (0)] && vstd::pervasive::cloned(self.1, c.1) && vstd::pervasive::cloned(self.2, c.2) && vstd::pervasive::cloned(self.3, c.3)
                } by {
                    if i < before.len() {
                        assert(out@[i] == before[i]);
                    }
                }
            }
        }
        let mut simpler = self.1.shrink();
        let ghost c1 = simpler@;
        let ghost mut j: int = 0;
        while simpler.len() > 0
            invariant
                A::shrunk(self.0, c0),
                B::shrunk(self.1, c1),
                0 <= j <= c1.len(),
                simpler@ == c1.skip(j),
                out@.len() == c0.len() + j,
                forall|i: int| 0 <= i < c0.len() ==> { let c = #[trigger] out@[i]; c.0 == c0[i - (0)] && vstd::pervasive::cloned(self.1, c.1) && vstd::pervasive::cloned(self.2, c.2) && vstd::pervasive::cloned(self.3, c.3) },
                forall|i: int| c0.len() <= i < c0.len() + j ==> { let c = #[trigger] out@[i]; c.1 == c1[i - (c0.len())] && vstd::pervasive::cloned(self.0, c.0) && vstd::pervasive::cloned(self.2, c.2) && vstd::pervasive::cloned(self.3, c.3) },
            decreases simpler@.len(),
        {
            let replacement = simpler.remove(0);
            let k0 = self.0.clone();
            let k2 = self.2.clone();
            let k3 = self.3.clone();
            let ghost before = out@;
            out.push((k0, replacement, k2, k3));
            proof {
                assert(c1.skip(j)[0] == c1[j]);
                assert(simpler@ =~= c1.skip(j + 1));
                j = j + 1;
                assert forall|i: int| 0 <= i < c0.len() implies {
                    let c = #[trigger] out@[i]; c.0 == c0[i - (0)] && vstd::pervasive::cloned(self.1, c.1) && vstd::pervasive::cloned(self.2, c.2) && vstd::pervasive::cloned(self.3, c.3)
                } by {
                    if i < before.len() {
                        assert(out@[i] == before[i]);
                    }
                }
                assert forall|i: int| c0.len() <= i < c0.len() + j implies {
                    let c = #[trigger] out@[i]; c.1 == c1[i - (c0.len())] && vstd::pervasive::cloned(self.0, c.0) && vstd::pervasive::cloned(self.2, c.2) && vstd::pervasive::cloned(self.3, c.3)
                } by {
                    if i < before.len() {
                        assert(out@[i] == before[i]);
                    }
                }
            }
        }
        let mut simpler = self.2.shrink();
        let ghost c2 = simpler@;
        let ghost mut j: int = 0;
        while simpler.len() > 0
            invariant
                A::shrunk(self.0, c0),
                B::shrunk(self.1, c1),
                C::shrunk(self.2, c2),
                0 <= j <= c2.len(),
                simpler@ == c2.skip(j),
                out@.len() == c0.len() + c1.len() + j,
                forall|i: int| 0 <= i < c0.len() ==> { let c = #[trigger] out@[i]; c.0 == c0[i - (0)] && vstd::pervasive::cloned(self.1, c.1) && vstd::pervasive::cloned(self.2, c.2) && vstd::pervasive::cloned(self.3, c.3) },
                forall|i: int| c0.len() <= i < c0.len() + c1.len() ==> { let c = #[trigger] out@[i]; c.1 == c1[i - (c0.len())] && vstd::pervasive::cloned(self.0, c.0) && vstd::pervasive::cloned(self.2, c.2) && vstd::pervasive::cloned(self.3, c.3) },
                forall|i: int| c0.len() + c1.len() <= i < c0.len() + c1.len() + j ==> { let c = #[trigger] out@[i]; c.2 == c2[i - (c0.len() + c1.len())] && vstd::pervasive::cloned(self.0, c.0) && vstd::pervasive::cloned(self.1, c.1) && vstd::pervasive::cloned(self.3, c.3) },
            decreases simpler@.len(),
        {
            let replacement = simpler.remove(0);
            let k0 = self.0.clone();
            let k1 = self.1.clone();
            let k3 = self.3.clone();
            let ghost before = out@;
            out.push((k0, k1, replacement, k3));
            proof {
                assert(c2.skip(j)[0] == c2[j]);
                assert(simpler@ =~= c2.skip(j + 1));
                j = j + 1;
                assert forall|i: int| 0 <= i < c0.len() implies {
                    let c = #[trigger] out@[i]; c.0 == c0[i - (0)] && vstd::pervasive::cloned(self.1, c.1) && vstd::pervasive::cloned(self.2, c.2) && vstd::pervasive::cloned(self.3, c.3)
                } by {
                    if i < before.len() {
                        assert(out@[i] == before[i]);
                    }
                }
                assert forall|i: int| c0.len() <= i < c0.len() + c1.len() implies {
                    let c = #[trigger] out@[i]; c.1 == c1[i - (c0.len())] && vstd::pervasive::cloned(self.0, c.0) && vstd::pervasive::cloned(self.2, c.2) && vstd::pervasive::cloned(self.3, c.3)
                } by {
                    if i < before.len() {
                        assert(out@[i] == before[i]);
                    }
                }
                assert forall|i: int| c0.len() + c1.len() <= i < c0.len() + c1.len() + j implies {
                    let c = #[trigger] out@[i]; c.2 == c2[i - (c0.len() + c1.len())] && vstd::pervasive::cloned(self.0, c.0) && vstd::pervasive::cloned(self.1, c.1) && vstd::pervasive::cloned(self.3, c.3)
                } by {
                    if i < before.len() {
                        assert(out@[i] == before[i]);
                    }
                }
            }
        }
        let mut simpler = self.3.shrink();
        let ghost c3 = simpler@;
        let ghost mut j: int = 0;
        while simpler.len() > 0
            invariant
                A::shrunk(self.0, c0),
                B::shrunk(self.1, c1),
                C::shrunk(self.2, c2),
                D::shrunk(self.3, c3),
                0 <= j <= c3.len(),
                simpler@ == c3.skip(j),
                out@.len() == c0.len() + c1.len() + c2.len() + j,
                forall|i: int| 0 <= i < c0.len() ==> { let c = #[trigger] out@[i]; c.0 == c0[i - (0)] && vstd::pervasive::cloned(self.1, c.1) && vstd::pervasive::cloned(self.2, c.2) && vstd::pervasive::cloned(self.3, c.3) },
                forall|i: int| c0.len() <= i < c0.len() + c1.len() ==> { let c = #[trigger] out@[i]; c.1 == c1[i - (c0.len())] && vstd::pervasive::cloned(self.0, c.0) && vstd::pervasive::cloned(self.2, c.2) && vstd::pervasive::cloned(self.3, c.3) },
                forall|i: int| c0.len() + c1.len() <= i < c0.len() + c1.len() + c2.len() ==> { let c = #[trigger] out@[i]; c.2 == c2[i - (c0.len() + c1.len())] && vstd::pervasive::cloned(self.0, c.0) && vstd::pervasive::cloned(self.1, c.1) && vstd::pervasive::cloned(self.3, c.3) },
                forall|i: int| c0.len() + c1.len() + c2.len() <= i < c0.len() + c1.len() + c2.len() + j ==> { let c = #[trigger] out@[i]; c.3 == c3[i - (c0.len() + c1.len() + c2.len())] && vstd::pervasive::cloned(self.0, c.0) && vstd::pervasive::cloned(self.1, c.1) && vstd::pervasive::cloned(self.2, c.2) },
            decreases simpler@.len(),
        {
            let replacement = simpler.remove(0);
            let k0 = self.0.clone();
            let k1 = self.1.clone();
            let k2 = self.2.clone();
            let ghost before = out@;
            out.push((k0, k1, k2, replacement));
            proof {
                assert(c3.skip(j)[0] == c3[j]);
                assert(simpler@ =~= c3.skip(j + 1));
                j = j + 1;
                assert forall|i: int| 0 <= i < c0.len() implies {
                    let c = #[trigger] out@[i]; c.0 == c0[i - (0)] && vstd::pervasive::cloned(self.1, c.1) && vstd::pervasive::cloned(self.2, c.2) && vstd::pervasive::cloned(self.3, c.3)
                } by {
                    if i < before.len() {
                        assert(out@[i] == before[i]);
                    }
                }
                assert forall|i: int| c0.len() <= i < c0.len() + c1.len() implies {
                    let c = #[trigger] out@[i]; c.1 == c1[i - (c0.len())] && vstd::pervasive::cloned(self.0, c.0) && vstd::pervasive::cloned(self.2, c.2) && vstd::pervasive::cloned(self.3, c.3)
                } by {
                    if i < before.len() {
                        assert(out@[i] == before[i]);
                    }
                }
                assert forall|i: int| c0.len() + c1.len() <= i < c0.len() + c1.len() + c2.len() implies {
                    let c = #[trigger] out@[i]; c.2 == c2[i - (c0.len() + c1.len())] && vstd::pervasive::cloned(self.0, c.0) && vstd::pervasive::cloned(self.1, c.1) && vstd::pervasive::cloned(self.3, c.3)
                } by {
                    if i < before.len() {
                        assert(out@[i] == before[i]);
                    }
                }
                assert forall|i: int| c0.len() + c1.len() + c2.len() <= i < c0.len() + c1.len() + c2.len() + j implies {
                    let c = #[trigger] out@[i]; c.3 == c3[i - (c0.len() + c1.len() + c2.len())] && vstd::pervasive::cloned(self.0, c.0) && vstd::pervasive::cloned(self.1, c.1) && vstd::pervasive::cloned(self.2, c.2)
                } by {
                    if i < before.len() {
                        assert(out@[i] == before[i]);
                    }
                }
            }
        }
        out
    }
}

impl<A: Arbitrary + Clone, B: Arbitrary + Clone, C: Arbitrary + Clone, D: Arbitrary + Clone, E: Arbitrary + Clone> Arbitrary for (A, B, C, D, E) {
    /// Each position generated in turn, from the state the previous one left.
    open spec fn generates(state: u64, size: u32, value: (A, B, C, D, E), next: u64) -> bool {
        exists|s1: u64| #[trigger] A::generates(state, size, value.0, s1) && exists|s2: u64| #[trigger] B::generates(s1, size, value.1, s2) && exists|s3: u64| #[trigger] C::generates(s2, size, value.2, s3) && exists|s4: u64| #[trigger] D::generates(s3, size, value.3, s4) && E::generates(s4, size, value.4, next)
    }

    /// Each position's own candidates in turn, the other positions clones of
    /// the value's.
    open spec fn shrunk(value: (A, B, C, D, E), candidates: Seq<(A, B, C, D, E)>) -> bool {
        exists|s0: Seq<A>| #[trigger] A::shrunk(value.0, s0) && exists|s1: Seq<B>| #[trigger] B::shrunk(value.1, s1) && exists|s2: Seq<C>| #[trigger] C::shrunk(value.2, s2) && exists|s3: Seq<D>| #[trigger] D::shrunk(value.3, s3) && exists|s4: Seq<E>| #[trigger] E::shrunk(value.4, s4) && (candidates.len() == s0.len() + s1.len() + s2.len() + s3.len() + s4.len() && forall|i: int| 0 <= i < s0.len() ==> { let c = #[trigger] candidates[i]; c.0 == s0[i - (0)] && vstd::pervasive::cloned(value.1, c.1) && vstd::pervasive::cloned(value.2, c.2) && vstd::pervasive::cloned(value.3, c.3) && vstd::pervasive::cloned(value.4, c.4) } && forall|i: int| s0.len() <= i < s0.len() + s1.len() ==> { let c = #[trigger] candidates[i]; c.1 == s1[i - (s0.len())] && vstd::pervasive::cloned(value.0, c.0) && vstd::pervasive::cloned(value.2, c.2) && vstd::pervasive::cloned(value.3, c.3) && vstd::pervasive::cloned(value.4, c.4) } && forall|i: int| s0.len() + s1.len() <= i < s0.len() + s1.len() + s2.len() ==> { let c = #[trigger] candidates[i]; c.2 == s2[i - (s0.len() + s1.len())] && vstd::pervasive::cloned(value.0, c.0) && vstd::pervasive::cloned(value.1, c.1) && vstd::pervasive::cloned(value.3, c.3) && vstd::pervasive::cloned(value.4, c.4) } && forall|i: int| s0.len() + s1.len() + s2.len() <= i < s0.len() + s1.len() + s2.len() + s3.len() ==> { let c = #[trigger] candidates[i]; c.3 == s3[i - (s0.len() + s1.len() + s2.len())] && vstd::pervasive::cloned(value.0, c.0) && vstd::pervasive::cloned(value.1, c.1) && vstd::pervasive::cloned(value.2, c.2) && vstd::pervasive::cloned(value.4, c.4) } && forall|i: int| s0.len() + s1.len() + s2.len() + s3.len() <= i < s0.len() + s1.len() + s2.len() + s3.len() + s4.len() ==> { let c = #[trigger] candidates[i]; c.4 == s4[i - (s0.len() + s1.len() + s2.len() + s3.len())] && vstd::pervasive::cloned(value.0, c.0) && vstd::pervasive::cloned(value.1, c.1) && vstd::pervasive::cloned(value.2, c.2) && vstd::pervasive::cloned(value.3, c.3) })
    }

    fn arbitrary(rng: &mut Rng, size: u32) -> (r: (A, B, C, D, E)) {
        let ghost s0 = rng.state();
        let v0 = A::arbitrary(rng, size);
        let ghost s1 = rng.state();
        let v1 = B::arbitrary(rng, size);
        let ghost s2 = rng.state();
        let v2 = C::arbitrary(rng, size);
        let ghost s3 = rng.state();
        let v3 = D::arbitrary(rng, size);
        let ghost s4 = rng.state();
        let v4 = E::arbitrary(rng, size);
        let ghost s5 = rng.state();
        let r = (v0, v1, v2, v3, v4);
        proof {
            assert(A::generates(s0, size, r.0, s1));
            assert(B::generates(s1, size, r.1, s2));
            assert(C::generates(s2, size, r.2, s3));
            assert(D::generates(s3, size, r.3, s4));
            assert(E::generates(s4, size, r.4, s5));
            assert(exists|w4: u64| #[trigger] D::generates(s3, size, r.3, w4) && E::generates(w4, size, r.4, s5));
            assert(exists|w3: u64| #[trigger] C::generates(s2, size, r.2, w3) && exists|w4: u64| #[trigger] D::generates(w3, size, r.3, w4) && E::generates(w4, size, r.4, s5));
            assert(exists|w2: u64| #[trigger] B::generates(s1, size, r.1, w2) && exists|w3: u64| #[trigger] C::generates(w2, size, r.2, w3) && exists|w4: u64| #[trigger] D::generates(w3, size, r.3, w4) && E::generates(w4, size, r.4, s5));
        }
        r
    }

    /// Candidates that simplify one position at a time, in order, holding the
    /// others fixed: each keeps a clone of every other position.
    fn shrink(&self) -> (r: Vec<(A, B, C, D, E)>) {
        let mut out: Vec<(A, B, C, D, E)> = Vec::new();
        let mut simpler = self.0.shrink();
        let ghost c0 = simpler@;
        let ghost mut j: int = 0;
        while simpler.len() > 0
            invariant
                A::shrunk(self.0, c0),
                0 <= j <= c0.len(),
                simpler@ == c0.skip(j),
                out@.len() == 0 + j,
                forall|i: int| 0 <= i < 0 + j ==> { let c = #[trigger] out@[i]; c.0 == c0[i - (0)] && vstd::pervasive::cloned(self.1, c.1) && vstd::pervasive::cloned(self.2, c.2) && vstd::pervasive::cloned(self.3, c.3) && vstd::pervasive::cloned(self.4, c.4) },
            decreases simpler@.len(),
        {
            let replacement = simpler.remove(0);
            let k1 = self.1.clone();
            let k2 = self.2.clone();
            let k3 = self.3.clone();
            let k4 = self.4.clone();
            let ghost before = out@;
            out.push((replacement, k1, k2, k3, k4));
            proof {
                assert(c0.skip(j)[0] == c0[j]);
                assert(simpler@ =~= c0.skip(j + 1));
                j = j + 1;
                assert forall|i: int| 0 <= i < 0 + j implies {
                    let c = #[trigger] out@[i]; c.0 == c0[i - (0)] && vstd::pervasive::cloned(self.1, c.1) && vstd::pervasive::cloned(self.2, c.2) && vstd::pervasive::cloned(self.3, c.3) && vstd::pervasive::cloned(self.4, c.4)
                } by {
                    if i < before.len() {
                        assert(out@[i] == before[i]);
                    }
                }
            }
        }
        let mut simpler = self.1.shrink();
        let ghost c1 = simpler@;
        let ghost mut j: int = 0;
        while simpler.len() > 0
            invariant
                A::shrunk(self.0, c0),
                B::shrunk(self.1, c1),
                0 <= j <= c1.len(),
                simpler@ == c1.skip(j),
                out@.len() == c0.len() + j,
                forall|i: int| 0 <= i < c0.len() ==> { let c = #[trigger] out@[i]; c.0 == c0[i - (0)] && vstd::pervasive::cloned(self.1, c.1) && vstd::pervasive::cloned(self.2, c.2) && vstd::pervasive::cloned(self.3, c.3) && vstd::pervasive::cloned(self.4, c.4) },
                forall|i: int| c0.len() <= i < c0.len() + j ==> { let c = #[trigger] out@[i]; c.1 == c1[i - (c0.len())] && vstd::pervasive::cloned(self.0, c.0) && vstd::pervasive::cloned(self.2, c.2) && vstd::pervasive::cloned(self.3, c.3) && vstd::pervasive::cloned(self.4, c.4) },
            decreases simpler@.len(),
        {
            let replacement = simpler.remove(0);
            let k0 = self.0.clone();
            let k2 = self.2.clone();
            let k3 = self.3.clone();
            let k4 = self.4.clone();
            let ghost before = out@;
            out.push((k0, replacement, k2, k3, k4));
            proof {
                assert(c1.skip(j)[0] == c1[j]);
                assert(simpler@ =~= c1.skip(j + 1));
                j = j + 1;
                assert forall|i: int| 0 <= i < c0.len() implies {
                    let c = #[trigger] out@[i]; c.0 == c0[i - (0)] && vstd::pervasive::cloned(self.1, c.1) && vstd::pervasive::cloned(self.2, c.2) && vstd::pervasive::cloned(self.3, c.3) && vstd::pervasive::cloned(self.4, c.4)
                } by {
                    if i < before.len() {
                        assert(out@[i] == before[i]);
                    }
                }
                assert forall|i: int| c0.len() <= i < c0.len() + j implies {
                    let c = #[trigger] out@[i]; c.1 == c1[i - (c0.len())] && vstd::pervasive::cloned(self.0, c.0) && vstd::pervasive::cloned(self.2, c.2) && vstd::pervasive::cloned(self.3, c.3) && vstd::pervasive::cloned(self.4, c.4)
                } by {
                    if i < before.len() {
                        assert(out@[i] == before[i]);
                    }
                }
            }
        }
        let mut simpler = self.2.shrink();
        let ghost c2 = simpler@;
        let ghost mut j: int = 0;
        while simpler.len() > 0
            invariant
                A::shrunk(self.0, c0),
                B::shrunk(self.1, c1),
                C::shrunk(self.2, c2),
                0 <= j <= c2.len(),
                simpler@ == c2.skip(j),
                out@.len() == c0.len() + c1.len() + j,
                forall|i: int| 0 <= i < c0.len() ==> { let c = #[trigger] out@[i]; c.0 == c0[i - (0)] && vstd::pervasive::cloned(self.1, c.1) && vstd::pervasive::cloned(self.2, c.2) && vstd::pervasive::cloned(self.3, c.3) && vstd::pervasive::cloned(self.4, c.4) },
                forall|i: int| c0.len() <= i < c0.len() + c1.len() ==> { let c = #[trigger] out@[i]; c.1 == c1[i - (c0.len())] && vstd::pervasive::cloned(self.0, c.0) && vstd::pervasive::cloned(self.2, c.2) && vstd::pervasive::cloned(self.3, c.3) && vstd::pervasive::cloned(self.4, c.4) },
                forall|i: int| c0.len() + c1.len() <= i < c0.len() + c1.len() + j ==> { let c = #[trigger] out@[i]; c.2 == c2[i - (c0.len() + c1.len())] && vstd::pervasive::cloned(self.0, c.0) && vstd::pervasive::cloned(self.1, c.1) && vstd::pervasive::cloned(self.3, c.3) && vstd::pervasive::cloned(self.4, c.4) },
            decreases simpler@.len(),
        {
            let replacement = simpler.remove(0);
            let k0 = self.0.clone();
            let k1 = self.1.clone();
            let k3 = self.3.clone();
            let k4 = self.4.clone();
            let ghost before = out@;
            out.push((k0, k1, replacement, k3, k4));
            proof {
                assert(c2.skip(j)[0] == c2[j]);
                assert(simpler@ =~= c2.skip(j + 1));
                j = j + 1;
                assert forall|i: int| 0 <= i < c0.len() implies {
                    let c = #[trigger] out@[i]; c.0 == c0[i - (0)] && vstd::pervasive::cloned(self.1, c.1) && vstd::pervasive::cloned(self.2, c.2) && vstd::pervasive::cloned(self.3, c.3) && vstd::pervasive::cloned(self.4, c.4)
                } by {
                    if i < before.len() {
                        assert(out@[i] == before[i]);
                    }
                }
                assert forall|i: int| c0.len() <= i < c0.len() + c1.len() implies {
                    let c = #[trigger] out@[i]; c.1 == c1[i - (c0.len())] && vstd::pervasive::cloned(self.0, c.0) && vstd::pervasive::cloned(self.2, c.2) && vstd::pervasive::cloned(self.3, c.3) && vstd::pervasive::cloned(self.4, c.4)
                } by {
                    if i < before.len() {
                        assert(out@[i] == before[i]);
                    }
                }
                assert forall|i: int| c0.len() + c1.len() <= i < c0.len() + c1.len() + j implies {
                    let c = #[trigger] out@[i]; c.2 == c2[i - (c0.len() + c1.len())] && vstd::pervasive::cloned(self.0, c.0) && vstd::pervasive::cloned(self.1, c.1) && vstd::pervasive::cloned(self.3, c.3) && vstd::pervasive::cloned(self.4, c.4)
                } by {
                    if i < before.len() {
                        assert(out@[i] == before[i]);
                    }
                }
            }
        }
        let mut simpler = self.3.shrink();
        let ghost c3 = simpler@;
        let ghost mut j: int = 0;
        while simpler.len() > 0
            invariant
                A::shrunk(self.0, c0),
                B::shrunk(self.1, c1),
                C::shrunk(self.2, c2),
                D::shrunk(self.3, c3),
                0 <= j <= c3.len(),
                simpler@ == c3.skip(j),
                out@.len() == c0.len() + c1.len() + c2.len() + j,
                forall|i: int| 0 <= i < c0.len() ==> { let c = #[trigger] out@[i]; c.0 == c0[i - (0)] && vstd::pervasive::cloned(self.1, c.1) && vstd::pervasive::cloned(self.2, c.2) && vstd::pervasive::cloned(self.3, c.3) && vstd::pervasive::cloned(self.4, c.4) },
                forall|i: int| c0.len() <= i < c0.len() + c1.len() ==> { let c = #[trigger] out@[i]; c.1 == c1[i - (c0.len())] && vstd::pervasive::cloned(self.0, c.0) && vstd::pervasive::cloned(self.2, c.2) && vstd::pervasive::cloned(self.3, c.3) && vstd::pervasive::cloned(self.4, c.4) },
                forall|i: int| c0.len() + c1.len() <= i < c0.len() + c1.len() + c2.len() ==> { let c = #[trigger] out@[i]; c.2 == c2[i - (c0.len() + c1.len())] && vstd::pervasive::cloned(self.0, c.0) && vstd::pervasive::cloned(self.1, c.1) && vstd::pervasive::cloned(self.3, c.3) && vstd::pervasive::cloned(self.4, c.4) },
                forall|i: int| c0.len() + c1.len() + c2.len() <= i < c0.len() + c1.len() + c2.len() + j ==> { let c = #[trigger] out@[i]; c.3 == c3[i - (c0.len() + c1.len() + c2.len())] && vstd::pervasive::cloned(self.0, c.0) && vstd::pervasive::cloned(self.1, c.1) && vstd::pervasive::cloned(self.2, c.2) && vstd::pervasive::cloned(self.4, c.4) },
            decreases simpler@.len(),
        {
            let replacement = simpler.remove(0);
            let k0 = self.0.clone();
            let k1 = self.1.clone();
            let k2 = self.2.clone();
            let k4 = self.4.clone();
            let ghost before = out@;
            out.push((k0, k1, k2, replacement, k4));
            proof {
                assert(c3.skip(j)[0] == c3[j]);
                assert(simpler@ =~= c3.skip(j + 1));
                j = j + 1;
                assert forall|i: int| 0 <= i < c0.len() implies {
                    let c = #[trigger] out@[i]; c.0 == c0[i - (0)] && vstd::pervasive::cloned(self.1, c.1) && vstd::pervasive::cloned(self.2, c.2) && vstd::pervasive::cloned(self.3, c.3) && vstd::pervasive::cloned(self.4, c.4)
                } by {
                    if i < before.len() {
                        assert(out@[i] == before[i]);
                    }
                }
                assert forall|i: int| c0.len() <= i < c0.len() + c1.len() implies {
                    let c = #[trigger] out@[i]; c.1 == c1[i - (c0.len())] && vstd::pervasive::cloned(self.0, c.0) && vstd::pervasive::cloned(self.2, c.2) && vstd::pervasive::cloned(self.3, c.3) && vstd::pervasive::cloned(self.4, c.4)
                } by {
                    if i < before.len() {
                        assert(out@[i] == before[i]);
                    }
                }
                assert forall|i: int| c0.len() + c1.len() <= i < c0.len() + c1.len() + c2.len() implies {
                    let c = #[trigger] out@[i]; c.2 == c2[i - (c0.len() + c1.len())] && vstd::pervasive::cloned(self.0, c.0) && vstd::pervasive::cloned(self.1, c.1) && vstd::pervasive::cloned(self.3, c.3) && vstd::pervasive::cloned(self.4, c.4)
                } by {
                    if i < before.len() {
                        assert(out@[i] == before[i]);
                    }
                }
                assert forall|i: int| c0.len() + c1.len() + c2.len() <= i < c0.len() + c1.len() + c2.len() + j implies {
                    let c = #[trigger] out@[i]; c.3 == c3[i - (c0.len() + c1.len() + c2.len())] && vstd::pervasive::cloned(self.0, c.0) && vstd::pervasive::cloned(self.1, c.1) && vstd::pervasive::cloned(self.2, c.2) && vstd::pervasive::cloned(self.4, c.4)
                } by {
                    if i < before.len() {
                        assert(out@[i] == before[i]);
                    }
                }
            }
        }
        let mut simpler = self.4.shrink();
        let ghost c4 = simpler@;
        let ghost mut j: int = 0;
        while simpler.len() > 0
            invariant
                A::shrunk(self.0, c0),
                B::shrunk(self.1, c1),
                C::shrunk(self.2, c2),
                D::shrunk(self.3, c3),
                E::shrunk(self.4, c4),
                0 <= j <= c4.len(),
                simpler@ == c4.skip(j),
                out@.len() == c0.len() + c1.len() + c2.len() + c3.len() + j,
                forall|i: int| 0 <= i < c0.len() ==> { let c = #[trigger] out@[i]; c.0 == c0[i - (0)] && vstd::pervasive::cloned(self.1, c.1) && vstd::pervasive::cloned(self.2, c.2) && vstd::pervasive::cloned(self.3, c.3) && vstd::pervasive::cloned(self.4, c.4) },
                forall|i: int| c0.len() <= i < c0.len() + c1.len() ==> { let c = #[trigger] out@[i]; c.1 == c1[i - (c0.len())] && vstd::pervasive::cloned(self.0, c.0) && vstd::pervasive::cloned(self.2, c.2) && vstd::pervasive::cloned(self.3, c.3) && vstd::pervasive::cloned(self.4, c.4) },
                forall|i: int| c0.len() + c1.len() <= i < c0.len() + c1.len() + c2.len() ==> { let c = #[trigger] out@[i]; c.2 == c2[i - (c0.len() + c1.len())] && vstd::pervasive::cloned(self.0, c.0) && vstd::pervasive::cloned(self.1, c.1) && vstd::pervasive::cloned(self.3, c.3) && vstd::pervasive::cloned(self.4, c.4) },
                forall|i: int| c0.len() + c1.len() + c2.len() <= i < c0.len() + c1.len() + c2.len() + c3.len() ==> { let c = #[trigger] out@[i]; c.3 == c3[i - (c0.len() + c1.len() + c2.len())] && vstd::pervasive::cloned(self.0, c.0) && vstd::pervasive::cloned(self.1, c.1) && vstd::pervasive::cloned(self.2, c.2) && vstd::pervasive::cloned(self.4, c.4) },
                forall|i: int| c0.len() + c1.len() + c2.len() + c3.len() <= i < c0.len() + c1.len() + c2.len() + c3.len() + j ==> { let c = #[trigger] out@[i]; c.4 == c4[i - (c0.len() + c1.len() + c2.len() + c3.len())] && vstd::pervasive::cloned(self.0, c.0) && vstd::pervasive::cloned(self.1, c.1) && vstd::pervasive::cloned(self.2, c.2) && vstd::pervasive::cloned(self.3, c.3) },
            decreases simpler@.len(),
        {
            let replacement = simpler.remove(0);
            let k0 = self.0.clone();
            let k1 = self.1.clone();
            let k2 = self.2.clone();
            let k3 = self.3.clone();
            let ghost before = out@;
            out.push((k0, k1, k2, k3, replacement));
            proof {
                assert(c4.skip(j)[0] == c4[j]);
                assert(simpler@ =~= c4.skip(j + 1));
                j = j + 1;
                assert forall|i: int| 0 <= i < c0.len() implies {
                    let c = #[trigger] out@[i]; c.0 == c0[i - (0)] && vstd::pervasive::cloned(self.1, c.1) && vstd::pervasive::cloned(self.2, c.2) && vstd::pervasive::cloned(self.3, c.3) && vstd::pervasive::cloned(self.4, c.4)
                } by {
                    if i < before.len() {
                        assert(out@[i] == before[i]);
                    }
                }
                assert forall|i: int| c0.len() <= i < c0.len() + c1.len() implies {
                    let c = #[trigger] out@[i]; c.1 == c1[i - (c0.len())] && vstd::pervasive::cloned(self.0, c.0) && vstd::pervasive::cloned(self.2, c.2) && vstd::pervasive::cloned(self.3, c.3) && vstd::pervasive::cloned(self.4, c.4)
                } by {
                    if i < before.len() {
                        assert(out@[i] == before[i]);
                    }
                }
                assert forall|i: int| c0.len() + c1.len() <= i < c0.len() + c1.len() + c2.len() implies {
                    let c = #[trigger] out@[i]; c.2 == c2[i - (c0.len() + c1.len())] && vstd::pervasive::cloned(self.0, c.0) && vstd::pervasive::cloned(self.1, c.1) && vstd::pervasive::cloned(self.3, c.3) && vstd::pervasive::cloned(self.4, c.4)
                } by {
                    if i < before.len() {
                        assert(out@[i] == before[i]);
                    }
                }
                assert forall|i: int| c0.len() + c1.len() + c2.len() <= i < c0.len() + c1.len() + c2.len() + c3.len() implies {
                    let c = #[trigger] out@[i]; c.3 == c3[i - (c0.len() + c1.len() + c2.len())] && vstd::pervasive::cloned(self.0, c.0) && vstd::pervasive::cloned(self.1, c.1) && vstd::pervasive::cloned(self.2, c.2) && vstd::pervasive::cloned(self.4, c.4)
                } by {
                    if i < before.len() {
                        assert(out@[i] == before[i]);
                    }
                }
                assert forall|i: int| c0.len() + c1.len() + c2.len() + c3.len() <= i < c0.len() + c1.len() + c2.len() + c3.len() + j implies {
                    let c = #[trigger] out@[i]; c.4 == c4[i - (c0.len() + c1.len() + c2.len() + c3.len())] && vstd::pervasive::cloned(self.0, c.0) && vstd::pervasive::cloned(self.1, c.1) && vstd::pervasive::cloned(self.2, c.2) && vstd::pervasive::cloned(self.3, c.3)
                } by {
                    if i < before.len() {
                        assert(out@[i] == before[i]);
                    }
                }
            }
        }
        out
    }
}

impl<A: Arbitrary + Clone, B: Arbitrary + Clone, C: Arbitrary + Clone, D: Arbitrary + Clone, E: Arbitrary + Clone, F: Arbitrary + Clone> Arbitrary for (A, B, C, D, E, F) {
    /// Each position generated in turn, from the state the previous one left.
    open spec fn generates(state: u64, size: u32, value: (A, B, C, D, E, F), next: u64) -> bool {
        exists|s1: u64| #[trigger] A::generates(state, size, value.0, s1) && exists|s2: u64| #[trigger] B::generates(s1, size, value.1, s2) && exists|s3: u64| #[trigger] C::generates(s2, size, value.2, s3) && exists|s4: u64| #[trigger] D::generates(s3, size, value.3, s4) && exists|s5: u64| #[trigger] E::generates(s4, size, value.4, s5) && F::generates(s5, size, value.5, next)
    }

    /// Each position's own candidates in turn, the other positions clones of
    /// the value's.
    open spec fn shrunk(value: (A, B, C, D, E, F), candidates: Seq<(A, B, C, D, E, F)>) -> bool {
        exists|s0: Seq<A>| #[trigger] A::shrunk(value.0, s0) && exists|s1: Seq<B>| #[trigger] B::shrunk(value.1, s1) && exists|s2: Seq<C>| #[trigger] C::shrunk(value.2, s2) && exists|s3: Seq<D>| #[trigger] D::shrunk(value.3, s3) && exists|s4: Seq<E>| #[trigger] E::shrunk(value.4, s4) && exists|s5: Seq<F>| #[trigger] F::shrunk(value.5, s5) && (candidates.len() == s0.len() + s1.len() + s2.len() + s3.len() + s4.len() + s5.len() && forall|i: int| 0 <= i < s0.len() ==> { let c = #[trigger] candidates[i]; c.0 == s0[i - (0)] && vstd::pervasive::cloned(value.1, c.1) && vstd::pervasive::cloned(value.2, c.2) && vstd::pervasive::cloned(value.3, c.3) && vstd::pervasive::cloned(value.4, c.4) && vstd::pervasive::cloned(value.5, c.5) } && forall|i: int| s0.len() <= i < s0.len() + s1.len() ==> { let c = #[trigger] candidates[i]; c.1 == s1[i - (s0.len())] && vstd::pervasive::cloned(value.0, c.0) && vstd::pervasive::cloned(value.2, c.2) && vstd::pervasive::cloned(value.3, c.3) && vstd::pervasive::cloned(value.4, c.4) && vstd::pervasive::cloned(value.5, c.5) } && forall|i: int| s0.len() + s1.len() <= i < s0.len() + s1.len() + s2.len() ==> { let c = #[trigger] candidates[i]; c.2 == s2[i - (s0.len() + s1.len())] && vstd::pervasive::cloned(value.0, c.0) && vstd::pervasive::cloned(value.1, c.1) && vstd::pervasive::cloned(value.3, c.3) && vstd::pervasive::cloned(value.4, c.4) && vstd::pervasive::cloned(value.5, c.5) } && forall|i: int| s0.len() + s1.len() + s2.len() <= i < s0.len() + s1.len() + s2.len() + s3.len() ==> { let c = #[trigger] candidates[i]; c.3 == s3[i - (s0.len() + s1.len() + s2.len())] && vstd::pervasive::cloned(value.0, c.0) && vstd::pervasive::cloned(value.1, c.1) && vstd::pervasive::cloned(value.2, c.2) && vstd::pervasive::cloned(value.4, c.4) && vstd::pervasive::cloned(value.5, c.5) } && forall|i: int| s0.len() + s1.len() + s2.len() + s3.len() <= i < s0.len() + s1.len() + s2.len() + s3.len() + s4.len() ==> { let c = #[trigger] candidates[i]; c.4 == s4[i - (s0.len() + s1.len() + s2.len() + s3.len())] && vstd::pervasive::cloned(value.0, c.0) && vstd::pervasive::cloned(value.1, c.1) && vstd::pervasive::cloned(value.2, c.2) && vstd::pervasive::cloned(value.3, c.3) && vstd::pervasive::cloned(value.5, c.5) } && forall|i: int| s0.len() + s1.len() + s2.len() + s3.len() + s4.len() <= i < s0.len() + s1.len() + s2.len() + s3.len() + s4.len() + s5.len() ==> { let c = #[trigger] candidates[i]; c.5 == s5[i - (s0.len() + s1.len() + s2.len() + s3.len() + s4.len())] && vstd::pervasive::cloned(value.0, c.0) && vstd::pervasive::cloned(value.1, c.1) && vstd::pervasive::cloned(value.2, c.2) && vstd::pervasive::cloned(value.3, c.3) && vstd::pervasive::cloned(value.4, c.4) })
    }

    fn arbitrary(rng: &mut Rng, size: u32) -> (r: (A, B, C, D, E, F)) {
        let ghost s0 = rng.state();
        let v0 = A::arbitrary(rng, size);
        let ghost s1 = rng.state();
        let v1 = B::arbitrary(rng, size);
        let ghost s2 = rng.state();
        let v2 = C::arbitrary(rng, size);
        let ghost s3 = rng.state();
        let v3 = D::arbitrary(rng, size);
        let ghost s4 = rng.state();
        let v4 = E::arbitrary(rng, size);
        let ghost s5 = rng.state();
        let v5 = F::arbitrary(rng, size);
        let ghost s6 = rng.state();
        let r = (v0, v1, v2, v3, v4, v5);
        proof {
            assert(A::generates(s0, size, r.0, s1));
            assert(B::generates(s1, size, r.1, s2));
            assert(C::generates(s2, size, r.2, s3));
            assert(D::generates(s3, size, r.3, s4));
            assert(E::generates(s4, size, r.4, s5));
            assert(F::generates(s5, size, r.5, s6));
            assert(exists|w5: u64| #[trigger] E::generates(s4, size, r.4, w5) && F::generates(w5, size, r.5, s6));
            assert(exists|w4: u64| #[trigger] D::generates(s3, size, r.3, w4) && exists|w5: u64| #[trigger] E::generates(w4, size, r.4, w5) && F::generates(w5, size, r.5, s6));
            assert(exists|w3: u64| #[trigger] C::generates(s2, size, r.2, w3) && exists|w4: u64| #[trigger] D::generates(w3, size, r.3, w4) && exists|w5: u64| #[trigger] E::generates(w4, size, r.4, w5) && F::generates(w5, size, r.5, s6));
            assert(exists|w2: u64| #[trigger] B::generates(s1, size, r.1, w2) && exists|w3: u64| #[trigger] C::generates(w2, size, r.2, w3) && exists|w4: u64| #[trigger] D::generates(w3, size, r.3, w4) && exists|w5: u64| #[trigger] E::generates(w4, size, r.4, w5) && F::generates(w5, size, r.5, s6));
        }
        r
    }

    /// Candidates that simplify one position at a time, in order, holding the
    /// others fixed: each keeps a clone of every other position.
    fn shrink(&self) -> (r: Vec<(A, B, C, D, E, F)>) {
        let mut out: Vec<(A, B, C, D, E, F)> = Vec::new();
        let mut simpler = self.0.shrink();
        let ghost c0 = simpler@;
        let ghost mut j: int = 0;
        while simpler.len() > 0
            invariant
                A::shrunk(self.0, c0),
                0 <= j <= c0.len(),
                simpler@ == c0.skip(j),
                out@.len() == 0 + j,
                forall|i: int| 0 <= i < 0 + j ==> { let c = #[trigger] out@[i]; c.0 == c0[i - (0)] && vstd::pervasive::cloned(self.1, c.1) && vstd::pervasive::cloned(self.2, c.2) && vstd::pervasive::cloned(self.3, c.3) && vstd::pervasive::cloned(self.4, c.4) && vstd::pervasive::cloned(self.5, c.5) },
            decreases simpler@.len(),
        {
            let replacement = simpler.remove(0);
            let k1 = self.1.clone();
            let k2 = self.2.clone();
            let k3 = self.3.clone();
            let k4 = self.4.clone();
            let k5 = self.5.clone();
            let ghost before = out@;
            out.push((replacement, k1, k2, k3, k4, k5));
            proof {
                assert(c0.skip(j)[0] == c0[j]);
                assert(simpler@ =~= c0.skip(j + 1));
                j = j + 1;
                assert forall|i: int| 0 <= i < 0 + j implies {
                    let c = #[trigger] out@[i]; c.0 == c0[i - (0)] && vstd::pervasive::cloned(self.1, c.1) && vstd::pervasive::cloned(self.2, c.2) && vstd::pervasive::cloned(self.3, c.3) && vstd::pervasive::cloned(self.4, c.4) && vstd::pervasive::cloned(self.5, c.5)
                } by {
                    if i < before.len() {
                        assert(out@[i] == before[i]);
                    }
                }
            }
        }
        let mut simpler = self.1.shrink();
        let ghost c1 = simpler@;
        let ghost mut j: int = 0;
        while simpler.len() > 0
            invariant
                A::shrunk(self.0, c0),
                B::shrunk(self.1, c1),
                0 <= j <= c1.len(),
                simpler@ == c1.skip(j),
                out@.len() == c0.len() + j,
                forall|i: int| 0 <= i < c0.len() ==> { let c = #[trigger] out@[i]; c.0 == c0[i - (0)] && vstd::pervasive::cloned(self.1, c.1) && vstd::pervasive::cloned(self.2, c.2) && vstd::pervasive::cloned(self.3, c.3) && vstd::pervasive::cloned(self.4, c.4) && vstd::pervasive::cloned(self.5, c.5) },
                forall|i: int| c0.len() <= i < c0.len() + j ==> { let c = #[trigger] out@[i]; c.1 == c1[i - (c0.len())] && vstd::pervasive::cloned(self.0, c.0) && vstd::pervasive::cloned(self.2, c.2) && vstd::pervasive::cloned(self.3, c.3) && vstd::pervasive::cloned(self.4, c.4) && vstd::pervasive::cloned(self.5, c.5) },
            decreases simpler@.len(),
        {
            let replacement = simpler.remove(0);
            let k0 = self.0.clone();
            let k2 = self.2.clone();
            let k3 = self.3.clone();
            let k4 = self.4.clone();
            let k5 = self.5.clone();
            let ghost before = out@;
            out.push((k0, replacement, k2, k3, k4, k5));
            proof {
                assert(c1.skip(j)[0] == c1[j]);
                assert(simpler@ =~= c1.skip(j + 1));
                j = j + 1;
                assert forall|i: int| 0 <= i < c0.len() implies {
                    let c = #[trigger] out@[i]; c.0 == c0[i - (0)] && vstd::pervasive::cloned(self.1, c.1) && vstd::pervasive::cloned(self.2, c.2) && vstd::pervasive::cloned(self.3, c.3) && vstd::pervasive::cloned(self.4, c.4) && vstd::pervasive::cloned(self.5, c.5)
                } by {
                    if i < before.len() {
                        assert(out@[i] == before[i]);
                    }
                }
                assert forall|i: int| c0.len() <= i < c0.len() + j implies {
                    let c = #[trigger] out@[i]; c.1 == c1[i - (c0.len())] && vstd::pervasive::cloned(self.0, c.0) && vstd::pervasive::cloned(self.2, c.2) && vstd::pervasive::cloned(self.3, c.3) && vstd::pervasive::cloned(self.4, c.4) && vstd::pervasive::cloned(self.5, c.5)
                } by {
                    if i < before.len() {
                        assert(out@[i] == before[i]);
                    }
                }
            }
        }
        let mut simpler = self.2.shrink();
        let ghost c2 = simpler@;
        let ghost mut j: int = 0;
        while simpler.len() > 0
            invariant
                A::shrunk(self.0, c0),
                B::shrunk(self.1, c1),
                C::shrunk(self.2, c2),
                0 <= j <= c2.len(),
                simpler@ == c2.skip(j),
                out@.len() == c0.len() + c1.len() + j,
                forall|i: int| 0 <= i < c0.len() ==> { let c = #[trigger] out@[i]; c.0 == c0[i - (0)] && vstd::pervasive::cloned(self.1, c.1) && vstd::pervasive::cloned(self.2, c.2) && vstd::pervasive::cloned(self.3, c.3) && vstd::pervasive::cloned(self.4, c.4) && vstd::pervasive::cloned(self.5, c.5) },
                forall|i: int| c0.len() <= i < c0.len() + c1.len() ==> { let c = #[trigger] out@[i]; c.1 == c1[i - (c0.len())] && vstd::pervasive::cloned(self.0, c.0) && vstd::pervasive::cloned(self.2, c.2) && vstd::pervasive::cloned(self.3, c.3) && vstd::pervasive::cloned(self.4, c.4) && vstd::pervasive::cloned(self.5, c.5) },
                forall|i: int| c0.len() + c1.len() <= i < c0.len() + c1.len() + j ==> { let c = #[trigger] out@[i]; c.2 == c2[i - (c0.len() + c1.len())] && vstd::pervasive::cloned(self.0, c.0) && vstd::pervasive::cloned(self.1, c.1) && vstd::pervasive::cloned(self.3, c.3) && vstd::pervasive::cloned(self.4, c.4) && vstd::pervasive::cloned(self.5, c.5) },
            decreases simpler@.len(),
        {
            let replacement = simpler.remove(0);
            let k0 = self.0.clone();
            let k1 = self.1.clone();
            let k3 = self.3.clone();
            let k4 = self.4.clone();
            let k5 = self.5.clone();
            let ghost before = out@;
            out.push((k0, k1, replacement, k3, k4, k5));
            proof {
                assert(c2.skip(j)[0] == c2[j]);
                assert(simpler@ =~= c2.skip(j + 1));
                j = j + 1;
                assert forall|i: int| 0 <= i < c0.len() implies {
                    let c = #[trigger] out@[i]; c.0 == c0[i - (0)] && vstd::pervasive::cloned(self.1, c.1) && vstd::pervasive::cloned(self.2, c.2) && vstd::pervasive::cloned(self.3, c.3) && vstd::pervasive::cloned(self.4, c.4) && vstd::pervasive::cloned(self.5, c.5)
                } by {
                    if i < before.len() {
                        assert(out@[i] == before[i]);
                    }
                }
                assert forall|i: int| c0.len() <= i < c0.len() + c1.len() implies {
                    let c = #[trigger] out@[i]; c.1 == c1[i - (c0.len())] && vstd::pervasive::cloned(self.0, c.0) && vstd::pervasive::cloned(self.2, c.2) && vstd::pervasive::cloned(self.3, c.3) && vstd::pervasive::cloned(self.4, c.4) && vstd::pervasive::cloned(self.5, c.5)
                } by {
                    if i < before.len() {
                        assert(out@[i] == before[i]);
                    }
                }
                assert forall|i: int| c0.len() + c1.len() <= i < c0.len() + c1.len() + j implies {
                    let c = #[trigger] out@[i]; c.2 == c2[i - (c0.len() + c1.len())] && vstd::pervasive::cloned(self.0, c.0) && vstd::pervasive::cloned(self.1, c.1) && vstd::pervasive::cloned(self.3, c.3) && vstd::pervasive::cloned(self.4, c.4) && vstd::pervasive::cloned(self.5, c.5)
                } by {
                    if i < before.len() {
                        assert(out@[i] == before[i]);
                    }
                }
            }
        }
        let mut simpler = self.3.shrink();
        let ghost c3 = simpler@;
        let ghost mut j: int = 0;
        while simpler.len() > 0
            invariant
                A::shrunk(self.0, c0),
                B::shrunk(self.1, c1),
                C::shrunk(self.2, c2),
                D::shrunk(self.3, c3),
                0 <= j <= c3.len(),
                simpler@ == c3.skip(j),
                out@.len() == c0.len() + c1.len() + c2.len() + j,
                forall|i: int| 0 <= i < c0.len() ==> { let c = #[trigger] out@[i]; c.0 == c0[i - (0)] && vstd::pervasive::cloned(self.1, c.1) && vstd::pervasive::cloned(self.2, c.2) && vstd::pervasive::cloned(self.3, c.3) && vstd::pervasive::cloned(self.4, c.4) && vstd::pervasive::cloned(self.5, c.5) },
                forall|i: int| c0.len() <= i < c0.len() + c1.len() ==> { let c = #[trigger] out@[i]; c.1 == c1[i - (c0.len())] && vstd::pervasive::cloned(self.0, c.0) && vstd::pervasive::cloned(self.2, c.2) && vstd::pervasive::cloned(self.3, c.3) && vstd::pervasive::cloned(self.4, c.4) && vstd::pervasive::cloned(self.5, c.5) },
                forall|i: int| c0.len() + c1.len() <= i < c0.len() + c1.len() + c2.len() ==> { let c = #[trigger] out@[i]; c.2 == c2[i - (c0.len() + c1.len())] && vstd::pervasive::cloned(self.0, c.0) && vstd::pervasive::cloned(self.1, c.1) && vstd::pervasive::cloned(self.3, c.3) && vstd::pervasive::cloned(self.4, c.4) && vstd::pervasive::cloned(self.5, c.5) },
                forall|i: int| c0.len() + c1.len() + c2.len() <= i < c0.len() + c1.len() + c2.len() + j ==> { let c = #[trigger] out@[i]; c.3 == c3[i - (c0.len() + c1.len() + c2.len())] && vstd::pervasive::cloned(self.0, c.0) && vstd::pervasive::cloned(self.1, c.1) && vstd::pervasive::cloned(self.2, c.2) && vstd::pervasive::cloned(self.4, c.4) && vstd::pervasive::cloned(self.5, c.5) },
            decreases simpler@.len(),
        {
            let replacement = simpler.remove(0);
            let k0 = self.0.clone();
            let k1 = self.1.clone();
            let k2 = self.2.clone();
            let k4 = self.4.clone();
            let k5 = self.5.clone();
            let ghost before = out@;
            out.push((k0, k1, k2, replacement, k4, k5));
            proof {
                assert(c3.skip(j)[0] == c3[j]);
                assert(simpler@ =~= c3.skip(j + 1));
                j = j + 1;
                assert forall|i: int| 0 <= i < c0.len() implies {
                    let c = #[trigger] out@[i]; c.0 == c0[i - (0)] && vstd::pervasive::cloned(self.1, c.1) && vstd::pervasive::cloned(self.2, c.2) && vstd::pervasive::cloned(self.3, c.3) && vstd::pervasive::cloned(self.4, c.4) && vstd::pervasive::cloned(self.5, c.5)
                } by {
                    if i < before.len() {
                        assert(out@[i] == before[i]);
                    }
                }
                assert forall|i: int| c0.len() <= i < c0.len() + c1.len() implies {
                    let c = #[trigger] out@[i]; c.1 == c1[i - (c0.len())] && vstd::pervasive::cloned(self.0, c.0) && vstd::pervasive::cloned(self.2, c.2) && vstd::pervasive::cloned(self.3, c.3) && vstd::pervasive::cloned(self.4, c.4) && vstd::pervasive::cloned(self.5, c.5)
                } by {
                    if i < before.len() {
                        assert(out@[i] == before[i]);
                    }
                }
                assert forall|i: int| c0.len() + c1.len() <= i < c0.len() + c1.len() + c2.len() implies {
                    let c = #[trigger] out@[i]; c.2 == c2[i - (c0.len() + c1.len())] && vstd::pervasive::cloned(self.0, c.0) && vstd::pervasive::cloned(self.1, c.1) && vstd::pervasive::cloned(self.3, c.3) && vstd::pervasive::cloned(self.4, c.4) && vstd::pervasive::cloned(self.5, c.5)
                } by {
                    if i < before.len() {
                        assert(out@[i] == before[i]);
                    }
                }
                assert forall|i: int| c0.len() + c1.len() + c2.len() <= i < c0.len() + c1.len() + c2.len() + j implies {
                    let c = #[trigger] out@[i]; c.3 == c3[i - (c0.len() + c1.len() + c2.len())] && vstd::pervasive::cloned(self.0, c.0) && vstd::pervasive::cloned(self.1, c.1) && vstd::pervasive::cloned(self.2, c.2) && vstd::pervasive::cloned(self.4, c.4) && vstd::pervasive::cloned(self.5, c.5)
                } by {
                    if i < before.len() {
                        assert(out@[i] == before[i]);
                    }
                }
            }
        }
        let mut simpler = self.4.shrink();
        let ghost c4 = simpler@;
        let ghost mut j: int = 0;
        while simpler.len() > 0
            invariant
                A::shrunk(self.0, c0),
                B::shrunk(self.1, c1),
                C::shrunk(self.2, c2),
                D::shrunk(self.3, c3),
                E::shrunk(self.4, c4),
                0 <= j <= c4.len(),
                simpler@ == c4.skip(j),
                out@.len() == c0.len() + c1.len() + c2.len() + c3.len() + j,
                forall|i: int| 0 <= i < c0.len() ==> { let c = #[trigger] out@[i]; c.0 == c0[i - (0)] && vstd::pervasive::cloned(self.1, c.1) && vstd::pervasive::cloned(self.2, c.2) && vstd::pervasive::cloned(self.3, c.3) && vstd::pervasive::cloned(self.4, c.4) && vstd::pervasive::cloned(self.5, c.5) },
                forall|i: int| c0.len() <= i < c0.len() + c1.len() ==> { let c = #[trigger] out@[i]; c.1 == c1[i - (c0.len())] && vstd::pervasive::cloned(self.0, c.0) && vstd::pervasive::cloned(self.2, c.2) && vstd::pervasive::cloned(self.3, c.3) && vstd::pervasive::cloned(self.4, c.4) && vstd::pervasive::cloned(self.5, c.5) },
                forall|i: int| c0.len() + c1.len() <= i < c0.len() + c1.len() + c2.len() ==> { let c = #[trigger] out@[i]; c.2 == c2[i - (c0.len() + c1.len())] && vstd::pervasive::cloned(self.0, c.0) && vstd::pervasive::cloned(self.1, c.1) && vstd::pervasive::cloned(self.3, c.3) && vstd::pervasive::cloned(self.4, c.4) && vstd::pervasive::cloned(self.5, c.5) },
                forall|i: int| c0.len() + c1.len() + c2.len() <= i < c0.len() + c1.len() + c2.len() + c3.len() ==> { let c = #[trigger] out@[i]; c.3 == c3[i - (c0.len() + c1.len() + c2.len())] && vstd::pervasive::cloned(self.0, c.0) && vstd::pervasive::cloned(self.1, c.1) && vstd::pervasive::cloned(self.2, c.2) && vstd::pervasive::cloned(self.4, c.4) && vstd::pervasive::cloned(self.5, c.5) },
                forall|i: int| c0.len() + c1.len() + c2.len() + c3.len() <= i < c0.len() + c1.len() + c2.len() + c3.len() + j ==> { let c = #[trigger] out@[i]; c.4 == c4[i - (c0.len() + c1.len() + c2.len() + c3.len())] && vstd::pervasive::cloned(self.0, c.0) && vstd::pervasive::cloned(self.1, c.1) && vstd::pervasive::cloned(self.2, c.2) && vstd::pervasive::cloned(self.3, c.3) && vstd::pervasive::cloned(self.5, c.5) },
            decreases simpler@.len(),
        {
            let replacement = simpler.remove(0);
            let k0 = self.0.clone();
            let k1 = self.1.clone();
            let k2 = self.2.clone();
            let k3 = self.3.clone();
            let k5 = self.5.clone();
            let ghost before = out@;
            out.push((k0, k1, k2, k3, replacement, k5));
            proof {
                assert(c4.skip(j)[0] == c4[j]);
                assert(simpler@ =~= c4.skip(j + 1));
                j = j + 1;
                assert forall|i: int| 0 <= i < c0.len() implies {
                    let c = #[trigger] out@[i]; c.0 == c0[i - (0)] && vstd::pervasive::cloned(self.1, c.1) && vstd::pervasive::cloned(self.2, c.2) && vstd::pervasive::cloned(self.3, c.3) && vstd::pervasive::cloned(self.4, c.4) && vstd::pervasive::cloned(self.5, c.5)
                } by {
                    if i < before.len() {
                        assert(out@[i] == before[i]);
                    }
                }
                assert forall|i: int| c0.len() <= i < c0.len() + c1.len() implies {
                    let c = #[trigger] out@[i]; c.1 == c1[i - (c0.len())] && vstd::pervasive::cloned(self.0, c.0) && vstd::pervasive::cloned(self.2, c.2) && vstd::pervasive::cloned(self.3, c.3) && vstd::pervasive::cloned(self.4, c.4) && vstd::pervasive::cloned(self.5, c.5)
                } by {
                    if i < before.len() {
                        assert(out@[i] == before[i]);
                    }
                }
                assert forall|i: int| c0.len() + c1.len() <= i < c0.len() + c1.len() + c2.len() implies {
                    let c = #[trigger] out@[i]; c.2 == c2[i - (c0.len() + c1.len())] && vstd::pervasive::cloned(self.0, c.0) && vstd::pervasive::cloned(self.1, c.1) && vstd::pervasive::cloned(self.3, c.3) && vstd::pervasive::cloned(self.4, c.4) && vstd::pervasive::cloned(self.5, c.5)
                } by {
                    if i < before.len() {
                        assert(out@[i] == before[i]);
                    }
                }
                assert forall|i: int| c0.len() + c1.len() + c2.len() <= i < c0.len() + c1.len() + c2.len() + c3.len() implies {
                    let c = #[trigger] out@[i]; c.3 == c3[i - (c0.len() + c1.len() + c2.len())] && vstd::pervasive::cloned(self.0, c.0) && vstd::pervasive::cloned(self.1, c.1) && vstd::pervasive::cloned(self.2, c.2) && vstd::pervasive::cloned(self.4, c.4) && vstd::pervasive::cloned(self.5, c.5)
                } by {
                    if i < before.len() {
                        assert(out@[i] == before[i]);
                    }
                }
                assert forall|i: int| c0.len() + c1.len() + c2.len() + c3.len() <= i < c0.len() + c1.len() + c2.len() + c3.len() + j implies {
                    let c = #[trigger] out@[i]; c.4 == c4[i - (c0.len() + c1.len() + c2.len() + c3.len())] && vstd::pervasive::cloned(self.0, c.0) && vstd::pervasive::cloned(self.1, c.1) && vstd::pervasive::cloned(self.2, c.2) && vstd::pervasive::cloned(self.3, c.3) && vstd::pervasive::cloned(self.5, c.5)
                } by {
                    if i < before.len() {
                        assert(out@[i] == before[i]);
                    }
                }
            }
        }
        let mut simpler = self.5.shrink();
        let ghost c5 = simpler@;
        let ghost mut j: int = 0;
        while simpler.len() > 0
            invariant
                A::shrunk(self.0, c0),
                B::shrunk(self.1, c1),
                C::shrunk(self.2, c2),
                D::shrunk(self.3, c3),
                E::shrunk(self.4, c4),
                F::shrunk(self.5, c5),
                0 <= j <= c5.len(),
                simpler@ == c5.skip(j),
                out@.len() == c0.len() + c1.len() + c2.len() + c3.len() + c4.len() + j,
                forall|i: int| 0 <= i < c0.len() ==> { let c = #[trigger] out@[i]; c.0 == c0[i - (0)] && vstd::pervasive::cloned(self.1, c.1) && vstd::pervasive::cloned(self.2, c.2) && vstd::pervasive::cloned(self.3, c.3) && vstd::pervasive::cloned(self.4, c.4) && vstd::pervasive::cloned(self.5, c.5) },
                forall|i: int| c0.len() <= i < c0.len() + c1.len() ==> { let c = #[trigger] out@[i]; c.1 == c1[i - (c0.len())] && vstd::pervasive::cloned(self.0, c.0) && vstd::pervasive::cloned(self.2, c.2) && vstd::pervasive::cloned(self.3, c.3) && vstd::pervasive::cloned(self.4, c.4) && vstd::pervasive::cloned(self.5, c.5) },
                forall|i: int| c0.len() + c1.len() <= i < c0.len() + c1.len() + c2.len() ==> { let c = #[trigger] out@[i]; c.2 == c2[i - (c0.len() + c1.len())] && vstd::pervasive::cloned(self.0, c.0) && vstd::pervasive::cloned(self.1, c.1) && vstd::pervasive::cloned(self.3, c.3) && vstd::pervasive::cloned(self.4, c.4) && vstd::pervasive::cloned(self.5, c.5) },
                forall|i: int| c0.len() + c1.len() + c2.len() <= i < c0.len() + c1.len() + c2.len() + c3.len() ==> { let c = #[trigger] out@[i]; c.3 == c3[i - (c0.len() + c1.len() + c2.len())] && vstd::pervasive::cloned(self.0, c.0) && vstd::pervasive::cloned(self.1, c.1) && vstd::pervasive::cloned(self.2, c.2) && vstd::pervasive::cloned(self.4, c.4) && vstd::pervasive::cloned(self.5, c.5) },
                forall|i: int| c0.len() + c1.len() + c2.len() + c3.len() <= i < c0.len() + c1.len() + c2.len() + c3.len() + c4.len() ==> { let c = #[trigger] out@[i]; c.4 == c4[i - (c0.len() + c1.len() + c2.len() + c3.len())] && vstd::pervasive::cloned(self.0, c.0) && vstd::pervasive::cloned(self.1, c.1) && vstd::pervasive::cloned(self.2, c.2) && vstd::pervasive::cloned(self.3, c.3) && vstd::pervasive::cloned(self.5, c.5) },
                forall|i: int| c0.len() + c1.len() + c2.len() + c3.len() + c4.len() <= i < c0.len() + c1.len() + c2.len() + c3.len() + c4.len() + j ==> { let c = #[trigger] out@[i]; c.5 == c5[i - (c0.len() + c1.len() + c2.len() + c3.len() + c4.len())] && vstd::pervasive::cloned(self.0, c.0) && vstd::pervasive::cloned(self.1, c.1) && vstd::pervasive::cloned(self.2, c.2) && vstd::pervasive::cloned(self.3, c.3) && vstd::pervasive::cloned(self.4, c.4) },
            decreases simpler@.len(),
        {
            let replacement = simpler.remove(0);
            let k0 = self.0.clone();
            let k1 = self.1.clone();
            let k2 = self.2.clone();
            let k3 = self.3.clone();
            let k4 = self.4.clone();
            let ghost before = out@;
            out.push((k0, k1, k2, k3, k4, replacement));
            proof {
                assert(c5.skip(j)[0] == c5[j]);
                assert(simpler@ =~= c5.skip(j + 1));
                j = j + 1;
                assert forall|i: int| 0 <= i < c0.len() implies {
                    let c = #[trigger] out@[i]; c.0 == c0[i - (0)] && vstd::pervasive::cloned(self.1, c.1) && vstd::pervasive::cloned(self.2, c.2) && vstd::pervasive::cloned(self.3, c.3) && vstd::pervasive::cloned(self.4, c.4) && vstd::pervasive::cloned(self.5, c.5)
                } by {
                    if i < before.len() {
                        assert(out@[i] == before[i]);
                    }
                }
                assert forall|i: int| c0.len() <= i < c0.len() + c1.len() implies {
                    let c = #[trigger] out@[i]; c.1 == c1[i - (c0.len())] && vstd::pervasive::cloned(self.0, c.0) && vstd::pervasive::cloned(self.2, c.2) && vstd::pervasive::cloned(self.3, c.3) && vstd::pervasive::cloned(self.4, c.4) && vstd::pervasive::cloned(self.5, c.5)
                } by {
                    if i < before.len() {
                        assert(out@[i] == before[i]);
                    }
                }
                assert forall|i: int| c0.len() + c1.len() <= i < c0.len() + c1.len() + c2.len() implies {
                    let c = #[trigger] out@[i]; c.2 == c2[i - (c0.len() + c1.len())] && vstd::pervasive::cloned(self.0, c.0) && vstd::pervasive::cloned(self.1, c.1) && vstd::pervasive::cloned(self.3, c.3) && vstd::pervasive::cloned(self.4, c.4) && vstd::pervasive::cloned(self.5, c.5)
                } by {
                    if i < before.len() {
                        assert(out@[i] == before[i]);
                    }
                }
                assert forall|i: int| c0.len() + c1.len() + c2.len() <= i < c0.len() + c1.len() + c2.len() + c3.len() implies {
                    let c = #[trigger] out@[i]; c.3 == c3[i - (c0.len() + c1.len() + c2.len())] && vstd::pervasive::cloned(self.0, c.0) && vstd::pervasive::cloned(self.1, c.1) && vstd::pervasive::cloned(self.2, c.2) && vstd::pervasive::cloned(self.4, c.4) && vstd::pervasive::cloned(self.5, c.5)
                } by {
                    if i < before.len() {
                        assert(out@[i] == before[i]);
                    }
                }
                assert forall|i: int| c0.len() + c1.len() + c2.len() + c3.len() <= i < c0.len() + c1.len() + c2.len() + c3.len() + c4.len() implies {
                    let c = #[trigger] out@[i]; c.4 == c4[i - (c0.len() + c1.len() + c2.len() + c3.len())] && vstd::pervasive::cloned(self.0, c.0) && vstd::pervasive::cloned(self.1, c.1) && vstd::pervasive::cloned(self.2, c.2) && vstd::pervasive::cloned(self.3, c.3) && vstd::pervasive::cloned(self.5, c.5)
                } by {
                    if i < before.len() {
                        assert(out@[i] == before[i]);
                    }
                }
                assert forall|i: int| c0.len() + c1.len() + c2.len() + c3.len() + c4.len() <= i < c0.len() + c1.len() + c2.len() + c3.len() + c4.len() + j implies {
                    let c = #[trigger] out@[i]; c.5 == c5[i - (c0.len() + c1.len() + c2.len() + c3.len() + c4.len())] && vstd::pervasive::cloned(self.0, c.0) && vstd::pervasive::cloned(self.1, c.1) && vstd::pervasive::cloned(self.2, c.2) && vstd::pervasive::cloned(self.3, c.3) && vstd::pervasive::cloned(self.4, c.4)
                } by {
                    if i < before.len() {
                        assert(out@[i] == before[i]);
                    }
                }
            }
        }
        out
    }
}

impl<A: Arbitrary + Clone, B: Arbitrary + Clone, C: Arbitrary + Clone, D: Arbitrary + Clone, E: Arbitrary + Clone, F: Arbitrary + Clone, G: Arbitrary + Clone> Arbitrary for (A, B, C, D, E, F, G) {
    /// Each position generated in turn, from the state the previous one left.
    open spec fn generates(state: u64, size: u32, value: (A, B, C, D, E, F, G), next: u64) -> bool {
        exists|s1: u64| #[trigger] A::generates(state, size, value.0, s1) && exists|s2: u64| #[trigger] B::generates(s1, size, value.1, s2) && exists|s3: u64| #[trigger] C::generates(s2, size, value.2, s3) && exists|s4: u64| #[trigger] D::generates(s3, size, value.3, s4) && exists|s5: u64| #[trigger] E::generates(s4, size, value.4, s5) && exists|s6: u64| #[trigger] F::generates(s5, size, value.5, s6) && G::generates(s6, size, value.6, next)
    }

    /// Each position's own candidates in turn, the other positions clones of
    /// the value's.
    open spec fn shrunk(value: (A, B, C, D, E, F, G), candidates: Seq<(A, B, C, D, E, F, G)>) -> bool {
        exists|s0: Seq<A>| #[trigger] A::shrunk(value.0, s0) && exists|s1: Seq<B>| #[trigger] B::shrunk(value.1, s1) && exists|s2: Seq<C>| #[trigger] C::shrunk(value.2, s2) && exists|s3: Seq<D>| #[trigger] D::shrunk(value.3, s3) && exists|s4: Seq<E>| #[trigger] E::shrunk(value.4, s4) && exists|s5: Seq<F>| #[trigger] F::shrunk(value.5, s5) && exists|s6: Seq<G>| #[trigger] G::shrunk(value.6, s6) && (candidates.len() == s0.len() + s1.len() + s2.len() + s3.len() + s4.len() + s5.len() + s6.len() && forall|i: int| 0 <= i < s0.len() ==> { let c = #[trigger] candidates[i]; c.0 == s0[i - (0)] && vstd::pervasive::cloned(value.1, c.1) && vstd::pervasive::cloned(value.2, c.2) && vstd::pervasive::cloned(value.3, c.3) && vstd::pervasive::cloned(value.4, c.4) && vstd::pervasive::cloned(value.5, c.5) && vstd::pervasive::cloned(value.6, c.6) } && forall|i: int| s0.len() <= i < s0.len() + s1.len() ==> { let c = #[trigger] candidates[i]; c.1 == s1[i - (s0.len())] && vstd::pervasive::cloned(value.0, c.0) && vstd::pervasive::cloned(value.2, c.2) && vstd::pervasive::cloned(value.3, c.3) && vstd::pervasive::cloned(value.4, c.4) && vstd::pervasive::cloned(value.5, c.5) && vstd::pervasive::cloned(value.6, c.6) } && forall|i: int| s0.len() + s1.len() <= i < s0.len() + s1.len() + s2.len() ==> { let c = #[trigger] candidates[i]; c.2 == s2[i - (s0.len() + s1.len())] && vstd::pervasive::cloned(value.0, c.0) && vstd::pervasive::cloned(value.1, c.1) && vstd::pervasive::cloned(value.3, c.3) && vstd::pervasive::cloned(value.4, c.4) && vstd::pervasive::cloned(value.5, c.5) && vstd::pervasive::cloned(value.6, c.6) } && forall|i: int| s0.len() + s1.len() + s2.len() <= i < s0.len() + s1.len() + s2.len() + s3.len() ==> { let c = #[trigger] candidates[i]; c.3 == s3[i - (s0.len() + s1.len() + s2.len())] && vstd::pervasive::cloned(value.0, c.0) && vstd::pervasive::cloned(value.1, c.1) && vstd::pervasive::cloned(value.2, c.2) && vstd::pervasive::cloned(value.4, c.4) && vstd::pervasive::cloned(value.5, c.5) && vstd::pervasive::cloned(value.6, c.6) } && forall|i: int| s0.len() + s1.len() + s2.len() + s3.len() <= i < s0.len() + s1.len() + s2.len() + s3.len() + s4.len() ==> { let c = #[trigger] candidates[i]; c.4 == s4[i - (s0.len() + s1.len() + s2.len() + s3.len())] && vstd::pervasive::cloned(value.0, c.0) && vstd::pervasive::cloned(value.1, c.1) && vstd::pervasive::cloned(value.2, c.2) && vstd::pervasive::cloned(value.3, c.3) && vstd::pervasive::cloned(value.5, c.5) && vstd::pervasive::cloned(value.6, c.6) } && forall|i: int| s0.len() + s1.len() + s2.len() + s3.len() + s4.len() <= i < s0.len() + s1.len() + s2.len() + s3.len() + s4.len() + s5.len() ==> { let c = #[trigger] candidates[i]; c.5 == s5[i - (s0.len() + s1.len() + s2.len() + s3.len() + s4.len())] && vstd::pervasive::cloned(value.0, c.0) && vstd::pervasive::cloned(value.1, c.1) && vstd::pervasive::cloned(value.2, c.2) && vstd::pervasive::cloned(value.3, c.3) && vstd::pervasive::cloned(value.4, c.4) && vstd::pervasive::cloned(value.6, c.6) } && forall|i: int| s0.len() + s1.len() + s2.len() + s3.len() + s4.len() + s5.len() <= i < s0.len() + s1.len() + s2.len() + s3.len() + s4.len() + s5.len() + s6.len() ==> { let c = #[trigger] candidates[i]; c.6 == s6[i - (s0.len() + s1.len() + s2.len() + s3.len() + s4.len() + s5.len())] && vstd::pervasive::cloned(value.0, c.0) && vstd::pervasive::cloned(value.1, c.1) && vstd::pervasive::cloned(value.2, c.2) && vstd::pervasive::cloned(value.3, c.3) && vstd::pervasive::cloned(value.4, c.4) && vstd::pervasive::cloned(value.5, c.5) })
    }

    fn arbitrary(rng: &mut Rng, size: u32) -> (r: (A, B, C, D, E, F, G)) {
        let ghost s0 = rng.state();
        let v0 = A::arbitrary(rng, size);
        let ghost s1 = rng.state();
        let v1 = B::arbitrary(rng, size);
        let ghost s2 = rng.state();
        let v2 = C::arbitrary(rng, size);
        let ghost s3 = rng.state();
        let v3 = D::arbitrary(rng, size);
        let ghost s4 = rng.state();
        let v4 = E::arbitrary(rng, size);
        let ghost s5 = rng.state();
        let v5 = F::arbitrary(rng, size);
        let ghost s6 = rng.state();
        let v6 = G::arbitrary(rng, size);
        let ghost s7 = rng.state();
        let r = (v0, v1, v2, v3, v4, v5, v6);
        proof {
            assert(A::generates(s0, size, r.0, s1));
            assert(B::generates(s1, size, r.1, s2));
            assert(C::generates(s2, size, r.2, s3));
            assert(D::generates(s3, size, r.3, s4));
            assert(E::generates(s4, size, r.4, s5));
            assert(F::generates(s5, size, r.5, s6));
            assert(G::generates(s6, size, r.6, s7));
            assert(exists|w6: u64| #[trigger] F::generates(s5, size, r.5, w6) && G::generates(w6, size, r.6, s7));
            assert(exists|w5: u64| #[trigger] E::generates(s4, size, r.4, w5) && exists|w6: u64| #[trigger] F::generates(w5, size, r.5, w6) && G::generates(w6, size, r.6, s7));
            assert(exists|w4: u64| #[trigger] D::generates(s3, size, r.3, w4) && exists|w5: u64| #[trigger] E::generates(w4, size, r.4, w5) && exists|w6: u64| #[trigger] F::generates(w5, size, r.5, w6) && G::generates(w6, size, r.6, s7));
            assert(exists|w3: u64| #[trigger] C::generates(s2, size, r.2, w3) && exists|w4: u64| #[trigger] D::generates(w3, size, r.3, w4) && exists|w5: u64| #[trigger] E::generates(w4, size, r.4, w5) && exists|w6: u64| #[trigger] F::generates(w5, size, r.5, w6) && G::generates(w6, size, r.6, s7));
            assert(exists|w2: u64| #[trigger] B::generates(s1, size, r.1, w2) && exists|w3: u64| #[trigger] C::generates(w2, size, r.2, w3) && exists|w4: u64| #[trigger] D::generates(w3, size, r.3, w4) && exists|w5: u64| #[trigger] E::generates(w4, size, r.4, w5) && exists|w6: u64| #[trigger] F::generates(w5, size, r.5, w6) && G::generates(w6, size, r.6, s7));
        }
        r
    }

    /// Candidates that simplify one position at a time, in order, holding the
    /// others fixed: each keeps a clone of every other position.
    fn shrink(&self) -> (r: Vec<(A, B, C, D, E, F, G)>) {
        let mut out: Vec<(A, B, C, D, E, F, G)> = Vec::new();
        let mut simpler = self.0.shrink();
        let ghost c0 = simpler@;
        let ghost mut j: int = 0;
        while simpler.len() > 0
            invariant
                A::shrunk(self.0, c0),
                0 <= j <= c0.len(),
                simpler@ == c0.skip(j),
                out@.len() == 0 + j,
                forall|i: int| 0 <= i < 0 + j ==> { let c = #[trigger] out@[i]; c.0 == c0[i - (0)] && vstd::pervasive::cloned(self.1, c.1) && vstd::pervasive::cloned(self.2, c.2) && vstd::pervasive::cloned(self.3, c.3) && vstd::pervasive::cloned(self.4, c.4) && vstd::pervasive::cloned(self.5, c.5) && vstd::pervasive::cloned(self.6, c.6) },
            decreases simpler@.len(),
        {
            let replacement = simpler.remove(0);
            let k1 = self.1.clone();
            let k2 = self.2.clone();
            let k3 = self.3.clone();
            let k4 = self.4.clone();
            let k5 = self.5.clone();
            let k6 = self.6.clone();
            let ghost before = out@;
            out.push((replacement, k1, k2, k3, k4, k5, k6));
            proof {
                assert(c0.skip(j)[0] == c0[j]);
                assert(simpler@ =~= c0.skip(j + 1));
                j = j + 1;
                assert forall|i: int| 0 <= i < 0 + j implies {
                    let c = #[trigger] out@[i]; c.0 == c0[i - (0)] && vstd::pervasive::cloned(self.1, c.1) && vstd::pervasive::cloned(self.2, c.2) && vstd::pervasive::cloned(self.3, c.3) && vstd::pervasive::cloned(self.4, c.4) && vstd::pervasive::cloned(self.5, c.5) && vstd::pervasive::cloned(self.6, c.6)
                } by {
                    if i < before.len() {
                        assert(out@[i] == before[i]);
                    }
                }
            }
        }
        let mut simpler = self.1.shrink();
        let ghost c1 = simpler@;
        let ghost mut j: int = 0;
        while simpler.len() > 0
            invariant
                A::shrunk(self.0, c0),
                B::shrunk(self.1, c1),
                0 <= j <= c1.len(),
                simpler@ == c1.skip(j),
                out@.len() == c0.len() + j,
                forall|i: int| 0 <= i < c0.len() ==> { let c = #[trigger] out@[i]; c.0 == c0[i - (0)] && vstd::pervasive::cloned(self.1, c.1) && vstd::pervasive::cloned(self.2, c.2) && vstd::pervasive::cloned(self.3, c.3) && vstd::pervasive::cloned(self.4, c.4) && vstd::pervasive::cloned(self.5, c.5) && vstd::pervasive::cloned(self.6, c.6) },
                forall|i: int| c0.len() <= i < c0.len() + j ==> { let c = #[trigger] out@[i]; c.1 == c1[i - (c0.len())] && vstd::pervasive::cloned(self.0, c.0) && vstd::pervasive::cloned(self.2, c.2) && vstd::pervasive::cloned(self.3, c.3) && vstd::pervasive::cloned(self.4, c.4) && vstd::pervasive::cloned(self.5, c.5) && vstd::pervasive::cloned(self.6, c.6) },
            decreases simpler@.len(),
        {
            let replacement = simpler.remove(0);
            let k0 = self.0.clone();
            let k2 = self.2.clone();
            let k3 = self.3.clone();
            let k4 = self.4.clone();
            let k5 = self.5.clone();
            let k6 = self.6.clone();
            let ghost before = out@;
            out.push((k0, replacement, k2, k3, k4, k5, k6));
            proof {
                assert(c1.skip(j)[0] == c1[j]);
                assert(simpler@ =~= c1.skip(j + 1));
                j = j + 1;
                assert forall|i: int| 0 <= i < c0.len() implies {
                    let c = #[trigger] out@[i]; c.0 == c0[i - (0)] && vstd::pervasive::cloned(self.1, c.1) && vstd::pervasive::cloned(self.2, c.2) && vstd::pervasive::cloned(self.3, c.3) && vstd::pervasive::cloned(self.4, c.4) && vstd::pervasive::cloned(self.5, c.5) && vstd::pervasive::cloned(self.6, c.6)
                } by {
                    if i < before.len() {
                        assert(out@[i] == before[i]);
                    }
                }
                assert forall|i: int| c0.len() <= i < c0.len() + j implies {
                    let c = #[trigger] out@[i]; c.1 == c1[i - (c0.len())] && vstd::pervasive::cloned(self.0, c.0) && vstd::pervasive::cloned(self.2, c.2) && vstd::pervasive::cloned(self.3, c.3) && vstd::pervasive::cloned(self.4, c.4) && vstd::pervasive::cloned(self.5, c.5) && vstd::pervasive::cloned(self.6, c.6)
                } by {
                    if i < before.len() {
                        assert(out@[i] == before[i]);
                    }
                }
            }
        }
        let mut simpler = self.2.shrink();
        let ghost c2 = simpler@;
        let ghost mut j: int = 0;
        while simpler.len() > 0
            invariant
                A::shrunk(self.0, c0),
                B::shrunk(self.1, c1),
                C::shrunk(self.2, c2),
                0 <= j <= c2.len(),
                simpler@ == c2.skip(j),
                out@.len() == c0.len() + c1.len() + j,
                forall|i: int| 0 <= i < c0.len() ==> { let c = #[trigger] out@[i]; c.0 == c0[i - (0)] && vstd::pervasive::cloned(self.1, c.1) && vstd::pervasive::cloned(self.2, c.2) && vstd::pervasive::cloned(self.3, c.3) && vstd::pervasive::cloned(self.4, c.4) && vstd::pervasive::cloned(self.5, c.5) && vstd::pervasive::cloned(self.6, c.6) },
                forall|i: int| c0.len() <= i < c0.len() + c1.len() ==> { let c = #[trigger] out@[i]; c.1 == c1[i - (c0.len())] && vstd::pervasive::cloned(self.0, c.0) && vstd::pervasive::cloned(self.2, c.2) && vstd::pervasive::cloned(self.3, c.3) && vstd::pervasive::cloned(self.4, c.4) && vstd::pervasive::cloned(self.5, c.5) && vstd::pervasive::cloned(self.6, c.6) },
                forall|i: int| c0.len() + c1.len() <= i < c0.len() + c1.len() + j ==> { let c = #[trigger] out@[i]; c.2 == c2[i - (c0.len() + c1.len())] && vstd::pervasive::cloned(self.0, c.0) && vstd::pervasive::cloned(self.1, c.1) && vstd::pervasive::cloned(self.3, c.3) && vstd::pervasive::cloned(self.4, c.4) && vstd::pervasive::cloned(self.5, c.5) && vstd::pervasive::cloned(self.6, c.6) },
            decreases simpler@.len(),
        {
            let replacement = simpler.remove(0);
            let k0 = self.0.clone();
            let k1 = self.1.clone();
            let k3 = self.3.clone();
            let k4 = self.4.clone();
            let k5 = self.5.clone();
            let k6 = self.6.clone();
            let ghost before = out@;
            out.push((k0, k1, replacement, k3, k4, k5, k6));
            proof {
                assert(c2.skip(j)[0] == c2[j]);
                assert(simpler@ =~= c2.skip(j + 1));
                j = j + 1;
                assert forall|i: int| 0 <= i < c0.len() implies {
                    let c = #[trigger] out@[i]; c.0 == c0[i - (0)] && vstd::pervasive::cloned(self.1, c.1) && vstd::pervasive::cloned(self.2, c.2) && vstd::pervasive::cloned(self.3, c.3) && vstd::pervasive::cloned(self.4, c.4) && vstd::pervasive::cloned(self.5, c.5) && vstd::pervasive::cloned(self.6, c.6)
                } by {
                    if i < before.len() {
                        assert(out@[i] == before[i]);
                    }
                }
                assert forall|i: int| c0.len() <= i < c0.len() + c1.len() implies {
                    let c = #[trigger] out@[i]; c.1 == c1[i - (c0.len())] && vstd::pervasive::cloned(self.0, c.0) && vstd::pervasive::cloned(self.2, c.2) && vstd::pervasive::cloned(self.3, c.3) && vstd::pervasive::cloned(self.4, c.4) && vstd::pervasive::cloned(self.5, c.5) && vstd::pervasive::cloned(self.6, c.6)
                } by {
                    if i < before.len() {
                        assert(out@[i] == before[i]);
                    }
                }
                assert forall|i: int| c0.len() + c1.len() <= i < c0.len() + c1.len() + j implies {
                    let c = #[trigger] out@[i]; c.2 == c2[i - (c0.len() + c1.len())] && vstd::pervasive::cloned(self.0, c.0) && vstd::pervasive::cloned(self.1, c.1) && vstd::pervasive::cloned(self.3, c.3) && vstd::pervasive::cloned(self.4, c.4) && vstd::pervasive::cloned(self.5, c.5) && vstd::pervasive::cloned(self.6, c.6)
                } by {
                    if i < before.len() {
                        assert(out@[i] == before[i]);
                    }
                }
            }
        }
        let mut simpler = self.3.shrink();
        let ghost c3 = simpler@;
        let ghost mut j: int = 0;
        while simpler.len() > 0
            invariant
                A::shrunk(self.0, c0),
                B::shrunk(self.1, c1),
                C::shrunk(self.2, c2),
                D::shrunk(self.3, c3),
                0 <= j <= c3.len(),
                simpler@ == c3.skip(j),
                out@.len() == c0.len() + c1.len() + c2.len() + j,
                forall|i: int| 0 <= i < c0.len() ==> { let c = #[trigger] out@[i]; c.0 == c0[i - (0)] && vstd::pervasive::cloned(self.1, c.1) && vstd::pervasive::cloned(self.2, c.2) && vstd::pervasive::cloned(self.3, c.3) && vstd::pervasive::cloned(self.4, c.4) && vstd::pervasive::cloned(self.5, c.5) && vstd::pervasive::cloned(self.6, c.6) },
                forall|i: int| c0.len() <= i < c0.len() + c1.len() ==> { let c = #[trigger] out@[i]; c.1 == c1[i - (c0.len())] && vstd::pervasive::cloned(self.0, c.0) && vstd::pervasive::cloned(self.2, c.2) && vstd::pervasive::cloned(self.3, c.3) && vstd::pervasive::cloned(self.4, c.4) && vstd::pervasive::cloned(self.5, c.5) && vstd::pervasive::cloned(self.6, c.6) },
                forall|i: int| c0.len() + c1.len() <= i < c0.len() + c1.len() + c2.len() ==> { let c = #[trigger] out@[i]; c.2 == c2[i - (c0.len() + c1.len())] && vstd::pervasive::cloned(self.0, c.0) && vstd::pervasive::cloned(self.1, c.1) && vstd::pervasive::cloned(self.3, c.3) && vstd::pervasive::cloned(self.4, c.4) && vstd::pervasive::cloned(self.5, c.5) && vstd::pervasive::cloned(self.6, c.6) },
                forall|i: int| c0.len() + c1.len() + c2.len() <= i < c0.len() + c1.len() + c2.len() + j ==> { let c = #[trigger] out@[i]; c.3 == c3[i - (c0.len() + c1.len() + c2.len())] && vstd::pervasive::cloned(self.0, c.0) && vstd::pervasive::cloned(self.1, c.1) && vstd::pervasive::cloned(self.2, c.2) && vstd::pervasive::cloned(self.4, c.4) && vstd::pervasive::cloned(self.5, c.5) && vstd::pervasive::cloned(self.6, c.6) },
            decreases simpler@.len(),
        {
            let replacement = simpler.remove(0);
            let k0 = self.0.clone();
            let k1 = self.1.clone();
            let k2 = self.2.clone();
            let k4 = self.4.clone();
            let k5 = self.5.clone();
            let k6 = self.6.clone();
            let ghost before = out@;
            out.push((k0, k1, k2, replacement, k4, k5, k6));
            proof {
                assert(c3.skip(j)[0] == c3[j]);
                assert(simpler@ =~= c3.skip(j + 1));
                j = j + 1;
                assert forall|i: int| 0 <= i < c0.len() implies {
                    let c = #[trigger] out@[i]; c.0 == c0[i - (0)] && vstd::pervasive::cloned(self.1, c.1) && vstd::pervasive::cloned(self.2, c.2) && vstd::pervasive::cloned(self.3, c.3) && vstd::pervasive::cloned(self.4, c.4) && vstd::pervasive::cloned(self.5, c.5) && vstd::pervasive::cloned(self.6, c.6)
                } by {
                    if i < before.len() {
                        assert(out@[i] == before[i]);
                    }
                }
                assert forall|i: int| c0.len() <= i < c0.len() + c1.len() implies {
                    let c = #[trigger] out@[i]; c.1 == c1[i - (c0.len())] && vstd::pervasive::cloned(self.0, c.0) && vstd::pervasive::cloned(self.2, c.2) && vstd::pervasive::cloned(self.3, c.3) && vstd::pervasive::cloned(self.4, c.4) && vstd::pervasive::cloned(self.5, c.5) && vstd::pervasive::cloned(self.6, c.6)
                } by {
                    if i < before.len() {
                        assert(out@[i] == before[i]);
                    }
                }
                assert forall|i: int| c0.len() + c1.len() <= i < c0.len() + c1.len() + c2.len() implies {
                    let c = #[trigger] out@[i]; c.2 == c2[i - (c0.len() + c1.len())] && vstd::pervasive::cloned(self.0, c.0) && vstd::pervasive::cloned(self.1, c.1) && vstd::pervasive::cloned(self.3, c.3) && vstd::pervasive::cloned(self.4, c.4) && vstd::pervasive::cloned(self.5, c.5) && vstd::pervasive::cloned(self.6, c.6)
                } by {
                    if i < before.len() {
                        assert(out@[i] == before[i]);
                    }
                }
                assert forall|i: int| c0.len() + c1.len() + c2.len() <= i < c0.len() + c1.len() + c2.len() + j implies {
                    let c = #[trigger] out@[i]; c.3 == c3[i - (c0.len() + c1.len() + c2.len())] && vstd::pervasive::cloned(self.0, c.0) && vstd::pervasive::cloned(self.1, c.1) && vstd::pervasive::cloned(self.2, c.2) && vstd::pervasive::cloned(self.4, c.4) && vstd::pervasive::cloned(self.5, c.5) && vstd::pervasive::cloned(self.6, c.6)
                } by {
                    if i < before.len() {
                        assert(out@[i] == before[i]);
                    }
                }
            }
        }
        let mut simpler = self.4.shrink();
        let ghost c4 = simpler@;
        let ghost mut j: int = 0;
        while simpler.len() > 0
            invariant
                A::shrunk(self.0, c0),
                B::shrunk(self.1, c1),
                C::shrunk(self.2, c2),
                D::shrunk(self.3, c3),
                E::shrunk(self.4, c4),
                0 <= j <= c4.len(),
                simpler@ == c4.skip(j),
                out@.len() == c0.len() + c1.len() + c2.len() + c3.len() + j,
                forall|i: int| 0 <= i < c0.len() ==> { let c = #[trigger] out@[i]; c.0 == c0[i - (0)] && vstd::pervasive::cloned(self.1, c.1) && vstd::pervasive::cloned(self.2, c.2) && vstd::pervasive::cloned(self.3, c.3) && vstd::pervasive::cloned(self.4, c.4) && vstd::pervasive::cloned(self.5, c.5) && vstd::pervasive::cloned(self.6, c.6) },
                forall|i: int| c0.len() <= i < c0.len() + c1.len() ==> { let c = #[trigger] out@[i]; c.1 == c1[i - (c0.len())] && vstd::pervasive::cloned(self.0, c.0) && vstd::pervasive::cloned(self.2, c.2) && vstd::pervasive::cloned(self.3, c.3) && vstd::pervasive::cloned(self.4, c.4) && vstd::pervasive::cloned(self.5, c.5) && vstd::pervasive::cloned(self.6, c.6) },
                forall|i: int| c0.len() + c1.len() <= i < c0.len() + c1.len() + c2.len() ==> { let c = #[trigger] out@[i]; c.2 == c2[i - (c0.len() + c1.len())] && vstd::pervasive::cloned(self.0, c.0) && vstd::pervasive::cloned(self.1, c.1) && vstd::pervasive::cloned(self.3, c.3) && vstd::pervasive::cloned(self.4, c.4) && vstd::pervasive::cloned(self.5, c.5) && vstd::pervasive::cloned(self.6, c.6) },
                forall|i: int| c0.len() + c1.len() + c2.len() <= i < c0.len() + c1.len() + c2.len() + c3.len() ==> { let c = #[trigger] out@[i]; c.3 == c3[i - (c0.len() + c1.len() + c2.len())] && vstd::pervasive::cloned(self.0, c.0) && vstd::pervasive::cloned(self.1, c.1) && vstd::pervasive::cloned(self.2, c.2) && vstd::pervasive::cloned(self.4, c.4) && vstd::pervasive::cloned(self.5, c.5) && vstd::pervasive::cloned(self.6, c.6) },
                forall|i: int| c0.len() + c1.len() + c2.len() + c3.len() <= i < c0.len() + c1.len() + c2.len() + c3.len() + j ==> { let c = #[trigger] out@[i]; c.4 == c4[i - (c0.len() + c1.len() + c2.len() + c3.len())] && vstd::pervasive::cloned(self.0, c.0) && vstd::pervasive::cloned(self.1, c.1) && vstd::pervasive::cloned(self.2, c.2) && vstd::pervasive::cloned(self.3, c.3) && vstd::pervasive::cloned(self.5, c.5) && vstd::pervasive::cloned(self.6, c.6) },
            decreases simpler@.len(),
        {
            let replacement = simpler.remove(0);
            let k0 = self.0.clone();
            let k1 = self.1.clone();
            let k2 = self.2.clone();
            let k3 = self.3.clone();
            let k5 = self.5.clone();
            let k6 = self.6.clone();
            let ghost before = out@;
            out.push((k0, k1, k2, k3, replacement, k5, k6));
            proof {
                assert(c4.skip(j)[0] == c4[j]);
                assert(simpler@ =~= c4.skip(j + 1));
                j = j + 1;
                assert forall|i: int| 0 <= i < c0.len() implies {
                    let c = #[trigger] out@[i]; c.0 == c0[i - (0)] && vstd::pervasive::cloned(self.1, c.1) && vstd::pervasive::cloned(self.2, c.2) && vstd::pervasive::cloned(self.3, c.3) && vstd::pervasive::cloned(self.4, c.4) && vstd::pervasive::cloned(self.5, c.5) && vstd::pervasive::cloned(self.6, c.6)
                } by {
                    if i < before.len() {
                        assert(out@[i] == before[i]);
                    }
                }
                assert forall|i: int| c0.len() <= i < c0.len() + c1.len() implies {
                    let c = #[trigger] out@[i]; c.1 == c1[i - (c0.len())] && vstd::pervasive::cloned(self.0, c.0) && vstd::pervasive::cloned(self.2, c.2) && vstd::pervasive::cloned(self.3, c.3) && vstd::pervasive::cloned(self.4, c.4) && vstd::pervasive::cloned(self.5, c.5) && vstd::pervasive::cloned(self.6, c.6)
                } by {
                    if i < before.len() {
                        assert(out@[i] == before[i]);
                    }
                }
                assert forall|i: int| c0.len() + c1.len() <= i < c0.len() + c1.len() + c2.len() implies {
                    let c = #[trigger] out@[i]; c.2 == c2[i - (c0.len() + c1.len())] && vstd::pervasive::cloned(self.0, c.0) && vstd::pervasive::cloned(self.1, c.1) && vstd::pervasive::cloned(self.3, c.3) && vstd::pervasive::cloned(self.4, c.4) && vstd::pervasive::cloned(self.5, c.5) && vstd::pervasive::cloned(self.6, c.6)
                } by {
                    if i < before.len() {
                        assert(out@[i] == before[i]);
                    }
                }
                assert forall|i: int| c0.len() + c1.len() + c2.len() <= i < c0.len() + c1.len() + c2.len() + c3.len() implies {
                    let c = #[trigger] out@[i]; c.3 == c3[i - (c0.len() + c1.len() + c2.len())] && vstd::pervasive::cloned(self.0, c.0) && vstd::pervasive::cloned(self.1, c.1) && vstd::pervasive::cloned(self.2, c.2) && vstd::pervasive::cloned(self.4, c.4) && vstd::pervasive::cloned(self.5, c.5) && vstd::pervasive::cloned(self.6, c.6)
                } by {
                    if i < before.len() {
                        assert(out@[i] == before[i]);
                    }
                }
                assert forall|i: int| c0.len() + c1.len() + c2.len() + c3.len() <= i < c0.len() + c1.len() + c2.len() + c3.len() + j implies {
                    let c = #[trigger] out@[i]; c.4 == c4[i - (c0.len() + c1.len() + c2.len() + c3.len())] && vstd::pervasive::cloned(self.0, c.0) && vstd::pervasive::cloned(self.1, c.1) && vstd::pervasive::cloned(self.2, c.2) && vstd::pervasive::cloned(self.3, c.3) && vstd::pervasive::cloned(self.5, c.5) && vstd::pervasive::cloned(self.6, c.6)
                } by {
                    if i < before.len() {
                        assert(out@[i] == before[i]);
                    }
                }
            }
        }
        let mut simpler = self.5.shrink();
        let ghost c5 = simpler@;
        let ghost mut j: int = 0;
        while simpler.len() > 0
            invariant
                A::shrunk(self.0, c0),
                B::shrunk(self.1, c1),
                C::shrunk(self.2, c2),
                D::shrunk(self.3, c3),
                E::shrunk(self.4, c4),
                F::shrunk(self.5, c5),
                0 <= j <= c5.len(),
                simpler@ == c5.skip(j),
                out@.len() == c0.len() + c1.len() + c2.len() + c3.len() + c4.len() + j,
                forall|i: int| 0 <= i < c0.len() ==> { let c = #[trigger] out@[i]; c.0 == c0[i - (0)] && vstd::pervasive::cloned(self.1, c.1) && vstd::pervasive::cloned(self.2, c.2) && vstd::pervasive::cloned(self.3, c.3) && vstd::pervasive::cloned(self.4, c.4) && vstd::pervasive::cloned(self.5, c.5) && vstd::pervasive::cloned(self.6, c.6) },
                forall|i: int| c0.len() <= i < c0.len() + c1.len() ==> { let c = #[trigger] out@[i]; c.1 == c1[i - (c0.len())] && vstd::pervasive::cloned(self.0, c.0) && vstd::pervasive::cloned(self.2, c.2) && vstd::pervasive::cloned(self.3, c.3) && vstd::pervasive::cloned(self.4, c.4) && vstd::pervasive::cloned(self.5, c.5) && vstd::pervasive::cloned(self.6, c.6) },
                forall|i: int| c0.len() + c1.len() <= i < c0.len() + c1.len() + c2.len() ==> { let c = #[trigger] out@[i]; c.2 == c2[i - (c0.len() + c1.len())] && vstd::pervasive::cloned(self.0, c.0) && vstd::pervasive::cloned(self.1, c.1) && vstd::pervasive::cloned(self.3, c.3) && vstd::pervasive::cloned(self.4, c.4) && vstd::pervasive::cloned(self.5, c.5) && vstd::pervasive::cloned(self.6, c.6) },
                forall|i: int| c0.len() + c1.len() + c2.len() <= i < c0.len() + c1.len() + c2.len() + c3.len() ==> { let c = #[trigger] out@[i]; c.3 == c3[i - (c0.len() + c1.len() + c2.len())] && vstd::pervasive::cloned(self.0, c.0) && vstd::pervasive::cloned(self.1, c.1) && vstd::pervasive::cloned(self.2, c.2) && vstd::pervasive::cloned(self.4, c.4) && vstd::pervasive::cloned(self.5, c.5) && vstd::pervasive::cloned(self.6, c.6) },
                forall|i: int| c0.len() + c1.len() + c2.len() + c3.len() <= i < c0.len() + c1.len() + c2.len() + c3.len() + c4.len() ==> { let c = #[trigger] out@[i]; c.4 == c4[i - (c0.len() + c1.len() + c2.len() + c3.len())] && vstd::pervasive::cloned(self.0, c.0) && vstd::pervasive::cloned(self.1, c.1) && vstd::pervasive::cloned(self.2, c.2) && vstd::pervasive::cloned(self.3, c.3) && vstd::pervasive::cloned(self.5, c.5) && vstd::pervasive::cloned(self.6, c.6) },
                forall|i: int| c0.len() + c1.len() + c2.len() + c3.len() + c4.len() <= i < c0.len() + c1.len() + c2.len() + c3.len() + c4.len() + j ==> { let c = #[trigger] out@[i]; c.5 == c5[i - (c0.len() + c1.len() + c2.len() + c3.len() + c4.len())] && vstd::pervasive::cloned(self.0, c.0) && vstd::pervasive::cloned(self.1, c.1) && vstd::pervasive::cloned(self.2, c.2) && vstd::pervasive::cloned(self.3, c.3) && vstd::pervasive::cloned(self.4, c.4) && vstd::pervasive::cloned(self.6, c.6) },
            decreases simpler@.len(),
        {
            let replacement = simpler.remove(0);
            let k0 = self.0.clone();
            let k1 = self.1.clone();
            let k2 = self.2.clone();
            let k3 = self.3.clone();
            let k4 = self.4.clone();
            let k6 = self.6.clone();
            let ghost before = out@;
            out.push((k0, k1, k2, k3, k4, replacement, k6));
            proof {
                assert(c5.skip(j)[0] == c5[j]);
                assert(simpler@ =~= c5.skip(j + 1));
                j = j + 1;
                assert forall|i: int| 0 <= i < c0.len() implies {
                    let c = #[trigger] out@[i]; c.0 == c0[i - (0)] && vstd::pervasive::cloned(self.1, c.1) && vstd::pervasive::cloned(self.2, c.2) && vstd::pervasive::cloned(self.3, c.3) && vstd::pervasive::cloned(self.4, c.4) && vstd::pervasive::cloned(self.5, c.5) && vstd::pervasive::cloned(self.6, c.6)
                } by {
                    if i < before.len() {
                        assert(out@[i] == before[i]);
                    }
                }
                assert forall|i: int| c0.len() <= i < c0.len() + c1.len() implies {
                    let c = #[trigger] out@[i]; c.1 == c1[i - (c0.len())] && vstd::pervasive::cloned(self.0, c.0) && vstd::pervasive::cloned(self.2, c.2) && vstd::pervasive::cloned(self.3, c.3) && vstd::pervasive::cloned(self.4, c.4) && vstd::pervasive::cloned(self.5, c.5) && vstd::pervasive::cloned(self.6, c.6)
                } by {
                    if i < before.len() {
                        assert(out@[i] == before[i]);
                    }
                }
                assert forall|i: int| c0.len() + c1.len() <= i < c0.len() + c1.len() + c2.len() implies {
                    let c = #[trigger] out@[i]; c.2 == c2[i - (c0.len() + c1.len())] && vstd::pervasive::cloned(self.0, c.0) && vstd::pervasive::cloned(self.1, c.1) && vstd::pervasive::cloned(self.3, c.3) && vstd::pervasive::cloned(self.4, c.4) && vstd::pervasive::cloned(self.5, c.5) && vstd::pervasive::cloned(self.6, c.6)
                } by {
                    if i < before.len() {
                        assert(out@[i] == before[i]);
                    }
                }
                assert forall|i: int| c0.len() + c1.len() + c2.len() <= i < c0.len() + c1.len() + c2.len() + c3.len() implies {
                    let c = #[trigger] out@[i]; c.3 == c3[i - (c0.len() + c1.len() + c2.len())] && vstd::pervasive::cloned(self.0, c.0) && vstd::pervasive::cloned(self.1, c.1) && vstd::pervasive::cloned(self.2, c.2) && vstd::pervasive::cloned(self.4, c.4) && vstd::pervasive::cloned(self.5, c.5) && vstd::pervasive::cloned(self.6, c.6)
                } by {
                    if i < before.len() {
                        assert(out@[i] == before[i]);
                    }
                }
                assert forall|i: int| c0.len() + c1.len() + c2.len() + c3.len() <= i < c0.len() + c1.len() + c2.len() + c3.len() + c4.len() implies {
                    let c = #[trigger] out@[i]; c.4 == c4[i - (c0.len() + c1.len() + c2.len() + c3.len())] && vstd::pervasive::cloned(self.0, c.0) && vstd::pervasive::cloned(self.1, c.1) && vstd::pervasive::cloned(self.2, c.2) && vstd::pervasive::cloned(self.3, c.3) && vstd::pervasive::cloned(self.5, c.5) && vstd::pervasive::cloned(self.6, c.6)
                } by {
                    if i < before.len() {
                        assert(out@[i] == before[i]);
                    }
                }
                assert forall|i: int| c0.len() + c1.len() + c2.len() + c3.len() + c4.len() <= i < c0.len() + c1.len() + c2.len() + c3.len() + c4.len() + j implies {
                    let c = #[trigger] out@[i]; c.5 == c5[i - (c0.len() + c1.len() + c2.len() + c3.len() + c4.len())] && vstd::pervasive::cloned(self.0, c.0) && vstd::pervasive::cloned(self.1, c.1) && vstd::pervasive::cloned(self.2, c.2) && vstd::pervasive::cloned(self.3, c.3) && vstd::pervasive::cloned(self.4, c.4) && vstd::pervasive::cloned(self.6, c.6)
                } by {
                    if i < before.len() {
                        assert(out@[i] == before[i]);
                    }
                }
            }
        }
        let mut simpler = self.6.shrink();
        let ghost c6 = simpler@;
        let ghost mut j: int = 0;
        while simpler.len() > 0
            invariant
                A::shrunk(self.0, c0),
                B::shrunk(self.1, c1),
                C::shrunk(self.2, c2),
                D::shrunk(self.3, c3),
                E::shrunk(self.4, c4),
                F::shrunk(self.5, c5),
                G::shrunk(self.6, c6),
                0 <= j <= c6.len(),
                simpler@ == c6.skip(j),
                out@.len() == c0.len() + c1.len() + c2.len() + c3.len() + c4.len() + c5.len() + j,
                forall|i: int| 0 <= i < c0.len() ==> { let c = #[trigger] out@[i]; c.0 == c0[i - (0)] && vstd::pervasive::cloned(self.1, c.1) && vstd::pervasive::cloned(self.2, c.2) && vstd::pervasive::cloned(self.3, c.3) && vstd::pervasive::cloned(self.4, c.4) && vstd::pervasive::cloned(self.5, c.5) && vstd::pervasive::cloned(self.6, c.6) },
                forall|i: int| c0.len() <= i < c0.len() + c1.len() ==> { let c = #[trigger] out@[i]; c.1 == c1[i - (c0.len())] && vstd::pervasive::cloned(self.0, c.0) && vstd::pervasive::cloned(self.2, c.2) && vstd::pervasive::cloned(self.3, c.3) && vstd::pervasive::cloned(self.4, c.4) && vstd::pervasive::cloned(self.5, c.5) && vstd::pervasive::cloned(self.6, c.6) },
                forall|i: int| c0.len() + c1.len() <= i < c0.len() + c1.len() + c2.len() ==> { let c = #[trigger] out@[i]; c.2 == c2[i - (c0.len() + c1.len())] && vstd::pervasive::cloned(self.0, c.0) && vstd::pervasive::cloned(self.1, c.1) && vstd::pervasive::cloned(self.3, c.3) && vstd::pervasive::cloned(self.4, c.4) && vstd::pervasive::cloned(self.5, c.5) && vstd::pervasive::cloned(self.6, c.6) },
                forall|i: int| c0.len() + c1.len() + c2.len() <= i < c0.len() + c1.len() + c2.len() + c3.len() ==> { let c = #[trigger] out@[i]; c.3 == c3[i - (c0.len() + c1.len() + c2.len())] && vstd::pervasive::cloned(self.0, c.0) && vstd::pervasive::cloned(self.1, c.1) && vstd::pervasive::cloned(self.2, c.2) && vstd::pervasive::cloned(self.4, c.4) && vstd::pervasive::cloned(self.5, c.5) && vstd::pervasive::cloned(self.6, c.6) },
                forall|i: int| c0.len() + c1.len() + c2.len() + c3.len() <= i < c0.len() + c1.len() + c2.len() + c3.len() + c4.len() ==> { let c = #[trigger] out@[i]; c.4 == c4[i - (c0.len() + c1.len() + c2.len() + c3.len())] && vstd::pervasive::cloned(self.0, c.0) && vstd::pervasive::cloned(self.1, c.1) && vstd::pervasive::cloned(self.2, c.2) && vstd::pervasive::cloned(self.3, c.3) && vstd::pervasive::cloned(self.5, c.5) && vstd::pervasive::cloned(self.6, c.6) },
                forall|i: int| c0.len() + c1.len() + c2.len() + c3.len() + c4.len() <= i < c0.len() + c1.len() + c2.len() + c3.len() + c4.len() + c5.len() ==> { let c = #[trigger] out@[i]; c.5 == c5[i - (c0.len() + c1.len() + c2.len() + c3.len() + c4.len())] && vstd::pervasive::cloned(self.0, c.0) && vstd::pervasive::cloned(self.1, c.1) && vstd::pervasive::cloned(self.2, c.2) && vstd::pervasive::cloned(self.3, c.3) && vstd::pervasive::cloned(self.4, c.4) && vstd::pervasive::cloned(self.6, c.6) },
                forall|i: int| c0.len() + c1.len() + c2.len() + c3.len() + c4.len() + c5.len() <= i < c0.len() + c1.len() + c2.len() + c3.len() + c4.len() + c5.len() + j ==> { let c = #[trigger] out@[i]; c.6 == c6[i - (c0.len() + c1.len() + c2.len() + c3.len() + c4.len() + c5.len())] && vstd::pervasive::cloned(self.0, c.0) && vstd::pervasive::cloned(self.1, c.1) && vstd::pervasive::cloned(self.2, c.2) && vstd::pervasive::cloned(self.3, c.3) && vstd::pervasive::cloned(self.4, c.4) && vstd::pervasive::cloned(self.5, c.5) },
            decreases simpler@.len(),
        {
            let replacement = simpler.remove(0);
            let k0 = self.0.clone();
            let k1 = self.1.clone();
            let k2 = self.2.clone();
            let k3 = self.3.clone();
            let k4 = self.4.clone();
            let k5 = self.5.clone();
            let ghost before = out@;
            out.push((k0, k1, k2, k3, k4, k5, replacement));
            proof {
                assert(c6.skip(j)[0] == c6[j]);
                assert(simpler@ =~= c6.skip(j + 1));
                j = j + 1;
                assert forall|i: int| 0 <= i < c0.len() implies {
                    let c = #[trigger] out@[i]; c.0 == c0[i - (0)] && vstd::pervasive::cloned(self.1, c.1) && vstd::pervasive::cloned(self.2, c.2) && vstd::pervasive::cloned(self.3, c.3) && vstd::pervasive::cloned(self.4, c.4) && vstd::pervasive::cloned(self.5, c.5) && vstd::pervasive::cloned(self.6, c.6)
                } by {
                    if i < before.len() {
                        assert(out@[i] == before[i]);
                    }
                }
                assert forall|i: int| c0.len() <= i < c0.len() + c1.len() implies {
                    let c = #[trigger] out@[i]; c.1 == c1[i - (c0.len())] && vstd::pervasive::cloned(self.0, c.0) && vstd::pervasive::cloned(self.2, c.2) && vstd::pervasive::cloned(self.3, c.3) && vstd::pervasive::cloned(self.4, c.4) && vstd::pervasive::cloned(self.5, c.5) && vstd::pervasive::cloned(self.6, c.6)
                } by {
                    if i < before.len() {
                        assert(out@[i] == before[i]);
                    }
                }
                assert forall|i: int| c0.len() + c1.len() <= i < c0.len() + c1.len() + c2.len() implies {
                    let c = #[trigger] out@[i]; c.2 == c2[i - (c0.len() + c1.len())] && vstd::pervasive::cloned(self.0, c.0) && vstd::pervasive::cloned(self.1, c.1) && vstd::pervasive::cloned(self.3, c.3) && vstd::pervasive::cloned(self.4, c.4) && vstd::pervasive::cloned(self.5, c.5) && vstd::pervasive::cloned(self.6, c.6)
                } by {
                    if i < before.len() {
                        assert(out@[i] == before[i]);
                    }
                }
                assert forall|i: int| c0.len() + c1.len() + c2.len() <= i < c0.len() + c1.len() + c2.len() + c3.len() implies {
                    let c = #[trigger] out@[i]; c.3 == c3[i - (c0.len() + c1.len() + c2.len())] && vstd::pervasive::cloned(self.0, c.0) && vstd::pervasive::cloned(self.1, c.1) && vstd::pervasive::cloned(self.2, c.2) && vstd::pervasive::cloned(self.4, c.4) && vstd::pervasive::cloned(self.5, c.5) && vstd::pervasive::cloned(self.6, c.6)
                } by {
                    if i < before.len() {
                        assert(out@[i] == before[i]);
                    }
                }
                assert forall|i: int| c0.len() + c1.len() + c2.len() + c3.len() <= i < c0.len() + c1.len() + c2.len() + c3.len() + c4.len() implies {
                    let c = #[trigger] out@[i]; c.4 == c4[i - (c0.len() + c1.len() + c2.len() + c3.len())] && vstd::pervasive::cloned(self.0, c.0) && vstd::pervasive::cloned(self.1, c.1) && vstd::pervasive::cloned(self.2, c.2) && vstd::pervasive::cloned(self.3, c.3) && vstd::pervasive::cloned(self.5, c.5) && vstd::pervasive::cloned(self.6, c.6)
                } by {
                    if i < before.len() {
                        assert(out@[i] == before[i]);
                    }
                }
                assert forall|i: int| c0.len() + c1.len() + c2.len() + c3.len() + c4.len() <= i < c0.len() + c1.len() + c2.len() + c3.len() + c4.len() + c5.len() implies {
                    let c = #[trigger] out@[i]; c.5 == c5[i - (c0.len() + c1.len() + c2.len() + c3.len() + c4.len())] && vstd::pervasive::cloned(self.0, c.0) && vstd::pervasive::cloned(self.1, c.1) && vstd::pervasive::cloned(self.2, c.2) && vstd::pervasive::cloned(self.3, c.3) && vstd::pervasive::cloned(self.4, c.4) && vstd::pervasive::cloned(self.6, c.6)
                } by {
                    if i < before.len() {
                        assert(out@[i] == before[i]);
                    }
                }
                assert forall|i: int| c0.len() + c1.len() + c2.len() + c3.len() + c4.len() + c5.len() <= i < c0.len() + c1.len() + c2.len() + c3.len() + c4.len() + c5.len() + j implies {
                    let c = #[trigger] out@[i]; c.6 == c6[i - (c0.len() + c1.len() + c2.len() + c3.len() + c4.len() + c5.len())] && vstd::pervasive::cloned(self.0, c.0) && vstd::pervasive::cloned(self.1, c.1) && vstd::pervasive::cloned(self.2, c.2) && vstd::pervasive::cloned(self.3, c.3) && vstd::pervasive::cloned(self.4, c.4) && vstd::pervasive::cloned(self.5, c.5)
                } by {
                    if i < before.len() {
                        assert(out@[i] == before[i]);
                    }
                }
            }
        }
        out
    }
}

impl<A: Arbitrary + Clone, B: Arbitrary + Clone, C: Arbitrary + Clone, D: Arbitrary + Clone, E: Arbitrary + Clone, F: Arbitrary + Clone, G: Arbitrary + Clone, H: Arbitrary + Clone> Arbitrary for (A, B, C, D, E, F, G, H) {
    /// Each position generated in turn, from the state the previous one left.
    open spec fn generates(state: u64, size: u32, value: (A, B, C, D, E, F, G, H), next: u64) -> bool {
        exists|s1: u64| #[trigger] A::generates(state, size, value.0, s1) && exists|s2: u64| #[trigger] B::generates(s1, size, value.1, s2) && exists|s3: u64| #[trigger] C::generates(s2, size, value.2, s3) && exists|s4: u64| #[trigger] D::generates(s3, size, value.3, s4) && exists|s5: u64| #[trigger] E::generates(s4, size, value.4, s5) && exists|s6: u64| #[trigger] F::generates(s5, size, value.5, s6) && exists|s7: u64| #[trigger] G::generates(s6, size, value.6, s7) && H::generates(s7, size, value.7, next)
    }

    /// Each position's own candidates in turn, the other positions clones of
    /// the value's.
    open spec fn shrunk(value: (A, B, C, D, E, F, G, H), candidates: Seq<(A, B, C, D, E, F, G, H)>) -> bool {
        exists|s0: Seq<A>| #[trigger] A::shrunk(value.0, s0) && exists|s1: Seq<B>| #[trigger] B::shrunk(value.1, s1) && exists|s2: Seq<C>| #[trigger] C::shrunk(value.2, s2) && exists|s3: Seq<D>| #[trigger] D::shrunk(value.3, s3) && exists|s4: Seq<E>| #[trigger] E::shrunk(value.4, s4) && exists|s5: Seq<F>| #[trigger] F::shrunk(value.5, s5) && exists|s6: Seq<G>| #[trigger] G::shrunk(value.6, s6) && exists|s7: Seq<H>| #[trigger] H::shrunk(value.7, s7) && (candidates.len() == s0.len() + s1.len() + s2.len() + s3.len() + s4.len() + s5.len() + s6.len() + s7.len() && forall|i: int| 0 <= i < s0.len() ==> { let c = #[trigger] candidates[i]; c.0 == s0[i - (0)] && vstd::pervasive::cloned(value.1, c.1) && vstd::pervasive::cloned(value.2, c.2) && vstd::pervasive::cloned(value.3, c.3) && vstd::pervasive::cloned(value.4, c.4) && vstd::pervasive::cloned(value.5, c.5) && vstd::pervasive::cloned(value.6, c.6) && vstd::pervasive::cloned(value.7, c.7) } && forall|i: int| s0.len() <= i < s0.len() + s1.len() ==> { let c = #[trigger] candidates[i]; c.1 == s1[i - (s0.len())] && vstd::pervasive::cloned(value.0, c.0) && vstd::pervasive::cloned(value.2, c.2) && vstd::pervasive::cloned(value.3, c.3) && vstd::pervasive::cloned(value.4, c.4) && vstd::pervasive::cloned(value.5, c.5) && vstd::pervasive::cloned(value.6, c.6) && vstd::pervasive::cloned(value.7, c.7) } && forall|i: int| s0.len() + s1.len() <= i < s0.len() + s1.len() + s2.len() ==> { let c = #[trigger] candidates[i]; c.2 == s2[i - (s0.len() + s1.len())] && vstd::pervasive::cloned(value.0, c.0) && vstd::pervasive::cloned(value.1, c.1) && vstd::pervasive::cloned(value.3, c.3) && vstd::pervasive::cloned(value.4, c.4) && vstd::pervasive::cloned(value.5, c.5) && vstd::pervasive::cloned(value.6, c.6) && vstd::pervasive::cloned(value.7, c.7) } && forall|i: int| s0.len() + s1.len() + s2.len() <= i < s0.len() + s1.len() + s2.len() + s3.len() ==> { let c = #[trigger] candidates[i]; c.3 == s3[i - (s0.len() + s1.len() + s2.len())] && vstd::pervasive::cloned(value.0, c.0) && vstd::pervasive::cloned(value.1, c.1) && vstd::pervasive::cloned(value.2, c.2) && vstd::pervasive::cloned(value.4, c.4) && vstd::pervasive::cloned(value.5, c.5) && vstd::pervasive::cloned(value.6, c.6) && vstd::pervasive::cloned(value.7, c.7) } && forall|i: int| s0.len() + s1.len() + s2.len() + s3.len() <= i < s0.len() + s1.len() + s2.len() + s3.len() + s4.len() ==> { let c = #[trigger] candidates[i]; c.4 == s4[i - (s0.len() + s1.len() + s2.len() + s3.len())] && vstd::pervasive::cloned(value.0, c.0) && vstd::pervasive::cloned(value.1, c.1) && vstd::pervasive::cloned(value.2, c.2) && vstd::pervasive::cloned(value.3, c.3) && vstd::pervasive::cloned(value.5, c.5) && vstd::pervasive::cloned(value.6, c.6) && vstd::pervasive::cloned(value.7, c.7) } && forall|i: int| s0.len() + s1.len() + s2.len() + s3.len() + s4.len() <= i < s0.len() + s1.len() + s2.len() + s3.len() + s4.len() + s5.len() ==> { let c = #[trigger] candidates[i]; c.5 == s5[i - (s0.len() + s1.len() + s2.len() + s3.len() + s4.len())] && vstd::pervasive::cloned(value.0, c.0) && vstd::pervasive::cloned(value.1, c.1) && vstd::pervasive::cloned(value.2, c.2) && vstd::pervasive::cloned(value.3, c.3) && vstd::pervasive::cloned(value.4, c.4) && vstd::pervasive::cloned(value.6, c.6) && vstd::pervasive::cloned(value.7, c.7) } && forall|i: int| s0.len() + s1.len() + s2.len() + s3.len() + s4.len() + s5.len() <= i < s0.len() + s1.len() + s2.len() + s3.len() + s4.len() + s5.len() + s6.len() ==> { let c = #[trigger] candidates[i]; c.6 == s6[i - (s0.len() + s1.len() + s2.len() + s3.len() + s4.len() + s5.len())] && vstd::pervasive::cloned(value.0, c.0) && vstd::pervasive::cloned(value.1, c.1) && vstd::pervasive::cloned(value.2, c.2) && vstd::pervasive::cloned(value.3, c.3) && vstd::pervasive::cloned(value.4, c.4) && vstd::pervasive::cloned(value.5, c.5) && vstd::pervasive::cloned(value.7, c.7) } && forall|i: int| s0.len() + s1.len() + s2.len() + s3.len() + s4.len() + s5.len() + s6.len() <= i < s0.len() + s1.len() + s2.len() + s3.len() + s4.len() + s5.len() + s6.len() + s7.len() ==> { let c = #[trigger] candidates[i]; c.7 == s7[i - (s0.len() + s1.len() + s2.len() + s3.len() + s4.len() + s5.len() + s6.len())] && vstd::pervasive::cloned(value.0, c.0) && vstd::pervasive::cloned(value.1, c.1) && vstd::pervasive::cloned(value.2, c.2) && vstd::pervasive::cloned(value.3, c.3) && vstd::pervasive::cloned(value.4, c.4) && vstd::pervasive::cloned(value.5, c.5) && vstd::pervasive::cloned(value.6, c.6) })
    }

    fn arbitrary(rng: &mut Rng, size: u32) -> (r: (A, B, C, D, E, F, G, H)) {
        let ghost s0 = rng.state();
        let v0 = A::arbitrary(rng, size);
        let ghost s1 = rng.state();
        let v1 = B::arbitrary(rng, size);
        let ghost s2 = rng.state();
        let v2 = C::arbitrary(rng, size);
        let ghost s3 = rng.state();
        let v3 = D::arbitrary(rng, size);
        let ghost s4 = rng.state();
        let v4 = E::arbitrary(rng, size);
        let ghost s5 = rng.state();
        let v5 = F::arbitrary(rng, size);
        let ghost s6 = rng.state();
        let v6 = G::arbitrary(rng, size);
        let ghost s7 = rng.state();
        let v7 = H::arbitrary(rng, size);
        let ghost s8 = rng.state();
        let r = (v0, v1, v2, v3, v4, v5, v6, v7);
        proof {
            assert(A::generates(s0, size, r.0, s1));
            assert(B::generates(s1, size, r.1, s2));
            assert(C::generates(s2, size, r.2, s3));
            assert(D::generates(s3, size, r.3, s4));
            assert(E::generates(s4, size, r.4, s5));
            assert(F::generates(s5, size, r.5, s6));
            assert(G::generates(s6, size, r.6, s7));
            assert(H::generates(s7, size, r.7, s8));
            assert(exists|w7: u64| #[trigger] G::generates(s6, size, r.6, w7) && H::generates(w7, size, r.7, s8));
            assert(exists|w6: u64| #[trigger] F::generates(s5, size, r.5, w6) && exists|w7: u64| #[trigger] G::generates(w6, size, r.6, w7) && H::generates(w7, size, r.7, s8));
            assert(exists|w5: u64| #[trigger] E::generates(s4, size, r.4, w5) && exists|w6: u64| #[trigger] F::generates(w5, size, r.5, w6) && exists|w7: u64| #[trigger] G::generates(w6, size, r.6, w7) && H::generates(w7, size, r.7, s8));
            assert(exists|w4: u64| #[trigger] D::generates(s3, size, r.3, w4) && exists|w5: u64| #[trigger] E::generates(w4, size, r.4, w5) && exists|w6: u64| #[trigger] F::generates(w5, size, r.5, w6) && exists|w7: u64| #[trigger] G::generates(w6, size, r.6, w7) && H::generates(w7, size, r.7, s8));
            assert(exists|w3: u64| #[trigger] C::generates(s2, size, r.2, w3) && exists|w4: u64| #[trigger] D::generates(w3, size, r.3, w4) && exists|w5: u64| #[trigger] E::generates(w4, size, r.4, w5) && exists|w6: u64| #[trigger] F::generates(w5, size, r.5, w6) && exists|w7: u64| #[trigger] G::generates(w6, size, r.6, w7) && H::generates(w7, size, r.7, s8));
            assert(exists|w2: u64| #[trigger] B::generates(s1, size, r.1, w2) && exists|w3: u64| #[trigger] C::generates(w2, size, r.2, w3) && exists|w4: u64| #[trigger] D::generates(w3, size, r.3, w4) && exists|w5: u64| #[trigger] E::generates(w4, size, r.4, w5) && exists|w6: u64| #[trigger] F::generates(w5, size, r.5, w6) && exists|w7: u64| #[trigger] G::generates(w6, size, r.6, w7) && H::generates(w7, size, r.7, s8));
        }
        r
    }

    /// Candidates that simplify one position at a time, in order, holding the
    /// others fixed: each keeps a clone of every other position.
    fn shrink(&self) -> (r: Vec<(A, B, C, D, E, F, G, H)>) {
        let mut out: Vec<(A, B, C, D, E, F, G, H)> = Vec::new();
        let mut simpler = self.0.shrink();
        let ghost c0 = simpler@;
        let ghost mut j: int = 0;
        while simpler.len() > 0
            invariant
                A::shrunk(self.0, c0),
                0 <= j <= c0.len(),
                simpler@ == c0.skip(j),
                out@.len() == 0 + j,
                forall|i: int| 0 <= i < 0 + j ==> { let c = #[trigger] out@[i]; c.0 == c0[i - (0)] && vstd::pervasive::cloned(self.1, c.1) && vstd::pervasive::cloned(self.2, c.2) && vstd::pervasive::cloned(self.3, c.3) && vstd::pervasive::cloned(self.4, c.4) && vstd::pervasive::cloned(self.5, c.5) && vstd::pervasive::cloned(self.6, c.6) && vstd::pervasive::cloned(self.7, c.7) },
            decreases simpler@.len(),
        {
            let replacement = simpler.remove(0);
            let k1 = self.1.clone();
            let k2 = self.2.clone();
            let k3 = self.3.clone();
            let k4 = self.4.clone();
            let k5 = self.5.clone();
            let k6 = self.6.clone();
            let k7 = self.7.clone();
            let ghost before = out@;
            out.push((replacement, k1, k2, k3, k4, k5, k6, k7));
            proof {
                assert(c0.skip(j)[0] == c0[j]);
                assert(simpler@ =~= c0.skip(j + 1));
                j = j + 1;
                assert forall|i: int| 0 <= i < 0 + j implies {
                    let c = #[trigger] out@[i]; c.0 == c0[i - (0)] && vstd::pervasive::cloned(self.1, c.1) && vstd::pervasive::cloned(self.2, c.2) && vstd::pervasive::cloned(self.3, c.3) && vstd::pervasive::cloned(self.4, c.4) && vstd::pervasive::cloned(self.5, c.5) && vstd::pervasive::cloned(self.6, c.6) && vstd::pervasive::cloned(self.7, c.7)
                } by {
                    if i < before.len() {
                        assert(out@[i] == before[i]);
                    }
                }
            }
        }
        let mut simpler = self.1.shrink();
        let ghost c1 = simpler@;
        let ghost mut j: int = 0;
        while simpler.len() > 0
            invariant
                A::shrunk(self.0, c0),
                B::shrunk(self.1, c1),
                0 <= j <= c1.len(),
                simpler@ == c1.skip(j),
                out@.len() == c0.len() + j,
                forall|i: int| 0 <= i < c0.len() ==> { let c = #[trigger] out@[i]; c.0 == c0[i - (0)] && vstd::pervasive::cloned(self.1, c.1) && vstd::pervasive::cloned(self.2, c.2) && vstd::pervasive::cloned(self.3, c.3) && vstd::pervasive::cloned(self.4, c.4) && vstd::pervasive::cloned(self.5, c.5) && vstd::pervasive::cloned(self.6, c.6) && vstd::pervasive::cloned(self.7, c.7) },
                forall|i: int| c0.len() <= i < c0.len() + j ==> { let c = #[trigger] out@[i]; c.1 == c1[i - (c0.len())] && vstd::pervasive::cloned(self.0, c.0) && vstd::pervasive::cloned(self.2, c.2) && vstd::pervasive::cloned(self.3, c.3) && vstd::pervasive::cloned(self.4, c.4) && vstd::pervasive::cloned(self.5, c.5) && vstd::pervasive::cloned(self.6, c.6) && vstd::pervasive::cloned(self.7, c.7) },
            decreases simpler@.len(),
        {
            let replacement = simpler.remove(0);
            let k0 = self.0.clone();
            let k2 = self.2.clone();
            let k3 = self.3.clone();
            let k4 = self.4.clone();
            let k5 = self.5.clone();
            let k6 = self.6.clone();
            let k7 = self.7.clone();
            let ghost before = out@;
            out.push((k0, replacement, k2, k3, k4, k5, k6, k7));
            proof {
                assert(c1.skip(j)[0] == c1[j]);
                assert(simpler@ =~= c1.skip(j + 1));
                j = j + 1;
                assert forall|i: int| 0 <= i < c0.len() implies {
                    let c = #[trigger] out@[i]; c.0 == c0[i - (0)] && vstd::pervasive::cloned(self.1, c.1) && vstd::pervasive::cloned(self.2, c.2) && vstd::pervasive::cloned(self.3, c.3) && vstd::pervasive::cloned(self.4, c.4) && vstd::pervasive::cloned(self.5, c.5) && vstd::pervasive::cloned(self.6, c.6) && vstd::pervasive::cloned(self.7, c.7)
                } by {
                    if i < before.len() {
                        assert(out@[i] == before[i]);
                    }
                }
                assert forall|i: int| c0.len() <= i < c0.len() + j implies {
                    let c = #[trigger] out@[i]; c.1 == c1[i - (c0.len())] && vstd::pervasive::cloned(self.0, c.0) && vstd::pervasive::cloned(self.2, c.2) && vstd::pervasive::cloned(self.3, c.3) && vstd::pervasive::cloned(self.4, c.4) && vstd::pervasive::cloned(self.5, c.5) && vstd::pervasive::cloned(self.6, c.6) && vstd::pervasive::cloned(self.7, c.7)
                } by {
                    if i < before.len() {
                        assert(out@[i] == before[i]);
                    }
                }
            }
        }
        let mut simpler = self.2.shrink();
        let ghost c2 = simpler@;
        let ghost mut j: int = 0;
        while simpler.len() > 0
            invariant
                A::shrunk(self.0, c0),
                B::shrunk(self.1, c1),
                C::shrunk(self.2, c2),
                0 <= j <= c2.len(),
                simpler@ == c2.skip(j),
                out@.len() == c0.len() + c1.len() + j,
                forall|i: int| 0 <= i < c0.len() ==> { let c = #[trigger] out@[i]; c.0 == c0[i - (0)] && vstd::pervasive::cloned(self.1, c.1) && vstd::pervasive::cloned(self.2, c.2) && vstd::pervasive::cloned(self.3, c.3) && vstd::pervasive::cloned(self.4, c.4) && vstd::pervasive::cloned(self.5, c.5) && vstd::pervasive::cloned(self.6, c.6) && vstd::pervasive::cloned(self.7, c.7) },
                forall|i: int| c0.len() <= i < c0.len() + c1.len() ==> { let c = #[trigger] out@[i]; c.1 == c1[i - (c0.len())] && vstd::pervasive::cloned(self.0, c.0) && vstd::pervasive::cloned(self.2, c.2) && vstd::pervasive::cloned(self.3, c.3) && vstd::pervasive::cloned(self.4, c.4) && vstd::pervasive::cloned(self.5, c.5) && vstd::pervasive::cloned(self.6, c.6) && vstd::pervasive::cloned(self.7, c.7) },
                forall|i: int| c0.len() + c1.len() <= i < c0.len() + c1.len() + j ==> { let c = #[trigger] out@[i]; c.2 == c2[i - (c0.len() + c1.len())] && vstd::pervasive::cloned(self.0, c.0) && vstd::pervasive::cloned(self.1, c.1) && vstd::pervasive::cloned(self.3, c.3) && vstd::pervasive::cloned(self.4, c.4) && vstd::pervasive::cloned(self.5, c.5) && vstd::pervasive::cloned(self.6, c.6) && vstd::pervasive::cloned(self.7, c.7) },
            decreases simpler@.len(),
        {
            let replacement = simpler.remove(0);
            let k0 = self.0.clone();
            let k1 = self.1.clone();
            let k3 = self.3.clone();
            let k4 = self.4.clone();
            let k5 = self.5.clone();
            let k6 = self.6.clone();
            let k7 = self.7.clone();
            let ghost before = out@;
            out.push((k0, k1, replacement, k3, k4, k5, k6, k7));
            proof {
                assert(c2.skip(j)[0] == c2[j]);
                assert(simpler@ =~= c2.skip(j + 1));
                j = j + 1;
                assert forall|i: int| 0 <= i < c0.len() implies {
                    let c = #[trigger] out@[i]; c.0 == c0[i - (0)] && vstd::pervasive::cloned(self.1, c.1) && vstd::pervasive::cloned(self.2, c.2) && vstd::pervasive::cloned(self.3, c.3) && vstd::pervasive::cloned(self.4, c.4) && vstd::pervasive::cloned(self.5, c.5) && vstd::pervasive::cloned(self.6, c.6) && vstd::pervasive::cloned(self.7, c.7)
                } by {
                    if i < before.len() {
                        assert(out@[i] == before[i]);
                    }
                }
                assert forall|i: int| c0.len() <= i < c0.len() + c1.len() implies {
                    let c = #[trigger] out@[i]; c.1 == c1[i - (c0.len())] && vstd::pervasive::cloned(self.0, c.0) && vstd::pervasive::cloned(self.2, c.2) && vstd::pervasive::cloned(self.3, c.3) && vstd::pervasive::cloned(self.4, c.4) && vstd::pervasive::cloned(self.5, c.5) && vstd::pervasive::cloned(self.6, c.6) && vstd::pervasive::cloned(self.7, c.7)
                } by {
                    if i < before.len() {
                        assert(out@[i] == before[i]);
                    }
                }
                assert forall|i: int| c0.len() + c1.len() <= i < c0.len() + c1.len() + j implies {
                    let c = #[trigger] out@[i]; c.2 == c2[i - (c0.len() + c1.len())] && vstd::pervasive::cloned(self.0, c.0) && vstd::pervasive::cloned(self.1, c.1) && vstd::pervasive::cloned(self.3, c.3) && vstd::pervasive::cloned(self.4, c.4) && vstd::pervasive::cloned(self.5, c.5) && vstd::pervasive::cloned(self.6, c.6) && vstd::pervasive::cloned(self.7, c.7)
                } by {
                    if i < before.len() {
                        assert(out@[i] == before[i]);
                    }
                }
            }
        }
        let mut simpler = self.3.shrink();
        let ghost c3 = simpler@;
        let ghost mut j: int = 0;
        while simpler.len() > 0
            invariant
                A::shrunk(self.0, c0),
                B::shrunk(self.1, c1),
                C::shrunk(self.2, c2),
                D::shrunk(self.3, c3),
                0 <= j <= c3.len(),
                simpler@ == c3.skip(j),
                out@.len() == c0.len() + c1.len() + c2.len() + j,
                forall|i: int| 0 <= i < c0.len() ==> { let c = #[trigger] out@[i]; c.0 == c0[i - (0)] && vstd::pervasive::cloned(self.1, c.1) && vstd::pervasive::cloned(self.2, c.2) && vstd::pervasive::cloned(self.3, c.3) && vstd::pervasive::cloned(self.4, c.4) && vstd::pervasive::cloned(self.5, c.5) && vstd::pervasive::cloned(self.6, c.6) && vstd::pervasive::cloned(self.7, c.7) },
                forall|i: int| c0.len() <= i < c0.len() + c1.len() ==> { let c = #[trigger] out@[i]; c.1 == c1[i - (c0.len())] && vstd::pervasive::cloned(self.0, c.0) && vstd::pervasive::cloned(self.2, c.2) && vstd::pervasive::cloned(self.3, c.3) && vstd::pervasive::cloned(self.4, c.4) && vstd::pervasive::cloned(self.5, c.5) && vstd::pervasive::cloned(self.6, c.6) && vstd::pervasive::cloned(self.7, c.7) },
                forall|i: int| c0.len() + c1.len() <= i < c0.len() + c1.len() + c2.len() ==> { let c = #[trigger] out@[i]; c.2 == c2[i - (c0.len() + c1.len())] && vstd::pervasive::cloned(self.0, c.0) && vstd::pervasive::cloned(self.1, c.1) && vstd::pervasive::cloned(self.3, c.3) && vstd::pervasive::cloned(self.4, c.4) && vstd::pervasive::cloned(self.5, c.5) && vstd::pervasive::cloned(self.6, c.6) && vstd::pervasive::cloned(self.7, c.7) },
                forall|i: int| c0.len() + c1.len() + c2.len() <= i < c0.len() + c1.len() + c2.len() + j ==> { let c = #[trigger] out@[i]; c.3 == c3[i - (c0.len() + c1.len() + c2.len())] && vstd::pervasive::cloned(self.0, c.0) && vstd::pervasive::cloned(self.1, c.1) && vstd::pervasive::cloned(self.2, c.2) && vstd::pervasive::cloned(self.4, c.4) && vstd::pervasive::cloned(self.5, c.5) && vstd::pervasive::cloned(self.6, c.6) && vstd::pervasive::cloned(self.7, c.7) },
            decreases simpler@.len(),
        {
            let replacement = simpler.remove(0);
            let k0 = self.0.clone();
            let k1 = self.1.clone();
            let k2 = self.2.clone();
            let k4 = self.4.clone();
            let k5 = self.5.clone();
            let k6 = self.6.clone();
            let k7 = self.7.clone();
            let ghost before = out@;
            out.push((k0, k1, k2, replacement, k4, k5, k6, k7));
            proof {
                assert(c3.skip(j)[0] == c3[j]);
                assert(simpler@ =~= c3.skip(j + 1));
                j = j + 1;
                assert forall|i: int| 0 <= i < c0.len() implies {
                    let c = #[trigger] out@[i]; c.0 == c0[i - (0)] && vstd::pervasive::cloned(self.1, c.1) && vstd::pervasive::cloned(self.2, c.2) && vstd::pervasive::cloned(self.3, c.3) && vstd::pervasive::cloned(self.4, c.4) && vstd::pervasive::cloned(self.5, c.5) && vstd::pervasive::cloned(self.6, c.6) && vstd::pervasive::cloned(self.7, c.7)
                } by {
                    if i < before.len() {
                        assert(out@[i] == before[i]);
                    }
                }
                assert forall|i: int| c0.len() <= i < c0.len() + c1.len() implies {
                    let c = #[trigger] out@[i]; c.1 == c1[i - (c0.len())] && vstd::pervasive::cloned(self.0, c.0) && vstd::pervasive::cloned(self.2, c.2) && vstd::pervasive::cloned(self.3, c.3) && vstd::pervasive::cloned(self.4, c.4) && vstd::pervasive::cloned(self.5, c.5) && vstd::pervasive::cloned(self.6, c.6) && vstd::pervasive::cloned(self.7, c.7)
                } by {
                    if i < before.len() {
                        assert(out@[i] == before[i]);
                    }
                }
                assert forall|i: int| c0.len() + c1.len() <= i < c0.len() + c1.len() + c2.len() implies {
                    let c = #[trigger] out@[i]; c.2 == c2[i - (c0.len() + c1.len())] && vstd::pervasive::cloned(self.0, c.0) && vstd::pervasive::cloned(self.1, c.1) && vstd::pervasive::cloned(self.3, c.3) && vstd::pervasive::cloned(self.4, c.4) && vstd::pervasive::cloned(self.5, c.5) && vstd::pervasive::cloned(self.6, c.6) && vstd::pervasive::cloned(self.7, c.7)
                } by {
                    if i < before.len() {
                        assert(out@[i] == before[i]);
                    }
                }
                assert forall|i: int| c0.len() + c1.len() + c2.len() <= i < c0.len() + c1.len() + c2.len() + j implies {
                    let c = #[trigger] out@[i]; c.3 == c3[i - (c0.len() + c1.len() + c2.len())] && vstd::pervasive::cloned(self.0, c.0) && vstd::pervasive::cloned(self.1, c.1) && vstd::pervasive::cloned(self.2, c.2) && vstd::pervasive::cloned(self.4, c.4) && vstd::pervasive::cloned(self.5, c.5) && vstd::pervasive::cloned(self.6, c.6) && vstd::pervasive::cloned(self.7, c.7)
                } by {
                    if i < before.len() {
                        assert(out@[i] == before[i]);
                    }
                }
            }
        }
        let mut simpler = self.4.shrink();
        let ghost c4 = simpler@;
        let ghost mut j: int = 0;
        while simpler.len() > 0
            invariant
                A::shrunk(self.0, c0),
                B::shrunk(self.1, c1),
                C::shrunk(self.2, c2),
                D::shrunk(self.3, c3),
                E::shrunk(self.4, c4),
                0 <= j <= c4.len(),
                simpler@ == c4.skip(j),
                out@.len() == c0.len() + c1.len() + c2.len() + c3.len() + j,
                forall|i: int| 0 <= i < c0.len() ==> { let c = #[trigger] out@[i]; c.0 == c0[i - (0)] && vstd::pervasive::cloned(self.1, c.1) && vstd::pervasive::cloned(self.2, c.2) && vstd::pervasive::cloned(self.3, c.3) && vstd::pervasive::cloned(self.4, c.4) && vstd::pervasive::cloned(self.5, c.5) && vstd::pervasive::cloned(self.6, c.6) && vstd::pervasive::cloned(self.7, c.7) },
                forall|i: int| c0.len() <= i < c0.len() + c1.len() ==> { let c = #[trigger] out@[i]; c.1 == c1[i - (c0.len())] && vstd::pervasive::cloned(self.0, c.0) && vstd::pervasive::cloned(self.2, c.2) && vstd::pervasive::cloned(self.3, c.3) && vstd::pervasive::cloned(self.4, c.4) && vstd::pervasive::cloned(self.5, c.5) && vstd::pervasive::cloned(self.6, c.6) && vstd::pervasive::cloned(self.7, c.7) },
                forall|i: int| c0.len() + c1.len() <= i < c0.len() + c1.len() + c2.len() ==> { let c = #[trigger] out@[i]; c.2 == c2[i - (c0.len() + c1.len())] && vstd::pervasive::cloned(self.0, c.0) && vstd::pervasive::cloned(self.1, c.1) && vstd::pervasive::cloned(self.3, c.3) && vstd::pervasive::cloned(self.4, c.4) && vstd::pervasive::cloned(self.5, c.5) && vstd::pervasive::cloned(self.6, c.6) && vstd::pervasive::cloned(self.7, c.7) },
                forall|i: int| c0.len() + c1.len() + c2.len() <= i < c0.len() + c1.len() + c2.len() + c3.len() ==> { let c = #[trigger] out@[i]; c.3 == c3[i - (c0.len() + c1.len() + c2.len())] && vstd::pervasive::cloned(self.0, c.0) && vstd::pervasive::cloned(self.1, c.1) && vstd::pervasive::cloned(self.2, c.2) && vstd::pervasive::cloned(self.4, c.4) && vstd::pervasive::cloned(self.5, c.5) && vstd::pervasive::cloned(self.6, c.6) && vstd::pervasive::cloned(self.7, c.7) },
                forall|i: int| c0.len() + c1.len() + c2.len() + c3.len() <= i < c0.len() + c1.len() + c2.len() + c3.len() + j ==> { let c = #[trigger] out@[i]; c.4 == c4[i - (c0.len() + c1.len() + c2.len() + c3.len())] && vstd::pervasive::cloned(self.0, c.0) && vstd::pervasive::cloned(self.1, c.1) && vstd::pervasive::cloned(self.2, c.2) && vstd::pervasive::cloned(self.3, c.3) && vstd::pervasive::cloned(self.5, c.5) && vstd::pervasive::cloned(self.6, c.6) && vstd::pervasive::cloned(self.7, c.7) },
            decreases simpler@.len(),
        {
            let replacement = simpler.remove(0);
            let k0 = self.0.clone();
            let k1 = self.1.clone();
            let k2 = self.2.clone();
            let k3 = self.3.clone();
            let k5 = self.5.clone();
            let k6 = self.6.clone();
            let k7 = self.7.clone();
            let ghost before = out@;
            out.push((k0, k1, k2, k3, replacement, k5, k6, k7));
            proof {
                assert(c4.skip(j)[0] == c4[j]);
                assert(simpler@ =~= c4.skip(j + 1));
                j = j + 1;
                assert forall|i: int| 0 <= i < c0.len() implies {
                    let c = #[trigger] out@[i]; c.0 == c0[i - (0)] && vstd::pervasive::cloned(self.1, c.1) && vstd::pervasive::cloned(self.2, c.2) && vstd::pervasive::cloned(self.3, c.3) && vstd::pervasive::cloned(self.4, c.4) && vstd::pervasive::cloned(self.5, c.5) && vstd::pervasive::cloned(self.6, c.6) && vstd::pervasive::cloned(self.7, c.7)
                } by {
                    if i < before.len() {
                        assert(out@[i] == before[i]);
                    }
                }
                assert forall|i: int| c0.len() <= i < c0.len() + c1.len() implies {
                    let c = #[trigger] out@[i]; c.1 == c1[i - (c0.len())] && vstd::pervasive::cloned(self.0, c.0) && vstd::pervasive::cloned(self.2, c.2) && vstd::pervasive::cloned(self.3, c.3) && vstd::pervasive::cloned(self.4, c.4) && vstd::pervasive::cloned(self.5, c.5) && vstd::pervasive::cloned(self.6, c.6) && vstd::pervasive::cloned(self.7, c.7)
                } by {
                    if i < before.len() {
                        assert(out@[i] == before[i]);
                    }
                }
                assert forall|i: int| c0.len() + c1.len() <= i < c0.len() + c1.len() + c2.len() implies {
                    let c = #[trigger] out@[i]; c.2 == c2[i - (c0.len() + c1.len())] && vstd::pervasive::cloned(self.0, c.0) && vstd::pervasive::cloned(self.1, c.1) && vstd::pervasive::cloned(self.3, c.3) && vstd::pervasive::cloned(self.4, c.4) && vstd::pervasive::cloned(self.5, c.5) && vstd::pervasive::cloned(self.6, c.6) && vstd::pervasive::cloned(self.7, c.7)
                } by {
                    if i < before.len() {
                        assert(out@[i] == before[i]);
                    }
                }
                assert forall|i: int| c0.len() + c1.len() + c2.len() <= i < c0.len() + c1.len() + c2.len() + c3.len() implies {
                    let c = #[trigger] out@[i]; c.3 == c3[i - (c0.len() + c1.len() + c2.len())] && vstd::pervasive::cloned(self.0, c.0) && vstd::pervasive::cloned(self.1, c.1) && vstd::pervasive::cloned(self.2, c.2) && vstd::pervasive::cloned(self.4, c.4) && vstd::pervasive::cloned(self.5, c.5) && vstd::pervasive::cloned(self.6, c.6) && vstd::pervasive::cloned(self.7, c.7)
                } by {
                    if i < before.len() {
                        assert(out@[i] == before[i]);
                    }
                }
                assert forall|i: int| c0.len() + c1.len() + c2.len() + c3.len() <= i < c0.len() + c1.len() + c2.len() + c3.len() + j implies {
                    let c = #[trigger] out@[i]; c.4 == c4[i - (c0.len() + c1.len() + c2.len() + c3.len())] && vstd::pervasive::cloned(self.0, c.0) && vstd::pervasive::cloned(self.1, c.1) && vstd::pervasive::cloned(self.2, c.2) && vstd::pervasive::cloned(self.3, c.3) && vstd::pervasive::cloned(self.5, c.5) && vstd::pervasive::cloned(self.6, c.6) && vstd::pervasive::cloned(self.7, c.7)
                } by {
                    if i < before.len() {
                        assert(out@[i] == before[i]);
                    }
                }
            }
        }
        let mut simpler = self.5.shrink();
        let ghost c5 = simpler@;
        let ghost mut j: int = 0;
        while simpler.len() > 0
            invariant
                A::shrunk(self.0, c0),
                B::shrunk(self.1, c1),
                C::shrunk(self.2, c2),
                D::shrunk(self.3, c3),
                E::shrunk(self.4, c4),
                F::shrunk(self.5, c5),
                0 <= j <= c5.len(),
                simpler@ == c5.skip(j),
                out@.len() == c0.len() + c1.len() + c2.len() + c3.len() + c4.len() + j,
                forall|i: int| 0 <= i < c0.len() ==> { let c = #[trigger] out@[i]; c.0 == c0[i - (0)] && vstd::pervasive::cloned(self.1, c.1) && vstd::pervasive::cloned(self.2, c.2) && vstd::pervasive::cloned(self.3, c.3) && vstd::pervasive::cloned(self.4, c.4) && vstd::pervasive::cloned(self.5, c.5) && vstd::pervasive::cloned(self.6, c.6) && vstd::pervasive::cloned(self.7, c.7) },
                forall|i: int| c0.len() <= i < c0.len() + c1.len() ==> { let c = #[trigger] out@[i]; c.1 == c1[i - (c0.len())] && vstd::pervasive::cloned(self.0, c.0) && vstd::pervasive::cloned(self.2, c.2) && vstd::pervasive::cloned(self.3, c.3) && vstd::pervasive::cloned(self.4, c.4) && vstd::pervasive::cloned(self.5, c.5) && vstd::pervasive::cloned(self.6, c.6) && vstd::pervasive::cloned(self.7, c.7) },
                forall|i: int| c0.len() + c1.len() <= i < c0.len() + c1.len() + c2.len() ==> { let c = #[trigger] out@[i]; c.2 == c2[i - (c0.len() + c1.len())] && vstd::pervasive::cloned(self.0, c.0) && vstd::pervasive::cloned(self.1, c.1) && vstd::pervasive::cloned(self.3, c.3) && vstd::pervasive::cloned(self.4, c.4) && vstd::pervasive::cloned(self.5, c.5) && vstd::pervasive::cloned(self.6, c.6) && vstd::pervasive::cloned(self.7, c.7) },
                forall|i: int| c0.len() + c1.len() + c2.len() <= i < c0.len() + c1.len() + c2.len() + c3.len() ==> { let c = #[trigger] out@[i]; c.3 == c3[i - (c0.len() + c1.len() + c2.len())] && vstd::pervasive::cloned(self.0, c.0) && vstd::pervasive::cloned(self.1, c.1) && vstd::pervasive::cloned(self.2, c.2) && vstd::pervasive::cloned(self.4, c.4) && vstd::pervasive::cloned(self.5, c.5) && vstd::pervasive::cloned(self.6, c.6) && vstd::pervasive::cloned(self.7, c.7) },
                forall|i: int| c0.len() + c1.len() + c2.len() + c3.len() <= i < c0.len() + c1.len() + c2.len() + c3.len() + c4.len() ==> { let c = #[trigger] out@[i]; c.4 == c4[i - (c0.len() + c1.len() + c2.len() + c3.len())] && vstd::pervasive::cloned(self.0, c.0) && vstd::pervasive::cloned(self.1, c.1) && vstd::pervasive::cloned(self.2, c.2) && vstd::pervasive::cloned(self.3, c.3) && vstd::pervasive::cloned(self.5, c.5) && vstd::pervasive::cloned(self.6, c.6) && vstd::pervasive::cloned(self.7, c.7) },
                forall|i: int| c0.len() + c1.len() + c2.len() + c3.len() + c4.len() <= i < c0.len() + c1.len() + c2.len() + c3.len() + c4.len() + j ==> { let c = #[trigger] out@[i]; c.5 == c5[i - (c0.len() + c1.len() + c2.len() + c3.len() + c4.len())] && vstd::pervasive::cloned(self.0, c.0) && vstd::pervasive::cloned(self.1, c.1) && vstd::pervasive::cloned(self.2, c.2) && vstd::pervasive::cloned(self.3, c.3) && vstd::pervasive::cloned(self.4, c.4) && vstd::pervasive::cloned(self.6, c.6) && vstd::pervasive::cloned(self.7, c.7) },
            decreases simpler@.len(),
        {
            let replacement = simpler.remove(0);
            let k0 = self.0.clone();
            let k1 = self.1.clone();
            let k2 = self.2.clone();
            let k3 = self.3.clone();
            let k4 = self.4.clone();
            let k6 = self.6.clone();
            let k7 = self.7.clone();
            let ghost before = out@;
            out.push((k0, k1, k2, k3, k4, replacement, k6, k7));
            proof {
                assert(c5.skip(j)[0] == c5[j]);
                assert(simpler@ =~= c5.skip(j + 1));
                j = j + 1;
                assert forall|i: int| 0 <= i < c0.len() implies {
                    let c = #[trigger] out@[i]; c.0 == c0[i - (0)] && vstd::pervasive::cloned(self.1, c.1) && vstd::pervasive::cloned(self.2, c.2) && vstd::pervasive::cloned(self.3, c.3) && vstd::pervasive::cloned(self.4, c.4) && vstd::pervasive::cloned(self.5, c.5) && vstd::pervasive::cloned(self.6, c.6) && vstd::pervasive::cloned(self.7, c.7)
                } by {
                    if i < before.len() {
                        assert(out@[i] == before[i]);
                    }
                }
                assert forall|i: int| c0.len() <= i < c0.len() + c1.len() implies {
                    let c = #[trigger] out@[i]; c.1 == c1[i - (c0.len())] && vstd::pervasive::cloned(self.0, c.0) && vstd::pervasive::cloned(self.2, c.2) && vstd::pervasive::cloned(self.3, c.3) && vstd::pervasive::cloned(self.4, c.4) && vstd::pervasive::cloned(self.5, c.5) && vstd::pervasive::cloned(self.6, c.6) && vstd::pervasive::cloned(self.7, c.7)
                } by {
                    if i < before.len() {
                        assert(out@[i] == before[i]);
                    }
                }
                assert forall|i: int| c0.len() + c1.len() <= i < c0.len() + c1.len() + c2.len() implies {
                    let c = #[trigger] out@[i]; c.2 == c2[i - (c0.len() + c1.len())] && vstd::pervasive::cloned(self.0, c.0) && vstd::pervasive::cloned(self.1, c.1) && vstd::pervasive::cloned(self.3, c.3) && vstd::pervasive::cloned(self.4, c.4) && vstd::pervasive::cloned(self.5, c.5) && vstd::pervasive::cloned(self.6, c.6) && vstd::pervasive::cloned(self.7, c.7)
                } by {
                    if i < before.len() {
                        assert(out@[i] == before[i]);
                    }
                }
                assert forall|i: int| c0.len() + c1.len() + c2.len() <= i < c0.len() + c1.len() + c2.len() + c3.len() implies {
                    let c = #[trigger] out@[i]; c.3 == c3[i - (c0.len() + c1.len() + c2.len())] && vstd::pervasive::cloned(self.0, c.0) && vstd::pervasive::cloned(self.1, c.1) && vstd::pervasive::cloned(self.2, c.2) && vstd::pervasive::cloned(self.4, c.4) && vstd::pervasive::cloned(self.5, c.5) && vstd::pervasive::cloned(self.6, c.6) && vstd::pervasive::cloned(self.7, c.7)
                } by {
                    if i < before.len() {
                        assert(out@[i] == before[i]);
                    }
                }
                assert forall|i: int| c0.len() + c1.len() + c2.len() + c3.len() <= i < c0.len() + c1.len() + c2.len() + c3.len() + c4.len() implies {
                    let c = #[trigger] out@[i]; c.4 == c4[i - (c0.len() + c1.len() + c2.len() + c3.len())] && vstd::pervasive::cloned(self.0, c.0) && vstd::pervasive::cloned(self.1, c.1) && vstd::pervasive::cloned(self.2, c.2) && vstd::pervasive::cloned(self.3, c.3) && vstd::pervasive::cloned(self.5, c.5) && vstd::pervasive::cloned(self.6, c.6) && vstd::pervasive::cloned(self.7, c.7)
                } by {
                    if i < before.len() {
                        assert(out@[i] == before[i]);
                    }
                }
                assert forall|i: int| c0.len() + c1.len() + c2.len() + c3.len() + c4.len() <= i < c0.len() + c1.len() + c2.len() + c3.len() + c4.len() + j implies {
                    let c = #[trigger] out@[i]; c.5 == c5[i - (c0.len() + c1.len() + c2.len() + c3.len() + c4.len())] && vstd::pervasive::cloned(self.0, c.0) && vstd::pervasive::cloned(self.1, c.1) && vstd::pervasive::cloned(self.2, c.2) && vstd::pervasive::cloned(self.3, c.3) && vstd::pervasive::cloned(self.4, c.4) && vstd::pervasive::cloned(self.6, c.6) && vstd::pervasive::cloned(self.7, c.7)
                } by {
                    if i < before.len() {
                        assert(out@[i] == before[i]);
                    }
                }
            }
        }
        let mut simpler = self.6.shrink();
        let ghost c6 = simpler@;
        let ghost mut j: int = 0;
        while simpler.len() > 0
            invariant
                A::shrunk(self.0, c0),
                B::shrunk(self.1, c1),
                C::shrunk(self.2, c2),
                D::shrunk(self.3, c3),
                E::shrunk(self.4, c4),
                F::shrunk(self.5, c5),
                G::shrunk(self.6, c6),
                0 <= j <= c6.len(),
                simpler@ == c6.skip(j),
                out@.len() == c0.len() + c1.len() + c2.len() + c3.len() + c4.len() + c5.len() + j,
                forall|i: int| 0 <= i < c0.len() ==> { let c = #[trigger] out@[i]; c.0 == c0[i - (0)] && vstd::pervasive::cloned(self.1, c.1) && vstd::pervasive::cloned(self.2, c.2) && vstd::pervasive::cloned(self.3, c.3) && vstd::pervasive::cloned(self.4, c.4) && vstd::pervasive::cloned(self.5, c.5) && vstd::pervasive::cloned(self.6, c.6) && vstd::pervasive::cloned(self.7, c.7) },
                forall|i: int| c0.len() <= i < c0.len() + c1.len() ==> { let c = #[trigger] out@[i]; c.1 == c1[i - (c0.len())] && vstd::pervasive::cloned(self.0, c.0) && vstd::pervasive::cloned(self.2, c.2) && vstd::pervasive::cloned(self.3, c.3) && vstd::pervasive::cloned(self.4, c.4) && vstd::pervasive::cloned(self.5, c.5) && vstd::pervasive::cloned(self.6, c.6) && vstd::pervasive::cloned(self.7, c.7) },
                forall|i: int| c0.len() + c1.len() <= i < c0.len() + c1.len() + c2.len() ==> { let c = #[trigger] out@[i]; c.2 == c2[i - (c0.len() + c1.len())] && vstd::pervasive::cloned(self.0, c.0) && vstd::pervasive::cloned(self.1, c.1) && vstd::pervasive::cloned(self.3, c.3) && vstd::pervasive::cloned(self.4, c.4) && vstd::pervasive::cloned(self.5, c.5) && vstd::pervasive::cloned(self.6, c.6) && vstd::pervasive::cloned(self.7, c.7) },
                forall|i: int| c0.len() + c1.len() + c2.len() <= i < c0.len() + c1.len() + c2.len() + c3.len() ==> { let c = #[trigger] out@[i]; c.3 == c3[i - (c0.len() + c1.len() + c2.len())] && vstd::pervasive::cloned(self.0, c.0) && vstd::pervasive::cloned(self.1, c.1) && vstd::pervasive::cloned(self.2, c.2) && vstd::pervasive::cloned(self.4, c.4) && vstd::pervasive::cloned(self.5, c.5) && vstd::pervasive::cloned(self.6, c.6) && vstd::pervasive::cloned(self.7, c.7) },
                forall|i: int| c0.len() + c1.len() + c2.len() + c3.len() <= i < c0.len() + c1.len() + c2.len() + c3.len() + c4.len() ==> { let c = #[trigger] out@[i]; c.4 == c4[i - (c0.len() + c1.len() + c2.len() + c3.len())] && vstd::pervasive::cloned(self.0, c.0) && vstd::pervasive::cloned(self.1, c.1) && vstd::pervasive::cloned(self.2, c.2) && vstd::pervasive::cloned(self.3, c.3) && vstd::pervasive::cloned(self.5, c.5) && vstd::pervasive::cloned(self.6, c.6) && vstd::pervasive::cloned(self.7, c.7) },
                forall|i: int| c0.len() + c1.len() + c2.len() + c3.len() + c4.len() <= i < c0.len() + c1.len() + c2.len() + c3.len() + c4.len() + c5.len() ==> { let c = #[trigger] out@[i]; c.5 == c5[i - (c0.len() + c1.len() + c2.len() + c3.len() + c4.len())] && vstd::pervasive::cloned(self.0, c.0) && vstd::pervasive::cloned(self.1, c.1) && vstd::pervasive::cloned(self.2, c.2) && vstd::pervasive::cloned(self.3, c.3) && vstd::pervasive::cloned(self.4, c.4) && vstd::pervasive::cloned(self.6, c.6) && vstd::pervasive::cloned(self.7, c.7) },
                forall|i: int| c0.len() + c1.len() + c2.len() + c3.len() + c4.len() + c5.len() <= i < c0.len() + c1.len() + c2.len() + c3.len() + c4.len() + c5.len() + j ==> { let c = #[trigger] out@[i]; c.6 == c6[i - (c0.len() + c1.len() + c2.len() + c3.len() + c4.len() + c5.len())] && vstd::pervasive::cloned(self.0, c.0) && vstd::pervasive::cloned(self.1, c.1) && vstd::pervasive::cloned(self.2, c.2) && vstd::pervasive::cloned(self.3, c.3) && vstd::pervasive::cloned(self.4, c.4) && vstd::pervasive::cloned(self.5, c.5) && vstd::pervasive::cloned(self.7, c.7) },
            decreases simpler@.len(),
        {
            let replacement = simpler.remove(0);
            let k0 = self.0.clone();
            let k1 = self.1.clone();
            let k2 = self.2.clone();
            let k3 = self.3.clone();
            let k4 = self.4.clone();
            let k5 = self.5.clone();
            let k7 = self.7.clone();
            let ghost before = out@;
            out.push((k0, k1, k2, k3, k4, k5, replacement, k7));
            proof {
                assert(c6.skip(j)[0] == c6[j]);
                assert(simpler@ =~= c6.skip(j + 1));
                j = j + 1;
                assert forall|i: int| 0 <= i < c0.len() implies {
                    let c = #[trigger] out@[i]; c.0 == c0[i - (0)] && vstd::pervasive::cloned(self.1, c.1) && vstd::pervasive::cloned(self.2, c.2) && vstd::pervasive::cloned(self.3, c.3) && vstd::pervasive::cloned(self.4, c.4) && vstd::pervasive::cloned(self.5, c.5) && vstd::pervasive::cloned(self.6, c.6) && vstd::pervasive::cloned(self.7, c.7)
                } by {
                    if i < before.len() {
                        assert(out@[i] == before[i]);
                    }
                }
                assert forall|i: int| c0.len() <= i < c0.len() + c1.len() implies {
                    let c = #[trigger] out@[i]; c.1 == c1[i - (c0.len())] && vstd::pervasive::cloned(self.0, c.0) && vstd::pervasive::cloned(self.2, c.2) && vstd::pervasive::cloned(self.3, c.3) && vstd::pervasive::cloned(self.4, c.4) && vstd::pervasive::cloned(self.5, c.5) && vstd::pervasive::cloned(self.6, c.6) && vstd::pervasive::cloned(self.7, c.7)
                } by {
                    if i < before.len() {
                        assert(out@[i] == before[i]);
                    }
                }
                assert forall|i: int| c0.len() + c1.len() <= i < c0.len() + c1.len() + c2.len() implies {
                    let c = #[trigger] out@[i]; c.2 == c2[i - (c0.len() + c1.len())] && vstd::pervasive::cloned(self.0, c.0) && vstd::pervasive::cloned(self.1, c.1) && vstd::pervasive::cloned(self.3, c.3) && vstd::pervasive::cloned(self.4, c.4) && vstd::pervasive::cloned(self.5, c.5) && vstd::pervasive::cloned(self.6, c.6) && vstd::pervasive::cloned(self.7, c.7)
                } by {
                    if i < before.len() {
                        assert(out@[i] == before[i]);
                    }
                }
                assert forall|i: int| c0.len() + c1.len() + c2.len() <= i < c0.len() + c1.len() + c2.len() + c3.len() implies {
                    let c = #[trigger] out@[i]; c.3 == c3[i - (c0.len() + c1.len() + c2.len())] && vstd::pervasive::cloned(self.0, c.0) && vstd::pervasive::cloned(self.1, c.1) && vstd::pervasive::cloned(self.2, c.2) && vstd::pervasive::cloned(self.4, c.4) && vstd::pervasive::cloned(self.5, c.5) && vstd::pervasive::cloned(self.6, c.6) && vstd::pervasive::cloned(self.7, c.7)
                } by {
                    if i < before.len() {
                        assert(out@[i] == before[i]);
                    }
                }
                assert forall|i: int| c0.len() + c1.len() + c2.len() + c3.len() <= i < c0.len() + c1.len() + c2.len() + c3.len() + c4.len() implies {
                    let c = #[trigger] out@[i]; c.4 == c4[i - (c0.len() + c1.len() + c2.len() + c3.len())] && vstd::pervasive::cloned(self.0, c.0) && vstd::pervasive::cloned(self.1, c.1) && vstd::pervasive::cloned(self.2, c.2) && vstd::pervasive::cloned(self.3, c.3) && vstd::pervasive::cloned(self.5, c.5) && vstd::pervasive::cloned(self.6, c.6) && vstd::pervasive::cloned(self.7, c.7)
                } by {
                    if i < before.len() {
                        assert(out@[i] == before[i]);
                    }
                }
                assert forall|i: int| c0.len() + c1.len() + c2.len() + c3.len() + c4.len() <= i < c0.len() + c1.len() + c2.len() + c3.len() + c4.len() + c5.len() implies {
                    let c = #[trigger] out@[i]; c.5 == c5[i - (c0.len() + c1.len() + c2.len() + c3.len() + c4.len())] && vstd::pervasive::cloned(self.0, c.0) && vstd::pervasive::cloned(self.1, c.1) && vstd::pervasive::cloned(self.2, c.2) && vstd::pervasive::cloned(self.3, c.3) && vstd::pervasive::cloned(self.4, c.4) && vstd::pervasive::cloned(self.6, c.6) && vstd::pervasive::cloned(self.7, c.7)
                } by {
                    if i < before.len() {
                        assert(out@[i] == before[i]);
                    }
                }
                assert forall|i: int| c0.len() + c1.len() + c2.len() + c3.len() + c4.len() + c5.len() <= i < c0.len() + c1.len() + c2.len() + c3.len() + c4.len() + c5.len() + j implies {
                    let c = #[trigger] out@[i]; c.6 == c6[i - (c0.len() + c1.len() + c2.len() + c3.len() + c4.len() + c5.len())] && vstd::pervasive::cloned(self.0, c.0) && vstd::pervasive::cloned(self.1, c.1) && vstd::pervasive::cloned(self.2, c.2) && vstd::pervasive::cloned(self.3, c.3) && vstd::pervasive::cloned(self.4, c.4) && vstd::pervasive::cloned(self.5, c.5) && vstd::pervasive::cloned(self.7, c.7)
                } by {
                    if i < before.len() {
                        assert(out@[i] == before[i]);
                    }
                }
            }
        }
        let mut simpler = self.7.shrink();
        let ghost c7 = simpler@;
        let ghost mut j: int = 0;
        while simpler.len() > 0
            invariant
                A::shrunk(self.0, c0),
                B::shrunk(self.1, c1),
                C::shrunk(self.2, c2),
                D::shrunk(self.3, c3),
                E::shrunk(self.4, c4),
                F::shrunk(self.5, c5),
                G::shrunk(self.6, c6),
                H::shrunk(self.7, c7),
                0 <= j <= c7.len(),
                simpler@ == c7.skip(j),
                out@.len() == c0.len() + c1.len() + c2.len() + c3.len() + c4.len() + c5.len() + c6.len() + j,
                forall|i: int| 0 <= i < c0.len() ==> { let c = #[trigger] out@[i]; c.0 == c0[i - (0)] && vstd::pervasive::cloned(self.1, c.1) && vstd::pervasive::cloned(self.2, c.2) && vstd::pervasive::cloned(self.3, c.3) && vstd::pervasive::cloned(self.4, c.4) && vstd::pervasive::cloned(self.5, c.5) && vstd::pervasive::cloned(self.6, c.6) && vstd::pervasive::cloned(self.7, c.7) },
                forall|i: int| c0.len() <= i < c0.len() + c1.len() ==> { let c = #[trigger] out@[i]; c.1 == c1[i - (c0.len())] && vstd::pervasive::cloned(self.0, c.0) && vstd::pervasive::cloned(self.2, c.2) && vstd::pervasive::cloned(self.3, c.3) && vstd::pervasive::cloned(self.4, c.4) && vstd::pervasive::cloned(self.5, c.5) && vstd::pervasive::cloned(self.6, c.6) && vstd::pervasive::cloned(self.7, c.7) },
                forall|i: int| c0.len() + c1.len() <= i < c0.len() + c1.len() + c2.len() ==> { let c = #[trigger] out@[i]; c.2 == c2[i - (c0.len() + c1.len())] && vstd::pervasive::cloned(self.0, c.0) && vstd::pervasive::cloned(self.1, c.1) && vstd::pervasive::cloned(self.3, c.3) && vstd::pervasive::cloned(self.4, c.4) && vstd::pervasive::cloned(self.5, c.5) && vstd::pervasive::cloned(self.6, c.6) && vstd::pervasive::cloned(self.7, c.7) },
                forall|i: int| c0.len() + c1.len() + c2.len() <= i < c0.len() + c1.len() + c2.len() + c3.len() ==> { let c = #[trigger] out@[i]; c.3 == c3[i - (c0.len() + c1.len() + c2.len())] && vstd::pervasive::cloned(self.0, c.0) && vstd::pervasive::cloned(self.1, c.1) && vstd::pervasive::cloned(self.2, c.2) && vstd::pervasive::cloned(self.4, c.4) && vstd::pervasive::cloned(self.5, c.5) && vstd::pervasive::cloned(self.6, c.6) && vstd::pervasive::cloned(self.7, c.7) },
                forall|i: int| c0.len() + c1.len() + c2.len() + c3.len() <= i < c0.len() + c1.len() + c2.len() + c3.len() + c4.len() ==> { let c = #[trigger] out@[i]; c.4 == c4[i - (c0.len() + c1.len() + c2.len() + c3.len())] && vstd::pervasive::cloned(self.0, c.0) && vstd::pervasive::cloned(self.1, c.1) && vstd::pervasive::cloned(self.2, c.2) && vstd::pervasive::cloned(self.3, c.3) && vstd::pervasive::cloned(self.5, c.5) && vstd::pervasive::cloned(self.6, c.6) && vstd::pervasive::cloned(self.7, c.7) },
                forall|i: int| c0.len() + c1.len() + c2.len() + c3.len() + c4.len() <= i < c0.len() + c1.len() + c2.len() + c3.len() + c4.len() + c5.len() ==> { let c = #[trigger] out@[i]; c.5 == c5[i - (c0.len() + c1.len() + c2.len() + c3.len() + c4.len())] && vstd::pervasive::cloned(self.0, c.0) && vstd::pervasive::cloned(self.1, c.1) && vstd::pervasive::cloned(self.2, c.2) && vstd::pervasive::cloned(self.3, c.3) && vstd::pervasive::cloned(self.4, c.4) && vstd::pervasive::cloned(self.6, c.6) && vstd::pervasive::cloned(self.7, c.7) },
                forall|i: int| c0.len() + c1.len() + c2.len() + c3.len() + c4.len() + c5.len() <= i < c0.len() + c1.len() + c2.len() + c3.len() + c4.len() + c5.len() + c6.len() ==> { let c = #[trigger] out@[i]; c.6 == c6[i - (c0.len() + c1.len() + c2.len() + c3.len() + c4.len() + c5.len())] && vstd::pervasive::cloned(self.0, c.0) && vstd::pervasive::cloned(self.1, c.1) && vstd::pervasive::cloned(self.2, c.2) && vstd::pervasive::cloned(self.3, c.3) && vstd::pervasive::cloned(self.4, c.4) && vstd::pervasive::cloned(self.5, c.5) && vstd::pervasive::cloned(self.7, c.7) },
                forall|i: int| c0.len() + c1.len() + c2.len() + c3.len() + c4.len() + c5.len() + c6.len() <= i < c0.len() + c1.len() + c2.len() + c3.len() + c4.len() + c5.len() + c6.len() + j ==> { let c = #[trigger] out@[i]; c.7 == c7[i - (c0.len() + c1.len() + c2.len() + c3.len() + c4.len() + c5.len() + c6.len())] && vstd::pervasive::cloned(self.0, c.0) && vstd::pervasive::cloned(self.1, c.1) && vstd::pervasive::cloned(self.2, c.2) && vstd::pervasive::cloned(self.3, c.3) && vstd::pervasive::cloned(self.4, c.4) && vstd::pervasive::cloned(self.5, c.5) && vstd::pervasive::cloned(self.6, c.6) },
            decreases simpler@.len(),
        {
            let replacement = simpler.remove(0);
            let k0 = self.0.clone();
            let k1 = self.1.clone();
            let k2 = self.2.clone();
            let k3 = self.3.clone();
            let k4 = self.4.clone();
            let k5 = self.5.clone();
            let k6 = self.6.clone();
            let ghost before = out@;
            out.push((k0, k1, k2, k3, k4, k5, k6, replacement));
            proof {
                assert(c7.skip(j)[0] == c7[j]);
                assert(simpler@ =~= c7.skip(j + 1));
                j = j + 1;
                assert forall|i: int| 0 <= i < c0.len() implies {
                    let c = #[trigger] out@[i]; c.0 == c0[i - (0)] && vstd::pervasive::cloned(self.1, c.1) && vstd::pervasive::cloned(self.2, c.2) && vstd::pervasive::cloned(self.3, c.3) && vstd::pervasive::cloned(self.4, c.4) && vstd::pervasive::cloned(self.5, c.5) && vstd::pervasive::cloned(self.6, c.6) && vstd::pervasive::cloned(self.7, c.7)
                } by {
                    if i < before.len() {
                        assert(out@[i] == before[i]);
                    }
                }
                assert forall|i: int| c0.len() <= i < c0.len() + c1.len() implies {
                    let c = #[trigger] out@[i]; c.1 == c1[i - (c0.len())] && vstd::pervasive::cloned(self.0, c.0) && vstd::pervasive::cloned(self.2, c.2) && vstd::pervasive::cloned(self.3, c.3) && vstd::pervasive::cloned(self.4, c.4) && vstd::pervasive::cloned(self.5, c.5) && vstd::pervasive::cloned(self.6, c.6) && vstd::pervasive::cloned(self.7, c.7)
                } by {
                    if i < before.len() {
                        assert(out@[i] == before[i]);
                    }
                }
                assert forall|i: int| c0.len() + c1.len() <= i < c0.len() + c1.len() + c2.len() implies {
                    let c = #[trigger] out@[i]; c.2 == c2[i - (c0.len() + c1.len())] && vstd::pervasive::cloned(self.0, c.0) && vstd::pervasive::cloned(self.1, c.1) && vstd::pervasive::cloned(self.3, c.3) && vstd::pervasive::cloned(self.4, c.4) && vstd::pervasive::cloned(self.5, c.5) && vstd::pervasive::cloned(self.6, c.6) && vstd::pervasive::cloned(self.7, c.7)
                } by {
                    if i < before.len() {
                        assert(out@[i] == before[i]);
                    }
                }
                assert forall|i: int| c0.len() + c1.len() + c2.len() <= i < c0.len() + c1.len() + c2.len() + c3.len() implies {
                    let c = #[trigger] out@[i]; c.3 == c3[i - (c0.len() + c1.len() + c2.len())] && vstd::pervasive::cloned(self.0, c.0) && vstd::pervasive::cloned(self.1, c.1) && vstd::pervasive::cloned(self.2, c.2) && vstd::pervasive::cloned(self.4, c.4) && vstd::pervasive::cloned(self.5, c.5) && vstd::pervasive::cloned(self.6, c.6) && vstd::pervasive::cloned(self.7, c.7)
                } by {
                    if i < before.len() {
                        assert(out@[i] == before[i]);
                    }
                }
                assert forall|i: int| c0.len() + c1.len() + c2.len() + c3.len() <= i < c0.len() + c1.len() + c2.len() + c3.len() + c4.len() implies {
                    let c = #[trigger] out@[i]; c.4 == c4[i - (c0.len() + c1.len() + c2.len() + c3.len())] && vstd::pervasive::cloned(self.0, c.0) && vstd::pervasive::cloned(self.1, c.1) && vstd::pervasive::cloned(self.2, c.2) && vstd::pervasive::cloned(self.3, c.3) && vstd::pervasive::cloned(self.5, c.5) && vstd::pervasive::cloned(self.6, c.6) && vstd::pervasive::cloned(self.7, c.7)
                } by {
                    if i < before.len() {
                        assert(out@[i] == before[i]);
                    }
                }
                assert forall|i: int| c0.len() + c1.len() + c2.len() + c3.len() + c4.len() <= i < c0.len() + c1.len() + c2.len() + c3.len() + c4.len() + c5.len() implies {
                    let c = #[trigger] out@[i]; c.5 == c5[i - (c0.len() + c1.len() + c2.len() + c3.len() + c4.len())] && vstd::pervasive::cloned(self.0, c.0) && vstd::pervasive::cloned(self.1, c.1) && vstd::pervasive::cloned(self.2, c.2) && vstd::pervasive::cloned(self.3, c.3) && vstd::pervasive::cloned(self.4, c.4) && vstd::pervasive::cloned(self.6, c.6) && vstd::pervasive::cloned(self.7, c.7)
                } by {
                    if i < before.len() {
                        assert(out@[i] == before[i]);
                    }
                }
                assert forall|i: int| c0.len() + c1.len() + c2.len() + c3.len() + c4.len() + c5.len() <= i < c0.len() + c1.len() + c2.len() + c3.len() + c4.len() + c5.len() + c6.len() implies {
                    let c = #[trigger] out@[i]; c.6 == c6[i - (c0.len() + c1.len() + c2.len() + c3.len() + c4.len() + c5.len())] && vstd::pervasive::cloned(self.0, c.0) && vstd::pervasive::cloned(self.1, c.1) && vstd::pervasive::cloned(self.2, c.2) && vstd::pervasive::cloned(self.3, c.3) && vstd::pervasive::cloned(self.4, c.4) && vstd::pervasive::cloned(self.5, c.5) && vstd::pervasive::cloned(self.7, c.7)
                } by {
                    if i < before.len() {
                        assert(out@[i] == before[i]);
                    }
                }
                assert forall|i: int| c0.len() + c1.len() + c2.len() + c3.len() + c4.len() + c5.len() + c6.len() <= i < c0.len() + c1.len() + c2.len() + c3.len() + c4.len() + c5.len() + c6.len() + j implies {
                    let c = #[trigger] out@[i]; c.7 == c7[i - (c0.len() + c1.len() + c2.len() + c3.len() + c4.len() + c5.len() + c6.len())] && vstd::pervasive::cloned(self.0, c.0) && vstd::pervasive::cloned(self.1, c.1) && vstd::pervasive::cloned(self.2, c.2) && vstd::pervasive::cloned(self.3, c.3) && vstd::pervasive::cloned(self.4, c.4) && vstd::pervasive::cloned(self.5, c.5) && vstd::pervasive::cloned(self.6, c.6)
                } by {
                    if i < before.len() {
                        assert(out@[i] == before[i]);
                    }
                }
            }
        }
        out
    }
}

// ── Soroban-bounded generators ──────────────────────────────────────────────

/// What a bounded generator yields from state `s`, and the state it leaves:
/// one draw in three picks one of `edges`, else two draws make a 128-bit
/// number that is reduced modulo `modulus` and offset from `low`.
pub open spec fn bounded_arbitrary(s: u64, edges: Seq<int>, low: int, modulus: int) -> (int, u64) {
    let s1 = next_state(s);
    let s2 = next_state(s1);
    if draw(s) % 3 == 0 {
        (edges[(draw(s1) as int) % (edges.len() as int)], s2)
    } else {
        (low + ((draw(s1) as int) * 0x1_0000_0000_0000_0000 + (draw(s2) as int)) % modulus, next_state(
            s2,
        ))
    }
}

/// Generates a value in `low..low + modulus`, or one of `edges`.
fn generate_bounded(rng: &mut Rng, edges: &[i128], low: i128, modulus: u128) -> (r: i128)
    requires
        0 < edges@.len() <= 8,
        0 < modulus <= 0x8000_0000_0000_0000_0000_0000_0000_0000,
        low + modulus - 1 <= i128::MAX,
        low >= i128::MIN,
    ensures
        r as int == bounded_arbitrary(
            old(rng).state(),
            edges@.map_values(|x: i128| x as int),
            low as int,
            modulus as int,
        ).0,
        final(rng).state() == bounded_arbitrary(
            old(rng).state(),
            edges@.map_values(|x: i128| x as int),
            low as int,
            modulus as int,
        ).1,
{
    if rng.one_in(3) {
        let r = pick(rng, edges);
        proof {
            let j = (draw(next_state(old(rng).state())) as int) % (edges@.len() as int);
            assert(r as int == edges@.map_values(|x: i128| x as int)[j]);
        }
        r
    } else {
        let high = rng.next_u64();
        let low_bits = rng.next_u64();
        let combined: u128 = (high as u128) * 0x1_0000_0000_0000_0000 + (low_bits as u128);
        let offset = combined % modulus;
        low + (offset as i128)
    }
}

/// An `i128` restricted to the range Soroban contracts use for token amounts:
/// non-negative. Generated values cluster around `0`, `1` and the maximum.
#[derive(Debug, Clone, Copy, PartialEq, Eq, PartialOrd, Ord, Hash)]
pub struct SorobanAmount(pub i128);

/// A full-range `i128`, including negatives.
#[derive(Debug, Clone, Copy, PartialEq, Eq, PartialOrd, Ord, Hash)]
pub struct SorobanI128(pub i128);

/// A `u32` in the range Soroban uses for ledger sequence numbers.
#[derive(Debug, Clone, Copy, PartialEq, Eq, PartialOrd, Ord, Hash)]
pub struct SorobanU32(pub u32);

/// A `u64` in the range Soroban uses for ledger timestamps.
#[derive(Debug, Clone, Copy, PartialEq, Eq, PartialOrd, Ord, Hash)]
pub struct SorobanTimestamp(pub u64);

impl SorobanAmount {
    /// The smallest value this generator produces.
    pub const MIN: i128 = 0;

    /// The largest value this generator produces.
    pub const MAX: i128 = i128::MAX;

    /// Returns the wrapped value.
    pub fn get(self) -> (r: i128)
        ensures
            r == self.0,
    {
        self.0
    }
}

impl SorobanI128 {
    /// The smallest value this generator produces.
    pub const MIN: i128 = i128::MIN;

    /// The largest value this generator produces.
    pub const MAX: i128 = i128::MAX;

    /// Returns the wrapped value.
    pub fn get(self) -> (r: i128)
        ensures
            r == self.0,
    {
        self.0
    }
}

impl SorobanU32 {
    /// The smallest value this generator produces.
    pub const MIN: u32 = 0;

    /// The largest value this generator produces.
    pub const MAX: u32 = u32::MAX;

    /// Returns the wrapped value.
    pub fn get(self) -> (r: u32)
        ensures
            r == self.0,
    {
        self.0
    }
}

impl SorobanTimestamp {
    /// The smallest value this generator produces.
    pub const MIN: u64 = 0;

    /// The largest value this generator produces.
    pub const MAX: u64 = u64::MAX;

    /// Returns the wrapped value.
    pub fn get(self) -> (r: u64)
        ensures
            r == self.0,
    {
        self.0
    }
}

impl From<SorobanAmount> for i128 {
    fn from(value: SorobanAmount) -> (r: i128) {
        value.0
    }
}

impl vstd::std_specs::convert::FromSpecImpl<SorobanAmount> for i128 {
    open spec fn obeys_from_spec() -> bool {
        true
    }

    open spec fn from_spec(value: SorobanAmount) -> i128 {
        value.0
    }
}

impl From<SorobanI128> for i128 {
    fn from(value: SorobanI128) -> (r: i128) {
        value.0
    }
}

impl vstd::std_specs::convert::FromSpecImpl<SorobanI128> for i128 {
    open spec fn obeys_from_spec() -> bool {
        true
    }

    open spec fn from_spec(value: SorobanI128) -> i128 {
        value.0
    }
}

impl From<SorobanU32> for u32 {
    fn from(value: SorobanU32) -> (r: u32) {
        value.0
    }
}

impl vstd::std_specs::convert::FromSpecImpl<SorobanU32> for u32 {
    open spec fn obeys_from_spec() -> bool {
        true
    }

    open spec fn from_spec(value: SorobanU32) -> u32 {
        value.0
    }
}

impl From<SorobanTimestamp> for u64 {
    fn from(value: SorobanTimestamp) -> (r: u64) {
        value.0
    }
}

impl vstd::std_specs::convert::FromSpecImpl<SorobanTimestamp> for u64 {
    open spec fn obeys_from_spec() -> bool {
        true
    }

    open spec fn from_spec(value: SorobanTimestamp) -> u64 {
        value.0
    }
}

impl Arbitrary for SorobanAmount {
    open spec fn generates(state: u64, size: u32, value: SorobanAmount, next: u64) -> bool {
        &&& (value.0 as int == bounded_arbitrary(
            state,
            seq![0, 1, 2, i128::MAX as int, i128::MAX - 1],
            0,
            0x8000_0000_0000_0000_0000_0000_0000_0000,
        ).0)
        &&& (next == bounded_arbitrary(
            state,
            seq![0, 1, 2, i128::MAX as int, i128::MAX - 1],
            0,
            0x8000_0000_0000_0000_0000_0000_0000_0000,
        ).1)
        &&& (value.0 >= 0)
    }

    open spec fn shrunk(value: SorobanAmount, candidates: Seq<SorobanAmount>) -> bool {
        &&& (candidates.map_values(|a: SorobanAmount| a.0 as int) == signed_candidates(
            value.0 as int,
            i128::MIN as int,
        ).filter(|c: int| c >= 0))
        &&& (forall|i: int| 0 <= i < candidates.len() ==> (#[trigger] candidates[i]).0 >= 0)
    }

    fn arbitrary(rng: &mut Rng, _size: u32) -> (r: SorobanAmount)
        ensures
            r.0 as int == bounded_arbitrary(
                old(rng).state(),
                seq![0, 1, 2, i128::MAX as int, i128::MAX - 1],
                0,
                0x8000_0000_0000_0000_0000_0000_0000_0000,
            ).0,
            final(rng).state() == bounded_arbitrary(
                old(rng).state(),
                seq![0, 1, 2, i128::MAX as int, i128::MAX - 1],
                0,
                0x8000_0000_0000_0000_0000_0000_0000_0000,
            ).1,
            r.0 >= 0,
    {
        let edges: Vec<i128> = vec![0, 1, 2, i128::MAX, i128::MAX - 1];
        proof {
            assert(edges@.map_values(|x: i128| x as int) =~= seq![
                0,
                1,
                2,
                i128::MAX as int,
                i128::MAX - 1,
            ]);
        }
        SorobanAmount(
            generate_bounded(rng, edges.as_slice(), 0, 0x8000_0000_0000_0000_0000_0000_0000_0000),
        )
    }

    fn shrink(&self) -> (r: Vec<SorobanAmount>)
        ensures
            r@.map_values(|a: SorobanAmount| a.0 as int) == signed_candidates(
                self.0 as int,
                i128::MIN as int,
            ).filter(|c: int| c >= 0),
            forall|i: int| 0 <= i < r@.len() ==> (#[trigger] r@[i]).0 >= 0,
    {
        let inner = self.0.shrink();
        let ghost all = inner@.map_values(|x: i128| x as int);
        let mut out: Vec<SorobanAmount> = Vec::new();
        let mut i: usize = 0;
        proof {
            assert(all.take(0) =~= Seq::<int>::empty());
            reveal_with_fuel(Seq::<_>::filter, 1);
            assert(out@.map_values(|a: SorobanAmount| a.0 as int) =~= all.take(0).filter(
                |c: int| c >= 0,
            ));
        }
        while i < inner.len()
            invariant
                all == inner@.map_values(|x: i128| x as int),
                all == signed_candidates(self.0 as int, i128::MIN as int),
                i <= inner@.len(),
                out@.map_values(|a: SorobanAmount| a.0 as int) == all.take(i as int).filter(
                    |c: int| c >= 0,
                ),
                forall|k: int| 0 <= k < out@.len() ==> (#[trigger] out@[k]).0 >= 0,
            decreases inner@.len() - i,
        {
            proof {
                assert(all.take(i + 1).drop_last() =~= all.take(i as int));
                reveal_with_fuel(Seq::<_>::filter, 1);
            }
            let c = inner[i];
            if c >= 0 {
                out.push(SorobanAmount(c));
            }
            proof {
                assert(out@.map_values(|a: SorobanAmount| a.0 as int) =~= all.take(i + 1).filter(
                    |c: int| c >= 0,
                ));
            }
            i = i + 1;
        }
        proof {
            assert(all.take(inner@.len() as int) =~= all);
        }
        out
    }
}

impl Arbitrary for SorobanI128 {
    open spec fn generates(state: u64, size: u32, value: SorobanI128, next: u64) -> bool {
        &&& (value.0 as int == bounded_arbitrary(
            state,
            seq![0, 1, -1, i128::MAX as int, i128::MIN as int],
            i128::MIN as int,
            2,
        ).0)
        &&& (next == bounded_arbitrary(
            state,
            seq![0, 1, -1, i128::MAX as int, i128::MIN as int],
            i128::MIN as int,
            2,
        ).1)
    }

    open spec fn shrunk(value: SorobanI128, candidates: Seq<SorobanI128>) -> bool {
        &&& (candidates.map_values(|a: SorobanI128| a.0 as int) == signed_candidates(
            value.0 as int,
            i128::MIN as int,
        ))
    }

    fn arbitrary(rng: &mut Rng, _size: u32) -> (r: SorobanI128)
        ensures
            r.0 as int == bounded_arbitrary(
                old(rng).state(),
                seq![0, 1, -1, i128::MAX as int, i128::MIN as int],
                i128::MIN as int,
                2,
            ).0,
            final(rng).state() == bounded_arbitrary(
                old(rng).state(),
                seq![0, 1, -1, i128::MAX as int, i128::MIN as int],
                i128::MIN as int,
                2,
            ).1,
    {
        // The span `MAX - MIN` wraps to -1 in `i128`, whose magnitude is 1.
        let edges: Vec<i128> = vec![0, 1, -1, i128::MAX, i128::MIN];
        proof {
            assert(edges@.map_values(|x: i128| x as int) =~= seq![
                0,
                1,
                -1,
                i128::MAX as int,
                i128::MIN as int,
            ]);
        }
        SorobanI128(generate_bounded(rng, edges.as_slice(), i128::MIN, 2))
    }

    fn shrink(&self) -> (r: Vec<SorobanI128>)
        ensures
            r@.map_values(|a: SorobanI128| a.0 as int) == signed_candidates(
                self.0 as int,
                i128::MIN as int,
            ),
    {
        let inner = self.0.shrink();
        let ghost all = inner@.map_values(|x: i128| x as int);
        let mut out: Vec<SorobanI128> = Vec::new();
        let mut i: usize = 0;
        proof {
            assert(out@.map_values(|a: SorobanI128| a.0 as int) =~= all.take(0));
        }
        while i < inner.len()
            invariant
                all == inner@.map_values(|x: i128| x as int),
                i <= inner@.len(),
                out@.map_values(|a: SorobanI128| a.0 as int) == all.take(i as int),
            decreases inner@.len() - i,
        {
            let ghost before = out@.map_values(|a: SorobanI128| a.0 as int);
            out.push(SorobanI128(inner[i]));
            proof {
                assert(out@.map_values(|a: SorobanI128| a.0 as int) =~= before.push(all[i as int]));
                assert(all.take(i + 1) =~= all.take(i as int).push(all[i as int]));
            }
            i = i + 1;
        }
        proof {
            assert(all.take(inner@.len() as int) =~= all);
        }
        out
    }
}

impl Arbitrary for SorobanU32 {
    open spec fn generates(state: u64, size: u32, value: SorobanU32, next: u64) -> bool {
        &&& (value.0 as int == bounded_arbitrary(
            state,
            seq![0, 1, u32::MAX as int, u32::MAX - 1],
            0,
            0x1_0000_0000,
        ).0)
        &&& (next == bounded_arbitrary(
            state,
            seq![0, 1, u32::MAX as int, u32::MAX - 1],
            0,
            0x1_0000_0000,
        ).1)
    }

    open spec fn shrunk(value: SorobanU32, candidates: Seq<SorobanU32>) -> bool {
        &&& (candidates.map_values(|a: SorobanU32| a.0 as int) == unsigned_candidates(value.0 as int))
    }

    fn arbitrary(rng: &mut Rng, _size: u32) -> (r: SorobanU32)
        ensures
            r.0 as int == bounded_arbitrary(
                old(rng).state(),
                seq![0, 1, u32::MAX as int, u32::MAX - 1],
                0,
                0x1_0000_0000,
            ).0,
            final(rng).state() == bounded_arbitrary(
                old(rng).state(),
                seq![0, 1, u32::MAX as int, u32::MAX - 1],
                0,
                0x1_0000_0000,
            ).1,
    {
        let edges: Vec<i128> = vec![0, 1, u32::MAX as i128, (u32::MAX - 1) as i128];
        proof {
            assert(edges@.map_values(|x: i128| x as int) =~= seq![
                0,
                1,
                u32::MAX as int,
                u32::MAX - 1,
            ]);
        }
        let v = generate_bounded(rng, edges.as_slice(), 0, 0x1_0000_0000);
        proof {
            let m = edges@.map_values(|x: i128| x as int);
            let s = old(rng).state();
            if draw(s) % 3 == 0 {
                let j = (draw(next_state(s)) as int) % 4;
                assert(0 <= m[j] <= u32::MAX);
            }
        }
        SorobanU32(v as u32)
    }

    fn shrink(&self) -> (r: Vec<SorobanU32>)
        ensures
            r@.map_values(|a: SorobanU32| a.0 as int) == unsigned_candidates(self.0 as int),
    {
        let inner = self.0.shrink();
        let ghost all = inner@.map_values(|x: u32| x as int);
        let mut out: Vec<SorobanU32> = Vec::new();
        let mut i: usize = 0;
        proof {
            assert(out@.map_values(|a: SorobanU32| a.0 as int) =~= all.take(0));
        }
        while i < inner.len()
            invariant
                all == inner@.map_values(|x: u32| x as int),
                i <= inner@.len(),
                out@.map_values(|a: SorobanU32| a.0 as int) == all.take(i as int),
            decreases inner@.len() - i,
        {
            let ghost before = out@.map_values(|a: SorobanU32| a.0 as int);
            out.push(SorobanU32(inner[i]));
            proof {
                assert(out@.map_values(|a: SorobanU32| a.0 as int) =~= before.push(all[i as int]));
                assert(all.take(i + 1) =~= all.take(i as int).push(all[i as int]));
            }
            i = i + 1;
        }
        proof {
            assert(all.take(inner@.len() as int) =~= all);
        }
        out
    }
}

impl Arbitrary for SorobanTimestamp {
    open spec fn generates(state: u64, size: u32, value: SorobanTimestamp, next: u64) -> bool {
        &&& (value.0 as int == bounded_arbitrary(
            state,
            seq![0, 1, u64::MAX as int, u64::MAX - 1],
            0,
            0x1_0000_0000_0000_0000,
        ).0)
        &&& (next == bounded_arbitrary(
            state,
            seq![0, 1, u64::MAX as int, u64::MAX - 1],
            0,
            0x1_0000_0000_0000_0000,
        ).1)
    }

    open spec fn shrunk(value: SorobanTimestamp, candidates: Seq<SorobanTimestamp>) -> bool {
        &&& (candidates.map_values(|a: SorobanTimestamp| a.0 as int) == unsigned_candidates(value.0 as int))
    }

    fn arbitrary(rng: &mut Rng, _size: u32) -> (r: SorobanTimestamp)
        ensures
            r.0 as int == bounded_arbitrary(
                old(rng).state(),
                seq![0, 1, u64::MAX as int, u64::MAX - 1],
                0,
                0x1_0000_0000_0000_0000,
            ).0,
            final(rng).state() == bounded_arbitrary(
                old(rng).state(),
                seq![0, 1, u64::MAX as int, u64::MAX - 1],
                0,
                0x1_0000_0000_0000_0000,
            ).1,
    {
        let edges: Vec<i128> = vec![0, 1, u64::MAX as i128, (u64::MAX - 1) as i128];
        proof {
            assert(edges@.map_values(|x: i128| x as int) =~= seq![
                0,
                1,
                u64::MAX as int,
                u64::MAX - 1,
            ]);
        }
        let v = generate_bounded(rng, edges.as_slice(), 0, 0x1_0000_0000_0000_0000);
        proof {
            let m = edges@.map_values(|x: i128| x as int);
            let s = old(rng).state();
            if draw(s) % 3 == 0 {
                let j = (draw(next_state(s)) as int) % 4;
                assert(0 <= m[j] <= u64::MAX);
            }
        }
        SorobanTimestamp(v as u64)
    }

    fn shrink(&self) -> (r: Vec<SorobanTimestamp>)
        ensures
            r@.map_values(|a: SorobanTimestamp| a.0 as int) == unsigned_candidates(self.0 as int),
    {
        let inner = self.0.shrink();
        let ghost all = inner@.map_values(|x: u64| x as int);
        let mut out: Vec<SorobanTimestamp> = Vec::new();
        let mut i: usize = 0;
        proof {
            assert(out@.map_values(|a: SorobanTimestamp| a.0 as int) =~= all.take(0));
        }
        while i < inner.len()
            invariant
                all == inner@.map_values(|x: u64| x as int),
                i <= inner@.len(),
                out@.map_values(|a: SorobanTimestamp| a.0 as int) == all.take(i as int),
            decreases inner@.len() - i,
        {
            let ghost before = out@.map_values(|a: SorobanTimestamp| a.0 as int);
            out.push(SorobanTimestamp(inner[i]));
            proof {
                assert(out@.map_values(|a: SorobanTimestamp| a.0 as int) =~= before.push(
                    all[i as int],
                ));
                assert(all.take(i + 1) =~= all.take(i as int).push(all[i as int]));
            }
            i = i + 1;
        }
        proof {
            assert(all.take(inner@.len() as int) =~= all);
        }
        out
    }
}

// ── Running properties ──────────────────────────────────────────────────────

/// How a property run should be configured.
#[derive(Debug, Clone, Copy, PartialEq, Eq)]
pub struct Config {
    /// Number of inputs to generate.
    pub cases: u32,
    /// Maximum shrink steps before reporting the smallest case found.
    pub shrink_iters: u32,
    /// Seed for the generator, or `None` to pick one per run.
    pub seed: Option<u64>,
    /// Soft budget bounding collection lengths and recursion.
    pub size: u32,
}

impl Default for Config {
    fn default() -> (r: Self)
        ensures
            r.cases == DEFAULT_CASES,
            r.shrink_iters == DEFAULT_SHRINK_ITERS,
            r.seed is None,
            r.size == 32,
    {
        Config { cases: DEFAULT_CASES, shrink_iters: DEFAULT_SHRINK_ITERS, seed: None, size: 32 }
    }
}

impl Config {
    /// The configuration with the overrides a run's environment supplies (the
    /// values of `CRUCIBLE_QUICKCHECK_CASES`, `CRUCIBLE_QUICKCHECK_SHRINK` and
    /// `CRUCIBLE_QUICKCHECK_SEED`, where set and well formed). Only the fields
    /// the caller left at their default are overridden, so an explicit setting
    /// is never widened by a developer's shell.
    pub fn with_env_overrides(self, cases: Option<u32>, shrink_iters: Option<u32>, seed: Option<
        u64,
    >) -> (r: Config)
        ensures
            r.cases == (match cases {
                Some(c) => if self.cases == DEFAULT_CASES {
                    c
                } else {
                    self.cases
                },
                None => self.cases,
            }),
            r.shrink_iters == (match shrink_iters {
                Some(s) => if self.shrink_iters == DEFAULT_SHRINK_ITERS {
                    s
                } else {
                    self.shrink_iters
                },
                None => self.shrink_iters,
            }),
            r.seed == (if self.seed is None {
                seed
            } else {
                self.seed
            }),
            r.size == self.size,
    {
        let mut config = self;
        if config.cases == DEFAULT_CASES {
            if let Some(c) = cases {
                config.cases = c;
            }
        }
        if config.shrink_iters == DEFAULT_SHRINK_ITERS {
            if let Some(s) = shrink_iters {
                config.shrink_iters = s;
            }
        }
        if config.seed.is_none() {
            config.seed = seed;
        }
        config
    }
}

/// The seed taken from a clock reading in nanoseconds since the epoch: the
/// reading cut to 64 bits, or `0x5EED` for a clock that read earlier than the
/// epoch.
pub fn seed_from_clock(nanos: Option<u128>) -> (r: u64)
    ensures
        r == match nanos {
            Some(n) => (n % 0x1_0000_0000_0000_0000) as u64,
            None => 0x5EED,
        },
{
    match nanos {
        Some(n) => (n % 0x1_0000_0000_0000_0000) as u64,
        None => 0x5EED,
    }
}

/// The seed a run uses: the configured one, else one read from the clock (see
/// `seed_from_clock`).
fn resolved_seed(config: &Config) -> (r: u64)
    ensures
        config.seed matches Some(s) ==> r == s,
{
    match config.seed {
        Some(s) => s,
        None => seed_from_clock(nanos_since_epoch()),
    }
}

/// The report of a failed property: where it failed, the minimal input found
/// (as `shown`), its failure, the shrink steps and the seed to reproduce it.
pub open spec fn failure_report(
    name: Seq<char>,
    case: nat,
    cases: nat,
    shown: Seq<char>,
    failure: Seq<char>,
    steps: nat,
    seed: nat,
) -> Seq<char> {
    name + " failed on case "@ + decimal(case) + " of "@ + decimal(cases)
        + ".\n\nMinimal failing input : "@ + shown + "\nPanic                 : "@ + failure
        + "\nShrink steps          : "@ + decimal(steps) + "\nSeed                  : "@ + decimal(
        seed,
    ) + "\n\nRe-run this exact case with CRUCIBLE_QUICKCHECK_SEED="@ + decimal(seed) + "."@
}

/// The property, run on a clone of `input`, gave `outcome`.
pub open spec fn ran<T: Clone, F: Fn(T) -> Result<(), String>>(
    property: F,
    input: T,
    outcome: Result<(), String>,
) -> bool {
    exists|probe: T|
        vstd::pervasive::cloned(input, probe) && #[trigger] property.ensures((probe,), outcome)
}

/// The property passed on a clone of `input`.
pub open spec fn passed_on<T: Clone, F: Fn(T) -> Result<(), String>>(property: F, input: T) -> bool {
    ran(property, input, Ok(()))
}

/// The property failed with `failure` on a clone of `input`.
pub open spec fn failed_on<T: Clone, F: Fn(T) -> Result<(), String>>(
    property: F,
    input: T,
    failure: String,
) -> bool {
    ran(property, input, Err(failure))
}

/// `next` is the first shrink candidate of `current` on which the property
/// failed, with `failure`: it passed on every candidate before it.
pub open spec fn shrink_step<T: Arbitrary + Clone, F: Fn(T) -> Result<(), String>>(
    property: F,
    current: T,
    next: T,
    failure: String,
) -> bool {
    exists|cands: Seq<T>, j: int|
        #[trigger] T::shrunk(current, cands) && 0 <= j < cands.len() && #[trigger] cands[j] == next
            && (forall|l: int| 0 <= l < j ==> passed_on(property, #[trigger] cands[l]))
            && failed_on(property, next, failure)
}

/// The property passed on every shrink candidate of `current`.
pub open spec fn shrink_exhausted<T: Arbitrary + Clone, F: Fn(T) -> Result<(), String>>(
    property: F,
    current: T,
) -> bool {
    exists|cands: Seq<T>|
        #[trigger] T::shrunk(current, cands) && forall|l: int|
            0 <= l < cands.len() ==> passed_on(property, #[trigger] cands[l])
}

/// `inputs` is a chain of shrink steps, each input the first failing shrink
/// candidate of the one before, failing with the matching entry of `failures`.
pub open spec fn shrink_chain<T: Arbitrary + Clone, F: Fn(T) -> Result<(), String>>(
    property: F,
    inputs: Seq<T>,
    failures: Seq<String>,
) -> bool {
    &&& inputs.len() >= 1
    &&& failures.len() == inputs.len()
    &&& forall|i: int|
        0 <= i < inputs.len() - 1 ==> shrink_step(
            property,
            #[trigger] inputs[i],
            inputs[i + 1],
            failures[i + 1],
        )
}

/// What shrinking a failing `input` (failing with `failure`) for at most
/// `max_steps` steps gives: the last input of a shrink chain from `input`, its
/// failure and the number of steps; when fewer steps than allowed were taken,
/// the property passed on every shrink candidate of that last input.
pub open spec fn shrink_outcome<T: Arbitrary + Clone, F: Fn(T) -> Result<(), String>>(
    property: F,
    input: T,
    failure: String,
    max_steps: nat,
    minimal: T,
    minimal_failure: String,
    steps: nat,
) -> bool {
    exists|inputs: Seq<T>, failures: Seq<String>|
        {
            &&& #[trigger] shrink_chain(property, inputs, failures)
            &&& inputs[0] == input
            &&& failures[0] == failure
            &&& inputs.len() == steps + 1
            &&& inputs.last() == minimal
            &&& failures.last() == minimal_failure
            &&& steps <= max_steps
            &&& (steps < max_steps ==> shrink_exhausted(property, minimal))
        }
}

/// Repeatedly replaces the failing input with its first shrink candidate that
/// still fails, up to `max_steps` times; returns the smallest input found, its
/// failure and the number of replacements.
fn shrink_failure<T: Arbitrary + Clone, F: Fn(T) -> Result<(), String>>(
    property: &F,
    input: T,
    failure: String,
    max_steps: u32,
) -> (r: (T, String, u32))
    requires
        forall|t: T| property.requires((t,)),
    ensures
        shrink_outcome(*property, input, failure, max_steps as nat, r.0, r.1, r.2 as nat),
{
    let ghost first_input = input;
    let ghost first_failure = failure;
    let mut input = input;
    let mut failure = failure;
    let mut steps: u32 = 0;
    let mut done = false;
    let ghost mut chain: Seq<T> = seq![input];
    let ghost mut fails: Seq<String> = seq![failure];
    while steps < max_steps && !done
        invariant
            forall|t: T| property.requires((t,)),
            steps <= max_steps,
            shrink_chain(*property, chain, fails),
            chain[0] == first_input,
            fails[0] == first_failure,
            chain.len() == steps + 1,
            chain.last() == input,
            fails.last() == failure,
            done ==> shrink_exhausted(*property, input),
        decreases max_steps - steps + (if done {
            0int
        } else {
            1int
        }),
    {
        let mut candidates = input.shrink();
        let ghost cands = candidates@;
        let ghost current = input;
        let ghost current_failure = failure;
        let ghost mut j: int = 0;
        let mut replaced = false;
        while candidates.len() > 0 && !replaced
            invariant
                forall|t: T| property.requires((t,)),
                T::shrunk(current, cands),
                0 <= j <= cands.len(),
                !replaced ==> candidates@ == cands.skip(j) && input == current && failure
                    == current_failure,
                forall|l: int| 0 <= l < j ==> passed_on(*property, #[trigger] cands[l]),
                replaced ==> j < cands.len() && cands[j] == input && failed_on(
                    *property,
                    input,
                    failure,
                ),
            decreases candidates@.len(),
        {
            let candidate = candidates.remove(0);
            proof {
                assert(cands.skip(j)[0] == cands[j]);
            }
            let probe = candidate.clone();
            let outcome = property(probe);
            let ghost result = outcome;
            match outcome {
                Err(f) => {
                    proof {
                        assert(property.ensures((probe,), Err::<(), String>(f)));
                        assert(failed_on(*property, candidate, f));
                    }
                    input = candidate;
                    failure = f;
                    replaced = true;
                },
                Ok(()) => {
                    proof {
                        assert(result == Ok::<(), String>(result->Ok_0));
                        assert(property.ensures((probe,), Ok::<(), String>(())));
                        assert(passed_on(*property, cands[j]));
                        assert(candidates@ =~= cands.skip(j + 1));
                        j = j + 1;
                    }
                },
            }
        }
        if replaced {
            proof {
                assert(shrink_step(*property, current, input, failure));
                let old_chain = chain;
                let old_fails = fails;
                chain = chain.push(input);
                fails = fails.push(failure);
                assert forall|i: int| 0 <= i < chain.len() - 1 implies shrink_step(
                    *property,
                    #[trigger] chain[i],
                    chain[i + 1],
                    fails[i + 1],
                ) by {
                    if i < old_chain.len() - 1 {
                        assert(chain[i] == old_chain[i]);
                        assert(chain[i + 1] == old_chain[i + 1]);
                        assert(fails[i + 1] == old_fails[i + 1]);
                    } else {
                        assert(chain[i] == current);
                    }
                }
            }
            steps = steps + 1;
        } else {
            proof {
                assert(j == cands.len());
                assert(shrink_exhausted(*property, current));
            }
            done = true;
        }
    }
    proof {
        assert(shrink_chain(*property, chain, fails));
    }
    (input, failure, steps)
}

/// What a run of `property` from the seed `seed` gave: on `Ok`, `config.cases`
/// inputs generated one after another from a generator seeded with `seed`, on
/// each of which the property passed; on `Err`, the inputs generated up to the
/// first on which it failed, that input shrunk (see `shrink_outcome`) for at
/// most `config.shrink_iters` steps, and the report of the smallest input found.
pub open spec fn run_outcome<T: Arbitrary + Clone, F: Fn(T) -> Result<(), String>>(
    name: Seq<char>,
    config: Config,
    seed: u64,
    property: F,
    r: Result<(), String>,
) -> bool {
    match r {
        Ok(_) => exists|inputs: Seq<T>, next: u64|
            {
                &&& #[trigger] generates_each(seeded(seed), config.size, inputs, next)
                &&& inputs.len() == config.cases
                &&& forall|i: int| 0 <= i < inputs.len() ==> passed_on(property, #[trigger] inputs[i])
            },
        Err(m) => exists|
            inputs: Seq<T>,
            next: u64,
            first_failure: String,
            minimal: T,
            minimal_failure: String,
            steps: nat,
            shown: Seq<char>,
        |
            {
                &&& #[trigger] generates_each(seeded(seed), config.size, inputs, next)
                &&& 1 <= inputs.len() <= config.cases
                &&& forall|i: int|
                    0 <= i < inputs.len() - 1 ==> passed_on(property, #[trigger] inputs[i])
                &&& failed_on(property, inputs.last(), first_failure)
                &&& #[trigger] shrink_outcome(
                    property,
                    inputs.last(),
                    first_failure,
                    config.shrink_iters as nat,
                    minimal,
                    minimal_failure,
                    steps,
                )
                &&& m@ == #[trigger] failure_report(
                    name,
                    inputs.len(),
                    config.cases as nat,
                    shown,
                    minimal_failure@,
                    steps,
                    seed as nat,
                )
            },
    }
}

/// Runs `property` against `config.cases` inputs generated from a generator
/// seeded with `config.seed`, or with one read from the clock. On the first
/// input that fails, shrinks it and returns the report; `Ok` when every input
/// passed. A configured seed reproduces the run (see `check_with_seed`).
pub fn check<T: Arbitrary + Clone, F: Fn(T) -> Result<(), String>>(
    name: &str,
    config: Config,
    property: F,
) -> (r: Result<(), String>)
    requires
        forall|t: T| property.requires((t,)),
    ensures
        exists|seed: u64|
            (config.seed matches Some(s) ==> seed == s) && #[trigger] run_outcome(
                name@,
                config,
                seed,
                property,
                r,
            ),
{
    let seed = resolved_seed(&config);
    check_with_seed(name, config, seed, property)
}

/// Runs `property` against `config.cases` inputs generated one after another
/// from a generator seeded with `seed`; on the first input that fails, shrinks
/// it and returns the report.
pub fn check_with_seed<T: Arbitrary + Clone, F: Fn(T) -> Result<(), String>>(
    name: &str,
    config: Config,
    seed: u64,
    property: F,
) -> (r: Result<(), String>)
    requires
        forall|t: T| property.requires((t,)),
    ensures
        run_outcome(name@, config, seed, property, r),
{
    let mut rng = Rng::new(seed);
    let mut case: u32 = 0;
    let ghost mut inputs: Seq<T> = Seq::empty();
    proof {
        lemma_generates_each_empty::<T>(seeded(seed), config.size);
    }
    while case < config.cases
        invariant
            forall|t: T| property.requires((t,)),
            case <= config.cases,
            inputs.len() == case,
            generates_each(seeded(seed), config.size, inputs, rng.state()),
            forall|i: int| 0 <= i < inputs.len() ==> passed_on(property, #[trigger] inputs[i]),
        decreases config.cases - case,
    {
        let ghost before_state = rng.state();
        let input = T::arbitrary(&mut rng, config.size);
        let ghost tried = input;
        let ghost before = inputs;
        proof {
            lemma_generates_each_push(seeded(seed), config.size, before, tried, before_state, rng.state());
            inputs = inputs.push(tried);
        }
        let probe = input.clone();
        let outcome = property(probe);
        let ghost result = outcome;
        match outcome {
            Ok(()) => {
                proof {
                    assert(result == Ok::<(), String>(result->Ok_0));
                    assert(property.ensures((probe,), Ok::<(), String>(())));
                    assert(passed_on(property, tried));
                    assert forall|i: int| 0 <= i < inputs.len() implies passed_on(
                        property,
                        #[trigger] inputs[i],
                    ) by {
                        if i < before.len() {
                            assert(inputs[i] == before[i]);
                        }
                    }
                }
            },
            Err(failure) => {
                proof {
                    assert(property.ensures((probe,), Err::<(), String>(failure)));
                    assert(failed_on(property, tried, failure));
                }
                let ghost first_failure = failure;
                let (minimal, minimal_failure, steps) = shrink_failure(
                    &property,
                    input,
                    failure,
                    config.shrink_iters,
                );
                let shown = debug_text(&minimal);
                let mut m = String::from_str(name);
                m.append(" failed on case ");
                push_u64(&mut m, (case as u64) + 1);
                m.append(" of ");
                push_u64(&mut m, config.cases as u64);
                m.append(".\n\nMinimal failing input : ");
                m.append(shown.as_str());
                m.append("\nPanic                 : ");
                m.append(minimal_failure.as_str());
                m.append("\nShrink steps          : ");
                push_u64(&mut m, steps as u64);
                m.append("\nSeed                  : ");
                push_u64(&mut m, seed);
                m.append("\n\nRe-run this exact case with CRUCIBLE_QUICKCHECK_SEED=");
                push_u64(&mut m, seed);
                m.append(".");
                proof {
                    assert(m@ =~= failure_report(
                        name@,
                        inputs.len(),
                        config.cases as nat,
                        shown@,
                        minimal_failure@,
                        steps as nat,
                        seed as nat,
                    ));
                    assert forall|i: int| 0 <= i < inputs.len() - 1 implies passed_on(
                        property,
                        #[trigger] inputs[i],
                    ) by {
                        assert(inputs[i] == before[i]);
                    }
                    assert(inputs.last() == tried);
                    assert(shrink_outcome(
                        property,
                        inputs.last(),
                        first_failure,
                        config.shrink_iters as nat,
                        minimal,
                        minimal_failure,
                        steps as nat,
                    ));
                }
                return Err(m);
            },
        }
        case = case + 1;
    }
    Ok(())
}

} // verus!
