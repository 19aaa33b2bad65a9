//! First-order IIR high-pass filter in Q14 fixed point.
//!
//! Difference equation:
//!
//! ```text
//! acc   = B0 * (x[n] - x[n-1]) + A1 * y[n-1]
//! y[n]  = clamp(acc >> 14, -32767, 32767)
//! ```
//!
//! where every input is first clamped to `[-32767, 32767]`.  The filter keeps
//! the previous input pre-multiplied by `B0` and the previous output, so that
//! consecutive blocks are filtered as one continuous stream.
use vstd::prelude::*;

verus! {

/// Feedforward coefficient, Q14.
pub const HPF_B0: i64 = 8116;

/// Feedback coefficient, Q14.
pub const HPF_A1: i64 = 16078;

/// Number of fractional bits of the coefficients.
pub const HPF_Q: u32 = 14;

/// Largest sample value the filter accepts or produces.
pub const HPF_MAX: i64 = 32767;

/// Smallest sample value the filter accepts or produces.
pub const HPF_MIN: i64 = -32767;

/// `v` clamped to `[HPF_MIN, HPF_MAX]`.
pub open spec fn clamp_sample(v: int) -> int {
    if v < HPF_MIN {
        HPF_MIN as int
    } else if v > HPF_MAX {
        HPF_MAX as int
    } else {
        v
    }
}

/// The output produced for raw input `x` when the previous (clamped) input
/// was `x1` and the previous output was `y1`.  Spec division by a positive
/// constant rounds toward negative infinity, like an arithmetic shift.
pub open spec fn hp_next_output(x1: int, y1: int, x: int) -> int {
    clamp_sample((HPF_B0 * clamp_sample(x) - HPF_B0 * x1 + HPF_A1 * y1) / 16384)
}

/// Filter state `(previous clamped input, previous output)` after feeding `xs`
/// to a filter whose state was `s`.
pub open spec fn hp_state_after(s: (int, int), xs: Seq<i16>) -> (int, int)
    decreases xs.len(),
{
    if xs.len() == 0 {
        s
    } else {
        let p = hp_state_after(s, xs.drop_last());
        (clamp_sample(xs.last() as int), hp_next_output(p.0, p.1, xs.last() as int))
    }
}

/// The output samples produced when `xs` is fed to a filter in state `s`.
pub open spec fn hp_filter(s: (int, int), xs: Seq<i16>) -> Seq<i16>
    decreases xs.len(),
{
    if xs.len() == 0 {
        Seq::empty()
    } else {
        hp_filter(s, xs.drop_last()).push(hp_state_after(s, xs).1 as i16)
    }
}

/// A filter state that the filter can be in: both components are sample
/// values in `[HPF_MIN, HPF_MAX]`.
pub open spec fn hp_state_valid(s: (int, int)) -> bool {
    &&& HPF_MIN <= s.0 <= HPF_MAX
    &&& HPF_MIN <= s.1 <= HPF_MAX
}

/// First-order IIR high-pass filter over int16 audio samples.
pub struct AudioHpFilter {
    /// Previous input times `HPF_B0` (Q14 pre-scaled).
    x1b0: i64,
    /// Previous output sample.
    y1: i64,
}

impl View for AudioHpFilter {
    type V = (int, int);

    /// `(previous clamped input, previous output)`.
    closed spec fn view(&self) -> (int, int) {
        (self.x1b0 as int / HPF_B0 as int, self.y1 as int)
    }
}

impl AudioHpFilter {
    #[verifier::type_invariant]
    spec fn inv(self) -> bool {
        &&& self.x1b0 % HPF_B0 == 0
        &&& HPF_MIN * HPF_B0 <= self.x1b0 <= HPF_MAX * HPF_B0
        &&& HPF_MIN <= self.y1 <= HPF_MAX
    }

    /// A filter at rest: previous input and output are both zero.
    pub fn new() -> (f: Self)
        ensures
            f@ == (0int, 0int),
            hp_state_valid(f@),
    {
        AudioHpFilter { x1b0: 0, y1: 0 }
    }

    /// Filter `input` into `output`, leaving `input` untouched.
    pub fn process_into(&mut self, input: &[i16], output: &mut [i16])
        requires
            input@.len() == old(output)@.len(),
        ensures
            final(output)@ == hp_filter(old(self)@, input@),
            final(self)@ == hp_state_after(old(self)@, input@),
            hp_state_valid(final(self)@),
            forall|i: int|
                0 <= i < final(output)@.len() ==> HPF_MIN <= #[trigger] final(output)@[i] <= HPF_MAX,
    {
        proof {
            use_type_invariant(&*self);
        }
        let ghost s0 = self@;
        let mut x1b0 = self.x1b0;
        let mut y1 = self.y1;
        proof {
            lemma_view_parts(x1b0, y1);
        }
        let n = input.len();
        let mut i: usize = 0;
        while i < n
            invariant
                n == input@.len(),
                n == output@.len(),
                0 <= i <= n,
                step_state_ok(x1b0, y1),
                (x1b0 as int / HPF_B0 as int, y1 as int) == hp_state_after(s0, input@.take(i as int)),
                output@.take(i as int) == hp_filter(s0, input@.take(i as int)),
                forall|j: int| 0 <= j < i ==> HPF_MIN <= #[trigger] output@[j] <= HPF_MAX,
            decreases n - i,
        {
            let s_in = input[i];
            let (nx, ny) = filter_step(x1b0, y1, s_in);
            proof {
                lemma_step_extends(s0, input@, i as int);
            }
            x1b0 = nx;
            y1 = ny;
            output[i] = y1 as i16;
            i += 1;
            proof {
                assert(output@.take(i as int) =~= output@.take(i - 1).push(output@[i - 1]));
            }
        }
        proof {
            assert(input@.take(n as int) =~= input@);
            assert(output@.take(n as int) =~= output@);
        }
        self.x1b0 = x1b0;
        self.y1 = y1;
    }

    /// Filter `samples` in place.
    pub fn process(&mut self, samples: &mut [i16])
        ensures
            final(samples)@ == hp_filter(old(self)@, old(samples)@),
            final(self)@ == hp_state_after(old(self)@, old(samples)@),
            hp_state_valid(final(self)@),
            forall|i: int|
                0 <= i < final(samples)@.len() ==> HPF_MIN <= #[trigger] final(samples)@[i] <= HPF_MAX,
    {
        proof {
            use_type_invariant(&*self);
        }
        let ghost s0 = self@;
        let ghost xs = samples@;
        let mut x1b0 = self.x1b0;
        let mut y1 = self.y1;
        proof {
            lemma_view_parts(x1b0, y1);
        }
        let n = samples.len();
        let mut i: usize = 0;
        while i < n
            invariant
                n == xs.len(),
                n == samples@.len(),
                0 <= i <= n,
                forall|j: int| i <= j < n ==> #[trigger] samples@[j] == xs[j],
                step_state_ok(x1b0, y1),
                (x1b0 as int / HPF_B0 as int, y1 as int) == hp_state_after(s0, xs.take(i as int)),
                samples@.take(i as int) == hp_filter(s0, xs.take(i as int)),
                forall|j: int| 0 <= j < i ==> HPF_MIN <= #[trigger] samples@[j] <= HPF_MAX,
            decreases n - i,
        {
            let s_in = samples[i];
            let (nx, ny) = filter_step(x1b0, y1, s_in);
            proof {
                lemma_step_extends(s0, xs, i as int);
            }
            x1b0 = nx;
            y1 = ny;
            samples[i] = y1 as i16;
            i += 1;
            proof {
                assert(samples@.take(i as int) =~= samples@.take(i - 1).push(samples@[i - 1]));
            }
        }
        proof {
            assert(xs.take(n as int) =~= xs);
            assert(samples@.take(n as int) =~= samples@);
        }
        self.x1b0 = x1b0;
        self.y1 = y1;
    }
}

/// The concrete state `(x1b0, y1)` satisfies the filter's representation
/// invariant.
spec fn step_state_ok(x1b0: i64, y1: i64) -> bool {
    &&& x1b0 % HPF_B0 == 0
    &&& HPF_MIN * HPF_B0 <= x1b0 <= HPF_MAX * HPF_B0
    &&& HPF_MIN <= y1 <= HPF_MAX
}

proof fn lemma_view_parts(x1b0: i64, y1: i64)
    requires
        step_state_ok(x1b0, y1),
    ensures
        HPF_MIN <= x1b0 as int / HPF_B0 as int <= HPF_MAX,
        x1b0 == HPF_B0 * (x1b0 as int / HPF_B0 as int),
{
    let k = x1b0 as int;
    assert(-32767 <= k / 8116 <= 32767 && k == 8116 * (k / 8116)) by (nonlinear_arith)
        requires
            -32767 * 8116 <= k <= 32767 * 8116,
            k % 8116 == 0,
    ;
}

proof fn lemma_step_extends(s: (int, int), xs: Seq<i16>, i: int)
    requires
        0 <= i < xs.len(),
    ensures
        xs.take(i + 1).drop_last() == xs.take(i),
        xs.take(i + 1).last() == xs[i],
        hp_state_after(s, xs.take(i + 1)) == ({
            let p = hp_state_after(s, xs.take(i));
            (clamp_sample(xs[i] as int), hp_next_output(p.0, p.1, xs[i] as int))
        }),
        hp_filter(s, xs.take(i + 1)) == hp_filter(s, xs.take(i)).push(
            hp_state_after(s, xs.take(i + 1)).1 as i16,
        ),
{
    assert(xs.take(i + 1).drop_last() =~= xs.take(i));
}

/// `v` clamped to `[HPF_MIN, HPF_MAX]`.
fn clamp_to_sample(v: i64) -> (r: i64)
    ensures
        r == clamp_sample(v as int),
{
    if v < HPF_MIN {
        HPF_MIN
    } else if v > HPF_MAX {
        HPF_MAX
    } else {
        v
    }
}

/// One filter step on the concrete state: returns the new `(x1b0, y1)`.
fn filter_step(x1b0: i64, y1: i64, s_in: i16) -> (r: (i64, i64))
    requires
        step_state_ok(x1b0, y1),
    ensures
        step_state_ok(r.0, r.1),
        r.0 as int / HPF_B0 as int == clamp_sample(s_in as int),
        r.1 == hp_next_output(x1b0 as int / HPF_B0 as int, y1 as int, s_in as int),
{
    proof {
        lemma_view_parts(x1b0, y1);
    }
    let x0 = clamp_to_sample(s_in as i64);
    let x0_scaled = x0 * HPF_B0;
    let acc = -x1b0 + x0_scaled + y1 * HPF_A1;
    let shifted = acc >> HPF_Q;
    proof {
        lemma_shr_is_floor_div(acc);
        let k = x0 as int;
        assert((k * 8116) / 8116 == k && (k * 8116) % 8116 == 0) by (nonlinear_arith)
            requires
                -32767 <= k <= 32767,
        ;
    }
    (x0_scaled, clamp_to_sample(shifted))
}

/// An arithmetic right shift by `HPF_Q` rounds toward negative infinity.
proof fn lemma_shr_is_floor_div(a: i64)
    ensures
        (a >> HPF_Q) as int == a as int / 16384,
{
    assert((a >> 14u32) as int == a as int / 16384) by (bit_vector);
}


/// Magnitude of a sample value.
pub open spec fn magnitude(v: int) -> int {
    if v < 0 {
        -v
    } else {
        v
    }
}

/// One output per input sample.
pub proof fn lemma_hp_filter_len(s: (int, int), xs: Seq<i16>)
    ensures
        hp_filter(s, xs).len() == xs.len(),
    decreases xs.len(),
{
    if xs.len() > 0 {
        lemma_hp_filter_len(s, xs.drop_last());
    }
}

/// Output `i` is the output of the step that consumed input `i`.
pub proof fn lemma_hp_filter_index(s: (int, int), xs: Seq<i16>, i: int)
    requires
        0 <= i < xs.len(),
    ensures
        hp_filter(s, xs)[i] == hp_state_after(s, xs.take(i + 1)).1 as i16,
        HPF_MIN <= hp_state_after(s, xs.take(i + 1)).1 <= HPF_MAX,
        HPF_MIN <= hp_filter(s, xs)[i] <= HPF_MAX,
        hp_filter(s, xs)[i] as int == hp_state_after(s, xs.take(i + 1)).1,
    decreases xs.len(),
{
    lemma_hp_filter_len(s, xs.drop_last());
    if i == xs.len() - 1 {
        assert(xs.take(i + 1) =~= xs);
    } else {
        lemma_hp_filter_index(s, xs.drop_last(), i);
        assert(xs.drop_last().take(i + 1) =~= xs.take(i + 1));
    }
}

/// Streaming law: filtering `a` and then `b` with the state carried over
/// gives exactly the output and final state of filtering `a + b` at once,
/// so splitting a stream into blocks never changes the result.
pub proof fn lemma_hp_stream(s: (int, int), a: Seq<i16>, b: Seq<i16>)
    ensures
        hp_state_after(s, a + b) == hp_state_after(hp_state_after(s, a), b),
        hp_filter(s, a + b) == hp_filter(s, a) + hp_filter(hp_state_after(s, a), b),
    decreases b.len(),
{
    if b.len() == 0 {
        assert(a + b =~= a);
        assert(hp_filter(s, a) + hp_filter(hp_state_after(s, a), b) =~= hp_filter(s, a));
    } else {
        lemma_hp_stream(s, a, b.drop_last());
        assert((a + b).drop_last() =~= a + b.drop_last());
        assert((a + b).last() == b.last());
        let t = hp_state_after(s, a);
        assert(hp_filter(s, a) + hp_filter(t, b) =~= (hp_filter(s, a) + hp_filter(
            t,
            b.drop_last(),
        )).push(hp_state_after(t, b).1 as i16));
    }
}

/// Silence in, silence out: a filter at rest fed zeros stays at rest and
/// outputs only zeros.
pub proof fn lemma_hp_silence(n: nat)
    ensures
        hp_state_after((0int, 0int), Seq::new(n, |j: int| 0i16)) == (0int, 0int),
        hp_filter((0int, 0int), Seq::new(n, |j: int| 0i16)) == Seq::new(n, |j: int| 0i16),
    decreases n,
{
    if n > 0 {
        lemma_hp_silence((n - 1) as nat);
        assert(Seq::new(n, |j: int| 0i16).drop_last() =~= Seq::new((n - 1) as nat, |j: int| 0i16));
        assert(Seq::new((n - 1) as nat, |j: int| 0i16).push(0i16) =~= Seq::new(n, |j: int| 0i16));
    } else {
        assert(Seq::new(n, |j: int| 0i16) =~= Seq::<i16>::empty());
    }
}

/// DC blocking: while the input stays constant, the output never grows in
/// magnitude from one sample to the next (it decays toward zero).
pub proof fn lemma_hp_dc_input_decays(s: (int, int), xs: Seq<i16>, i: int)
    requires
        1 <= i < xs.len(),
        forall|j: int| 0 <= j < xs.len() ==> #[trigger] xs[j] == xs[0],
    ensures
        magnitude(hp_filter(s, xs)[i] as int) <= magnitude(hp_filter(s, xs)[i - 1] as int),
{
    lemma_hp_filter_index(s, xs, i);
    lemma_hp_filter_index(s, xs, i - 1);
    let p = hp_state_after(s, xs.take(i));
    assert(xs.take(i + 1).drop_last() =~= xs.take(i));
    assert(xs.take(i).drop_last() =~= xs.take(i - 1));
    assert(xs[i] == xs[0] && xs[i - 1] == xs[0]);
    let y = p.1;
    assert(p.0 == clamp_sample(xs[i - 1] as int));
    assert(HPF_B0 * clamp_sample(xs[i] as int) - HPF_B0 * p.0 + HPF_A1 * y == 16078 * y);
    assert(magnitude((16078 * y) / 16384) <= magnitude(y) && -32767 <= (16078 * y) / 16384 <= 32767)
        by (nonlinear_arith)
        requires
            -32767 <= y <= 32767,
    ;
}


/// Difference-equation law: every output of the filter, for any starting
/// state `s = (x1, y1)` and any inputs, is
/// `clamp(floor((8116 * clamp(x[n]) - 8116 * clamp(x[n-1]) + 16078 * y[n-1]) / 16384))`
/// with clamping to `[-32767, 32767]`; for the first input, `x[n-1]` and
/// `y[n-1]` are `s.0` and `s.1`.  (Division of an integer by a positive
/// constant in spec code rounds toward negative infinity.)
pub proof fn lemma_hp_difference_equation(s: (int, int), xs: Seq<i16>, i: int)
    requires
        0 <= i < xs.len(),
    ensures
        ({
            let x: int = if xs[i] < -32767 {
                -32767
            } else {
                xs[i] as int
            };
            let x1: int = if i == 0 {
                s.0
            } else if xs[i - 1] < -32767 {
                -32767
            } else {
                xs[i - 1] as int
            };
            let y1: int = if i == 0 {
                s.1
            } else {
                hp_filter(s, xs)[i - 1] as int
            };
            let q: int = (8116 * x - 8116 * x1 + 16078 * y1) / 16384;
            hp_filter(s, xs)[i] as int == (if q < -32767 {
                -32767
            } else if q > 32767 {
                32767
            } else {
                q
            })
        }),
{
    lemma_hp_filter_len(s, xs);
    lemma_hp_filter_index(s, xs, i);
    let p = hp_state_after(s, xs.take(i));
    assert(xs.take(i + 1).drop_last() =~= xs.take(i));
    assert(xs.take(i + 1).last() == xs[i]);
    assert(hp_state_after(s, xs.take(i + 1)).1 == hp_next_output(p.0, p.1, xs[i] as int));
    if i == 0 {
        assert(xs.take(0) =~= Seq::<i16>::empty());
        assert(p == s);
    } else {
        lemma_hp_filter_index(s, xs, i - 1);
        assert(xs.take(i).drop_last() =~= xs.take(i - 1));
        assert(xs.take(i).last() == xs[i - 1]);
        assert(p.0 == clamp_sample(xs[i - 1] as int));
        assert(p.1 == hp_filter(s, xs)[i - 1] as int);
    }
    lemma_next_output_formula(p.0, p.1, xs[i]);
}

/// `hp_next_output` written out.
proof fn lemma_next_output_formula(x1: int, y1: int, x: i16)
    ensures
        ({
            let cx: int = if x < -32767 {
                -32767
            } else {
                x as int
            };
            let q: int = (8116 * cx - 8116 * x1 + 16078 * y1) / 16384;
            hp_next_output(x1, y1, x as int) == (if q < -32767 {
                -32767
            } else if q > 32767 {
                32767
            } else {
                q
            })
        }),
{
}

} // verus!
