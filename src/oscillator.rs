use vstd::prelude::*;
use vstd::arithmetic::div_mod::{lemma_add_mod_noop_right, lemma_mod_add_multiples_vanish, lemma_mod_bound, lemma_small_mod};

verus! {

/// One full turn (2π radians) in phase units.
pub const TURN: u64 = 4294967296;

/// The mathematical state of a [`PhaseOscillator`].
pub struct OscState {
    /// Phase step per sample at the nominal frequency.
    pub nominal: int,
    /// Bound on the magnitude of the correction, if one is configured.
    pub limit: Option<int>,
    /// Correction currently added to the nominal step.
    pub correction: int,
    /// Current phase, in `[0, TURN)`.
    pub phase: int,
}

/// The correction `c` after saturation at `limit`.
pub open spec fn saturate(c: int, limit: Option<int>) -> int {
    match limit {
        Some(l) => if c > l {
            l
        } else if c < -l {
            -l
        } else {
            c
        },
        None => c,
    }
}

/// The phase reached from `phase` after a step of `step`, wrapped into one turn.
pub open spec fn wrap(phase: int, step: int) -> int {
    (phase + step) % (TURN as int)
}

impl OscState {
    /// The phase step taken per sample: nominal step plus correction.
    pub open spec fn step(self) -> int {
        self.nominal + self.correction
    }

    /// The state after the controller asks for correction `c`.
    pub open spec fn corrected(self, c: int) -> OscState {
        OscState { correction: saturate(c, self.limit), ..self }
    }

    /// The state after one sample period.
    pub open spec fn advanced(self) -> OscState {
        OscState { phase: wrap(self.phase, self.step()), ..self }
    }

    /// The state after one sample period in which the controller asked for `c`
    /// once the phase had been advanced.
    pub open spec fn sample(self, c: int) -> OscState {
        self.advanced().corrected(c)
    }

    /// The state after one sample period for each correction in `cs`, in order.
    pub open spec fn run(self, cs: Seq<int>) -> OscState
        decreases cs.len(),
    {
        if cs.len() == 0 {
            self
        } else {
            self.sample(cs[0]).run(cs.drop_first())
        }
    }

    /// Well-formed: the phase lies in one turn and the correction within its bound.
    pub open spec fn wf(self) -> bool {
        &&& 0 <= self.phase < TURN as int
        &&& i32::MIN <= self.nominal <= i32::MAX
        &&& i32::MIN <= self.correction <= i32::MAX
        &&& match self.limit {
            Some(l) => 0 <= l <= u32::MAX && -l <= self.correction <= l,
            None => true,
        }
    }
}

/// Numerically controlled oscillator: the phase accumulator of the loop, with
/// the controller's frequency correction saturated at an optional bound.
pub struct PhaseOscillator {
    nominal: i32,
    limit: Option<u32>,
    correction: i32,
    phase: u32,
}

impl View for PhaseOscillator {
    type V = OscState;

    closed spec fn view(&self) -> OscState {
        OscState {
            nominal: self.nominal as int,
            limit: match self.limit {
                Some(l) => Some(l as int),
                None => None,
            },
            correction: self.correction as int,
            phase: self.phase as int,
        }
    }
}

impl PhaseOscillator {
    /// Well-formed: the correction lies within the configured bound.
    pub closed spec fn wf(&self) -> bool {
        self@.wf()
    }

    /// A cold-started oscillator: phase zero, no correction.
    pub fn new(nominal: i32, limit: Option<u32>) -> (r: PhaseOscillator)
        ensures
            r.wf(),
            r@.nominal == nominal as int,
            r@.limit == (match limit {
                Some(l) => Some(l as int),
                None => None::<int>,
            }),
            r@.correction == 0,
            r@.phase == 0,
    {
        PhaseOscillator { nominal, limit, correction: 0, phase: 0 }
    }

    /// Takes the controller's correction `c`, saturated at the configured bound.
    pub fn set_correction(&mut self, c: i32)
        requires
            old(self).wf(),
        ensures
            final(self).wf(),
            final(self)@ == old(self)@.corrected(c as int),
    {
        let clamped: i32 = match self.limit {
            Some(l) => {
                if c as i64 > l as i64 {
                    l as i32
                } else if (c as i64) < -(l as i64) {
                    (-(l as i64)) as i32
                } else {
                    c
                }
            },
            None => c,
        };
        self.correction = clamped;
    }

    /// Advances the phase by one sample period and returns the step taken.
    pub fn advance(&mut self) -> (r: i64)
        requires
            old(self).wf(),
        ensures
            final(self).wf(),
            final(self)@ == old(self)@.advanced(),
            r as int == old(self)@.step(),
            0 <= final(self)@.phase < TURN as int,
    {
        let step: i64 = self.nominal as i64 + self.correction as i64;
        let shifted: u64 = (self.phase as i64 + step + TURN as i64) as u64;
        let next: u64 = shifted % TURN;
        proof {
            let t: int = self.phase as int + step as int;
            lemma_mod_add_multiples_vanish(t, TURN as int);
            lemma_mod_bound(t, TURN as int);
        }
        self.phase = next as u32;
        step
    }

    /// The current phase, in units of `TURN` per full turn.
    pub fn phase(&self) -> (r: u32)
        ensures
            r as int == self@.phase,
    {
        self.phase
    }

    /// The phase step that the next sample period takes.
    pub fn step(&self) -> (r: i64)
        ensures
            r as int == self@.step(),
    {
        self.nominal as i64 + self.correction as i64
    }

    /// The correction currently applied, after saturation.
    pub fn correction(&self) -> (r: i32)
        ensures
            r as int == self@.correction,
    {
        self.correction
    }
}

/// Every correction in `cs` is one that `set_correction` can take.
pub open spec fn corrections_fit(cs: Seq<int>) -> bool {
    forall|i: int| 0 <= i < cs.len() ==> i32::MIN <= #[trigger] cs[i] <= i32::MAX
}

/// One sample period keeps a well-formed state well-formed.
pub proof fn lemma_sample_wf(s: OscState, c: int)
    requires
        s.wf(),
        i32::MIN <= c <= i32::MAX,
    ensures
        s.sample(c).wf(),
{
    lemma_mod_bound(s.phase + s.step(), TURN as int);
}

/// Wraparound: for any sequence of corrections, the phase stays in one turn
/// (`[0, 2π)`) and the state stays well-formed.
pub proof fn lemma_run_wf(s: OscState, cs: Seq<int>)
    requires
        s.wf(),
        corrections_fit(cs),
    ensures
        s.run(cs).wf(),
        0 <= s.run(cs).phase < TURN as int,
    decreases cs.len(),
{
    if cs.len() > 0 {
        lemma_sample_wf(s, cs[0]);
        let rest = cs.drop_first();
        assert forall|i: int| 0 <= i < rest.len() implies i32::MIN <= #[trigger] rest[i]
            <= i32::MAX by {
            assert(rest[i] == cs[i + 1]);
        }
        lemma_run_wf(s.sample(cs[0]), rest);
    }
}

/// Saturation: with a bound configured, the step never leaves
/// `nominal ± limit`, whatever corrections the controller asks for.
pub proof fn lemma_run_within_limit(s: OscState, cs: Seq<int>, l: int)
    requires
        s.wf(),
        corrections_fit(cs),
        s.limit == Some(l),
    ensures
        s.run(cs).nominal - l <= s.run(cs).step() <= s.run(cs).nominal + l,
        s.run(cs).nominal == s.nominal,
    decreases cs.len(),
{
    lemma_run_wf(s, cs);
    if cs.len() > 0 {
        lemma_sample_wf(s, cs[0]);
        let rest = cs.drop_first();
        assert forall|i: int| 0 <= i < rest.len() implies i32::MIN <= #[trigger] rest[i]
            <= i32::MAX by {
            assert(rest[i] == cs[i + 1]);
        }
        lemma_run_within_limit(s.sample(cs[0]), rest, l);
    }
}

/// Determinism: two oscillators in the same state that are given the same
/// corrections pass through the same states.
pub proof fn lemma_run_deterministic(s: OscState, t: OscState, cs: Seq<int>)
    requires
        s.nominal == t.nominal,
        s.limit == t.limit,
        s.correction == t.correction,
        s.phase == t.phase,
    ensures
        s.run(cs) == t.run(cs),
{
}

/// Free running: with no correction applied or asked for, the phase advances
/// by the nominal step each sample period, modulo one turn.
pub proof fn lemma_free_run(s: OscState, n: nat)
    requires
        s.wf(),
        s.correction == 0,
    ensures
        s.run(Seq::new(n, |i: int| 0int)).phase == (s.phase + n * s.nominal) % (TURN as int),
        s.run(Seq::new(n, |i: int| 0int)).correction == 0,
    decreases n,
{
    let cs = Seq::new(n, |i: int| 0int);
    if n == 0 {
        assert(cs.len() == 0);
        assert(s.run(cs) == s);
        assert(s.phase + n * s.nominal == s.phase);
        lemma_small_mod(s.phase as nat, TURN as nat);
    } else {
        let m: nat = (n - 1) as nat;
        let next = s.sample(0);
        assert(cs.drop_first() =~= Seq::new(m, |i: int| 0int));
        lemma_free_run(next, m);
        lemma_add_mod_noop_right(m * s.nominal, s.phase + s.nominal, TURN as int);
        assert(m * s.nominal + s.phase + s.nominal == s.phase + n * s.nominal) by (nonlinear_arith)
            requires m == n - 1;
    }
}

} // verus!
