//! The pace of the conversion from the module's rate to the mixer's.
//!
//! The two rates are in a fixed rational ratio. Where between input frames
//! the next output falls is an exact integer counter, so a run never drifts.
use vstd::prelude::*;

verus! {

/// Input frames that the filter looks at.
pub const TAPS: usize = 64;

/// The greatest common divisor of two numbers.
pub open spec fn divisor(a: nat, b: nat) -> nat
    decreases b,
{
    if b == 0 {
        a
    } else {
        divisor(b, a % b)
    }
}

pub fn gcd(a: u32, b: u32) -> (r: u32)
    ensures
        r == divisor(a as nat, b as nat),
        a > 0 || b > 0 ==> r > 0,
    decreases b,
{
    if b == 0 {
        a
    } else {
        gcd(b, a % b)
    }
}

/// Divides, and how often.
pub open spec fn divides(d: nat, n: nat) -> bool {
    exists|k: nat| #[trigger] (k * d) == n
}

/// The greatest common divisor divides both numbers.
pub proof fn lemma_divisor_divides(a: nat, b: nat)
    requires
        a > 0 || b > 0,
    ensures
        divisor(a, b) > 0,
        divides(divisor(a, b), a),
        divides(divisor(a, b), b),
    decreases b,
{
    let d = divisor(a, b);
    if b == 0 {
        assert(1 * d == a);
        assert(0 * d == b);
    } else {
        lemma_divisor_divides(b, a % b);
        let x = choose|x: nat| #[trigger] (x * d) == b;
        let y = choose|y: nat| #[trigger] (y * d) == a % b;
        let q = a / b;
        assert(a == q * b + a % b) by (nonlinear_arith)
            requires
                b > 0,
                q == a / b,
        ;
        assert((q * x + y) * d == q * (x * d) + y * d) by (nonlinear_arith);
        assert((q * x + y) * d == a);
    }
}

/// Where the conversion stands: how many output frames go with how many input
/// frames, in lowest terms, and how far between two input frames the next
/// output falls.
#[derive(Clone, Copy, Debug, PartialEq, Eq, Structural)]
pub struct Pace {
    pub outputs: u32,
    pub inputs: u32,
    pub phase: u32,
}

impl Pace {
    pub open spec fn wf(self) -> bool {
        &&& 0 < self.inputs <= self.outputs
        &&& self.phase < self.outputs
    }

    /// The pace from one rate to another that is no lower.
    pub fn new(from: u32, to: u32) -> (r: Pace)
        requires
            0 < from <= to,
        ensures
            r.wf(),
            r.phase == 0,
            r.outputs == to as nat / divisor(from as nat, to as nat),
            r.inputs == from as nat / divisor(from as nat, to as nat),
            r.inputs * to == r.outputs * from,
    {
        let g: u32 = gcd(from, to);
        let r = Pace { outputs: to / g, inputs: from / g, phase: 0 };
        proof {
            lemma_divisor_divides(from as nat, to as nat);
            let d = g as nat;
            let x = choose|x: nat| #[trigger] (x * d) == from as nat;
            let y = choose|y: nat| #[trigger] (y * d) == to as nat;
            assert(from as nat / d == x) by (nonlinear_arith)
                requires
                    d > 0,
                    x * d == from as nat,
            ;
            assert(to as nat / d == y) by (nonlinear_arith)
                requires
                    d > 0,
                    y * d == to as nat,
            ;
            assert(x > 0) by (nonlinear_arith)
                requires
                    x * d == from as nat,
                    from > 0,
            ;
            assert(x <= y) by (nonlinear_arith)
                requires
                    d > 0,
                    x * d <= y * d,
            ;
            assert(x * (y * d) == y * (x * d)) by (nonlinear_arith);
        }
        r
    }

    /// The pace after an output frame.
    pub open spec fn stepped(self) -> Pace {
        if self.phase + self.inputs >= self.outputs {
            Pace { phase: (self.phase + self.inputs - self.outputs) as u32, ..self }
        } else {
            Pace { phase: (self.phase + self.inputs) as u32, ..self }
        }
    }

    /// An output frame was made. Returns whether it crosses an input frame,
    /// so that the oldest leaves and a fresh one is pulled.
    pub fn advance(&mut self) -> (r: bool)
        requires
            old(self).wf(),
        ensures
            final(self).wf(),
            r == (old(self).phase + old(self).inputs >= old(self).outputs),
            *final(self) == old(self).stepped(),
    {
        let left: u32 = self.outputs - self.phase;
        if self.inputs >= left {
            self.phase = self.inputs - left;
            true
        } else {
            self.phase = self.phase + self.inputs;
            false
        }
    }

    /// How many fresh input frames some output frames pull.
    pub open spec fn pulled(self, n: nat) -> nat
        decreases n,
    {
        if n == 0 {
            0
        } else {
            self.stepped().pulled((n - 1) as nat) + (if self.phase + self.inputs >= self.outputs {
                1nat
            } else {
                0
            })
        }
    }
}

/// The ratio is exact: after any number of output frames, the input frames
/// that were pulled are that number times the ratio, rounded down from where
/// the conversion stood. Nothing is ever lost or made up.
pub proof fn law_the_ratio_is_exact(pace: Pace, n: nat)
    requires
        pace.wf(),
    ensures
        pace.pulled(n) == (pace.phase + n * pace.inputs) / pace.outputs as int,
    decreases n,
{
    let l = pace.outputs as int;
    let m = pace.inputs as int;
    let p = pace.phase as int;
    if n == 0 {
        assert((p + 0 * m) / l == 0) by (nonlinear_arith)
            requires
                0 <= p < l,
        ;
    } else {
        let next = pace.stepped();
        law_the_ratio_is_exact(next, (n - 1) as nat);
        let total = p + n * m;
        assert((n - 1) * m + m == n * m) by (nonlinear_arith);
        if p + m >= l {
            assert(next.phase + (n - 1) * m == total - l);
            assert((total - l) / l + 1 == total / l) by (nonlinear_arith)
                requires
                    l > 0,
            ;
        } else {
            assert(next.phase + (n - 1) * m == total);
        }
    }
}

} // verus!
