use vstd::prelude::*;
use crate::trig::{sin_pi, sin_pi_spec, clamp_hi_spec};
use crate::{AMP_LIMIT, MAX_RATE_HZ};

verus! {

/// The interpolation algorithm: a two-tap linear kernel, or a windowed-sinc
/// kernel with a configurable even number of taps (eight by default).
#[derive(Clone, Copy, Debug, PartialEq, Eq, Structural)]
pub enum Kernel {
    Linear,
    Sinc { taps: usize },
}

impl Kernel {
    /// A kernel is well formed when a sinc kernel's tap count is even and
    /// small enough that every interpolation sum fits in a 64-bit word.
    pub open spec fn wf(self) -> bool {
        match self {
            Kernel::Linear => true,
            Kernel::Sinc { taps } => 2 <= taps <= 64 && taps % 2 == 0,
        }
    }

    /// The width of the interpolation window the kernel reads.
    pub open spec fn spec_width(self) -> int {
        match self {
            Kernel::Linear => 2,
            Kernel::Sinc { taps } => taps as int,
        }
    }

    pub fn width(&self) -> (w: usize)
        requires
            self.wf(),
        ensures
            w == self.spec_width(),
    {
        match self {
            Kernel::Linear => 2,
            Kernel::Sinc { taps } => *taps,
        }
    }
}

impl Default for Kernel {
    /// The default kernel: windowed sinc with eight taps.
    fn default() -> (k: Kernel)
        ensures
            k == (Kernel::Sinc { taps: 8usize }),
            k.wf(),
    {
        Kernel::Sinc { taps: 8 }
    }
}

/// True when every amplitude in the sequence is within the accepted range.
pub open spec fn bounded(s: Seq<i64>) -> bool {
    forall|i: int| 0 <= i < s.len() ==> -AMP_LIMIT <= #[trigger] s[i] <= AMP_LIMIT
}

/// The Interpolation Window: the fixed number of most recent samples a
/// kernel reads. Ingesting a sample discards the oldest one, so the length
/// never changes after construction.
pub struct Window {
    buf: Vec<i64>,
}

impl View for Window {
    type V = Seq<i64>;

    closed spec fn view(&self) -> Seq<i64> {
        self.buf@
    }
}

impl Window {
    /// Exactly `width` entries, all within the accepted amplitude range.
    pub open spec fn wf(self, width: int) -> bool {
        self@.len() == width && bounded(self@)
    }

    /// A window primed from carried history: one leading silent sample
    /// followed by the `width - 1` retained samples.
    pub fn seed(hist: &Vec<i64>) -> (w: Window)
        requires
            bounded(hist@),
            hist@.len() < 1000000,
        ensures
            w@ == seq![0i64] + hist@,
            w.wf(hist@.len() as int + 1),
    {
        let mut buf: Vec<i64> = Vec::new();
        buf.push(0);
        let mut i: usize = 0;
        while i < hist.len()
            invariant
                i <= hist@.len(),
                buf@ == seq![0i64] + hist@.subrange(0, i as int),
                bounded(hist@),
                hist@.len() < 1000000,
            decreases hist@.len() - i,
        {
            buf.push(hist[i]);
            i += 1;
            proof {
                assert(buf@ == seq![0i64] + hist@.subrange(0, i as int));
            }
        }
        proof {
            assert(hist@.subrange(0, hist@.len() as int) == hist@);
            assert(bounded(seq![0i64] + hist@));
        }
        Window { buf }
    }

    /// Ingest one sample: the oldest entry leaves, the new one enters,
    /// and the window keeps exactly its `width` entries.
    pub fn push_sample(&mut self, s: i64)
        requires
            old(self)@.len() >= 1,
            -AMP_LIMIT <= s <= AMP_LIMIT,
        ensures
            final(self)@ == old(self)@.drop_first().push(s),
            final(self)@.len() == old(self)@.len(),
            bounded(old(self)@) ==> bounded(final(self)@),
    {
        self.buf.remove(0);
        self.buf.push(s);
        proof {
            assert(self@ =~= old(self)@.drop_first().push(s));
        }
    }

    pub fn len(&self) -> (n: usize)
        ensures
            n == self@.len(),
    {
        self.buf.len()
    }

    pub fn get(&self, i: usize) -> (s: i64)
        requires
            i < self@.len(),
        ensures
            s == self@[i as int],
    {
        self.buf[i]
    }
}

/// Truncating signed division by a positive divisor (rounds toward zero).
pub open spec fn tdiv_spec(x: int, d: int) -> int {
    if x >= 0 {
        x / d
    } else {
        -((-x) / d)
    }
}

/// The magnitude of an integer.
pub open spec fn abs_spec(x: int) -> int {
    if x >= 0 {
        x
    } else {
        -x
    }
}

/// The windowed-sinc weight, in Q15 units, of a window entry whose distance
/// from the interpolation point is `n / den` samples, for a kernel of
/// `2 * t_half` taps. The sinc factor `sin(pi d) / (pi d)` is clamped to two;
/// the window factor is the raised cosine `(1 + cos(pi d / t_half)) / 2`.
pub open spec fn weight_spec(n: int, den: int, t_half: int) -> int {
    if n == 0 {
        32768
    } else {
        let nm = abs_spec(n);
        let sv = sin_pi_spec(nm, den);
        let sincm = clamp_hi_spec(abs_spec(sv) * 32768 * den / (102944 * nm), 65536);
        let cv = sin_pi_spec(2 * nm + t_half * den, 2 * t_half * den);
        let hannv = (32768 + cv) / 2;
        let wm = sincm * hannv / 32768;
        if sv < 0 {
            -wm
        } else {
            wm
        }
    }
}

/// The running weighted sum of the first `i` window entries, each weighted
/// for an interpolation point at fraction `frac / den` past the centre entry.
pub open spec fn wsum_spec(w: Seq<i64>, frac: int, den: int, t_half: int, i: int) -> int
    decreases i,
{
    if i <= 0 {
        0
    } else {
        wsum_spec(w, frac, den, t_half, i - 1)
            + weight_spec((i - 1 - t_half) * den - frac, den, t_half) * w[i - 1]
    }
}

/// Linear interpolation between `a` and `b` at fraction `num / den`,
/// with the fractional term truncated toward zero.
pub open spec fn lerp_spec(a: int, b: int, num: int, den: int) -> int {
    a + tdiv_spec(num * (b - a), den)
}

/// The value a kernel produces from a window at fraction `frac / den`.
pub open spec fn kernel_value_spec(k: Kernel, w: Seq<i64>, frac: int, den: int) -> int {
    match k {
        Kernel::Linear => lerp_spec(w[0] as int, w[1] as int, frac, den),
        Kernel::Sinc { taps } => tdiv_spec(
            wsum_spec(w, frac, den, taps as int / 2, taps as int),
            32768,
        ),
    }
}

/// Windowed-sinc weight of the entry at signed distance numerator `n`.
pub fn weight(n: i64, den: u64, t_half: u64) -> (w: i64)
    requires
        1 <= den <= MAX_RATE_HZ,
        1 <= t_half <= 32,
        -(((t_half + 1) * den) as int) <= n <= ((t_half + 1) * den) as int,
    ensures
        w == weight_spec(n as int, den as int, t_half as int),
        -65536 <= w <= 65536,
{
    proof {
        assert((t_half + 1) as int * den as int <= 33 * 1048576) by (nonlinear_arith)
            requires
                1 <= t_half as int,
                t_half as int <= 32,
                1 <= den as int,
                den as int <= 1048576,
        ;
        assert(1 <= (t_half as int) * (den as int) && 2 * ((t_half as int) * (den as int)) <= 64 * 1048576)
            by (nonlinear_arith)
            requires
                1 <= t_half as int,
                t_half as int <= 32,
                1 <= den as int,
                den as int <= 1048576,
        ;
    }
    if n == 0 {
        return 32768;
    }
    let nm: u64 = if n < 0 {
        (-n) as u64
    } else {
        n as u64
    };
    let sv: i64 = sin_pi(nm, den);
    let svm: u64 = if sv < 0 {
        (-sv) as u64
    } else {
        sv as u64
    };
    proof {
        assert(svm as int * 32768 * (den as int) <= 32768 * 32768 * 1048576) by (nonlinear_arith)
            requires
                svm as int <= 32768,
                0 <= svm as int,
                1 <= den as int,
                den as int <= 1048576,
        ;
    }
    let sincm_raw: u64 = svm * 32768 * den / (102944 * nm);
    let sincm: u64 = if sincm_raw > 65536 {
        65536
    } else {
        sincm_raw
    };
    let th_den: u64 = t_half * den;
    proof {
        assert(2 * (t_half as int) * (den as int) == 2 * ((t_half as int) * (den as int)))
            by (nonlinear_arith);
    }
    let cv: i64 = sin_pi(2 * nm + th_den, 2 * th_den);
    let hannv: u64 = ((32768 + cv) as u64) / 2;
    proof {
        vstd::arithmetic::div_mod::lemma_div_is_ordered((32768 + cv) as int, 65536, 2);
        assert(hannv <= 32768);
        assert(sincm as int * (hannv as int) <= 65536 * 32768) by (nonlinear_arith)
            requires
                sincm as int <= 65536,
                0 <= hannv as int,
                hannv as int <= 32768,
        ;
        assert(0 <= sincm as int * (hannv as int)) by (nonlinear_arith)
            requires
                0 <= sincm as int,
                0 <= hannv as int,
        ;
    }
    let wm: i64 = ((sincm * hannv) / 32768) as i64;
    if sv < 0 {
        -wm
    } else {
        wm
    }
}

/// Linear interpolation between two samples at fraction `num / den`.
pub fn lerp(a: i64, b: i64, num: u64, den: u64) -> (r: i64)
    requires
        1 <= den <= MAX_RATE_HZ,
        num < den,
        -AMP_LIMIT <= a <= AMP_LIMIT,
        -AMP_LIMIT <= b <= AMP_LIMIT,
    ensures
        r == lerp_spec(a as int, b as int, num as int, den as int),
{
    if b >= a {
        let d: u64 = (b - a) as u64;
        proof {
            assert(num as int * (d as int) <= den as int * (d as int)) by (nonlinear_arith)
                requires
                    num as int <= den as int,
                    0 <= d as int,
            ;
            assert(num as int * (d as int) <= 1048576 * (2 * AMP_LIMIT as int)) by (nonlinear_arith)
                requires
                    0 <= num as int,
                    num as int <= 1048576,
                    0 <= d as int,
                    d as int <= 2 * AMP_LIMIT as int,
            ;
            assert(0 <= num as int * (d as int)) by (nonlinear_arith)
                requires
                    0 <= num as int,
                    0 <= d as int,
            ;
            vstd::arithmetic::div_mod::lemma_div_is_ordered(num as int * (d as int), (den as int) * (d as int), den as int);
            vstd::arithmetic::div_mod::lemma_div_by_multiple(d as int, den as int);
            assert((den as int) * (d as int) == (d as int) * (den as int)) by (nonlinear_arith);
            assert(num as int * ((b as int) - (a as int)) == num as int * (d as int))
                by (nonlinear_arith)
                requires
                    d as int == (b as int) - (a as int),
            ;
        }
        let step: u64 = num * d / den;
        a + step as i64
    } else {
        let d: u64 = (a - b) as u64;
        proof {
            assert(num as int * (d as int) <= den as int * (d as int)) by (nonlinear_arith)
                requires
                    num as int <= den as int,
                    0 <= d as int,
            ;
            assert(num as int * (d as int) <= 1048576 * (2 * AMP_LIMIT as int)) by (nonlinear_arith)
                requires
                    0 <= num as int,
                    num as int <= 1048576,
                    0 <= d as int,
                    d as int <= 2 * AMP_LIMIT as int,
            ;
            assert(0 <= num as int * (d as int)) by (nonlinear_arith)
                requires
                    0 <= num as int,
                    0 <= d as int,
            ;
            vstd::arithmetic::div_mod::lemma_div_is_ordered(num as int * (d as int), (den as int) * (d as int), den as int);
            vstd::arithmetic::div_mod::lemma_div_by_multiple(d as int, den as int);
            assert((den as int) * (d as int) == (d as int) * (den as int)) by (nonlinear_arith);
            assert(num as int * ((b as int) - (a as int)) == -(num as int * (d as int)))
                by (nonlinear_arith)
                requires
                    d as int == (a as int) - (b as int),
            ;
        }
        let step: u64 = num * d / den;
        a - step as i64
    }
}

/// The windowed-sinc kernel value: the weighted sum over the whole window,
/// scaled back from Q15 units with truncation toward zero.
pub fn sinc_value(w: &Window, taps: usize, frac: u64, den: u64) -> (r: i64)
    requires
        2 <= taps <= 64,
        taps % 2 == 0,
        w.wf(taps as int),
        1 <= den <= MAX_RATE_HZ,
        frac < den,
    ensures
        r == kernel_value_spec(Kernel::Sinc { taps }, w@, frac as int, den as int),
{
    let t_half: usize = taps / 2;
    let mut sum: i64 = 0;
    let mut k: usize = 0;
    while k < taps
        invariant
            2 <= taps <= 64,
            t_half == taps / 2,
            taps % 2 == 0,
            w.wf(taps as int),
            1 <= den <= MAX_RATE_HZ,
            frac < den,
            k <= taps,
            sum == wsum_spec(w@, frac as int, den as int, t_half as int, k as int),
            -((k as int) * (65536 * AMP_LIMIT)) <= sum,
            sum <= (k as int) * (65536 * AMP_LIMIT),
        decreases taps - k,
    {
        let rel: i64 = k as i64 - t_half as i64;
        proof {
            assert(-((t_half + 1) as int * den as int) <= rel as int * den as int - frac as int
                && rel as int * den as int - frac as int <= (t_half + 1) as int * den as int
                && -(34 * 1048576) <= rel as int * den as int
                && rel as int * den as int <= 34 * 1048576)
                by (nonlinear_arith)
                requires
                    den as int <= 1048576,
                    -(t_half as int) <= rel as int,
                    rel as int <= taps as int - t_half as int,
                    taps as int == 2 * t_half as int,
                    1 <= t_half as int,
                    t_half as int <= 32,
                    1 <= den as int,
                    0 <= frac as int,
                    (frac as int) < den as int,
            ;
        }
        let n: i64 = rel * (den as i64) - (frac as i64);
        let wt: i64 = weight(n, den, t_half as u64);
        let s: i64 = w.get(k);
        proof {
            assert(-(65536 * AMP_LIMIT) <= wt as int * s as int && wt as int * s as int <= 65536 * AMP_LIMIT)
                by (nonlinear_arith)
                requires
                    -65536 <= wt as int,
                    wt as int <= 65536,
                    -AMP_LIMIT <= s as int,
                    s as int <= AMP_LIMIT,
            ;
            assert(-(((k + 1) as int) * (65536 * AMP_LIMIT)) <= sum as int + wt as int * s as int
                && sum as int + wt as int * s as int <= ((k + 1) as int) * (65536 * AMP_LIMIT)
                && ((k + 1) as int) * (65536 * AMP_LIMIT) <= 64 * (65536 * AMP_LIMIT))
                by (nonlinear_arith)
                requires
                    -((k as int) * (65536 * AMP_LIMIT)) <= sum as int,
                    sum as int <= (k as int) * (65536 * AMP_LIMIT),
                    -(65536 * AMP_LIMIT) <= wt as int * s as int,
                    wt as int * s as int <= 65536 * AMP_LIMIT,
                    0 <= k as int,
                    k as int + 1 <= 64,
            ;
        }
        sum = sum + wt * s;
        k += 1;
    }
    if sum >= 0 {
        ((sum as u64) / 32768) as i64
    } else {
        -((((-sum) as u64) / 32768) as i64)
    }
}

/// The value the chosen kernel produces from a window at `frac / den`.
pub fn kernel_value(k: &Kernel, w: &Window, frac: u64, den: u64) -> (r: i64)
    requires
        k.wf(),
        w.wf(k.spec_width()),
        1 <= den <= MAX_RATE_HZ,
        frac < den,
    ensures
        r == kernel_value_spec(*k, w@, frac as int, den as int),
{
    match k {
        Kernel::Linear => lerp(w.get(0), w.get(1), frac, den),
        Kernel::Sinc { taps } => sinc_value(w, *taps, frac, den),
    }
}

} // verus!
