use vstd::prelude::*;
use crate::kernel::Kernel;
use crate::resampler::{
    pos_ip, pos_frac, producible, out_value, out_window, call_stream, last_n, MAX_CHUNK_LEN,
};
use vstd::arithmetic::div_mod::{
    lemma_basic_div, lemma_div_by_multiple, lemma_div_is_ordered,
    lemma_div_multiples_vanish_fancy, lemma_fundamental_div_mod, lemma_hoist_over_denominator,
    lemma_mod_bound, lemma_mod_multiples_vanish, lemma_small_mod,
};

verus! {

/// Rate-identity law: when the source and target rates are equal, every
/// slot the linear kernel writes holds an input sample unchanged — slot `i`
/// holds `input[i + 1]` (one sample of pipeline delay, after the two
/// discarded start-up outputs).
pub proof fn lemma_rate_identity(hist: Seq<i64>, input: Seq<i64>, i: int, rate: int)
    requires
        hist.len() == 1,
        1 <= rate,
        0 <= i,
        producible(i + 2, rate, rate, input.len() as int),
    ensures
        out_value(Kernel::Linear, hist, input, i + 2, rate, rate) == input[i + 1],
{
    let j = i + 2;
    lemma_div_by_multiple(j, rate);
    assert(pos_ip(j, rate, rate) == j);
    lemma_mod_multiples_vanish(j, 0, rate);
    assert(rate * j == j * rate) by (nonlinear_arith);
    lemma_small_mod(0nat, rate as nat);
    assert(pos_frac(j, rate, rate) == 0);
    let w = out_window(hist, input, j, rate, rate, 2);
    let s = call_stream(hist, input);
    assert(w[0] == s[j + 1]);
    assert(s[j + 1] == input[j - 1]);
    assert(0 * ((w[1] as int) - (w[0] as int)) == 0) by (nonlinear_arith);
    lemma_basic_div(0, rate);
}

/// Monotonic-position law, exact form: internal output `j` is reachable
/// exactly when its read position `j * src / tgt` lies inside the `n`
/// input samples, that is when `j * src < n * tgt`. The number of written
/// outputs is therefore within one step of `n * tgt / src - 2`.
pub proof fn lemma_position_bound(j: int, src: int, tgt: int, n: int)
    requires
        1 <= src,
        1 <= tgt,
        0 <= j,
        0 <= n,
    ensures
        producible(j, src, tgt, n) <==> j * src < n * tgt,
{
    assert(0 <= j * src) by (nonlinear_arith)
        requires
            0 <= j,
            0 <= src,
    ;
    if j * src < n * tgt {
        assert(n >= 1) by (nonlinear_arith)
            requires
                j * src < n * tgt,
                0 <= j * src,
                0 <= n,
        ;
        lemma_div_is_ordered(j * src, n * tgt - 1, tgt);
        assert(n * tgt - 1 == tgt * (n - 1) + (tgt - 1)) by (nonlinear_arith);
        lemma_div_multiples_vanish_fancy(n - 1, tgt - 1, tgt);
        assert(pos_ip(j, src, tgt) <= n - 1);
    }
    if producible(j, src, tgt, n) {
        lemma_fundamental_div_mod(j * src, tgt);
        lemma_mod_bound(j * src, tgt);
        assert(tgt * pos_ip(j, src, tgt) <= tgt * (n - 1)) by (nonlinear_arith)
            requires
                pos_ip(j, src, tgt) <= n - 1,
                1 <= tgt,
        ;
        assert(tgt * (n - 1) + (tgt - 1) == n * tgt - 1) by (nonlinear_arith);
    }
}

/// Monotonic-position law, downsampling direction: with `tgt < src` the
/// slot at index `n - 2` (and beyond) is never written, so the output is
/// strictly shorter than the input.
pub proof fn lemma_downsample_shorter(n: int, src: int, tgt: int)
    requires
        1 <= tgt,
        tgt < src,
        0 <= n,
    ensures
        !producible(n, src, tgt, n),
{
    assert(n * tgt <= n * src) by (nonlinear_arith)
        requires
            0 <= n,
            tgt <= src,
    ;
    lemma_div_is_ordered(n * tgt, n * src, tgt);
    lemma_div_by_multiple(n, tgt);
    assert(pos_ip(n, src, tgt) >= n);
}

/// Monotonic-position law, upsampling direction: once the chunk is long
/// enough to absorb the two discarded start-up outputs
/// (`n * (tgt - src) > 2 * src`), slot `n` is written, so the output is
/// strictly longer than the input.
pub proof fn lemma_upsample_longer(n: int, src: int, tgt: int)
    requires
        1 <= src,
        src < tgt,
        0 <= n,
        n * (tgt - src) > 2 * src,
    ensures
        producible(n + 2, src, tgt, n),
{
    assert((n + 2) * src < n * tgt && n >= 1) by (nonlinear_arith)
        requires
            n * (tgt - src) > 2 * src,
            1 <= src,
            0 <= n,
    ;
    lemma_position_bound(n + 2, src, tgt, n);
}

/// How many output slots a chunk of `n` samples can fill at the given
/// rates: slot `i` is written by `process` exactly when `i` is below the
/// returned count, which is `ceil(n * tgt / src) - 2` (the two discarded
/// start-up outputs), and never negative.
pub fn max_outputs(n: usize, source_hz: u32, target_hz: u32) -> (r: u64)
    requires
        1 <= source_hz <= 1048576,
        1 <= target_hz <= 1048576,
        n <= MAX_CHUNK_LEN,
    ensures
        forall|i: int| 0 <= i ==> (#[trigger] producible(
            i + 2,
            source_hz as int,
            target_hz as int,
            n as int,
        ) <==> i < r),
{
    let ghost src = source_hz as int;
    let ghost tgt = target_hz as int;
    proof {
        assert(0 <= n as int * tgt && n as int * tgt <= MAX_CHUNK_LEN as int * 1048576)
            by (nonlinear_arith)
            requires
                0 <= n as int,
                n as int <= MAX_CHUNK_LEN as int,
                1 <= tgt,
                tgt <= 1048576,
        ;
    }
    let nt: u64 = (n as u64) * (target_hz as u64);
    let c: u64 = (nt + (source_hz as u64) - 1) / (source_hz as u64);
    let r: u64 = if c >= 2 {
        c - 2
    } else {
        0
    };
    proof {
        let ceil = c as int;
        lemma_fundamental_div_mod(nt as int + src - 1, src);
        lemma_mod_bound(nt as int + src - 1, src);
        let rem = (nt as int + src - 1) % src;
        assert(src * ceil == nt as int + src - 1 - rem);
        assert forall|i: int| 0 <= i implies (#[trigger] producible(i + 2, src, tgt, n as int)
            <==> i < r) by {
            lemma_position_bound(i + 2, src, tgt, n as int);
            if i + 2 < ceil {
                assert((i + 2) * src <= (ceil - 1) * src) by (nonlinear_arith)
                    requires
                        i + 2 <= ceil - 1,
                        1 <= src,
                ;
                assert((ceil - 1) * src == src * ceil - src) by (nonlinear_arith);
            }
            if i + 2 >= ceil {
                assert(ceil * src <= (i + 2) * src) by (nonlinear_arith)
                    requires
                        ceil <= i + 2,
                        1 <= src,
                ;
                assert(ceil * src == src * ceil) by (nonlinear_arith);
            }
        }
    }
    r
}

/// Continuity law: resampling a signal in two consecutive chunks, with the
/// carried history threaded through, gives exactly the values of resampling
/// the concatenation in one call. Internal output `j` of the second call
/// equals internal output `j + shift` of the single call, where
/// `shift = |chunk_a| * tgt / src` is the whole-output offset of the first
/// chunk; the law asks that the first chunk spans a whole number of outputs
/// (`|chunk_a| * tgt` divisible by `src`), for otherwise the second call's
/// read positions fall between those of the single call.
pub proof fn lemma_chunk_continuity(
    k: Kernel,
    hist: Seq<i64>,
    chunk_a: Seq<i64>,
    chunk_b: Seq<i64>,
    j: int,
    src: int,
    tgt: int,
)
    requires
        k.wf(),
        hist.len() == k.spec_width() - 1,
        1 <= src,
        1 <= tgt,
        0 <= j,
        (chunk_a.len() * tgt) % src == 0,
        producible(j, src, tgt, chunk_b.len() as int),
    ensures
        producible(
            j + chunk_a.len() * tgt / src,
            src,
            tgt,
            (chunk_a + chunk_b).len() as int,
        ),
        out_value(k, last_n(hist + chunk_a, k.spec_width() - 1), chunk_b, j, src, tgt)
            == out_value(
                k,
                hist,
                chunk_a + chunk_b,
                j + chunk_a.len() * tgt / src,
                src,
                tgt,
            ),
{
    let a = chunk_a.len() as int;
    let wd = k.spec_width();
    let shift = a * tgt / src;
    let hp = last_n(hist + chunk_a, wd - 1);
    let j2 = j + shift;
    let ip = pos_ip(j, src, tgt);

    lemma_fundamental_div_mod(a * tgt, src);
    assert(a * tgt == src * shift);
    assert(0 <= a * tgt) by (nonlinear_arith)
        requires
            0 <= a,
            0 <= tgt,
    ;
    lemma_basic_div(0, src);
    lemma_div_is_ordered(0, a * tgt, src);
    assert(0 <= shift);

    assert(hp =~= (hist + chunk_a).skip(a));

    assert(j2 * src == j * src + src * shift) by (nonlinear_arith)
        requires
            j2 == j + shift,
    ;
    assert(j2 * src == j * src + a * tgt);
    lemma_hoist_over_denominator(j * src, a, tgt as nat);
    assert(a * tgt == tgt * a) by (nonlinear_arith);
    assert(pos_ip(j2, src, tgt) == ip + a);
    lemma_mod_multiples_vanish(a, j * src, tgt);
    assert(pos_frac(j2, src, tgt) == pos_frac(j, src, tgt));

    let s2 = call_stream(hp, chunk_b);
    let s1 = call_stream(hist, chunk_a + chunk_b);
    let w2 = out_window(hp, chunk_b, j, src, tgt, wd);
    let w1 = out_window(hist, chunk_a + chunk_b, j2, src, tgt, wd);
    assert(s2.len() == wd + chunk_b.len());
    assert(s1.len() == wd + a + chunk_b.len());
    assert forall|q: int| 0 <= q < wd implies w2[q] == w1[q] by {
        let g = ip + 1 + q;
        assert(w2[q] == s2[g]);
        assert(w1[q] == s1[g + a]);
        if g < wd {
            assert(s2[g] == hp[g - 1]);
            assert(hp[g - 1] == (hist + chunk_a)[a + g - 1]);
            if a + g < wd {
                assert(s1[g + a] == hist[a + g - 1]);
                assert((hist + chunk_a)[a + g - 1] == hist[a + g - 1]);
            } else {
                assert(s1[g + a] == (chunk_a + chunk_b)[a + g - wd]);
                assert((chunk_a + chunk_b)[a + g - wd] == chunk_a[g + a - wd]);
                assert((hist + chunk_a)[a + g - 1] == chunk_a[a + g - wd]);
            }
        } else {
            assert(s2[g] == chunk_b[g - wd]);
            assert(s1[g + a] == (chunk_a + chunk_b)[g + a - wd]);
            assert((chunk_a + chunk_b)[g + a - wd] == chunk_b[g - wd]);
        }
    }
    assert(w2 =~= w1);
}

} // verus!
