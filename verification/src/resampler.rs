use vstd::prelude::*;
use crate::kernel::{Kernel, Window, bounded, kernel_value, kernel_value_spec};
use crate::AMP_LIMIT;

verus! {

/// Largest chunk and output-buffer length a resampling call accepts.
pub const MAX_CHUNK_LEN: usize = 268435456;

/// The smaller of two integers.
pub open spec fn min_i(a: int, b: int) -> int {
    if a <= b {
        a
    } else {
        b
    }
}

/// The integer part of the source-stream read position of internal output
/// `j`: the cursor advances by `src / tgt` source samples per output.
pub open spec fn pos_ip(j: int, src: int, tgt: int) -> int {
    (j * src) / tgt
}

/// The fractional part (numerator over `tgt`) of the read position of
/// internal output `j`.
pub open spec fn pos_frac(j: int, src: int, tgt: int) -> int {
    (j * src) % tgt
}

/// The source stream a call works through: a silent seed sample, the
/// carried history, then the chunk itself.
pub open spec fn call_stream(hist: Seq<i64>, input: Seq<i64>) -> Seq<i64> {
    seq![0i64] + hist + input
}

/// Internal output `j` can be produced exactly when its read position lies
/// within the chunk.
pub open spec fn producible(j: int, src: int, tgt: int, n: int) -> bool {
    pos_ip(j, src, tgt) < n
}

/// The interpolation window in effect for internal output `j`: the `width`
/// most recent stream samples once the read position has been reached.
pub open spec fn out_window(
    hist: Seq<i64>,
    input: Seq<i64>,
    j: int,
    src: int,
    tgt: int,
    width: int,
) -> Seq<i64> {
    call_stream(hist, input).subrange(
        pos_ip(j, src, tgt) + 1,
        pos_ip(j, src, tgt) + 1 + width,
    )
}

/// The value of internal output `j` of a call with the given carried
/// history and input chunk.
pub open spec fn out_value(
    k: Kernel,
    hist: Seq<i64>,
    input: Seq<i64>,
    j: int,
    src: int,
    tgt: int,
) -> int {
    kernel_value_spec(
        k,
        out_window(hist, input, j, src, tgt, k.spec_width()),
        pos_frac(j, src, tgt),
        tgt,
    )
}

/// The last `n` elements of a sequence (all of it when it is shorter).
pub open spec fn last_n(s: Seq<i64>, n: int) -> Seq<i64> {
    if s.len() <= n {
        s
    } else {
        s.skip(s.len() - n)
    }
}

/// What slot `i` of the output buffer holds after a call: the value of
/// internal output `i + 2` when it is producible (the first two internal
/// outputs are discarded to compensate the re-seeded window), and the
/// slot's prior content otherwise.
pub open spec fn written_value(
    k: Kernel,
    hist: Seq<i64>,
    input: Seq<i64>,
    before: Seq<i64>,
    i: int,
    src: int,
    tgt: int,
) -> int {
    if producible(i + 2, src, tgt, input.len() as int) {
        out_value(k, hist, input, i + 2, src, tgt)
    } else {
        before[i] as int
    }
}

/// The Stateful Resampler: a kernel together with the carried history,
/// the `width - 1` trailing samples of the previous chunk, which primes
/// the interpolation window so consecutive chunks join without a seam.
pub struct Resampler {
    kernel: Kernel,
    hist: Vec<i64>,
}

impl Resampler {
    /// The kernel this resampler interpolates with.
    pub closed spec fn spec_kernel(self) -> Kernel {
        self.kernel
    }

    /// The carried history: trailing samples of the previous chunk
    /// (all silence before the first call).
    pub closed spec fn history(self) -> Seq<i64> {
        self.hist@
    }

    /// Exactly `width - 1` carried samples, all within the amplitude range.
    pub open spec fn wf(self) -> bool {
        &&& self.spec_kernel().wf()
        &&& self.history().len() == self.spec_kernel().spec_width() - 1
        &&& bounded(self.history())
    }

    /// A cold resampler: the carried history is all silence.
    pub fn new(kernel: Kernel) -> (r: Resampler)
        requires
            kernel.wf(),
        ensures
            r.wf(),
            r.spec_kernel() == kernel,
            r.history() =~= Seq::new((kernel.spec_width() - 1) as nat, |i: int| 0i64),
    {
        let width = kernel.width();
        let mut hist: Vec<i64> = Vec::new();
        let mut i: usize = 0;
        while i < width - 1
            invariant
                i <= width - 1,
                hist@ =~= Seq::new(i as nat, |q: int| 0i64),
            decreases width - 1 - i,
        {
            hist.push(0);
            i += 1;
        }
        Resampler { kernel, hist }
    }

    /// The kernel the resampler was built with.
    pub fn kernel(&self) -> (k: Kernel)
        ensures
            k == self.spec_kernel(),
    {
        self.kernel
    }

    /// How many carried samples the resampler holds (`width - 1`).
    pub fn history_len(&self) -> (n: usize)
        ensures
            n == self.history().len(),
    {
        self.hist.len()
    }

    /// Resample one chunk. The interpolation window is seeded from the
    /// carried history; a fractional read cursor starts at the head of the
    /// chunk and advances by `source_hz / target_hz` source samples per
    /// output; the kernel is evaluated at every reachable position, the
    /// first two internal outputs are discarded, and the rest fill `output`
    /// in order. Slots the chunk cannot reach are left untouched. The last
    /// `width - 1` samples seen become the new carried history.
    pub fn process(
        &mut self,
        input: &Vec<i64>,
        output: &mut Vec<i64>,
        source_hz: u32,
        target_hz: u32,
    )
        requires
            old(self).wf(),
            1 <= source_hz <= 1048576,
            1 <= target_hz <= 1048576,
            bounded(input@),
            input@.len() <= MAX_CHUNK_LEN,
            old(output)@.len() <= MAX_CHUNK_LEN,
        ensures
            final(self).wf(),
            final(self).spec_kernel() == old(self).spec_kernel(),
            final(self).history() == last_n(
                old(self).history() + input@,
                old(self).spec_kernel().spec_width() - 1,
            ),
            final(output)@.len() == old(output)@.len(),
            forall|i: int| 0 <= i < old(output)@.len() ==> #[trigger] final(output)@[i] as int
                == written_value(
                    old(self).spec_kernel(),
                    old(self).history(),
                    input@,
                    old(output)@,
                    i,
                    source_hz as int,
                    target_hz as int,
                ),
    {
        let ghost k0 = self.kernel;
        let ghost hist0 = self.hist@;
        let ghost out0 = output@;
        let ghost src = source_hz as int;
        let ghost tgt = target_hz as int;
        let ghost stream = call_stream(hist0, input@);
        let width = self.kernel.width();
        let mut window = Window::seed(&self.hist);
        let m = output.len();
        let n = input.len();
        let srcw: u64 = source_hz as u64;
        let tgtw: u64 = target_hz as u64;
        let mut consumed: usize = 0;
        let mut j: usize = 0;
        proof {
            assert(window@ =~= stream.subrange(0, width as int));
        }
        while j < m + 2
            invariant
                self.kernel == k0,
                self.hist@ == hist0,
                k0.wf(),
                width == k0.spec_width(),
                bounded(hist0),
                bounded(input@),
                hist0.len() == width - 1,
                stream == call_stream(hist0, input@),
                stream.len() == width + n,
                srcw == source_hz as u64,
                tgtw == target_hz as u64,
                src == source_hz as int,
                tgt == target_hz as int,
                1 <= srcw <= 1048576,
                1 <= tgtw <= 1048576,
                n == input@.len(),
                n <= MAX_CHUNK_LEN,
                m == out0.len(),
                m <= MAX_CHUNK_LEN,
                output@.len() == m,
                j <= m + 2,
                consumed <= n,
                j == 0 ==> consumed == 0,
                j > 0 ==> consumed as int == min_i(n as int, pos_ip(j - 1, src, tgt) + 1),
                window@ == stream.subrange(consumed as int, consumed as int + width),
                forall|i: int| 0 <= i < m && i + 3 <= j ==> #[trigger] output@[i] as int
                    == written_value(k0, hist0, input@, out0, i, src, tgt),
                forall|i: int| 0 <= i < m && i + 3 > j ==> #[trigger] output@[i] == out0[i],
            decreases m + 2 - j,
        {
            proof {
                assert(j as int * (src as int) <= (MAX_CHUNK_LEN + 2) * 1048576)
                    by (nonlinear_arith)
                    requires
                        0 <= j as int,
                        j as int <= MAX_CHUNK_LEN + 1,
                        0 <= src,
                        src <= 1048576,
                ;
                assert(0 <= j as int * (src as int)) by (nonlinear_arith)
                    requires
                        0 <= j as int,
                        0 <= src,
                ;
            }
            let p: u64 = (j as u64) * srcw;
            let ip: u64 = p / tgtw;
            proof {
                assert(ip as int == pos_ip(j as int, src, tgt));
                vstd::arithmetic::div_mod::lemma_div_is_ordered(0, p as int, tgt);
                if j > 0 {
                    assert((j - 1) as int * src <= j as int * src) by (nonlinear_arith)
                        requires
                            0 <= src,
                            1 <= j as int,
                    ;
                    vstd::arithmetic::div_mod::lemma_div_is_ordered(
                        (j - 1) as int * src,
                        j as int * src,
                        tgt,
                    );
                    assert(pos_ip(j - 1, src, tgt) <= pos_ip(j as int, src, tgt));
                }
                assert(consumed as int <= min_i(n as int, pos_ip(j as int, src, tgt) + 1));
            }
            while consumed < n && (consumed as u64) <= ip
                invariant
                    stream.len() == width + n,
                    n == input@.len(),
                    bounded(input@),
                    consumed <= n,
                    consumed as int <= ip as int + 1,
                    window@ == stream.subrange(consumed as int, consumed as int + width),
                    width == k0.spec_width(),
                    k0.wf(),
                    stream == call_stream(hist0, input@),
                    hist0.len() == width - 1,
                decreases n - consumed,
            {
                proof {
                    assert(stream[consumed as int + width] == input@[consumed as int]);
                    assert(stream.subrange(consumed as int + 1, consumed as int + 1 + width)
                        =~= stream.subrange(consumed as int, consumed as int + width)
                            .drop_first()
                            .push(input@[consumed as int]));
                }
                window.push_sample(input[consumed]);
                consumed += 1;
            }
            if ip < (n as u64) {
                proof {
                    assert(consumed as int == ip as int + 1);
                    assert(bounded(stream));
                    assert forall|q: int| 0 <= q < window@.len() implies
                        -AMP_LIMIT <= #[trigger] window@[q] <= AMP_LIMIT by {
                        assert(window@[q] == stream[consumed as int + q]);
                    }
                }
                let frac: u64 = p % tgtw;
                let v = kernel_value(&self.kernel, &window, frac, tgtw);
                proof {
                    assert(window@ == out_window(hist0, input@, j as int, src, tgt, width as int));
                    assert(frac as int == pos_frac(j as int, src, tgt));
                    assert(v as int == out_value(k0, hist0, input@, j as int, src, tgt));
                }
                if j >= 2 {
                    output.set(j - 2, v);
                }
            }
            j += 1;
        }
        let km1 = width - 1;
        let mut new_hist: Vec<i64> = Vec::new();
        if n >= km1 {
            let mut i: usize = n - km1;
            while i < n
                invariant
                    n - km1 <= i <= n,
                    n == input@.len(),
                    km1 <= n,
                    new_hist@ == input@.subrange(n - km1, i as int),
                decreases n - i,
            {
                new_hist.push(input[i]);
                i += 1;
            }
        } else {
            let mut i: usize = n;
            while i < km1
                invariant
                    n <= i <= km1,
                    km1 == self.hist@.len(),
                    self.hist@ == hist0,
                    new_hist@ == hist0.subrange(n as int, i as int),
                decreases km1 - i,
            {
                new_hist.push(self.hist[i]);
                i += 1;
            }
            let mut i2: usize = 0;
            while i2 < n
                invariant
                    i2 <= n,
                    n == input@.len(),
                    km1 == hist0.len(),
                    n < km1,
                    new_hist@ == hist0.subrange(n as int, km1 as int)
                        + input@.subrange(0, i2 as int),
                decreases n - i2,
            {
                new_hist.push(input[i2]);
                i2 += 1;
            }
        }
        proof {
            assert(new_hist@ =~= (hist0 + input@).skip(n as int));
            assert((hist0 + input@).skip(n as int) =~= last_n(hist0 + input@, width - 1));
            assert(bounded(new_hist@));
        }
        self.hist = new_hist;
    }
}

} // verus!
