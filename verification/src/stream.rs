use vstd::prelude::*;
use crate::queue::{SampleQueue, queue_contents};
use crate::kernel::bounded;
use crate::resampler::{Resampler, pos_ip, last_n, out_value, min_i};
use crate::AMP_LIMIT;

verus! {

/// Clamp an amplitude into the accepted range.
pub open spec fn clamp_spec(s: i64) -> i64 {
    if s > AMP_LIMIT {
        AMP_LIMIT
    } else if s < -AMP_LIMIT {
        (-AMP_LIMIT) as i64
    } else {
        s
    }
}

pub fn clamp_amplitude(s: i64) -> (r: i64)
    ensures
        r == clamp_spec(s),
        -AMP_LIMIT <= r <= AMP_LIMIT,
{
    if s > AMP_LIMIT {
        AMP_LIMIT
    } else if s < -AMP_LIMIT {
        -AMP_LIMIT
    } else {
        s
    }
}

/// The Streaming Source Adapter: presents a bounded queue as a pull-based
/// endless sample sequence, substituting silence when the queue is empty,
/// so a consumer never stalls waiting for data.
pub struct StreamingSource {
    queue: SampleQueue,
}

impl StreamingSource {
    /// The samples waiting in the underlying queue, oldest first.
    pub closed spec fn contents(self) -> Seq<i64> {
        queue_contents(self.queue)
    }

    /// The capacity of the underlying queue.
    pub closed spec fn spec_capacity(self) -> nat {
        crate::queue::queue_capacity(self.queue)
    }

    pub fn new(queue: SampleQueue) -> (r: StreamingSource)
        ensures
            r.contents() == queue_contents(queue),
    {
        StreamingSource { queue }
    }

    /// The producer side reaching the shared queue: push one sample,
    /// failing fast when the queue is at capacity.
    pub fn feed(&mut self, s: i64) -> (r: Result<(), crate::queue::QueueFull>)
        ensures
            old(self).contents().len() < old(self).spec_capacity() ==> {
                &&& r is Ok
                &&& final(self).contents() == old(self).contents().push(s)
            },
            old(self).contents().len() >= old(self).spec_capacity() ==> {
                &&& r is Err
                &&& final(self).contents() == old(self).contents()
            },
    {
        self.queue.push(s)
    }

    /// Pull one sample: the oldest queued sample, or exact silence (zero)
    /// when the queue is momentarily empty. Never fails, never blocks.
    pub fn next(&mut self) -> (s: i64)
        ensures
            old(self).contents().len() == 0 ==> {
                &&& s == 0i64
                &&& final(self).contents() == old(self).contents()
            },
            old(self).contents().len() > 0 ==> {
                &&& s == old(self).contents()[0]
                &&& final(self).contents() == old(self).contents().drop_first()
            },
    {
        match self.queue.pop() {
            Some(v) => v,
            None => 0,
        }
    }
}

/// The chunk a pull-mode call works on: the first `n` queued samples, each
/// clamped into the accepted amplitude range, padded with silence when the
/// queue runs out.
pub open spec fn pulled_seq(c: Seq<i64>, n: int) -> Seq<i64> {
    Seq::new(n as nat, |i: int| if i < c.len() { clamp_spec(c[i]) } else { 0i64 })
}

/// How many source samples a pull-mode call gathers so that every slot of
/// an output buffer of length `m` is reachable.
pub open spec fn needed_spec(m: int, src: int, tgt: int) -> int {
    pos_ip(m + 1, src, tgt) + 1
}

/// Drive a resampler in pull mode: gather exactly the source samples the
/// output buffer needs from the adapter (silence where the queue runs dry),
/// then resample them as one chunk. Every output slot is written.
pub fn process_from_source(
    rs: &mut Resampler,
    source: &mut StreamingSource,
    output: &mut Vec<i64>,
    source_hz: u32,
    target_hz: u32,
)
    requires
        old(rs).wf(),
        1 <= source_hz <= 1048576,
        1 <= target_hz <= 1048576,
        old(output)@.len() <= crate::resampler::MAX_CHUNK_LEN,
        (old(output)@.len() + 2) * (source_hz as int)
            <= (crate::resampler::MAX_CHUNK_LEN as int) * (target_hz as int),
    ensures
        final(rs).wf(),
        final(rs).spec_kernel() == old(rs).spec_kernel(),
        final(output)@.len() == old(output)@.len(),
        final(rs).history() == last_n(
            old(rs).history() + pulled_seq(
                old(source).contents(),
                needed_spec(old(output)@.len() as int, source_hz as int, target_hz as int),
            ),
            old(rs).spec_kernel().spec_width() - 1,
        ),
        final(source).contents() == old(source).contents().skip(min_i(
            old(source).contents().len() as int,
            needed_spec(old(output)@.len() as int, source_hz as int, target_hz as int),
        )),
        forall|i: int| 0 <= i < old(output)@.len() ==> #[trigger] final(output)@[i] as int
            == out_value(
                old(rs).spec_kernel(),
                old(rs).history(),
                pulled_seq(
                    old(source).contents(),
                    needed_spec(old(output)@.len() as int, source_hz as int, target_hz as int),
                ),
                i + 2,
                source_hz as int,
                target_hz as int,
            ),
{
    let ghost src = source_hz as int;
    let ghost tgt = target_hz as int;
    let ghost c0 = source.contents();
    let m = output.len();
    let srcw: u64 = source_hz as u64;
    let tgtw: u64 = target_hz as u64;
    proof {
        assert((m as int + 1) * src <= (m as int + 2) * src) by (nonlinear_arith)
            requires
                0 <= src,
                0 <= m as int,
        ;
        assert(0 <= (m as int + 1) * src) by (nonlinear_arith)
            requires
                0 <= src,
                0 <= m as int,
        ;
    }
    let p: u64 = (m as u64 + 1) * srcw;
    let ipq: u64 = p / tgtw;
    proof {
        let maxc = crate::resampler::MAX_CHUNK_LEN as int;
        assert((m as int + 2) * src <= maxc * tgt);
        assert(maxc * tgt - src <= maxc * tgt - 1);
        assert((m as int + 1) * src == (m as int + 2) * src - src) by (nonlinear_arith);
        vstd::arithmetic::div_mod::lemma_div_is_ordered(
            (m as int + 1) * src,
            maxc * tgt - 1,
            tgt,
        );
        assert(maxc * tgt - 1 == tgt * (maxc - 1) + (tgt - 1)) by (nonlinear_arith);
        vstd::arithmetic::div_mod::lemma_div_multiples_vanish_fancy(maxc - 1, tgt - 1, tgt);
        assert((maxc * tgt - 1) / tgt == maxc - 1);
        assert(pos_ip(m as int + 1, src, tgt) <= maxc - 1);
        assert(ipq as int <= maxc - 1);
    }
    let needed: usize = ipq as usize + 1;
    proof {
        assert(needed as int == needed_spec(m as int, src, tgt));
        assert(needed as int <= crate::resampler::MAX_CHUNK_LEN as int);
    }
    let mut pulled: Vec<i64> = Vec::new();
    while pulled.len() < needed
        invariant
            pulled@.len() <= needed,
            needed as int == needed_spec(m as int, src, tgt),
            pulled@ == pulled_seq(c0, pulled@.len() as int),
            source.contents() == c0.skip(min_i(c0.len() as int, pulled@.len() as int)),
            bounded(pulled@),
        decreases needed - pulled@.len(),
    {
        let ghost done = pulled@.len() as int;
        let s = source.next();
        let v = clamp_amplitude(s);
        pulled.push(v);
        proof {
            if done < c0.len() {
                assert(c0.skip(min_i(c0.len() as int, done))[0] == c0[done]);
                assert(c0.skip(min_i(c0.len() as int, done)).drop_first()
                    =~= c0.skip(min_i(c0.len() as int, done + 1)));
                assert(v == clamp_spec(c0[done]));
            } else {
                assert(c0.skip(min_i(c0.len() as int, done)).len() == 0);
                assert(v == 0i64);
                assert(c0.skip(min_i(c0.len() as int, done))
                    =~= c0.skip(min_i(c0.len() as int, done + 1)));
            }
            assert(pulled@ =~= pulled_seq(c0, done + 1));
        }
    }
    proof {
        assert(pulled@ == pulled_seq(c0, needed as int));
    }
    rs.process(&pulled, output, source_hz, target_hz);
    proof {
        let n = needed as int;
        assert forall|i: int| 0 <= i < m implies #[trigger] crate::resampler::producible(
            i + 2,
            src,
            tgt,
            n,
        ) by {
            assert((i + 2) * src <= (m as int + 1) * src) by (nonlinear_arith)
                requires
                    0 <= src,
                    i + 2 <= m as int + 1,
            ;
            vstd::arithmetic::div_mod::lemma_div_is_ordered(
                (i + 2) * src,
                (m as int + 1) * src,
                tgt,
            );
            assert(pos_ip(i + 2, src, tgt) <= pos_ip(m as int + 1, src, tgt));
        }
    }
}

} // verus!
