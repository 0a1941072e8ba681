//! The feedback delay network: four delay-line pairs coupled by a fixed 4x4
//! mixing matrix and a feedback gain of 13/20.
//!
//! Each processed block is replicated to four channel-local working buffers,
//! the previous block's retained feedback is mixed in through the matrix, the
//! direct delay of each channel produces the audible output (summed across
//! channels), and the feedback-compensation delay of each channel produces the
//! feedback retained for the next block. [`fdn_step`] is the whole per-block
//! transition at the specification level; `process` is proved to implement it
//! exactly.

use vstd::prelude::*;
use crate::delay_line::{DelayLine, dl_out, dl_next};
use crate::matrix::{zero, elementwise_add};
use crate::sample::{sat_add, sat_add_s, gterm_s, apply_gain};

verus! {

/// The fixed delay-length table: capacity of each channel's direct delay line.
pub open spec fn delay_cap(i: int) -> nat {
    if i == 0 {
        800
    } else if i == 1 {
        1422
    } else if i == 2 {
        2483
    } else {
        4227
    }
}

/// Capacity of a channel's feedback-compensation delay line: the direct delay
/// shortened by the construction-time frame size, but never below one, so the
/// feedback round trip stays at the full delay length regardless of chunking.
pub open spec fn fb_cap(i: int, frame: nat) -> nat {
    if delay_cap(i) > frame {
        (delay_cap(i) - frame) as nat
    } else {
        1
    }
}

/// The fixed mixing matrix: entries in {-1, 0, 1}, zero diagonal, rows mostly
/// antisymmetric so no channel feeds straight back into itself.
pub open spec fn mat_entry(r: int, c: int) -> int {
    if r == 0 {
        if c == 1 || c == 2 {
            1
        } else {
            0
        }
    } else if r == 1 {
        if c == 0 || c == 3 {
            -1
        } else {
            0
        }
    } else if r == 2 {
        if c == 0 {
            1
        } else if c == 3 {
            -1
        } else {
            0
        }
    } else {
        if c == 1 {
            1
        } else if c == 2 {
            -1
        } else {
            0
        }
    }
}

/// Capacity of channel `i`'s direct delay line.
pub fn delay_samples(i: usize) -> (n: usize)
    requires
        i < 4,
    ensures
        n as nat == delay_cap(i as int),
{
    if i == 0 {
        800
    } else if i == 1 {
        1422
    } else if i == 2 {
        2483
    } else {
        4227
    }
}

/// The mixing-matrix entry for output channel `r` and input channel `c`.
pub fn mat_at(r: usize, c: usize) -> (m: i64)
    requires
        r < 4,
        c < 4,
    ensures
        m as int == mat_entry(r as int, c as int),
        -1 <= m <= 1,
{
    if r == 0 {
        if c == 1 || c == 2 {
            1
        } else {
            0
        }
    } else if r == 1 {
        if c == 0 || c == 3 {
            -1
        } else {
            0
        }
    } else if r == 2 {
        if c == 0 {
            1
        } else if c == 3 {
            -1
        } else {
            0
        }
    } else {
        if c == 1 {
            1
        } else if c == 2 {
            -1
        } else {
            0
        }
    }
}

/// The network's retained state: per-channel feedback buffers, the contents of
/// the direct and feedback-compensation delay queues, and the fixed
/// compensation capacities.
#[verifier::ext_equal]
pub ghost struct FdnModel {
    pub fb: Seq<Seq<i64>>,
    pub d: Seq<Seq<i64>>,
    pub dfb: Seq<Seq<i64>>,
    pub dfb_cap: Seq<nat>,
}

/// Shape of a valid network state: four channels everywhere, equal-length
/// feedback buffers, and delay contents within their capacities.
pub open spec fn model_wf(m: FdnModel) -> bool {
    &&& m.fb.len() == 4
    &&& m.d.len() == 4
    &&& m.dfb.len() == 4
    &&& m.dfb_cap.len() == 4
    &&& forall|i: int| 0 <= i < 4 ==> (#[trigger] m.fb[i]).len() == m.fb[0].len()
    &&& forall|i: int| 0 <= i < 4 ==> (#[trigger] m.d[i]).len() <= delay_cap(i)
    &&& forall|i: int| 0 <= i < 4 ==> (#[trigger] m.dfb[i]).len() <= m.dfb_cap[i]
    &&& forall|i: int| 0 <= i < 4 ==> (#[trigger] m.dfb_cap[i]) >= 1
}

/// The state of a freshly constructed network with the given frame size:
/// all-zero feedback buffers and empty delay queues.
pub open spec fn init_model(frame: nat) -> FdnModel {
    FdnModel {
        fb: Seq::new(4, |i: int| Seq::new(frame, |t: int| 0i64)),
        d: Seq::new(4, |i: int| Seq::<i64>::empty()),
        dfb: Seq::new(4, |i: int| Seq::<i64>::empty()),
        dfb_cap: Seq::new(4, |i: int| fb_cap(i, frame)),
    }
}

/// Channel `ch`'s working sample at position `t` after mixing in the feedback
/// of the first `k` input channels: the raw input plus, in channel order, each
/// feedback sample weighted by the matrix and the gain, with saturation.
pub open spec fn mix_prefix(inp: Seq<i64>, fb: Seq<Seq<i64>>, ch: int, t: int, k: int) -> i64
    decreases k,
{
    if k <= 0 {
        inp[t]
    } else {
        sat_add_s(
            mix_prefix(inp, fb, ch, t, k - 1),
            gterm_s(mat_entry(ch, k - 1), fb[k - 1][t]),
        )
    }
}

/// Channel `ch`'s working sample at position `t`: input plus all four weighted
/// feedback contributions.
pub open spec fn mix_at(inp: Seq<i64>, fb: Seq<Seq<i64>>, ch: int, t: int) -> i64 {
    mix_prefix(inp, fb, ch, t, 4)
}

/// Channel `ch`'s whole working buffer for one block.
pub open spec fn mixed_block(inp: Seq<i64>, fb: Seq<Seq<i64>>, ch: int) -> Seq<i64> {
    Seq::new(inp.len(), |t: int| mix_at(inp, fb, ch, t))
}

/// The output sample at position `t` after summing the delayed working buffers
/// of the first `k` channels, with saturation, in channel order.
pub open spec fn out_prefix(m: FdnModel, inp: Seq<i64>, t: int, k: int) -> i64
    decreases k,
{
    if k <= 0 {
        0
    } else {
        sat_add_s(
            out_prefix(m, inp, t, k - 1),
            dl_out(m.d[k - 1], delay_cap(k - 1), mixed_block(inp, m.fb, k - 1), t),
        )
    }
}

/// The whole output block: the sum across all four channels of their delayed,
/// feedback-mixed working buffers.
pub open spec fn out_block(m: FdnModel, inp: Seq<i64>) -> Seq<i64> {
    Seq::new(inp.len(), |t: int| out_prefix(m, inp, t, 4))
}

/// One whole `process` call at the specification level: the new state and the
/// output block produced from state `m` and input block `inp`.
pub open spec fn fdn_step(m: FdnModel, inp: Seq<i64>) -> (FdnModel, Seq<i64>) {
    (
        FdnModel {
            fb: Seq::new(
                4,
                |i: int|
                    Seq::new(
                        inp.len(),
                        |t: int| dl_out(m.dfb[i], m.dfb_cap[i], mixed_block(inp, m.fb, i), t),
                    ),
            ),
            d: Seq::new(4, |i: int| dl_next(m.d[i], delay_cap(i), mixed_block(inp, m.fb, i))),
            dfb: Seq::new(4, |i: int| dl_next(m.dfb[i], m.dfb_cap[i], mixed_block(inp, m.fb, i))),
            dfb_cap: m.dfb_cap,
        },
        out_block(m, inp),
    )
}

/// Feedback buffer contents after a frame-size change: existing samples are
/// kept at their indices up to the smaller length, new positions are zero.
pub open spec fn resize_frame(s: Seq<i64>, newlen: nat) -> Seq<i64> {
    Seq::new(
        newlen,
        |t: int|
            if t < s.len() {
                s[t]
            } else {
                0i64
            },
    )
}

/// A four-channel feedback delay network with retained cross-block state.
pub struct FDN {
    delay: Vec<DelayLine>,
    delay_fb: Vec<DelayLine>,
    feedback: Vec<Vec<i64>>,
}

impl View for FDN {
    type V = FdnModel;

    closed spec fn view(&self) -> FdnModel {
        FdnModel {
            fb: Seq::new(4, |i: int| self.feedback@[i]@),
            d: Seq::new(4, |i: int| self.delay@[i].items()),
            dfb: Seq::new(4, |i: int| self.delay_fb@[i].items()),
            dfb_cap: Seq::new(4, |i: int| self.delay_fb@[i].cap()),
        }
    }
}

impl FDN {
    /// Four well-formed delay-line pairs with the fixed capacities, and four
    /// equal-length feedback buffers.
    pub closed spec fn wf(self) -> bool {
        &&& self.delay@.len() == 4
        &&& self.delay_fb@.len() == 4
        &&& self.feedback@.len() == 4
        &&& forall|i: int|
            0 <= i < 4 ==> (#[trigger] self.delay@[i]).wf() && self.delay@[i].cap() == delay_cap(i)
        &&& forall|i: int| 0 <= i < 4 ==> (#[trigger] self.delay_fb@[i]).wf()
        &&& forall|i: int|
            0 <= i < 4 ==> (#[trigger] self.feedback@[i])@.len() == self.feedback@[0]@.len()
    }

    /// The frame size currently reported to the network: the length of its
    /// feedback buffers.
    pub open spec fn frame_len(self) -> nat {
        self@.fb[0].len()
    }

    /// A well-formed network always presents a well-formed state.
    pub proof fn lemma_wf_model(self)
        requires
            self.wf(),
        ensures
            model_wf(self@),
    {
        assert forall|i: int| 0 <= i < 4 implies (#[trigger] self@.d[i]).len() <= delay_cap(i) by {
            assert(self.delay@[i].wf());
        }
        assert forall|i: int| 0 <= i < 4 implies (#[trigger] self@.dfb[i]).len()
            <= self@.dfb_cap[i] by {
            assert(self.delay_fb@[i].wf());
        }
        assert forall|i: int| 0 <= i < 4 implies (#[trigger] self@.dfb_cap[i]) >= 1 by {
            assert(self.delay_fb@[i].wf());
        }
    }

    /// Construct a network with the fixed delay table, compensation delays
    /// derived from the given frame size, and all-zero feedback buffers. The
    /// channel count is fixed at four to match the mixing matrix; `ndelays`
    /// is accepted for interface compatibility only.
    #[verifier::loop_isolation(false)]
    pub fn new(ndelays: usize, frame_size: usize) -> (r: Self)
        ensures
            r.wf(),
            r@ == init_model(frame_size as nat),
            r.frame_len() == frame_size as nat,
    {
        let _ = ndelays;
        let mut delay: Vec<DelayLine> = Vec::new();
        let mut delay_fb: Vec<DelayLine> = Vec::new();
        let mut feedback: Vec<Vec<i64>> = Vec::new();
        for i in 0..4usize
            invariant
                delay@.len() == i,
                delay_fb@.len() == i,
                feedback@.len() == i,
                forall|k: int|
                    0 <= k < i ==> (#[trigger] delay@[k]).wf() && delay@[k].cap() == delay_cap(k)
                        && delay@[k].items() == Seq::<i64>::empty(),
                forall|k: int|
                    0 <= k < i ==> (#[trigger] delay_fb@[k]).wf() && delay_fb@[k].cap() == fb_cap(
                        k,
                        frame_size as nat,
                    ) && delay_fb@[k].items() == Seq::<i64>::empty(),
                forall|k: int| 0 <= k < i ==> (#[trigger] feedback@[k])@.len() == frame_size,
                forall|k: int, t: int|
                    0 <= k < i && 0 <= t < frame_size ==> (#[trigger] feedback@[k]@[t]) == 0,
        {
            let ds: usize = delay_samples(i);
            delay.push(DelayLine::new(ds));
            let fc: usize = if ds > frame_size {
                ds - frame_size
            } else {
                1
            };
            delay_fb.push(DelayLine::new(fc));
            feedback.push(vec![0i64; frame_size]);
        }
        let r = FDN { delay, delay_fb, feedback };
        proof {
            assert(r@ =~~= init_model(frame_size as nat));
        }
        r
    }

    /// Resize the four feedback buffers to the new frame size, preserving
    /// existing samples at their indices and zero-filling new positions. The
    /// delay lines' fixed capacities are not touched.
    #[verifier::loop_isolation(false)]
    pub fn update_framesize(&mut self, framesize: usize)
        requires
            old(self).wf(),
        ensures
            final(self).wf(),
            final(self).frame_len() == framesize as nat,
            final(self)@.fb == Seq::new(
                4,
                |i: int| resize_frame(old(self)@.fb[i], framesize as nat),
            ),
            final(self)@.d == old(self)@.d,
            final(self)@.dfb == old(self)@.dfb,
            final(self)@.dfb_cap == old(self)@.dfb_cap,
    {
        for i in 0..4usize
            invariant
                self.delay == old(self).delay,
                self.delay_fb == old(self).delay_fb,
                self.feedback@.len() == 4,
                forall|k: int|
                    0 <= k < i ==> (#[trigger] self.feedback@[k])@ == resize_frame(
                        old(self).feedback@[k]@,
                        framesize as nat,
                    ),
                forall|k: int|
                    i <= k < 4 ==> (#[trigger] self.feedback@[k]) == old(self).feedback@[k],
        {
            let mut buf: Vec<i64> = self.feedback.remove(i);
            let ghost oldbuf = buf@;
            buf.resize(framesize, 0);
            proof {
                assert(buf@ =~= resize_frame(oldbuf, framesize as nat));
            }
            self.feedback.insert(i, buf);
        }
        proof {
            assert(self@.fb =~~= Seq::new(
                4,
                |i: int| resize_frame(old(self)@.fb[i], framesize as nat),
            ));
            assert(self@.d =~~= old(self)@.d);
            assert(self@.dfb =~~= old(self)@.dfb);
            assert(self@.dfb_cap =~~= old(self)@.dfb_cap);
        }
    }

    /// Process one block of the network's current frame size: mix the previous
    /// block's feedback into four working copies of the input, emit the summed
    /// direct delays, and retain the compensation-delayed working buffers as
    /// the feedback for the next block. Implements [`fdn_step`] exactly.
    #[verifier::loop_isolation(false)]
    pub fn process(&mut self, out: &mut Vec<i64>, inp: &Vec<i64>)
        requires
            old(self).wf(),
            inp@.len() == old(self).frame_len(),
            old(out).len() == inp.len(),
        ensures
            final(self).wf(),
            final(self).frame_len() == old(self).frame_len(),
            final(self)@ == fdn_step(old(self)@, inp@).0,
            final(out)@ == fdn_step(old(self)@, inp@).1,
    {
        let ghost m0 = self@;
        let n: usize = inp.len();
        zero(out);
        let mut locals: Vec<Vec<i64>> = Vec::new();
        for ch in 0..4usize
            invariant
                locals@.len() == ch,
                forall|k: int|
                    0 <= k < ch ==> (#[trigger] locals@[k])@ == mixed_block(inp@, m0.fb, k),
        {
            let mut local: Vec<i64> = Vec::new();
            for t in 0..n
                invariant
                    local@.len() == t,
                    forall|j: int| 0 <= j < t ==> (#[trigger] local@[j]) == inp@[j],
            {
                local.push(inp[t]);
            }
            for ii in 0..4usize
                invariant
                    local@.len() == n,
                    forall|t: int|
                        0 <= t < n ==> (#[trigger] local@[t]) == mix_prefix(
                            inp@,
                            m0.fb,
                            ch as int,
                            t,
                            ii as int,
                        ),
            {
                let me: i64 = mat_at(ch, ii);
                for t in 0..n
                    invariant
                        local@.len() == n,
                        forall|j: int|
                            0 <= j < t ==> (#[trigger] local@[j]) == mix_prefix(
                                inp@,
                                m0.fb,
                                ch as int,
                                j,
                                ii + 1,
                            ),
                        forall|j: int|
                            t <= j < n ==> (#[trigger] local@[j]) == mix_prefix(
                                inp@,
                                m0.fb,
                                ch as int,
                                j,
                                ii as int,
                            ),
                {
                    let fbv: i64 = self.feedback[ii][t];
                    let term: i64 = apply_gain(me, fbv);
                    let cur: i64 = local[t];
                    local[t] = sat_add(cur, term);
                }
            }
            proof {
                assert(local@ =~= mixed_block(inp@, m0.fb, ch as int));
            }
            locals.push(local);
        }
        for ch in 0..4usize
            invariant
                locals@.len() == 4 - ch,
                forall|k: int|
                    0 <= k < 4 - ch ==> (#[trigger] locals@[k])@ == mixed_block(
                        inp@,
                        m0.fb,
                        k + ch,
                    ),
                self.delay@.len() == 4,
                self.delay_fb@.len() == 4,
                self.feedback@.len() == 4,
                forall|i: int|
                    0 <= i < ch ==> (#[trigger] self.delay@[i]).items() == dl_next(
                        m0.d[i],
                        delay_cap(i),
                        mixed_block(inp@, m0.fb, i),
                    ) && self.delay@[i].wf() && self.delay@[i].cap() == delay_cap(i),
                forall|i: int| ch <= i < 4 ==> (#[trigger] self.delay@[i]) == old(self).delay@[i],
                forall|i: int|
                    0 <= i < ch ==> (#[trigger] self.delay_fb@[i]).items() == dl_next(
                        m0.dfb[i],
                        m0.dfb_cap[i],
                        mixed_block(inp@, m0.fb, i),
                    ) && self.delay_fb@[i].wf() && self.delay_fb@[i].cap() == m0.dfb_cap[i],
                forall|i: int|
                    ch <= i < 4 ==> (#[trigger] self.delay_fb@[i]) == old(self).delay_fb@[i],
                forall|i: int|
                    0 <= i < ch ==> (#[trigger] self.feedback@[i])@ == Seq::new(
                        n as nat,
                        |t: int| dl_out(m0.dfb[i], m0.dfb_cap[i], mixed_block(inp@, m0.fb, i), t),
                    ),
                forall|i: int|
                    ch <= i < 4 ==> (#[trigger] self.feedback@[i]) == old(self).feedback@[i],
                out.len() == n,
                forall|t: int|
                    0 <= t < n ==> (#[trigger] out@[t]) == out_prefix(m0, inp@, t, ch as int),
        {
            let local: Vec<i64> = locals.remove(0);
            let mut tout: Vec<i64> = vec![0i64; n];
            let mut dl: DelayLine = self.delay.remove(ch);
            dl.process(&mut tout, &local);
            self.delay.insert(ch, dl);
            elementwise_add(out, &tout);
            let mut dfb: DelayLine = self.delay_fb.remove(ch);
            let mut fbuf: Vec<i64> = self.feedback.remove(ch);
            dfb.process(&mut fbuf, &local);
            self.delay_fb.insert(ch, dfb);
            self.feedback.insert(ch, fbuf);
            proof {
                assert(fbuf@ =~= Seq::new(
                    n as nat,
                    |t: int|
                        dl_out(m0.dfb[ch as int], m0.dfb_cap[ch as int], mixed_block(
                            inp@,
                            m0.fb,
                            ch as int,
                        ), t),
                ));
            }
        }
        proof {
            assert(self@ =~~= fdn_step(m0, inp@).0);
            assert(out@ =~= fdn_step(m0, inp@).1);
        }
    }

    /// The frame size currently reported to the network.
    pub fn frame_size(&self) -> (n: usize)
        requires
            self.wf(),
        ensures
            n as nat == self.frame_len(),
    {
        self.feedback[0].len()
    }

    /// A copy of channel `ch`'s retained feedback buffer.
    #[verifier::loop_isolation(false)]
    pub fn feedback_state(&self, ch: usize) -> (r: Vec<i64>)
        requires
            self.wf(),
            ch < 4,
        ensures
            r@ == self@.fb[ch as int],
    {
        let n: usize = self.feedback[ch].len();
        let mut r: Vec<i64> = Vec::new();
        for t in 0..n
            invariant
                r@.len() == t,
                forall|j: int| 0 <= j < t ==> (#[trigger] r@[j]) == self.feedback@[ch as int]@[j],
        {
            r.push(self.feedback[ch][t]);
        }
        proof {
            assert(r@ =~= self@.fb[ch as int]);
        }
        r
    }
}

} // verus!
