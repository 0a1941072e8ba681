//! Network-level laws, proved over the specification-level transition
//! [`fdn_step`]: silence invariance, determinism, and impulse latency.

use vstd::prelude::*;
use crate::fdn::{
    FdnModel, model_wf, init_model, fdn_step, mixed_block, mix_prefix, mix_at, out_prefix,
    delay_cap,
};
use crate::delay_line::{dl_out, dl_next, lemma_delay_compose};
use crate::sample::sat_add_s;

verus! {

/// Every sample of `s` is zero.
pub open spec fn all_zero(s: Seq<i64>) -> bool {
    forall|i: int| 0 <= i < s.len() ==> s[i] == 0
}

/// A network state holding no signal: all feedback buffers and all queued
/// delay samples are zero.
pub open spec fn zero_model(m: FdnModel) -> bool {
    &&& model_wf(m)
    &&& forall|i: int| 0 <= i < 4 ==> all_zero(#[trigger] m.fb[i])
    &&& forall|i: int| 0 <= i < 4 ==> all_zero(#[trigger] m.d[i])
    &&& forall|i: int| 0 <= i < 4 ==> all_zero(#[trigger] m.dfb[i])
}

/// The state after feeding a sequence of blocks, first block first.
pub open spec fn run_state(m: FdnModel, blocks: Seq<Seq<i64>>) -> FdnModel
    decreases blocks.len(),
{
    if blocks.len() == 0 {
        m
    } else {
        run_state(fdn_step(m, blocks[0]).0, blocks.drop_first())
    }
}

/// All output samples of a run, concatenated in block order.
pub open spec fn run_out(m: FdnModel, blocks: Seq<Seq<i64>>) -> Seq<i64>
    decreases blocks.len(),
{
    if blocks.len() == 0 {
        Seq::empty()
    } else {
        fdn_step(m, blocks[0]).1 + run_out(fdn_step(m, blocks[0]).0, blocks.drop_first())
    }
}

/// Channel `ch`'s working buffers of a whole run, concatenated: the history
/// that feeds both of the channel's delay lines.
pub open spec fn run_locals(m: FdnModel, blocks: Seq<Seq<i64>>, ch: int) -> Seq<i64>
    decreases blocks.len(),
{
    if blocks.len() == 0 {
        Seq::empty()
    } else {
        mixed_block(blocks[0], m.fb, ch) + run_locals(
            fdn_step(m, blocks[0]).0,
            blocks.drop_first(),
            ch,
        )
    }
}

/// The saturating sum, over the first `k` channels, of what each channel's
/// direct delay line emits at global position `g` of its full history `hs[ch]`.
pub open spec fn direct_sum_prefix(hs: Seq<Seq<i64>>, g: int, k: int) -> i64
    decreases k,
{
    if k <= 0 {
        0
    } else {
        sat_add_s(
            direct_sum_prefix(hs, g, k - 1),
            dl_out(Seq::<i64>::empty(), delay_cap(k - 1), hs[k - 1], g),
        )
    }
}

/// One step keeps the state well-formed, with the frame size of its input.
pub proof fn lemma_step_wf(m: FdnModel, inp: Seq<i64>)
    requires
        model_wf(m),
        inp.len() == m.fb[0].len(),
    ensures
        model_wf(fdn_step(m, inp).0),
        fdn_step(m, inp).0.fb[0].len() == inp.len(),
        fdn_step(m, inp).1.len() == inp.len(),
{
    let m1 = fdn_step(m, inp).0;
    assert forall|i: int| 0 <= i < 4 implies (#[trigger] m1.d[i]).len() <= delay_cap(i) by {
        assert(m1.d[i] == dl_next(m.d[i], delay_cap(i), mixed_block(inp, m.fb, i)));
    }
    assert forall|i: int| 0 <= i < 4 implies (#[trigger] m1.dfb[i]).len() <= m1.dfb_cap[i] by {
        assert(m1.dfb[i] == dl_next(m.dfb[i], m.dfb_cap[i], mixed_block(inp, m.fb, i)));
    }
}

/// A zero sample contributes nothing, whatever the matrix entry.
proof fn lemma_gterm_zero(m: int)
    ensures
        crate::sample::gterm_s(m, 0i64) == 0,
{
    assert(m * (0i64 as int) == 0) by (nonlinear_arith);
    assert((0int * 13) / 20 == 0) by (nonlinear_arith);
}

/// Mixing all-zero feedback into a block leaves every sample unchanged.
proof fn lemma_mix_zero_fb(inp: Seq<i64>, fb: Seq<Seq<i64>>, ch: int, t: int, k: int)
    requires
        0 <= t < inp.len(),
        0 <= k <= 4,
        fb.len() == 4,
        forall|i: int| 0 <= i < 4 ==> all_zero(#[trigger] fb[i]) && t < fb[i].len(),
    ensures
        mix_prefix(inp, fb, ch, t, k) == inp[t],
    decreases k,
{
    if k > 0 {
        lemma_mix_zero_fb(inp, fb, ch, t, k - 1);
        assert(fb[k - 1][t] == 0);
        lemma_gterm_zero(crate::fdn::mat_entry(ch, k - 1));
    }
}

/// A delay line holding only zeros and fed only zeros emits only zeros and
/// still holds only zeros.
proof fn lemma_dl_zero(s: Seq<i64>, cap: nat, inp: Seq<i64>)
    requires
        all_zero(s),
        all_zero(inp),
    ensures
        forall|j: int| 0 <= j < inp.len() ==> dl_out(s, cap, inp, j) == 0,
        all_zero(dl_next(s, cap, inp)),
{
    assert forall|i: int| 0 <= i < (s + inp).len() implies (s + inp)[i] == 0 by {}
}

/// The output sum of channels whose delayed contributions are all zero is zero.
proof fn lemma_out_prefix_zero(m: FdnModel, inp: Seq<i64>, t: int, k: int)
    requires
        0 <= k <= 4,
        forall|ch: int|
            0 <= ch < 4 ==> dl_out(
                m.d[ch],
                delay_cap(ch),
                mixed_block(inp, m.fb, ch),
                t,
            ) == 0,
    ensures
        out_prefix(m, inp, t, k) == 0,
    decreases k,
{
    if k > 0 {
        lemma_out_prefix_zero(m, inp, t, k - 1);
    }
}

/// Silence invariance, one block: a silent state fed an all-zero block of its
/// frame size emits silence and stays silent.
pub proof fn lemma_silence_step(m: FdnModel, inp: Seq<i64>)
    requires
        zero_model(m),
        all_zero(inp),
        inp.len() == m.fb[0].len(),
    ensures
        all_zero(fdn_step(m, inp).1),
        zero_model(fdn_step(m, inp).0),
        fdn_step(m, inp).0.fb[0].len() == inp.len(),
{
    lemma_step_wf(m, inp);
    assert forall|ch: int, t: int|
        0 <= ch < 4 && 0 <= t < inp.len() implies mix_at(inp, m.fb, ch, t) == 0 by {
        assert forall|i: int| 0 <= i < 4 implies all_zero(#[trigger] m.fb[i]) && t < m.fb[i].len()
            by {}
        lemma_mix_zero_fb(inp, m.fb, ch, t, 4);
    }
    assert forall|ch: int| 0 <= ch < 4 implies all_zero(mixed_block(inp, m.fb, ch)) by {}
    assert forall|ch: int| 0 <= ch < 4 implies all_zero(
        dl_next(m.d[ch], delay_cap(ch), mixed_block(inp, m.fb, ch)),
    ) && all_zero(dl_next(m.dfb[ch], m.dfb_cap[ch], mixed_block(inp, m.fb, ch))) && forall|t: int|
        0 <= t < inp.len() ==> dl_out(m.d[ch], delay_cap(ch), mixed_block(inp, m.fb, ch), t) == 0
            && dl_out(m.dfb[ch], m.dfb_cap[ch], mixed_block(inp, m.fb, ch), t) == 0 by {
        lemma_dl_zero(m.d[ch], delay_cap(ch), mixed_block(inp, m.fb, ch));
        lemma_dl_zero(m.dfb[ch], m.dfb_cap[ch], mixed_block(inp, m.fb, ch));
    }
    assert forall|t: int| 0 <= t < inp.len() implies fdn_step(m, inp).1[t] == 0 by {
        lemma_out_prefix_zero(m, inp, t, 4);
    }
}

/// Silence invariance: feeding a freshly silent network any number of all-zero
/// blocks of its frame size yields only zero output samples and leaves the
/// state silent.
pub proof fn lemma_silence_invariance(m: FdnModel, blocks: Seq<Seq<i64>>)
    requires
        zero_model(m),
        forall|k: int|
            0 <= k < blocks.len() ==> all_zero(#[trigger] blocks[k]) && blocks[k].len()
                == m.fb[0].len(),
    ensures
        all_zero(run_out(m, blocks)),
        zero_model(run_state(m, blocks)),
    decreases blocks.len(),
{
    if blocks.len() > 0 {
        lemma_silence_step(m, blocks[0]);
        let m1 = fdn_step(m, blocks[0]).0;
        let rest = blocks.drop_first();
        assert(forall|k: int|
            0 <= k < rest.len() ==> all_zero(#[trigger] rest[k]) && rest[k].len()
                == m1.fb[0].len());
        lemma_silence_invariance(m1, rest);
        assert forall|i: int| 0 <= i < run_out(m, blocks).len() implies run_out(m, blocks)[i]
            == 0 by {
            let first = fdn_step(m, blocks[0]).1;
            if i < first.len() {
                assert(run_out(m, blocks)[i] == first[i]);
            } else {
                assert(run_out(m, blocks)[i] == run_out(m1, rest)[i - first.len()]);
            }
        }
    }
}

/// A freshly constructed network is silent.
pub proof fn lemma_init_zero(frame: nat)
    ensures
        zero_model(init_model(frame)),
        init_model(frame).fb[0].len() == frame,
{
}

/// A frame-size change keeps a silent network silent: truncating or
/// zero-padding all-zero feedback buffers yields all-zero buffers, and the
/// delay queues are not touched.
pub proof fn lemma_silence_resize(m: FdnModel, m2: FdnModel, f: nat)
    requires
        zero_model(m),
        m2.fb == Seq::new(4, |i: int| crate::fdn::resize_frame(m.fb[i], f)),
        m2.d == m.d,
        m2.dfb == m.dfb,
        m2.dfb_cap == m.dfb_cap,
    ensures
        zero_model(m2),
        m2.fb[0].len() == f,
{
}

/// Determinism: the per-block contract pins output and state as a function of
/// the previous state and the input alone, so two instances started in the
/// same state and fed the identical sequence of blocks produce identical
/// output sequences and identical states.
pub proof fn lemma_determinism(a: FdnModel, b: FdnModel, blocks: Seq<Seq<i64>>)
    requires
        a == b,
    ensures
        run_out(a, blocks) == run_out(b, blocks),
        run_state(a, blocks) == run_state(b, blocks),
{
}

/// What a delay line emits from a history depends only on the prefix of the
/// history up to the emission position.
proof fn lemma_dl_out_prefix(h1: Seq<i64>, h2: Seq<i64>, cap: nat, g: int)
    requires
        h1.len() <= h2.len(),
        forall|i: int| 0 <= i < h1.len() ==> h1[i] == h2[i],
        0 <= g < h1.len(),
    ensures
        dl_out(Seq::<i64>::empty(), cap, h1, g) == dl_out(Seq::<i64>::empty(), cap, h2, g),
{
    if g >= cap {
        assert((Seq::<i64>::empty() + h1)[g - cap] == h1[g - cap]);
        assert((Seq::<i64>::empty() + h2)[g - cap] == h2[g - cap]);
    }
}

/// Aligning a block-local output sum with the global direct sum, channel by
/// channel.
proof fn lemma_sum_align(
    m: FdnModel,
    b0: Seq<i64>,
    full: Seq<Seq<i64>>,
    g: int,
    base: int,
    k: int,
)
    requires
        0 <= k <= 4,
        forall|ch: int|
            0 <= ch < 4 ==> dl_out(m.d[ch], delay_cap(ch), mixed_block(b0, m.fb, ch), g) == dl_out(
                Seq::<i64>::empty(),
                delay_cap(ch),
                #[trigger] full[ch],
                base + g,
            ),
    ensures
        out_prefix(m, b0, g, k) == direct_sum_prefix(full, base + g, k),
    decreases k,
{
    if k > 0 {
        lemma_sum_align(m, b0, full, g, base, k - 1);
    }
}

/// The output of a whole run, expressed through each channel's full working
/// history: sample `g` of the run is the saturating channel sum of what each
/// direct delay line emits at position `base + g` of `hs[ch]` extended by the
/// run's working buffers.
proof fn lemma_run_output(m: FdnModel, hs: Seq<Seq<i64>>, blocks: Seq<Seq<i64>>, f: nat)
    requires
        model_wf(m),
        m.fb[0].len() == f,
        hs.len() == 4,
        forall|ch: int| 0 <= ch < 4 ==> (#[trigger] hs[ch]).len() == hs[0].len(),
        forall|ch: int|
            0 <= ch < 4 ==> m.d[ch] == dl_next(
                Seq::<i64>::empty(),
                delay_cap(ch),
                #[trigger] hs[ch],
            ),
        forall|k: int| 0 <= k < blocks.len() ==> (#[trigger] blocks[k]).len() == f,
    ensures
        run_out(m, blocks).len() == blocks.len() * f,
        forall|ch: int|
            0 <= ch < 4 ==> (#[trigger] run_locals(m, blocks, ch)).len() == blocks.len() * f,
        forall|g: int|
            0 <= g < blocks.len() * f ==> (#[trigger] run_out(m, blocks)[g]) == direct_sum_prefix(
                Seq::new(4, |ch: int| hs[ch] + run_locals(m, blocks, ch)),
                hs[0].len() + g,
                4,
            ),
    decreases blocks.len(),
{
    let full = Seq::new(4, |ch: int| hs[ch] + run_locals(m, blocks, ch));
    if blocks.len() == 0 {
        assert(blocks.len() * f == 0) by (nonlinear_arith)
            requires blocks.len() == 0;
    } else {
        let b0 = blocks[0];
        let rest = blocks.drop_first();
        let m1 = fdn_step(m, b0).0;
        let n0: int = hs[0].len() as int;
        lemma_step_wf(m, b0);
        let hs1 = Seq::new(4, |ch: int| hs[ch] + mixed_block(b0, m.fb, ch));
        assert forall|ch: int| 0 <= ch < 4 implies m1.d[ch] == dl_next(
            Seq::<i64>::empty(),
            delay_cap(ch),
            #[trigger] hs1[ch],
        ) by {
            lemma_delay_compose(
                Seq::<i64>::empty(),
                delay_cap(ch),
                hs[ch],
                mixed_block(b0, m.fb, ch),
            );
        }
        lemma_run_output(m1, hs1, rest, f);
        let full1 = Seq::new(4, |ch: int| hs1[ch] + run_locals(m1, rest, ch));
        assert forall|ch: int| 0 <= ch < 4 implies full[ch] == full1[ch] by {
            assert(run_locals(m, blocks, ch) == mixed_block(b0, m.fb, ch) + run_locals(
                m1,
                rest,
                ch,
            ));
            assert(full[ch] =~= full1[ch]);
        }
        assert(full =~= full1);
        assert(blocks.len() * f == f + rest.len() * f) by (nonlinear_arith)
            requires blocks.len() >= 1 && rest.len() == blocks.len() - 1;
        assert forall|ch: int| 0 <= ch < 4 implies (#[trigger] run_locals(m, blocks, ch)).len()
            == blocks.len() * f by {
            assert(run_locals(m, blocks, ch) == mixed_block(b0, m.fb, ch) + run_locals(
                m1,
                rest,
                ch,
            ));
        }
        let first = fdn_step(m, b0).1;
        assert forall|g: int| 0 <= g < blocks.len() * f implies (#[trigger] run_out(m, blocks)[g])
            == direct_sum_prefix(full, n0 + g, 4) by {
            if g < f {
                assert(run_out(m, blocks)[g] == first[g]);
                assert(first[g] == out_prefix(m, b0, g, 4));
                assert forall|ch: int|
                    0 <= ch < 4 implies dl_out(
                    m.d[ch],
                    delay_cap(ch),
                    mixed_block(b0, m.fb, ch),
                    g,
                ) == dl_out(Seq::<i64>::empty(), delay_cap(ch), #[trigger] full[ch], n0 + g) by {
                    lemma_delay_compose(
                        Seq::<i64>::empty(),
                        delay_cap(ch),
                        hs[ch],
                        mixed_block(b0, m.fb, ch),
                    );
                    assert(dl_out(m.d[ch], delay_cap(ch), mixed_block(b0, m.fb, ch), g) == dl_out(
                        Seq::<i64>::empty(),
                        delay_cap(ch),
                        hs1[ch],
                        n0 + g,
                    ));
                    lemma_dl_out_prefix(hs1[ch], full[ch], delay_cap(ch), n0 + g);
                }
                lemma_sum_align(m, b0, full, g, n0, 4);
            } else {
                assert(run_out(m, blocks)[g] == run_out(m1, rest)[g - f]);
                assert(run_out(m1, rest)[g - f] == direct_sum_prefix(
                    full1,
                    hs1[0].len() + (g - f),
                    4,
                ));
                assert(hs1[0].len() == n0 + f);
            }
        }
    }
}

/// Impulse latency: from a freshly constructed network, every output sample
/// before global position 800 — the smallest configured delay length — is
/// zero whatever the input, and the output at position 800 equals the very
/// first input sample, carried by the direct path of the shortest delay alone.
/// With a unit impulse at the head of the first block, the first non-zero
/// output sample therefore falls exactly at position 800.
pub proof fn lemma_impulse_latency(f: nat, blocks: Seq<Seq<i64>>)
    requires
        f >= 1,
        forall|k: int| 0 <= k < blocks.len() ==> (#[trigger] blocks[k]).len() == f,
    ensures
        run_out(init_model(f), blocks).len() == blocks.len() * f,
        forall|g: int|
            0 <= g < blocks.len() * f && g < 800 ==> (#[trigger] run_out(init_model(f), blocks)[g])
                == 0,
        800 < blocks.len() * f ==> run_out(init_model(f), blocks)[800] == blocks[0][0],
{
    let m = init_model(f);
    let hs = Seq::new(4, |ch: int| Seq::<i64>::empty());
    assert forall|ch: int| 0 <= ch < 4 implies m.d[ch] == dl_next(
        Seq::<i64>::empty(),
        delay_cap(ch),
        #[trigger] hs[ch],
    ) by {
        assert(m.d[ch] =~= dl_next(Seq::<i64>::empty(), delay_cap(ch), hs[ch]));
    }
    lemma_run_output(m, hs, blocks, f);
    let full = Seq::new(4, |ch: int| hs[ch] + run_locals(m, blocks, ch));
    assert forall|ch: int| 0 <= ch < 4 implies (#[trigger] full[ch]) == run_locals(m, blocks, ch)
        by {
        assert(full[ch] =~= run_locals(m, blocks, ch));
    }
    assert forall|g: int| 0 <= g < blocks.len() * f && g < 800 implies (#[trigger] run_out(
        m,
        blocks,
    )[g]) == 0 by {
        assert forall|ch: int| 0 <= ch < 4 implies dl_out(
            Seq::<i64>::empty(),
            delay_cap(ch),
            #[trigger] full[ch],
            g,
        ) == 0 by {}
        lemma_direct_sum_zero(full, g, 4);
    }
    if 800 < blocks.len() * f {
        assert(blocks.len() >= 1) by (nonlinear_arith)
            requires 800 < blocks.len() * f;
        let b0 = blocks[0];
        let loc0 = run_locals(m, blocks, 0);
        assert(loc0 == mixed_block(b0, m.fb, 0) + run_locals(
            fdn_step(m, b0).0,
            blocks.drop_first(),
            0,
        ));
        assert(mixed_block(b0, m.fb, 0).len() == f);
        assert(loc0[0] == mixed_block(b0, m.fb, 0)[0]);
        assert forall|i: int| 0 <= i < 4 implies all_zero(#[trigger] m.fb[i]) && 0 < m.fb[i].len()
            by {}
        lemma_mix_zero_fb(b0, m.fb, 0, 0, 4);
        assert(loc0[0] == b0[0]);
        assert(dl_out(Seq::<i64>::empty(), delay_cap(0), full[0], 800) == loc0[0]) by {
            assert((Seq::<i64>::empty() + full[0])[0] == full[0][0]);
        }
        assert forall|ch: int| 1 <= ch < 4 implies dl_out(
            Seq::<i64>::empty(),
            delay_cap(ch),
            #[trigger] full[ch],
            800,
        ) == 0 by {}
        lemma_direct_sum_rest_zero(full, 800);
        assert(run_out(m, blocks)[800] == direct_sum_prefix(full, 800, 4));
    }
}

/// A direct sum over channels whose contributions are all zero is zero.
proof fn lemma_direct_sum_zero(hs: Seq<Seq<i64>>, g: int, k: int)
    requires
        0 <= k <= 4,
        forall|ch: int|
            0 <= ch < 4 ==> dl_out(Seq::<i64>::empty(), delay_cap(ch), #[trigger] hs[ch], g) == 0,
    ensures
        direct_sum_prefix(hs, g, k) == 0,
    decreases k,
{
    if k > 0 {
        lemma_direct_sum_zero(hs, g, k - 1);
    }
}

/// A direct sum where only the first channel contributes equals that
/// contribution.
proof fn lemma_direct_sum_rest_zero(hs: Seq<Seq<i64>>, g: int)
    requires
        forall|ch: int|
            1 <= ch < 4 ==> dl_out(Seq::<i64>::empty(), delay_cap(ch), #[trigger] hs[ch], g) == 0,
    ensures
        direct_sum_prefix(hs, g, 4) == dl_out(Seq::<i64>::empty(), delay_cap(0), hs[0], g),
{
    reveal_with_fuel(direct_sum_prefix, 5);
    let x = dl_out(Seq::<i64>::empty(), delay_cap(0), hs[0], g);
    assert(sat_add_s(0, x) == x);
    assert(sat_add_s(x, 0) == x);
}

} // verus!
