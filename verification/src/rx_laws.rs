//! Laws of the frame decoder over runs of blocks.

use vstd::arithmetic::power::pow;
use vstd::arithmetic::power2::*;
use vstd::prelude::*;

use crate::rx::{
    bits_value, frame_text, takes_in, OokDecoder, Reception, FRAME_BITS, GAP_FRAME_BLOCKS,
    GAP_THRESHOLD, PULSE_MIN_BLOCKS,
};
use crate::text::{lemma_hex_len, numeral, zero_padded};
use crate::text_laws::{
    digits_in, law_digits_are_unique, law_numeral_reads_back, law_padding_keeps_the_number,
    value_in,
};

verus! {

/// The reception after `blocks`, in order.
pub open spec fn received(start: Reception, blocks: Seq<bool>) -> Reception
    decreases blocks.len(),
{
    if blocks.len() == 0 {
        start
    } else {
        received(start, blocks.drop_last()).after(blocks.last())
    }
}

/// The codes that `blocks` report, in order.
pub open spec fn codes(start: Reception, blocks: Seq<bool>) -> Seq<u32>
    decreases blocks.len(),
{
    if blocks.len() == 0 {
        Seq::empty()
    } else {
        let before = codes(start, blocks.drop_last());
        match received(start, blocks.drop_last()).reported(blocks.last()) {
            Some(code) => before.push(code),
            None => before,
        }
    }
}

/// `count` blocks that are all signal or all quiet.
pub open spec fn run(signal: bool, count: nat) -> Seq<bool> {
    Seq::new(count, |i: int| signal)
}

/// A pulse before each gap, for as many gaps as there are.
pub open spec fn pulses_and_gaps(pulses: Seq<nat>, gaps: Seq<nat>) -> Seq<bool>
    decreases gaps.len(),
{
    if gaps.len() == 0 {
        Seq::empty()
    } else {
        pulses_and_gaps(pulses, gaps.drop_last()) + run(true, pulses[gaps.len() - 1]) + run(
            false,
            gaps.last(),
        )
    }
}

/// The blocks of a frame: a pulse before each gap, a pulse behind the last, and
/// then silence.
pub open spec fn train(pulses: Seq<nat>, gaps: Seq<nat>, silence: nat) -> Seq<bool> {
    pulses_and_gaps(pulses, gaps) + run(true, pulses[gaps.len() as int]) + run(false, silence)
}

/// Whether pulses of these widths can carry a frame: none is a glitch, and none
/// is missing.
pub open spec fn proper_pulses(pulses: Seq<nat>, bits: nat) -> bool {
    &&& pulses.len() == bits + 1
    &&& forall|i: int| 0 <= i < pulses.len() ==> #[trigger] pulses[i] >= PULSE_MIN_BLOCKS
}

/// Whether gaps of these widths stand for `bits`.
pub open spec fn gaps_of(gaps: Seq<nat>, bits: Seq<u8>) -> bool {
    &&& gaps.len() == bits.len()
    &&& forall|i: int|
        0 <= i < gaps.len() ==> {
            &&& 1 <= #[trigger] gaps[i] < GAP_FRAME_BLOCKS
            &&& bits[i] == (if gaps[i] >= GAP_THRESHOLD {
                1u8
            } else {
                0u8
            })
        }
}

/// Whether the decoder waits for a frame: no pulse is under way and no bits are
/// pending, and what came before is a glitch at most or a silence ago.
pub open spec fn idle(reception: Reception) -> bool {
    &&& !reception.in_pulse
    &&& reception.pulse_width == 0
    &&& reception.bits.len() == 0
    &&& reception.pulse_blocks == 0 || reception.edge_ends_frame()
}

/// Blocks taken in two parts are taken in one after the other.
proof fn lemma_received_join(start: Reception, first: Seq<bool>, second: Seq<bool>)
    ensures
        received(start, first + second) == received(received(start, first), second),
        codes(start, first + second) == codes(start, first) + codes(received(start, first), second),
    decreases second.len(),
{
    let whole = first + second;
    if second.len() == 0 {
        assert(whole =~= first);
        assert(codes(start, first) + Seq::<u32>::empty() =~= codes(start, first));
    } else {
        lemma_received_join(start, first, second.drop_last());
        assert(whole.drop_last() =~= first + second.drop_last());
        assert(codes(start, whole) =~= codes(start, first) + codes(
            received(start, first),
            second,
        ));
    }
}

/// Every block keeps a reception well formed.
pub proof fn law_well_formed_after(reception: Reception, signal: bool)
    requires
        reception.well_formed(),
    ensures
        reception.after(signal).well_formed(),
{
}

/// From any well-formed reception, any run of blocks leads to a well-formed one.
pub proof fn law_well_formed_received(start: Reception, blocks: Seq<bool>)
    requires
        start.well_formed(),
    ensures
        received(start, blocks).well_formed(),
    decreases blocks.len(),
{
    if blocks.len() > 0 {
        law_well_formed_received(start, blocks.drop_last());
    }
}

/// A code is reported by the block that completes the silence behind a frame,
/// and by no other.
pub proof fn law_reported_at_silence(reception: Reception, signal: bool)
    requires
        reception.well_formed(),
        reception.reported(signal) is Some,
    ensures
        !signal,
        reception.gap_blocks + 1 == GAP_FRAME_BLOCKS,
        reception.bits.len() == FRAME_BITS,
        reception.after(signal).last_code == reception.reported(signal),
        reception.last_code != reception.reported(signal),
{
}

/// Calibrating changes nothing that is decoded: two decoders that differ in
/// nothing but that report the same code for a block and differ in nothing but
/// that afterwards.
pub proof fn law_calibrating_changes_nothing(
    first: OokDecoder,
    second: OokDecoder,
    signal: bool,
    first_after: OokDecoder,
    second_after: OokDecoder,
    first_code: Option<u32>,
    second_code: Option<u32>,
)
    requires
        first@ == second@,
        first.block_count == second.block_count,
        first.sample_count == second.sample_count,
        takes_in(first, signal, first_after, first_code),
        takes_in(second, signal, second_after, second_code),
    ensures
        first_code == second_code,
        first_after@ == second_after@,
        first_after.block_count == second_after.block_count,
        first_after.sample_count == second_after.sample_count,
        first_after.calibrate == first.calibrate,
        second_after.calibrate == second.calibrate,
{
}

/// Repeated frames are reported once: no code is reported twice in a row, the
/// first is not the one known before, and the last is the one known after.
pub proof fn law_no_repeats(start: Reception, blocks: Seq<bool>)
    ensures
        forall|i: int|
            0 < i < codes(start, blocks).len() ==> codes(start, blocks)[i - 1] != #[trigger] codes(
                start,
                blocks,
            )[i],
        codes(start, blocks).len() > 0 ==> start.last_code != Some(codes(start, blocks).first())
            && received(start, blocks).last_code == Some(codes(start, blocks).last()),
    decreases blocks.len(),
{
    if blocks.len() > 0 {
        law_no_repeats(start, blocks.drop_last());
        lemma_last_code(start, blocks.drop_last());
    }
}

/// Without a report no code is taken up but the one known.
proof fn lemma_last_code(start: Reception, blocks: Seq<bool>)
    ensures
        codes(start, blocks).len() == 0 ==> received(start, blocks).last_code == start.last_code,
    decreases blocks.len(),
{
    if blocks.len() > 0 {
        lemma_last_code(start, blocks.drop_last());
    }
}

/// One block more behind others.
proof fn lemma_received_push(start: Reception, blocks: Seq<bool>, signal: bool)
    ensures
        received(start, blocks.push(signal)) == received(start, blocks).after(signal),
        codes(start, blocks.push(signal)) == (match received(start, blocks).reported(signal) {
            Some(code) => codes(start, blocks).push(code),
            None => codes(start, blocks),
        }),
{
    assert(blocks.push(signal).drop_last() =~= blocks);
}

/// A pulse behind a gap reads the gap and counts its blocks.
proof fn lemma_pulse(start: Reception, count: nat)
    requires
        !start.in_pulse,
        start.pulse_width == 0,
        start.edge_ends_frame() ==> start.bits.len() == 0,
        count >= 1,
    ensures
        received(start, run(true, count)) == (Reception {
            in_pulse: true,
            pulse_width: count,
            pulse_blocks: start.gap_read().pulse_blocks + count,
            gap_blocks: 0,
            ..start.gap_read()
        }),
        codes(start, run(true, count)) == Seq::<u32>::empty(),
    decreases count,
{
    let rest = run(true, (count - 1) as nat);
    assert(run(true, count) =~= rest.push(true));
    lemma_received_push(start, rest, true);
    if count == 1 {
        assert(rest =~= Seq::empty());
        assert(received(start, rest) == start);
    } else {
        lemma_pulse(start, (count - 1) as nat);
    }
}

/// A gap behind a proper pulse counts its blocks.
proof fn lemma_gap(start: Reception, count: nat)
    requires
        start.in_pulse,
        start.pulse_width >= PULSE_MIN_BLOCKS,
        start.gap_blocks == 0,
        1 <= count < GAP_FRAME_BLOCKS,
    ensures
        received(start, run(false, count)) == (Reception {
            in_pulse: false,
            pulse_width: 0,
            gap_blocks: count,
            ..start
        }),
        codes(start, run(false, count)) == Seq::<u32>::empty(),
    decreases count,
{
    let rest = run(false, (count - 1) as nat);
    assert(run(false, count) =~= rest.push(false));
    lemma_received_push(start, rest, false);
    if count == 1 {
        assert(rest =~= Seq::empty());
        assert(received(start, rest) == start);
    } else {
        lemma_gap(start, (count - 1) as nat);
    }
}

/// A silence behind a proper pulse closes the frame.
proof fn lemma_silence(start: Reception, count: nat)
    requires
        start.in_pulse,
        start.pulse_width >= PULSE_MIN_BLOCKS,
        start.gap_blocks == 0,
        count >= GAP_FRAME_BLOCKS,
    ensures
        ({
            let quiet = Reception {
                in_pulse: false,
                pulse_width: 0,
                gap_blocks: count,
                ..start
            };
            &&& received(start, run(false, count)) == (if start.bits.len() > 0 {
                quiet.closed()
            } else {
                quiet
            })
            &&& codes(start, run(false, count)) == (match start.report() {
                Some(code) => seq![code],
                None => Seq::<u32>::empty(),
            })
        }),
    decreases count,
{
    let rest = run(false, (count - 1) as nat);
    assert(run(false, count) =~= rest.push(false));
    lemma_received_push(start, rest, false);
    if count == GAP_FRAME_BLOCKS {
        lemma_gap(start, (count - 1) as nat);
        assert(Seq::<u32>::empty().push(start.report()->0) =~= seq![start.report()->0]);
    } else {
        lemma_silence(start, (count - 1) as nat);
    }
}

/// After some pulses and gaps from an idle decoder, the bits of all gaps but the
/// last are pending.
proof fn lemma_pulses_and_gaps(start: Reception, pulses: Seq<nat>, gaps: Seq<nat>, bits: Seq<u8>)
    requires
        idle(start),
        pulses.len() > gaps.len() > 0,
        proper_pulses(pulses, (pulses.len() - 1) as nat),
        gaps_of(gaps, bits),
    ensures
        ({
            let end = received(start, pulses_and_gaps(pulses, gaps));
            &&& !end.in_pulse
            &&& end.pulse_width == 0
            &&& end.pulse_blocks >= PULSE_MIN_BLOCKS
            &&& end.gap_blocks == gaps.last()
            &&& end.bits == bits.drop_last()
            &&& end.last_code == start.last_code
            &&& codes(start, pulses_and_gaps(pulses, gaps)) == Seq::<u32>::empty()
        }),
    decreases gaps.len(),
{
    let before = pulses_and_gaps(pulses, gaps.drop_last());
    let n = gaps.len() - 1;
    let pulse = run(true, pulses[n]);
    let gap = run(false, gaps.last());
    let at_pulse = received(start, before);
    let at_gap = received(at_pulse, pulse);
    assert(1 <= gaps[n] < GAP_FRAME_BLOCKS);
    assert(pulses[n] >= PULSE_MIN_BLOCKS);
    lemma_received_join(start, before + pulse, gap);
    lemma_received_join(start, before, pulse);
    if n == 0 {
        assert(before =~= Seq::empty());
        assert(at_pulse == start);
    } else {
        assert(gaps_of(gaps.drop_last(), bits.drop_last())) by {
            assert forall|i: int| 0 <= i < gaps.len() - 1 implies {
                &&& 1 <= #[trigger] gaps.drop_last()[i] < GAP_FRAME_BLOCKS
                &&& bits.drop_last()[i] == (if gaps.drop_last()[i] >= GAP_THRESHOLD {
                    1u8
                } else {
                    0u8
                })
            } by {
                assert(1 <= gaps[i] < GAP_FRAME_BLOCKS);
            }
        }
        lemma_pulses_and_gaps(start, pulses, gaps.drop_last(), bits.drop_last());
        assert(1 <= gaps[n - 1] < GAP_FRAME_BLOCKS);
        assert(gaps.drop_last().last() == gaps[n - 1]);
        assert(bits.drop_last().drop_last().push(bits[n - 1]) =~= bits.drop_last());
    }
    lemma_pulse(at_pulse, pulses[n]);
    lemma_gap(at_gap, gaps.last());
    assert(codes(start, before + pulse + gap) =~= Seq::<u32>::empty());
    if n == 0 {
        assert(bits.drop_last() =~= Seq::empty());
        assert(start.bits =~= Seq::empty());
    }
}

/// A frame is decoded to its bits: from an idle decoder, pulses with gaps that
/// stand for `bits`, one more pulse and a silence report the number with these
/// binary digits, if they are as many as a frame has and the frame is no
/// repetition, and otherwise nothing. The decoder is idle again afterwards, and
/// knows the code.
pub proof fn law_train_decodes(
    start: Reception,
    pulses: Seq<nat>,
    gaps: Seq<nat>,
    silence: nat,
    bits: Seq<u8>,
)
    requires
        idle(start),
        proper_pulses(pulses, bits.len()),
        gaps_of(gaps, bits),
        silence >= GAP_FRAME_BLOCKS,
    ensures
        ({
            let end = received(start, train(pulses, gaps, silence));
            let reports = codes(start, train(pulses, gaps, silence));
            let code = bits_value(bits) as u32;
            &&& idle(end)
            &&& bits.len() == FRAME_BITS ==> end.last_code == Some(code)
            &&& bits.len() == FRAME_BITS && start.last_code != Some(code) ==> reports == seq![code]
            &&& bits.len() == FRAME_BITS && start.last_code == Some(code) ==> reports.len() == 0
            &&& bits.len() != FRAME_BITS ==> end.last_code == start.last_code && reports.len() == 0
        }),
{
    let before = pulses_and_gaps(pulses, gaps);
    let pulse = run(true, pulses[gaps.len() as int]);
    let quiet = run(false, silence);
    let at_pulse = received(start, before);
    let at_quiet = received(at_pulse, pulse);
    lemma_received_join(start, before + pulse, quiet);
    lemma_received_join(start, before, pulse);
    assert(pulses[gaps.len() as int] >= PULSE_MIN_BLOCKS);
    if gaps.len() == 0 {
        assert(before =~= Seq::empty());
        assert(at_pulse == start);
        assert(bits =~= Seq::empty());
        assert(start.bits =~= Seq::empty());
    } else {
        lemma_pulses_and_gaps(start, pulses, gaps, bits);
        assert(1 <= gaps[gaps.len() - 1] < GAP_FRAME_BLOCKS);
        assert(bits.drop_last().push(bits.last()) =~= bits);
    }
    lemma_pulse(at_pulse, pulses[gaps.len() as int]);
    assert(at_quiet.bits == bits);
    lemma_silence(at_quiet, silence);
    assert(codes(start, before + pulse + quiet) =~= codes(at_quiet, quiet));
}

/// Quiet that does not end a frame only lengthens the gap.
proof fn lemma_quiet(start: Reception, count: nat)
    requires
        !start.in_pulse,
        start.pulse_width == 0,
        start.bits.len() == 0 || start.gap_blocks + count < GAP_FRAME_BLOCKS,
    ensures
        received(start, run(false, count)) == (Reception {
            gap_blocks: start.gap_blocks + count,
            ..start
        }),
        codes(start, run(false, count)) == Seq::<u32>::empty(),
    decreases count,
{
    if count == 0 {
        assert(run(false, 0) =~= Seq::empty());
    } else {
        let rest = run(false, (count - 1) as nat);
        assert(run(false, count) =~= rest.push(false));
        lemma_received_push(start, rest, false);
        lemma_quiet(start, (count - 1) as nat);
    }
}

/// A glitch reads the gap before it and leaves no proper pulse behind it.
proof fn lemma_glitch(start: Reception, pulse: nat, quiet: nat)
    requires
        start.well_formed(),
        !start.in_pulse,
        1 <= pulse < PULSE_MIN_BLOCKS,
        quiet >= 1,
        start.gap_read().bits.len() == 0 || quiet < GAP_FRAME_BLOCKS,
    ensures
        received(start, run(true, pulse) + run(false, quiet)) == (Reception {
            in_pulse: false,
            pulse_width: 0,
            pulse_blocks: 0,
            gap_blocks: quiet,
            ..start.gap_read()
        }),
        codes(start, run(true, pulse) + run(false, quiet)) == Seq::<u32>::empty(),
{
    let at_quiet = received(start, run(true, pulse));
    lemma_received_join(start, run(true, pulse), run(false, quiet));
    lemma_pulse(start, pulse);
    let first = run(false, 1);
    let rest = run(false, (quiet - 1) as nat);
    assert(run(false, quiet) =~= first + rest);
    lemma_received_join(at_quiet, first, rest);
    assert(first =~= Seq::<bool>::empty().push(false));
    lemma_received_push(at_quiet, Seq::empty(), false);
    lemma_quiet(received(at_quiet, first), (quiet - 1) as nat);
    assert(codes(start, run(true, pulse) + run(false, quiet)) =~= Seq::<u32>::empty());
}

/// A pulse that is too short is a glitch, anywhere in a frame: when the next
/// pulse rises, the gap behind the glitch has added no bit to those that were
/// pending when the glitch rose, and nothing is reported.
pub proof fn law_gap_behind_glitch_is_no_bit(start: Reception, pulse: nat, quiet: nat)
    requires
        start.well_formed(),
        !start.in_pulse,
        1 <= pulse < PULSE_MIN_BLOCKS,
        1 <= quiet < GAP_FRAME_BLOCKS,
    ensures
        ({
            let blocks = (run(true, pulse) + run(false, quiet)).push(true);
            &&& received(start, blocks).bits == start.after(true).bits
            &&& received(start, blocks).last_code == start.last_code
            &&& codes(start, blocks).len() == 0
        }),
{
    lemma_glitch(start, pulse, quiet);
    lemma_received_push(start, run(true, pulse) + run(false, quiet), true);
}

/// A glitch leaves an idle decoder idle, with no code reported or taken up, so
/// that a frame behind it is decoded.
pub proof fn law_glitches_are_ignored(start: Reception, pulse: nat, quiet: nat)
    requires
        start.well_formed(),
        idle(start),
        1 <= pulse < PULSE_MIN_BLOCKS,
        quiet >= 1,
    ensures
        idle(received(start, run(true, pulse) + run(false, quiet))),
        received(start, run(true, pulse) + run(false, quiet)).last_code == start.last_code,
        codes(start, run(true, pulse) + run(false, quiet)).len() == 0,
{
    lemma_glitch(start, pulse, quiet);
}

/// The lowest `count` binary digits of `code`, the most significant first.
pub open spec fn code_bits(code: nat, count: nat) -> Seq<u8>
    decreases count,
{
    if count == 0 {
        Seq::empty()
    } else {
        code_bits(code / 2, (count - 1) as nat).push((code % 2) as u8)
    }
}

/// The binary digits of a number stand for it.
pub proof fn law_bits_of_code(code: nat, count: nat)
    requires
        code < pow2(count),
    ensures
        code_bits(code, count).len() == count,
        bits_value(code_bits(code, count)) == code,
    decreases count,
{
    if count == 0 {
        lemma2_to64();
    } else {
        lemma_pow2_unfold(count);
        law_bits_of_code(code / 2, (count - 1) as nat);
        let rest = code_bits(code / 2, (count - 1) as nat);
        assert(rest.push((code % 2) as u8).drop_last() =~= rest);
    }
}

/// Whatever the code, a frame that sends its binary digits is decoded to it.
pub proof fn law_every_code_decodes(
    start: Reception,
    code: u32,
    pulses: Seq<nat>,
    gaps: Seq<nat>,
    silence: nat,
)
    requires
        idle(start),
        proper_pulses(pulses, FRAME_BITS as nat),
        gaps_of(gaps, code_bits(code as nat, FRAME_BITS as nat)),
        silence >= GAP_FRAME_BLOCKS,
    ensures
        received(start, train(pulses, gaps, silence)).last_code == Some(code),
        start.last_code != Some(code) ==> codes(start, train(pulses, gaps, silence)) == seq![code],
{
    lemma2_to64();
    law_bits_of_code(code as nat, FRAME_BITS as nat);
    law_train_decodes(start, pulses, gaps, silence, code_bits(code as nat, FRAME_BITS as nat));
}

/// What a block does to a decoder, with the widths in blocks: a pulse is proper
/// from 3 on, a gap of 14 to 39 is a one and a shorter one a zero, and 40 blocks of
/// quiet end a frame, which has 32 bits. A gap is read when the next pulse rises,
/// and only behind a proper pulse; a frame is closed by the silence behind it, or
/// else when the next pulse rises. A closed frame leaves no bits, sets the last code
/// where it is whole, and is reported where that is not the last code already.
pub proof fn law_block(before: OokDecoder, signal: bool, after: OokDecoder, code: Option<u32>)
    requires
        takes_in(before, signal, after, code),
    ensures
        ({
            let rises = signal && !before.in_pulse;
            let ends = {
                ||| rises && before.pulse_blocks >= 3 && before.gap_blocks >= 40
                ||| !signal && before.gap_blocks == 39 && before.bits@.len() > 0
            };
            let reads = rises && before.pulse_blocks >= 3 && 1 <= before.gap_blocks < 40;
            let number = bits_value(before.bits@) as u32;
            &&& after.in_pulse == signal
            &&& signal ==> after.pulse_width == before.pulse_width + 1
            &&& !signal ==> after.pulse_width == 0
            &&& rises ==> after.gap_blocks == 0
            &&& signal && !rises ==> after.gap_blocks == before.gap_blocks
            &&& !signal ==> after.gap_blocks == before.gap_blocks + 1
            &&& ends ==> after.bits@.len() == 0
            &&& reads && before.gap_blocks < 14 ==> after.bits@ == before.bits@.push(0u8)
            &&& reads && before.gap_blocks >= 14 ==> after.bits@ == before.bits@.push(1u8)
            &&& !ends && !reads ==> after.bits@ == before.bits@
            &&& ends && before.bits@.len() == 32 ==> after.last_code == Some(number)
            &&& !ends || before.bits@.len() != 32 ==> after.last_code == before.last_code
            &&& code is Some <==> ends && before.bits@.len() == 32 && before.last_code != Some(
                number,
            )
            &&& code is Some ==> code == Some(number)
            &&& signal && ends ==> after.pulse_blocks == 1
            &&& signal && !ends ==> after.pulse_blocks == before.pulse_blocks + 1
            &&& !signal && (ends || before.in_pulse && before.pulse_width < 3)
                ==> after.pulse_blocks == 0
            &&& !signal && !ends && !(before.in_pulse && before.pulse_width < 3)
                ==> after.pulse_blocks == before.pulse_blocks
            &&& after.calibrate == before.calibrate
            &&& after.block_count == before.block_count
            &&& after.sample_count == before.sample_count
        }),
{
    let r = before@;
    assert(after@ == r.after(signal));
    assert(after@.bits == after.bits@);
    assert(after@.gap_blocks == after.gap_blocks && after@.pulse_blocks == after.pulse_blocks
        && after@.pulse_width == after.pulse_width);
}

/// Closing a frame leaves no bits and no pulse counted. A frame of 32 bits sets the
/// last code and is reported where it differs from the last; any other is dropped.
pub proof fn law_frame_closes(reception: Reception)
    ensures
        ({
            let closed = reception.closed();
            let number = bits_value(reception.bits) as u32;
            &&& closed.bits.len() == 0
            &&& closed.pulse_blocks == 0
            &&& closed.in_pulse == reception.in_pulse
            &&& closed.pulse_width == reception.pulse_width
            &&& closed.gap_blocks == reception.gap_blocks
            &&& reception.bits.len() == 32 ==> closed.last_code == Some(number)
            &&& reception.bits.len() != 32 ==> closed.last_code == reception.last_code
            &&& reception.report() is Some <==> reception.bits.len() == 32 && reception.last_code
                != Some(number)
            &&& reception.report() is Some ==> reception.report() == Some(number)
        }),
{
}

/// How many blocks at the end are all signal, or all quiet.
pub open spec fn trailing(blocks: Seq<bool>, signal: bool) -> nat
    decreases blocks.len(),
{
    if blocks.len() > 0 && blocks.last() == signal {
        1 + trailing(blocks.drop_last(), signal)
    } else {
        0
    }
}

/// From a decoder that has seen nothing, the decoder knows of any blocks whether the
/// last was signal, how wide the pulse under way is, and how long it has been quiet.
pub proof fn law_runs_are_counted(start: Reception, blocks: Seq<bool>)
    requires
        !start.in_pulse,
        start.pulse_width == 0,
        start.gap_blocks == 0,
    ensures
        ({
            let end = received(start, blocks);
            &&& end.in_pulse == (blocks.len() > 0 && blocks.last())
            &&& end.pulse_width == trailing(blocks, true)
            &&& end.gap_blocks == trailing(blocks, false)
        }),
    decreases blocks.len(),
{
    if blocks.len() > 0 {
        law_runs_are_counted(start, blocks.drop_last());
    }
}

/// The number of some binary digits has these digits: each counts twice what the
/// one behind it does.
pub proof fn law_number_of_bits(bits: Seq<u8>)
    requires
        forall|i: int| 0 <= i < bits.len() ==> #[trigger] bits[i] <= 1,
    ensures
        bits_value(bits) < pow2(bits.len()),
        code_bits(bits_value(bits), bits.len()) == bits,
    decreases bits.len(),
{
    if bits.len() == 0 {
        lemma2_to64();
        assert(code_bits(0, 0) =~= bits);
    } else {
        let head = bits.drop_last();
        assert forall|i: int| 0 <= i < head.len() implies #[trigger] head[i] <= 1 by {
            assert(head[i] == bits[i]);
        }
        law_number_of_bits(head);
        lemma_pow2_unfold(bits.len());
        assert(bits[bits.len() - 1] <= 1);
        let number = bits_value(bits);
        assert(number / 2 == bits_value(head) && number % 2 == bits.last());
        assert(head.push(bits.last()) =~= bits);
    }
}

/// A frame sent twice is reported once, and a frame with another code behind it is
/// reported again: what a decoder reports of two frames in turn.
pub proof fn law_two_frames(
    start: Reception,
    first: u32,
    second: u32,
    pulses: Seq<nat>,
    first_gaps: Seq<nat>,
    second_gaps: Seq<nat>,
    silence: nat,
)
    requires
        idle(start),
        start.last_code != Some(first),
        proper_pulses(pulses, 32),
        gaps_of(first_gaps, code_bits(first as nat, 32)),
        gaps_of(second_gaps, code_bits(second as nat, 32)),
        silence >= 40,
    ensures
        codes(start, train(pulses, first_gaps, silence) + train(pulses, second_gaps, silence)) == (
        if first == second {
            seq![first]
        } else {
            seq![first, second]
        }),
{
    let one = train(pulses, first_gaps, silence);
    let two = train(pulses, second_gaps, silence);
    let between = received(start, one);
    lemma_received_join(start, one, two);
    lemma2_to64();
    law_bits_of_code(first as nat, 32);
    law_bits_of_code(second as nat, 32);
    law_train_decodes(start, pulses, first_gaps, silence, code_bits(first as nat, 32));
    law_train_decodes(between, pulses, second_gaps, silence, code_bits(second as nat, 32));
    if first == second {
        assert(codes(between, two) =~= Seq::empty());
        assert(codes(start, one) + codes(between, two) =~= seq![first]);
    } else {
        assert(codes(start, one) + codes(between, two) =~= seq![first, second]);
    }
}

/// Gaps stand for binary digits where each one is 14 to 39 blocks of quiet and each
/// zero is 1 to 13.
pub proof fn law_gaps(gaps: Seq<nat>, bits: Seq<u8>)
    requires
        gaps.len() == bits.len(),
        forall|i: int|
            0 <= i < gaps.len() ==> {
                ||| bits[i] == 1 && 14 <= #[trigger] gaps[i] < 40
                ||| bits[i] == 0 && 1 <= gaps[i] < 14
            },
    ensures
        gaps_of(gaps, bits),
{
    assert forall|i: int| 0 <= i < gaps.len() implies {
        &&& 1 <= #[trigger] gaps[i] < GAP_FRAME_BLOCKS
        &&& bits[i] == (if gaps[i] >= GAP_THRESHOLD {
            1u8
        } else {
            0u8
        })
    } by {}
}

/// The line that tells of a code: `0x` and eight digits that are the code in base
/// sixteen, and behind `  device_id=0x` five digits that are its upper 20 bits.
pub proof fn law_line_tells_code_and_device(code: u32)
    ensures
        ({
            let line = frame_text(code);
            &&& line.len() == 29
            &&& line.subrange(0, 2) == "0x"@
            &&& digits_in(line.subrange(2, 10), 16)
            &&& value_in(line.subrange(2, 10), 16) == code
            &&& line.subrange(10, 24) == "  device_id=0x"@
            &&& digits_in(line.subrange(24, 29), 16)
            &&& value_in(line.subrange(24, 29), 16) == code / 4096
        }),
{
    law_line_width(code);
    reveal_strlit("0x");
    reveal_strlit("  device_id=0x");
    let line = frame_text(code);
    let number = zero_padded(numeral(code as nat, 16), 8);
    let device = zero_padded(numeral(code as nat / 4096, 16), 5);
    law_numeral_reads_back(code as nat, 16);
    law_numeral_reads_back(code as nat / 4096, 16);
    law_padding_keeps_the_number(numeral(code as nat, 16), 8, 16);
    law_padding_keeps_the_number(numeral(code as nat / 4096, 16), 5, 16);
    assert(line.subrange(0, 2) =~= "0x"@);
    assert(line.subrange(2, 10) =~= number);
    assert(line.subrange(10, 24) =~= "  device_id=0x"@);
    assert(line.subrange(24, 29) =~= device);
}

/// Two codes tell the same device exactly where their upper 20 bits are the same,
/// whatever the button in the lower 12, and the same line only where they are the
/// same code.
pub proof fn law_buttons_of_one_device(a: u32, b: u32)
    ensures
        frame_text(a).subrange(24, 29) == frame_text(b).subrange(24, 29) <==> a / 4096 == b / 4096,
        frame_text(a) == frame_text(b) <==> a == b,
{
    law_line_tells_code_and_device(a);
    law_line_tells_code_and_device(b);
    if a / 4096 == b / 4096 {
        law_digits_are_unique(
            frame_text(a).subrange(24, 29),
            frame_text(b).subrange(24, 29),
            16,
        );
    }
}

/// The line that tells of a code has the same width for every code: eight
/// digits of code and five of device.
pub proof fn law_line_width(code: u32)
    ensures
        zero_padded(numeral(code as nat, 16), 8).len() == 8,
        zero_padded(numeral(code as nat / 4096, 16), 5).len() == 5,
        frame_text(code).len() == 29,
{
    assert(pow(16, 8) == 0x1_0000_0000 && pow(16, 5) == 0x10_0000) by {
        reveal(pow);
        reveal_with_fuel(pow, 9);
    }
    lemma_hex_len(code as nat, 8);
    lemma_hex_len(code as nat / 4096, 5);
    reveal_strlit("0x");
    reveal_strlit("  device_id=0x");
}

} // verus!
