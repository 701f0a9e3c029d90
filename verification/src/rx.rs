//! Decoder for the on-off keyed frames of fan remotes.
//!
//! Amplitudes are averaged over blocks of samples, and each block is either
//! signal or quiet. A frame is a train of pulses; the width of the gap between
//! two pulses is one bit, and a long silence closes the frame.

use vstd::arithmetic::power2::*;
use vstd::prelude::*;
use vstd::string::*;

use crate::text::{numeral, padded_hex, zero_padded};

verus! {

/// Samples in a block: 300 samples at 6 MHz are 50 µs, well below the width of
/// a pulse (260 µs) but enough to smooth noise.
pub const BLOCK_SIZE: usize = 300;

/// Blocks of signal below which a pulse is a noise glitch (150 µs).
pub const PULSE_MIN_BLOCKS: usize = 3;

/// Blocks of quiet from which a gap is a one; a shorter gap is a zero (700 µs).
pub const GAP_THRESHOLD: usize = 14;

/// Blocks of quiet that separate frames (2000 µs).
pub const GAP_FRAME_BLOCKS: usize = 40;

/// Bits in a frame.
pub const FRAME_BITS: usize = 32;

/// Completed blocks between two calibration reports.
pub const REPORT_BLOCKS: u64 = 1000;

/// The number whose binary digits are `bits`, the most significant first.
pub open spec fn bits_value(bits: Seq<u8>) -> nat
    decreases bits.len(),
{
    if bits.len() == 0 {
        0
    } else {
        2 * bits_value(bits.drop_last()) + bits.last() as nat
    }
}

/// Whether every element of `bits` is a binary digit.
pub open spec fn binary(bits: Seq<u8>) -> bool {
    forall|i: int| 0 <= i < bits.len() ==> #[trigger] bits[i] <= 1
}

/// A number of `n` binary digits is below the `n`-th power of two.
proof fn lemma_bits_bound(bits: Seq<u8>)
    requires
        binary(bits),
    ensures
        bits_value(bits) < pow2(bits.len()),
    decreases bits.len(),
{
    if bits.len() == 0 {
        lemma2_to64();
    } else {
        lemma_bits_bound(bits.drop_last());
        lemma_pow2_unfold(bits.len());
        assert(bits[bits.len() - 1] <= 1);
    }
}

/// What the decoder knows of the blocks that it has seen.
#[verifier::ext_equal]
pub struct Reception {
    pub in_pulse: bool,
    pub pulse_width: nat,
    pub pulse_blocks: nat,
    pub gap_blocks: nat,
    pub bits: Seq<u8>,
    pub last_code: Option<u32>,
}

impl Reception {
    /// The code of the pending bits, where they make up a frame.
    pub open spec fn code(self) -> Option<u32> {
        if self.bits.len() == FRAME_BITS {
            Some(bits_value(self.bits) as u32)
        } else {
            None
        }
    }

    /// The code that closing the frame reports: that of a whole frame, unless
    /// it repeats the code of the frame before.
    pub open spec fn report(self) -> Option<u32> {
        if self.code() != self.last_code {
            self.code()
        } else {
            None
        }
    }

    /// The reception with its frame closed.
    pub open spec fn closed(self) -> Reception {
        Reception {
            pulse_blocks: 0,
            bits: Seq::empty(),
            last_code: if self.code() is Some {
                self.code()
            } else {
                self.last_code
            },
            ..self
        }
    }

    /// Whether a rising edge ends a frame: a proper pulse and a silence came
    /// before it.
    pub open spec fn edge_ends_frame(self) -> bool {
        self.pulse_blocks >= PULSE_MIN_BLOCKS && self.gap_blocks >= GAP_FRAME_BLOCKS
    }

    /// The reception once the gap before a rising edge has been read: as the
    /// end of a frame or as a bit, if a proper pulse came before it.
    pub open spec fn gap_read(self) -> Reception {
        if self.pulse_blocks < PULSE_MIN_BLOCKS || self.gap_blocks == 0 {
            self
        } else if self.edge_ends_frame() {
            self.closed()
        } else {
            Reception {
                bits: self.bits.push(
                    if self.gap_blocks >= GAP_THRESHOLD {
                        1u8
                    } else {
                        0u8
                    },
                ),
                ..self
            }
        }
    }

    /// The reception after a block of signal.
    pub open spec fn after_signal(self) -> Reception {
        let read = if self.in_pulse {
            self
        } else {
            Reception { gap_blocks: 0, ..self.gap_read() }
        };
        Reception {
            in_pulse: true,
            pulse_width: self.pulse_width + 1,
            pulse_blocks: read.pulse_blocks + 1,
            ..read
        }
    }

    /// The reception after a block of quiet, before a long silence closes a frame.
    /// A pulse that ends too short is a noise glitch: no proper pulse has come
    /// then.
    pub open spec fn lengthened(self) -> Reception {
        Reception {
            in_pulse: false,
            pulse_width: 0,
            pulse_blocks: if self.in_pulse && self.pulse_width < PULSE_MIN_BLOCKS {
                0
            } else {
                self.pulse_blocks
            },
            gap_blocks: self.gap_blocks + 1,
            ..self
        }
    }

    /// Whether one more block of quiet is the silence that closes a frame.
    pub open spec fn frame_ends(self) -> bool {
        self.gap_blocks + 1 == GAP_FRAME_BLOCKS && self.bits.len() > 0
    }

    /// The reception after a block of quiet.
    pub open spec fn after_quiet(self) -> Reception {
        if self.frame_ends() {
            self.lengthened().closed()
        } else {
            self.lengthened()
        }
    }

    /// The reception after a block.
    pub open spec fn after(self, signal: bool) -> Reception {
        if signal {
            self.after_signal()
        } else {
            self.after_quiet()
        }
    }

    /// The code that a block reports.
    pub open spec fn reported(self, signal: bool) -> Option<u32> {
        if signal && !self.in_pulse && self.edge_ends_frame() {
            self.report()
        } else if !signal && self.frame_ends() {
            self.report()
        } else {
            None
        }
    }

    /// What holds of every reception: bits are binary digits; a pulse under way
    /// has blocks, which are counted, and no gap; outside a pulse, blocks of
    /// signal are counted only where a proper pulse has come; and no bits are
    /// pending in a silence that ends frames.
    pub open spec fn well_formed(self) -> bool {
        &&& binary(self.bits)
        &&& self.in_pulse ==> 1 <= self.pulse_width <= self.pulse_blocks && self.gap_blocks == 0
        &&& !self.in_pulse ==> self.pulse_width == 0 && (self.pulse_blocks == 0
            || self.pulse_blocks >= PULSE_MIN_BLOCKS)
        &&& self.gap_blocks >= GAP_FRAME_BLOCKS ==> self.bits.len() == 0
    }
}

/// Decodes frames block by block.
pub struct OokDecoder {
    /// Samples of the block that is not complete yet.
    pub block_count: usize,
    /// Whether the last block was signal.
    pub in_pulse: bool,
    /// Blocks of the pulse under way; none outside a pulse.
    pub pulse_width: usize,
    /// Blocks of signal since the last frame or glitch.
    pub pulse_blocks: usize,
    /// Blocks of quiet since the last pulse.
    pub gap_blocks: usize,
    /// Bits of the frame that is not complete yet.
    pub bits: Vec<u8>,
    /// The code of the last frame.
    pub last_code: Option<u32>,
    /// Whether amplitudes are reported now and then.
    pub calibrate: bool,
    /// Samples so far.
    pub sample_count: u64,
}

impl View for OokDecoder {
    type V = Reception;

    open spec fn view(&self) -> Reception {
        Reception {
            in_pulse: self.in_pulse,
            pulse_width: self.pulse_width as nat,
            pulse_blocks: self.pulse_blocks as nat,
            gap_blocks: self.gap_blocks as nat,
            bits: self.bits@,
            last_code: self.last_code,
        }
    }
}

/// How a block, signal or quiet, takes one decoder to the next and what code it
/// reports.
pub open spec fn takes_in(
    before: OokDecoder,
    signal: bool,
    after: OokDecoder,
    code: Option<u32>,
) -> bool {
    &&& after@ == before@.after(signal)
    &&& code == before@.reported(signal)
    &&& after.calibrate == before.calibrate
    &&& after.block_count == before.block_count
    &&& after.sample_count == before.sample_count
}

impl OokDecoder {
    /// What holds of every decoder: its reception is well formed, and the
    /// samples that are not in a complete block are counted.
    pub open spec fn well_formed(&self) -> bool {
        &&& self@.well_formed()
        &&& self.block_count == self.sample_count % BLOCK_SIZE as u64
    }

    /// A decoder that has seen nothing.
    pub fn new(calibrate: bool) -> (decoder: Self)
        ensures
            decoder.well_formed(),
            decoder@ == (Reception {
                in_pulse: false,
                pulse_width: 0,
                pulse_blocks: 0,
                gap_blocks: 0,
                bits: Seq::empty(),
                last_code: None,
            }),
            decoder.calibrate == calibrate,
            decoder.sample_count == 0,
            decoder.block_count == 0,
    {
        OokDecoder {
            block_count: 0,
            in_pulse: false,
            pulse_width: 0,
            pulse_blocks: 0,
            gap_blocks: 0,
            bits: Vec::new(),
            last_code: None,
            calibrate,
            sample_count: 0,
        }
    }

    /// Counts a sample and tells whether it completes a block.
    pub fn count_sample(&mut self) -> (complete: bool)
        requires
            old(self).well_formed(),
            old(self).sample_count < u64::MAX,
        ensures
            final(self).well_formed(),
            final(self)@ == old(self)@,
            final(self).calibrate == old(self).calibrate,
            final(self).sample_count == old(self).sample_count + 1,
            complete == (final(self).sample_count % BLOCK_SIZE as u64 == 0),
            complete == (final(self).sample_count % 300 == 0),
            final(self).block_count == final(self).sample_count % 300,
    {
        proof {
            let count = self.sample_count;
            let size = BLOCK_SIZE as u64;
            assert((count + 1) % size as int == if count % size == size - 1 {
                0
            } else {
                count % size + 1
            }) by (nonlinear_arith)
                requires
                    size == 300,
            ;
        }
        self.block_count = self.block_count + 1;
        self.sample_count = self.sample_count + 1;
        if self.block_count == BLOCK_SIZE {
            self.block_count = 0;
            true
        } else {
            false
        }
    }

    /// Whether the block just completed is one to report amplitudes for.
    pub fn report_due(&self) -> (due: bool)
        ensures
            due == (self.calibrate && self.sample_count % (BLOCK_SIZE as u64 * REPORT_BLOCKS) as u64
                == 0),
            due == (self.calibrate && self.sample_count % 300_000 == 0),
    {
        self.calibrate && self.sample_count % (BLOCK_SIZE as u64 * REPORT_BLOCKS) == 0
    }

    /// Takes in a block, signal or quiet, and hands out the code that it reports.
    pub fn process_block(&mut self, signal: bool) -> (code: Option<u32>)
        requires
            old(self).well_formed(),
            signal ==> old(self).pulse_blocks < usize::MAX,
            !signal ==> old(self).gap_blocks < usize::MAX,
        ensures
            final(self).well_formed(),
            takes_in(*old(self), signal, *final(self), code),
    {
        if signal {
            let mut code: Option<u32> = None;
            if !self.in_pulse {
                // Rising edge: read the gap.
                if self.pulse_blocks >= PULSE_MIN_BLOCKS && self.gap_blocks > 0 {
                    if self.gap_blocks >= GAP_FRAME_BLOCKS {
                        code = self.emit_frame();
                    } else if self.gap_blocks >= GAP_THRESHOLD {
                        self.bits.push(1);
                    } else {
                        self.bits.push(0);
                    }
                }
                self.gap_blocks = 0;
            }
            self.in_pulse = true;
            self.pulse_width = self.pulse_width + 1;
            self.pulse_blocks = self.pulse_blocks + 1;
            code
        } else {
            if self.in_pulse && self.pulse_width < PULSE_MIN_BLOCKS {
                // Pulse too short: a noise glitch.
                self.pulse_blocks = 0;
            }
            self.in_pulse = false;
            self.pulse_width = 0;
            self.gap_blocks = self.gap_blocks + 1;
            if self.gap_blocks == GAP_FRAME_BLOCKS && self.bits.len() > 0 {
                self.emit_frame()
            } else {
                None
            }
        }
    }

    /// Closes the frame and hands out its code, unless it is no whole frame or
    /// repeats the code of the frame before.
    pub fn emit_frame(&mut self) -> (code: Option<u32>)
        requires
            binary(old(self).bits@),
        ensures
            final(self)@ == old(self)@.closed(),
            code == old(self)@.report(),
            final(self).block_count == old(self).block_count,
            final(self).calibrate == old(self).calibrate,
            final(self).sample_count == old(self).sample_count,
    {
        self.pulse_blocks = 0;
        if self.bits.len() != FRAME_BITS {
            self.bits.clear();
            return None;
        }
        let mut code: u64 = 0;
        let mut i: usize = 0;
        let ghost bits = self.bits@;
        proof {
            lemma2_to64();
            assert(bits.take(0) =~= Seq::empty());
        }
        while i < self.bits.len()
            invariant
                i <= self.bits@.len() == FRAME_BITS,
                self.bits@ == bits,
                binary(bits),
                code == bits_value(bits.take(i as int)),
                code < 0x1_0000_0000,
            decreases self.bits@.len() - i,
        {
            let bit: u64 = self.bits[i] as u64;
            proof {
                assert(bits[i as int] <= 1);
                assert(bits.take(i + 1).drop_last() =~= bits.take(i as int));
                lemma_bits_bound(bits.take(i + 1));
                if i + 1 < 32 {
                    lemma_pow2_strictly_increases((i + 1) as nat, 32);
                }
                lemma2_to64();
                assert((code << 1u64) | bit == 2 * code + bit) by (bit_vector)
                    requires
                        bit <= 1,
                        code < 0x1_0000_0000u64,
                ;
            }
            code = (code << 1) | bit;
            i = i + 1;
        }
        assert(bits.take(i as int) =~= bits);
        self.bits.clear();
        let code: u32 = code as u32;
        // A frame that is repeated within one press is reported once.
        if self.last_code == Some(code) {
            return None;
        }
        self.last_code = Some(code);
        Some(code)
    }
}

/// The line that tells of a code: the code and, in its upper 20 bits, the
/// identifier of the device.
pub open spec fn frame_text(code: u32) -> Seq<char> {
    "0x"@ + zero_padded(numeral(code as nat, 16), 8) + "  device_id=0x"@ + zero_padded(
        numeral(code as nat / 4096, 16),
        5,
    )
}

/// The line that tells of a code.
pub fn frame_line(code: u32) -> (line: String)
    ensures
        line@ == frame_text(code),
{
    let device_id: u32 = code >> 12;
    assert(code >> 12u32 == code / 4096) by (bit_vector);
    let mut line: String = "0x".to_owned();
    line.append(padded_hex(code as u64, 8).as_str());
    line.append("  device_id=0x");
    line.append(padded_hex(device_id as u64, 5).as_str());
    line
}

} // verus!
