use fan_controller::rx::{
    frame_line, OokDecoder, BLOCK_SIZE, GAP_FRAME_BLOCKS, GAP_THRESHOLD, PULSE_MIN_BLOCKS,
};

/// Tells signal from noise by a threshold that follows the amplitudes.
struct Front {
    decoder: OokDecoder,
    noise_floor: f32,
    signal_peak: f32,
    codes: Vec<u32>,
}

impl Front {
    fn new() -> Self {
        Front {
            decoder: OokDecoder::new(false),
            noise_floor: 0.0,
            signal_peak: 0.0,
            codes: Vec::new(),
        }
    }

    fn feed_blocks(&mut self, amplitude: f32, count: usize) {
        for _ in 0..count {
            if self.noise_floor == 0.0 {
                self.noise_floor = amplitude;
                continue;
            }
            if !self.decoder.in_pulse {
                self.noise_floor = self.noise_floor * 0.999 + amplitude * 0.001;
            } else {
                self.signal_peak = self.signal_peak * 0.99 + amplitude * 0.01;
            }
            let threshold = if self.signal_peak > self.noise_floor * 2.0 {
                (self.noise_floor + self.signal_peak) * 0.5
            } else {
                self.noise_floor * 3.0
            };
            if let Some(code) = self.decoder.process_block(amplitude > threshold) {
                self.codes.push(code);
            }
        }
    }
}

fn feed(decoder: &mut OokDecoder, signal: bool, count: usize) -> Vec<u32> {
    let mut codes = Vec::new();
    for _ in 0..count {
        if let Some(code) = decoder.process_block(signal) {
            codes.push(code);
        }
    }
    codes
}

/// Sends the lowest `bits` bits of `code`, with these gaps for zero and one.
fn send(
    decoder: &mut OokDecoder,
    code: u64,
    bits: u32,
    pulse: usize,
    zero: usize,
    one: usize,
) -> Vec<u32> {
    let mut codes = Vec::new();
    for bit in (0..bits).rev() {
        codes.extend(feed(decoder, true, pulse));
        let gap = if (code >> bit) & 1 == 1 { one } else { zero };
        codes.extend(feed(decoder, false, gap));
    }
    codes.extend(feed(decoder, true, pulse));
    codes.extend(feed(decoder, false, GAP_FRAME_BLOCKS));
    codes
}

#[test]
fn decodes_vendor_a_frame_after_noise_bootstrap() {
    let mut front = Front::new();
    let code = 0x87AD_7105_u32;

    front.feed_blocks(0.01, 100);
    for bit_idx in (0..32).rev() {
        front.feed_blocks(1.0, 6);
        let gap_blocks = if (code >> bit_idx) & 1 == 1 { 30 } else { 10 };
        front.feed_blocks(0.01, gap_blocks);
    }

    // Vendor A ends each frame with one extra pulse followed by its frame
    // gap. The rising edge records the 32nd bit; the gap emits the frame.
    front.feed_blocks(1.0, 6);
    front.feed_blocks(0.01, GAP_FRAME_BLOCKS);

    assert_eq!(front.decoder.last_code, Some(code));
    assert_eq!(front.codes, vec![code]);
}

#[test]
fn a_new_decoder_has_seen_nothing() {
    let decoder = OokDecoder::new(true);
    assert!(!decoder.in_pulse);
    assert!(decoder.bits.is_empty());
    assert_eq!(decoder.pulse_width, 0);
    assert_eq!(decoder.pulse_blocks, 0);
    assert_eq!(decoder.gap_blocks, 0);
    assert_eq!(decoder.block_count, 0);
    assert_eq!(decoder.sample_count, 0);
    assert_eq!(decoder.last_code, None);
    assert!(decoder.calibrate);
}

#[test]
fn gaps_at_the_threshold_are_read_as_documented() {
    let mut decoder = OokDecoder::new(false);
    let codes = send(
        &mut decoder,
        0x0123_4567,
        32,
        PULSE_MIN_BLOCKS,
        GAP_THRESHOLD - 1,
        GAP_THRESHOLD,
    );
    assert_eq!(codes, vec![0x0123_4567]);
    let codes = send(&mut decoder, 0xFFFF_0000, 32, 6, 1, GAP_FRAME_BLOCKS - 1);
    assert_eq!(codes, vec![0xFFFF_0000]);
}

#[test]
fn repeated_frames_are_reported_once() {
    let mut decoder = OokDecoder::new(false);
    assert_eq!(send(&mut decoder, 5, 32, 6, 10, 30), vec![5]);
    assert!(send(&mut decoder, 5, 32, 6, 10, 30).is_empty());
    assert_eq!(decoder.last_code, Some(5));
    assert_eq!(send(&mut decoder, 6, 32, 6, 10, 30), vec![6]);
    assert_eq!(send(&mut decoder, 5, 32, 6, 10, 30), vec![5]);
}

#[test]
fn frames_of_another_length_are_dropped() {
    let mut decoder = OokDecoder::new(false);
    assert!(send(&mut decoder, 0x7AD_7105, 31, 6, 10, 30).is_empty());
    assert!(send(&mut decoder, 0x1_87AD_7105, 33, 6, 10, 30).is_empty());
    assert_eq!(decoder.last_code, None);
    assert!(decoder.bits.is_empty());
}

#[test]
fn short_pulses_are_glitches() {
    let mut decoder = OokDecoder::new(false);
    assert!(feed(&mut decoder, true, PULSE_MIN_BLOCKS - 1).is_empty());
    assert!(feed(&mut decoder, false, 10).is_empty());
    assert_eq!(decoder.pulse_blocks, 0);
    assert!(feed(&mut decoder, true, 6).is_empty());
    assert!(decoder.bits.is_empty());
    assert!(feed(&mut decoder, false, 10).is_empty());
    assert!(feed(&mut decoder, true, 1).is_empty());
    assert_eq!(decoder.bits, vec![0]);
}

#[test]
fn closing_a_frame_builds_the_code_from_the_first_bit_down() {
    let mut decoder = OokDecoder::new(false);
    decoder.bits = vec![0; 32];
    decoder.bits[0] = 1;
    decoder.bits[31] = 1;
    assert_eq!(decoder.emit_frame(), Some(0x8000_0001));
    assert!(decoder.bits.is_empty());
    assert_eq!(decoder.emit_frame(), None);
    assert_eq!(decoder.last_code, Some(0x8000_0001));
}

#[test]
fn samples_fill_blocks() {
    let mut decoder = OokDecoder::new(false);
    let mut complete = 0;
    for n in 1..=1000u64 {
        let done = decoder.count_sample();
        assert_eq!(done, n % BLOCK_SIZE as u64 == 0);
        complete += done as usize;
    }
    assert_eq!(complete, 3);
    assert_eq!(decoder.block_count, 100);
    assert_eq!(decoder.sample_count, 1000);
}

#[test]
fn amplitudes_are_reported_every_thousand_blocks_when_calibrating() {
    let mut decoder = OokDecoder::new(true);
    let mut due = Vec::new();
    for _ in 0..600_000 {
        if decoder.count_sample() && decoder.report_due() {
            due.push(decoder.sample_count);
        }
    }
    assert_eq!(due, vec![300_000, 600_000]);
    decoder.calibrate = false;
    assert!(!decoder.report_due());
}

#[test]
fn lines_tell_code_and_device() {
    assert_eq!(frame_line(0x87AD_7105), "0x87AD7105  device_id=0x87AD7");
    assert_eq!(frame_line(0x0000_1F00), "0x00001F00  device_id=0x00001");
    assert_eq!(frame_line(0), "0x00000000  device_id=0x00000");
    for code in [1u32, 0xABCD_EF01, u32::MAX] {
        let id = code >> 12;
        assert_eq!(
            frame_line(code),
            format!("0x{code:08X}  device_id=0x{id:05X}")
        );
    }
}

#[test]
fn codes_are_reported_when_the_silence_is_complete() {
    let mut decoder = OokDecoder::new(false);
    for bit in (0..32).rev() {
        assert!(feed(&mut decoder, true, 6).is_empty());
        let gap = if (0x87AD_7105u32 >> bit) & 1 == 1 { 30 } else { 10 };
        assert!(feed(&mut decoder, false, gap).is_empty());
    }
    assert!(feed(&mut decoder, true, 6).is_empty());
    assert!(feed(&mut decoder, false, GAP_FRAME_BLOCKS - 1).is_empty());
    assert_eq!(decoder.process_block(false), Some(0x87AD_7105));
    assert!(feed(&mut decoder, false, 1000).is_empty());
}

#[test]
fn frames_behind_glitches_are_decoded() {
    let mut decoder = OokDecoder::new(false);
    for quiet in [1, 20, 200] {
        assert!(feed(&mut decoder, true, 2).is_empty());
        assert!(feed(&mut decoder, false, quiet).is_empty());
    }
    assert_eq!(
        send(&mut decoder, 0xDEAD_BEEF, 32, 6, 10, 30),
        vec![0xDEAD_BEEF]
    );
}

#[test]
fn lines_have_one_width() {
    for code in [0, 1, 0xFFF, 0x1000, 0x8000_0000, u32::MAX] {
        assert_eq!(frame_line(code).len(), 29);
    }
}

#[test]
fn gaps_behind_glitches_in_a_frame_are_no_bits() {
    let mut decoder = OokDecoder::new(false);
    feed(&mut decoder, true, 6);
    feed(&mut decoder, false, 10);
    for width in 1..PULSE_MIN_BLOCKS {
        // The gap before the glitch is a bit; the gap behind it is none.
        feed(&mut decoder, true, width);
        assert_eq!(decoder.pulse_width, width);
        let bits = decoder.bits.clone();
        feed(&mut decoder, false, 30);
        assert!(!decoder.in_pulse);
        assert_eq!(decoder.pulse_blocks, 0);
        feed(&mut decoder, true, 6);
        assert_eq!(decoder.bits, bits);
        feed(&mut decoder, false, 30);
    }
    feed(&mut decoder, true, 1);
    assert_eq!(decoder.bits, vec![0, 1, 1]);
}

#[test]
fn signal_outside_a_pulse_is_counted_from_proper_pulses_only() {
    let mut decoder = OokDecoder::new(false);
    let mut seed = 12345u32;
    for _ in 0..100_000 {
        seed = seed.wrapping_mul(1_664_525).wrapping_add(1_013_904_223);
        decoder.process_block(seed >> 29 < 3);
        if decoder.in_pulse {
            assert!(1 <= decoder.pulse_width && decoder.pulse_width <= decoder.pulse_blocks);
            assert_eq!(decoder.gap_blocks, 0);
        } else {
            assert_eq!(decoder.pulse_width, 0);
            assert!(decoder.pulse_blocks == 0 || decoder.pulse_blocks >= PULSE_MIN_BLOCKS);
            assert!(decoder.gap_blocks < GAP_FRAME_BLOCKS || decoder.bits.is_empty());
        }
        assert!(decoder.bits.iter().all(|bit| *bit <= 1));
    }
}

#[test]
fn calibrating_changes_nothing_that_is_decoded() {
    let mut plain = OokDecoder::new(false);
    let mut calibrating = OokDecoder::new(true);
    for decoder in [&mut plain, &mut calibrating] {
        assert_eq!(send(decoder, 0x87AD_7105, 32, 6, 10, 30), vec![0x87AD_7105]);
        assert!(send(decoder, 0x1234, 13, 6, 10, 30).is_empty());
        assert_eq!(send(decoder, 0x87AD_7106, 32, 6, 10, 30), vec![0x87AD_7106]);
        feed(decoder, true, 4);
        feed(decoder, false, 12);
        feed(decoder, true, 2);
    }
    assert_eq!(plain.in_pulse, calibrating.in_pulse);
    assert_eq!(plain.pulse_width, calibrating.pulse_width);
    assert_eq!(plain.pulse_blocks, calibrating.pulse_blocks);
    assert_eq!(plain.gap_blocks, calibrating.gap_blocks);
    assert_eq!(plain.bits, calibrating.bits);
    assert_eq!(plain.last_code, calibrating.last_code);
    assert!(!plain.calibrate && calibrating.calibrate);
}
