use tmp102_reporter::{decode_raw_sample, BusError, ReportError, Reporter, Temperature};

/// The wire encoding of a 12-bit sample, most significant byte first,
/// low nibble of the second byte zero.
fn encode_reply(raw: i32) -> [u8; 2] {
    let u = ((raw + 4096) % 4096) as u16;
    [(u >> 4) as u8, ((u & 0x0F) << 4) as u8]
}

fn line_of(reporter: &Reporter) -> Vec<u8> {
    reporter.line_bytes().to_vec()
}

#[test]
fn decode_reads_positive_sample() {
    let t = decode_raw_sample([0x19, 0x00]);
    assert_eq!(t.sixteenths, 0x190);
    assert_eq!(t.sixteenths as f32 * 0.0625, 25.0);
}

#[test]
fn decode_reads_fractional_sample() {
    let t = decode_raw_sample([0x01, 0x90]);
    assert_eq!(t.sixteenths, 25);
    assert_eq!(t.sixteenths as f32 * 0.0625, 1.5625);
}

#[test]
fn decode_reads_zero() {
    let t = decode_raw_sample([0x00, 0x00]);
    assert_eq!(t.sixteenths, 0);
    assert_eq!(t.sixteenths as f32 * 0.0625, 0.0);
}

#[test]
fn decode_sign_extends_negative() {
    let t = decode_raw_sample([0xFF, 0xF0]);
    assert_eq!(t.sixteenths, -1);
    assert_eq!(t.sixteenths as f32 * 0.0625, -0.0625);
}

#[test]
fn decode_ignores_padding_nibble() {
    assert_eq!(decode_raw_sample([0x19, 0x0F]), decode_raw_sample([0x19, 0x00]));
}

#[test]
fn decode_matches_shift_mask_semantics_for_all_replies() {
    for b0 in 0..=255u8 {
        for b1 in 0..=255u8 {
            let word = ((b0 as u16) << 8) | (b1 as u16);
            let expected = (word as i16) >> 4;
            assert_eq!(
                decode_raw_sample([b0, b1]).sixteenths,
                expected,
                "reply ({b0:#04x}, {b1:#04x})"
            );
        }
    }
}

#[test]
fn decode_is_idempotent() {
    let reply = [0x19, 0x00];
    let first = decode_raw_sample(reply);
    let second = decode_raw_sample(reply);
    assert_eq!(first, second);
    assert_eq!(first.sixteenths as f32 * 0.0625, second.sixteenths as f32 * 0.0625);
}

#[test]
fn report_line_has_prefix_and_terminator() {
    let mut reporter = Reporter::new();
    let outcome = reporter.cycle(Ok([0x19, 0x00]));
    assert_eq!(outcome, Ok(()));
    let line = line_of(&reporter);
    assert_eq!(line, b"Temperature is: 25\r\n".to_vec());
    assert!(line.starts_with(b"Temperature is: "));
    assert!(line.ends_with(b"\r\n"));

    reporter.cycle(Ok([0x01, 0x90])).unwrap();
    assert_eq!(line_of(&reporter), b"Temperature is: 1.5625\r\n".to_vec());
}

#[test]
fn rendered_number_parses_back() {
    let mut reporter = Reporter::new();
    reporter.cycle(Ok([0x19, 0x00])).unwrap();
    let line = line_of(&reporter);
    let text = std::str::from_utf8(&line).unwrap();
    let number: f32 = text
        .strip_prefix("Temperature is: ")
        .unwrap()
        .strip_suffix("\r\n")
        .unwrap()
        .parse()
        .unwrap();
    assert_eq!(number, 0x190 as f32 * 0.0625);
}

#[test]
fn largest_sample_fills_line_exactly() {
    let mut reporter = Reporter::new();
    assert_eq!(reporter.cycle(Ok(encode_reply(2047))), Ok(()));
    let line = line_of(&reporter);
    assert_eq!(line, b"Temperature is: 127.9375\r\n".to_vec());
    assert_eq!(line.len(), 26);
}

#[test]
fn smallest_sample_fits_line() {
    let mut reporter = Reporter::new();
    assert_eq!(reporter.cycle(Ok(encode_reply(-2048))), Ok(()));
    let line = line_of(&reporter);
    assert_eq!(line, b"Temperature is: -128\r\n".to_vec());
    assert_eq!(line.len(), 22);
}

#[test]
fn wide_negative_sample_overflows_line() {
    let mut reporter = Reporter::new();
    let outcome = reporter.cycle(Ok(encode_reply(-1601)));
    assert_eq!(outcome, Err(ReportError::FormatOverflow));
    assert!(reporter.line_bytes().is_empty());
}

#[test]
fn bus_failure_halts_before_transmit() {
    let mut reporter = Reporter::new();
    let outcome = reporter.cycle(Err(BusError::Nack));
    assert_eq!(outcome, Err(ReportError::Bus(BusError::Nack)));
    assert!(reporter.line_bytes().is_empty());
}

#[test]
fn every_bus_error_is_fatal() {
    for e in [
        BusError::Nack,
        BusError::ArbitrationLoss,
        BusError::Timeout,
        BusError::Other,
    ] {
        let mut reporter = Reporter::new();
        assert_eq!(reporter.cycle(Err(e)), Err(ReportError::Bus(e)));
    }
}

#[test]
fn two_cycles_render_identical_lines() {
    let replies = [[0x19u8, 0x00u8], [0x19u8, 0x00u8]];
    let mut reporter = Reporter::new();
    let mut sink: Vec<Vec<u8>> = Vec::new();
    for reply in replies {
        reporter.cycle(Ok(reply)).unwrap();
        sink.push(line_of(&reporter));
    }
    assert_eq!(sink.len(), 2);
    assert_eq!(sink[0], sink[1]);
    assert_eq!(sink[0], b"Temperature is: 25\r\n".to_vec());
}

#[test]
fn single_digit_whole_degrees_are_zero_padded() {
    let mut reporter = Reporter::new();
    reporter.cycle(Ok(encode_reply(16))).unwrap();
    assert_eq!(line_of(&reporter), b"Temperature is: 01\r\n".to_vec());
    reporter.cycle(Ok(encode_reply(0))).unwrap();
    assert_eq!(line_of(&reporter), b"Temperature is: 00\r\n".to_vec());
    reporter.cycle(Ok(encode_reply(-8))).unwrap();
    assert_eq!(line_of(&reporter), b"Temperature is: -0.5\r\n".to_vec());
}

#[test]
fn matches_reference_formatting_for_all_samples() {
    let mut reporter = Reporter::new();
    for raw in -2048i32..=2047 {
        let celsius = raw as f32 * 0.0625;
        let expected = format!("Temperature is: {:02}\r\n", celsius);
        let outcome = reporter.cycle(Ok(encode_reply(raw)));
        if expected.len() <= 26 {
            assert_eq!(outcome, Ok(()), "sample {raw}");
            assert_eq!(
                reporter.line_bytes(),
                expected.as_bytes(),
                "sample {raw}"
            );
        } else {
            assert_eq!(outcome, Err(ReportError::FormatOverflow), "sample {raw}");
        }
    }
}

#[test]
fn temperature_is_sixteenths_of_a_degree() {
    let t = Temperature { sixteenths: 25 };
    assert_eq!(t.sixteenths as f32 * 0.0625, 1.5625);
}
