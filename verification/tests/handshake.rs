use pixelflut_filler::codec::{
    compression_acknowledged, negotiate, pace, parse_size_response, start_negotiation, Codec,
    CodecData, CodecOptions, DataProducer, Negotiation, NegotiationAction, Pacing, RunError,
    SetupError, SizeFault,
};
use pixelflut_filler::pixelcollector::CompressionKind;
use pixelflut_filler::window::Window;

fn dims(w: &Window) -> (usize, usize) {
    (w.get_x(), w.get_y())
}

fn plain() -> CodecOptions {
    CodecOptions { compression_kind: None, binary_px: false }
}

fn packed() -> CodecOptions {
    CodecOptions { compression_kind: Some(CompressionKind::Zstd), binary_px: true }
}

#[test]
fn size_reply_with_line_feed() {
    assert_eq!(dims(&parse_size_response(b"SIZE 800 600\n").unwrap()), (800, 600));
}

#[test]
fn size_reply_with_carriage_return_and_line_feed() {
    assert_eq!(dims(&parse_size_response(b"SIZE 800 600\r\n").unwrap()), (800, 600));
}

#[test]
fn size_reply_with_one_number_is_malformed() {
    assert_eq!(parse_size_response(b"SIZE 800\n").unwrap_err(), SizeFault::TooFewParts);
}

#[test]
fn size_reply_without_numbers_is_malformed() {
    assert_eq!(parse_size_response(b"BAD\n").unwrap_err(), SizeFault::TooFewParts);
}

#[test]
fn size_reply_without_line_end() {
    assert_eq!(dims(&parse_size_response(b"SIZE 800 600").unwrap()), (800, 600));
    assert_eq!(dims(&parse_size_response(b"SIZE 800 600\r").unwrap()), (800, 600));
}

#[test]
fn size_reply_strips_one_line_end_only() {
    assert_eq!(parse_size_response(b"SIZE 800 600\n\n").unwrap_err(), SizeFault::BadNumber);
    assert_eq!(parse_size_response(b"SIZE 800 600\r\r\n").unwrap_err(), SizeFault::BadNumber);
    assert_eq!(parse_size_response(b"SIZE 800 600\n\r").unwrap_err(), SizeFault::BadNumber);
}

#[test]
fn size_reply_may_carry_more_parts() {
    assert_eq!(dims(&parse_size_response(b"SIZE 1 2 3 four\n").unwrap()), (1, 2));
    assert_eq!(dims(&parse_size_response(b"SIZE 1 2 \n").unwrap()), (1, 2));
}

#[test]
fn size_reply_numbers() {
    assert_eq!(dims(&parse_size_response(b"SIZE 0 0\n").unwrap()), (0, 0));
    assert_eq!(dims(&parse_size_response(b"SIZE 007 +9\n").unwrap()), (7, 9));
    let largest = format!("SIZE {} {}\n", usize::MAX, 1);
    assert_eq!(dims(&parse_size_response(largest.as_bytes()).unwrap()), (usize::MAX, 1));
}

#[test]
fn size_reply_with_bad_numbers_is_malformed() {
    for reply in [
        "SIZE x 600\n",
        "SIZE 800 y\n",
        "SIZE -800 600\n",
        "SIZE 800 600x\n",
        "SIZE  800 600\n",
        "SIZE 800  600\n",
        "SIZE + 600\n",
        "SIZE ++1 600\n",
        "SIZE 8.0 600\n",
        "SIZE 800 60\t0\r\n",
        "SIZE 800 600\t\n",
        "SIZE \t800 600\n",
        "SIZE 99999999999999999999999999 1\n",
        "SIZE 1 18446744073709551616\n",
    ] {
        assert_eq!(parse_size_response(reply.as_bytes()).unwrap_err(), SizeFault::BadNumber, "{:?}", reply);
    }
}

#[test]
fn size_reply_with_too_few_parts_is_malformed() {
    for reply in ["", "\n", "\r\n", "SIZE", "SIZE\n", "SIZE 800", "SIZE800600\n", "800 600\n"] {
        assert_eq!(parse_size_response(reply.as_bytes()).unwrap_err(), SizeFault::TooFewParts, "{:?}", reply);
    }
}

#[test]
fn size_reply_that_is_no_text_is_malformed() {
    assert_eq!(parse_size_response(b"SIZE 800 600\xFF\n").unwrap_err(), SizeFault::Undecodable);
    assert_eq!(parse_size_response(b"\xC3 800 600\n").unwrap_err(), SizeFault::Undecodable);
    assert_eq!(parse_size_response(&[0x80]).unwrap_err(), SizeFault::Undecodable);
    assert_eq!(dims(&parse_size_response("GRÖSSE 3 4\n".as_bytes()).unwrap()), (3, 4));
}

#[test]
fn size_fault_messages() {
    assert_eq!(SizeFault::Undecodable.message(), "Could not read size.");
    assert_eq!(SizeFault::TooFewParts.message(), "Did not receive enough parts.");
    assert_eq!(SizeFault::BadNumber.message(), "Could not parse width and height.");
}

#[test]
fn acknowledgement_must_begin_with_compress() {
    assert!(compression_acknowledged(b"COMPRESS\n\0\0\0"));
    assert!(compression_acknowledged(b"COMPRESS\r\n\0\0"));
    assert!(compression_acknowledged(b"COMPRESS"));
    assert!(compression_acknowledged(b"COMPRESSED!!"));
    assert!(!compression_acknowledged(b"COMPRES"));
    assert!(!compression_acknowledged(b""));
    assert!(!compression_acknowledged(b"compress\n"));
    assert!(!compression_acknowledged(b" COMPRESS\n"));
    assert!(!compression_acknowledged(b"ERROR unknown"));
    assert!(!compression_acknowledged(&[0u8; 12]));
    assert!(!compression_acknowledged(b"COMPRESs\n"));
    assert!(!compression_acknowledged(b"XOMPRESS\n"));
}

#[test]
fn negotiation_opens_with_the_size_request() {
    let (state, action) = start_negotiation();
    assert!(matches!(state, Negotiation::AwaitingSize));
    match action {
        NegotiationAction::Exchange { send, read_limit } => {
            assert_eq!(send, b"SIZE\n");
            assert_eq!(read_limit, 128);
        }
        other => panic!("unexpected action {:?}", other),
    }
}

#[test]
fn negotiation_without_compression_is_done_after_the_size() {
    let (state, _) = start_negotiation();
    let (state, action) = negotiate(state, &plain(), b"SIZE 800 600\n");
    match (state, action) {
        (Negotiation::Established(a), NegotiationAction::Done(b)) => {
            assert_eq!(dims(&a.window), (800, 600));
            assert_eq!(dims(&b.window), (800, 600));
            assert_eq!(b.options.compression_kind, None);
            assert!(!b.options.binary_px);
        }
        other => panic!("unexpected step {:?}", other),
    }
}

#[test]
fn negotiation_with_compression_asks_for_it() {
    let (state, _) = start_negotiation();
    let (state, action) = negotiate(state, &packed(), b"SIZE 1920 1080\r\n");
    match (&state, action) {
        (Negotiation::AwaitingAck(w), NegotiationAction::Exchange { send, read_limit }) => {
            assert_eq!(dims(w), (1920, 1080));
            assert_eq!(send, b"COMPRESS\n");
            assert_eq!(read_limit, 12);
        }
        other => panic!("unexpected step {:?}", other),
    }
    let (state, action) = negotiate(state, &packed(), b"COMPRESS\n\0\0\0");
    match (state, action) {
        (Negotiation::Established(a), NegotiationAction::Done(b)) => {
            assert_eq!(dims(&a.window), (1920, 1080));
            assert_eq!(b.options.compression_kind, Some(CompressionKind::Zstd));
            assert!(b.options.binary_px);
        }
        other => panic!("unexpected step {:?}", other),
    }
}

#[test]
fn negotiation_fails_on_a_malformed_size() {
    let (state, _) = start_negotiation();
    let (state, action) = negotiate(state, &packed(), b"SIZE 800\n");
    assert!(matches!(state, Negotiation::Failed));
    match action {
        NegotiationAction::Abort(SetupError::SizeParseError(m)) => assert_eq!(m, "Did not receive enough parts."),
        other => panic!("unexpected action {:?}", other),
    }
    let (state, action) = negotiate(Negotiation::AwaitingSize, &plain(), b"SIZE a b\n");
    assert!(matches!(state, Negotiation::Failed));
    match action {
        NegotiationAction::Abort(SetupError::SizeParseError(m)) => assert_eq!(m, "Could not parse width and height."),
        other => panic!("unexpected action {:?}", other),
    }
    let (_, action) = negotiate(Negotiation::AwaitingSize, &plain(), b"\xFF\n");
    match action {
        NegotiationAction::Abort(SetupError::SizeParseError(m)) => assert_eq!(m, "Could not read size."),
        other => panic!("unexpected action {:?}", other),
    }
}

#[test]
fn negotiation_fails_without_acknowledgement() {
    let window = Window { x_width: 4, y_height: 4 };
    let (state, action) = negotiate(Negotiation::AwaitingAck(window), &packed(), b"NOPE\n");
    assert!(matches!(state, Negotiation::Failed));
    assert!(matches!(action, NegotiationAction::Abort(SetupError::EnableCompressionError)));
}

#[test]
fn finished_negotiation_stays_as_it_is() {
    let data = CodecData { window: Window { x_width: 4, y_height: 5 }, options: plain() };
    let (state, action) = negotiate(Negotiation::Established(data), &packed(), b"whatever");
    match (state, action) {
        (Negotiation::Established(a), NegotiationAction::Done(b)) => {
            assert_eq!(dims(&a.window), (4, 5));
            assert_eq!(dims(&b.window), (4, 5));
            assert_eq!(b.options.compression_kind, None);
        }
        other => panic!("unexpected step {:?}", other),
    }
    let (state, action) = negotiate(Negotiation::Failed, &plain(), b"SIZE 1 1\n");
    assert!(matches!(state, Negotiation::Failed));
    assert!(matches!(action, NegotiationAction::Stopped));
}

#[test]
fn pacing_without_interval_finishes() {
    assert_eq!(pace(None, 0), Pacing::Finish);
    assert_eq!(pace(None, u64::MAX), Pacing::Finish);
}

#[test]
fn pacing_fills_the_interval() {
    assert_eq!(pace(Some(150_000), 0), Pacing::Proceed { wait: 150_000 });
    assert_eq!(pace(Some(150_000), 20_000), Pacing::Proceed { wait: 130_000 });
    assert_eq!(pace(Some(150_000), 149_999), Pacing::Proceed { wait: 1 });
    assert_eq!(pace(Some(u64::MAX), 1), Pacing::Proceed { wait: u64::MAX - 1 });
}

#[test]
fn pacing_adds_no_delay_to_a_slow_write() {
    assert_eq!(pace(Some(150_000), 150_000), Pacing::Proceed { wait: 0 });
    assert_eq!(pace(Some(150_000), 150_001), Pacing::Proceed { wait: 0 });
    assert_eq!(pace(Some(0), 0), Pacing::Proceed { wait: 0 });
    assert_eq!(pace(Some(1), u64::MAX), Pacing::Proceed { wait: 0 });
}

#[test]
fn paced_iteration_lasts_at_least_the_interval() {
    for target in [0u64, 1, 999, 1000, 150_000] {
        for elapsed in [0u64, 1, 500, 999, 1000, 1001, 1_000_000] {
            match pace(Some(target), elapsed) {
                Pacing::Proceed { wait } => {
                    assert!(elapsed + wait >= target);
                    if elapsed >= target {
                        assert_eq!(wait, 0);
                    } else {
                        assert_eq!(elapsed + wait, target);
                    }
                }
                Pacing::Finish => panic!("a frame with an interval is not the last"),
            }
        }
    }
}

struct Counting {
    set_up_for: Option<(usize, usize)>,
    handed_out: u8,
    fail_setup: bool,
}

impl DataProducer for Counting {
    fn do_setup(&mut self, codec: &CodecData) -> Result<(), String> {
        if self.fail_setup {
            return Err("no such file".to_string());
        }
        self.set_up_for = Some((codec.window.get_x(), codec.window.get_y()));
        Ok(())
    }

    fn get_next_data(&mut self) -> Result<(Vec<u8>, Option<u64>), RunError> {
        self.handed_out += 1;
        if self.handed_out > 2 {
            return Err(RunError::ClientDataFinished);
        }
        Ok((vec![self.handed_out], if self.handed_out < 2 { Some(5) } else { None }))
    }
}

#[test]
fn codec_sets_the_source_up_and_hands_its_frames_on() {
    let data = CodecData { window: Window { x_width: 3, y_height: 2 }, options: plain() };
    let source = Counting { set_up_for: None, handed_out: 0, fail_setup: false };
    let mut codec = Codec::new(source, data).unwrap();
    assert_eq!(dims(&codec.data().window), (3, 2));
    assert_eq!(codec.next_frame().unwrap(), (vec![1], Some(5)));
    assert_eq!(codec.next_frame().unwrap(), (vec![2], None));
    assert!(matches!(codec.next_frame(), Err(RunError::ClientDataFinished)));
}

#[test]
fn codec_hands_on_what_a_library_source_gives() {
    let data = CodecData { window: Window { x_width: 1, y_height: 2 }, options: plain() };
    let color = pixelflut_filler::color::Color::from_rgba(1, 2, 3, Some(4));
    let mut codec = Codec::new(pixelflut_filler::fill::Fill::new(color, false), data).unwrap();
    let expected = (b"PX 0 0 01020304\nPX 0 1 01020304\n".to_vec(), None);
    assert_eq!(codec.next_frame().unwrap(), expected);
    assert_eq!(codec.next_frame().unwrap(), expected);
    assert_eq!(dims(&codec.data().window), (1, 2));
}

#[test]
fn codec_sets_a_library_source_up_for_its_session() {
    let data = CodecData { window: Window { x_width: 50, y_height: 50 }, options: plain() };
    let color = pixelflut_filler::color::Color::from_rgba(1, 2, 3, Some(4));
    let walker = pixelflut_filler::snake::Snake::colored(color);
    let mut codec = Codec::new(walker, data).unwrap();
    let (bytes, interval) = codec.next_frame().unwrap();
    assert_eq!(interval, Some(1000));
    assert_eq!(bytes.iter().filter(|b| **b == b'\n').count(), 8);
}

#[test]
fn binding_follows_the_outcome_of_the_setup() {
    let data = CodecData { window: Window { x_width: 3, y_height: 2 }, options: plain() };
    let source = Counting { set_up_for: None, handed_out: 0, fail_setup: false };
    let mut codec = Codec::bind(source, data, Ok(())).unwrap();
    assert_eq!(dims(&codec.data().window), (3, 2));
    assert_eq!(codec.next_frame().unwrap(), (vec![1], Some(5)));
    let source = Counting { set_up_for: None, handed_out: 0, fail_setup: false };
    match Codec::bind(source, data, Err("decoder gave up".to_string())) {
        Err(SetupError::DataProducerError(m)) => assert_eq!(m, "decoder gave up"),
        _ => panic!("binding should have failed"),
    }
}

#[test]
fn codec_reports_a_source_that_cannot_be_set_up() {
    let data = CodecData { window: Window { x_width: 3, y_height: 2 }, options: plain() };
    let source = Counting { set_up_for: None, handed_out: 0, fail_setup: true };
    match Codec::new(source, data) {
        Err(SetupError::DataProducerError(m)) => assert_eq!(m, "no such file"),
        _ => panic!("setup should have failed"),
    }
}

#[test]
fn io_errors_convert_into_setup_and_run_errors() {
    let e = std::io::Error::new(std::io::ErrorKind::BrokenPipe, "gone");
    assert!(matches!(SetupError::from(e), SetupError::IoError(_)));
    let e = std::io::Error::new(std::io::ErrorKind::BrokenPipe, "gone");
    assert!(matches!(RunError::from(e), RunError::Io(_)));
}
