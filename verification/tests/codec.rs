use actix_ogn::codec::{OGNCodec, OGNCodecError};
use actix_ogn::text::utf8;
use bytes::BytesMut;

fn long_line(len: usize) -> Vec<u8> {
    vec![b'x'; len]
}

#[test]
fn new_codec_has_the_documented_limit() {
    let codec = OGNCodec::new();
    assert_eq!(codec.max_length(), 4096);
}

#[test]
fn decodes_two_frames_from_one_buffer() {
    let mut codec = OGNCodec::new();
    let mut buf = BytesMut::from(&b"# hello\r\nuser ok\r\n"[..]);
    assert_eq!(codec.decode(&mut buf).unwrap(), Some("# hello".to_string()));
    assert_eq!(codec.decode(&mut buf).unwrap(), Some("user ok".to_string()));
    assert_eq!(codec.decode(&mut buf).unwrap(), None);
    assert!(buf.is_empty());
}

#[test]
fn decode_frame_returns_the_bytes_between_delimiters() {
    let mut codec = OGNCodec::new();
    let mut buf = BytesMut::from(&b"ab\r\n\r\n\nc\r\r\nrest"[..]);
    assert_eq!(codec.decode_frame(&mut buf).unwrap(), Some(b"ab".to_vec()));
    assert_eq!(&buf[..], b"\r\n\nc\r\r\nrest");
    assert_eq!(codec.decode_frame(&mut buf).unwrap(), Some(Vec::new()));
    assert_eq!(codec.decode_frame(&mut buf).unwrap(), Some(b"\nc\r".to_vec()));
    assert_eq!(codec.decode_frame(&mut buf).unwrap(), None);
    assert_eq!(&buf[..], b"rest");
}

#[test]
fn empty_buffer_asks_for_more_input() {
    let mut codec = OGNCodec::new();
    let mut buf = BytesMut::new();
    assert_eq!(codec.decode(&mut buf).unwrap(), None);
    assert_eq!(codec.decode_frame(&mut buf).unwrap(), None);
}

#[test]
fn frames_survive_a_split_at_every_boundary() {
    let stream = b"# hello\r\nuser ok\r\n";
    for cut in 0..=stream.len() {
        let mut codec = OGNCodec::new();
        let mut buf = BytesMut::new();
        let mut frames = Vec::new();
        for chunk in [&stream[..cut], &stream[cut..]] {
            buf.extend_from_slice(chunk);
            while let Some(frame) = codec.decode(&mut buf).unwrap() {
                frames.push(frame);
            }
        }
        assert_eq!(frames, vec!["# hello".to_string(), "user ok".to_string()], "cut at {}", cut);
        assert!(buf.is_empty());
    }
}

#[test]
fn frames_survive_byte_by_byte_input() {
    let stream = b"one\r\n\r\ntwo\rstill two\r\nthree\r\n";
    let mut codec = OGNCodec::new();
    let mut buf = BytesMut::new();
    let mut frames = Vec::new();
    for byte in stream.iter() {
        buf.extend_from_slice(&[*byte]);
        while let Some(frame) = codec.decode_frame(&mut buf).unwrap() {
            frames.push(frame);
        }
    }
    assert_eq!(
        frames,
        vec![b"one".to_vec(), b"".to_vec(), b"two\rstill two".to_vec(), b"three".to_vec()]
    );
    assert!(buf.is_empty());
}

#[test]
fn scan_resumes_one_byte_before_the_end() {
    let mut codec = OGNCodec::new();
    assert_eq!(codec.next_index(), 0);
    assert!(!codec.is_discarding());
    let mut buf = BytesMut::from(&b"abc"[..]);
    assert_eq!(codec.decode(&mut buf).unwrap(), None);
    assert_eq!(codec.next_index(), 2);
    buf.extend_from_slice(b"de\r");
    assert_eq!(codec.decode(&mut buf).unwrap(), None);
    assert_eq!(codec.next_index(), 5);
    buf.extend_from_slice(b"\n");
    assert_eq!(codec.decode(&mut buf).unwrap(), Some("abcde".to_string()));
    assert_eq!(codec.next_index(), 0);
}

#[test]
fn discarding_starts_with_the_error_and_ends_with_the_delimiter() {
    let mut codec = OGNCodec::new();
    let mut buf = BytesMut::from(&long_line(4097)[..]);
    assert!(matches!(codec.decode(&mut buf), Err(OGNCodecError::MaxLineLengthExceeded)));
    assert!(codec.is_discarding());
    assert_eq!(buf.len(), 4097);
    assert_eq!(codec.decode(&mut buf).unwrap(), None);
    assert!(codec.is_discarding());
    assert!(buf.is_empty());
    buf.extend_from_slice(b"still the long frame");
    assert_eq!(codec.decode(&mut buf).unwrap(), None);
    assert!(codec.is_discarding());
    assert!(buf.is_empty());
    buf.extend_from_slice(b"its end\r\nnext");
    assert_eq!(codec.decode(&mut buf).unwrap(), None);
    assert!(!codec.is_discarding());
    assert_eq!(&buf[..], b"next");
    assert_eq!(codec.next_index(), 3);
}

#[test]
fn delimiter_split_across_two_reads_is_found() {
    let mut codec = OGNCodec::new();
    let mut buf = BytesMut::from(&b"ab\r"[..]);
    assert_eq!(codec.decode(&mut buf).unwrap(), None);
    assert_eq!(&buf[..], b"ab\r");
    buf.extend_from_slice(b"\ncd\r\n");
    assert_eq!(codec.decode(&mut buf).unwrap(), Some("ab".to_string()));
    assert_eq!(codec.decode(&mut buf).unwrap(), Some("cd".to_string()));
    assert_eq!(codec.decode(&mut buf).unwrap(), None);
}

#[test]
fn frame_of_exactly_the_limit_is_accepted() {
    let mut codec = OGNCodec::new();
    let mut stream = long_line(4096);
    stream.extend_from_slice(b"\r\nnext\r\n");
    let mut buf = BytesMut::from(&stream[..]);
    assert_eq!(codec.decode_frame(&mut buf).unwrap(), Some(long_line(4096)));
    assert_eq!(codec.decode(&mut buf).unwrap(), Some("next".to_string()));
}

#[test]
fn frame_below_the_limit_survives_a_split_inside_its_delimiter() {
    let mut codec = OGNCodec::new();
    let mut first = long_line(4095);
    first.push(b'\r');
    let mut buf = BytesMut::from(&first[..]);
    assert_eq!(codec.decode_frame(&mut buf).unwrap(), None);
    buf.extend_from_slice(b"\n");
    assert_eq!(codec.decode_frame(&mut buf).unwrap(), Some(long_line(4095)));
}

#[test]
fn frame_of_the_limit_fails_when_split_inside_its_delimiter() {
    let mut codec = OGNCodec::new();
    let mut first = long_line(4096);
    first.push(b'\r');
    let mut buf = BytesMut::from(&first[..]);
    assert!(matches!(
        codec.decode_frame(&mut buf),
        Err(OGNCodecError::MaxLineLengthExceeded)
    ));
}

#[test]
fn reports_a_frame_that_is_too_long() {
    let mut codec = OGNCodec::new();
    let mut buf = BytesMut::from(&long_line(5000)[..]);
    assert!(matches!(codec.decode(&mut buf), Err(OGNCodecError::MaxLineLengthExceeded)));
    assert_eq!(buf.len(), 5000);
}

#[test]
fn buffer_of_the_limit_without_delimiter_is_pending() {
    let mut codec = OGNCodec::new();
    let mut buf = BytesMut::from(&long_line(4096)[..]);
    assert_eq!(codec.decode(&mut buf).unwrap(), None);
    buf.extend_from_slice(b"x");
    assert!(matches!(codec.decode(&mut buf), Err(OGNCodecError::MaxLineLengthExceeded)));
}

#[test]
fn long_frame_then_ok() {
    let mut codec = OGNCodec::new();
    let mut stream = long_line(5000);
    stream.extend_from_slice(b"\r\nok\r\n");
    let mut buf = BytesMut::from(&stream[..]);
    assert!(matches!(codec.decode(&mut buf), Err(OGNCodecError::MaxLineLengthExceeded)));
    assert_eq!(codec.decode(&mut buf).unwrap(), Some("ok".to_string()));
    assert_eq!(codec.decode(&mut buf).unwrap(), None);
    assert!(buf.is_empty());
}

#[test]
fn long_frame_then_ok_in_two_reads() {
    let mut codec = OGNCodec::new();
    let mut buf = BytesMut::from(&long_line(5000)[..]);
    assert!(matches!(codec.decode(&mut buf), Err(OGNCodecError::MaxLineLengthExceeded)));
    assert_eq!(codec.decode(&mut buf).unwrap(), None);
    assert!(buf.is_empty());
    buf.extend_from_slice(b"tail of the long frame\r\nok\r\n");
    assert_eq!(codec.decode(&mut buf).unwrap(), Some("ok".to_string()));
    assert_eq!(codec.decode(&mut buf).unwrap(), None);
}

#[test]
fn long_frame_without_delimiter_takes_what_follows_with_it() {
    let mut codec = OGNCodec::new();
    let mut stream = long_line(5000);
    stream.extend_from_slice(b"ok\r\n");
    let mut buf = BytesMut::from(&stream[..]);
    assert!(matches!(codec.decode(&mut buf), Err(OGNCodecError::MaxLineLengthExceeded)));
    assert_eq!(codec.decode(&mut buf).unwrap(), None);
    assert!(buf.is_empty());
    buf.extend_from_slice(b"next\r\n");
    assert_eq!(codec.decode(&mut buf).unwrap(), Some("next".to_string()));
}

#[test]
fn delimiter_across_a_discard_window_is_missed() {
    let mut codec = OGNCodec::new();
    let mut stream = long_line(4097);
    stream.extend_from_slice(b"\r\nlost\r\nfound\r\n");
    let mut buf = BytesMut::from(&stream[..]);
    assert!(matches!(codec.decode(&mut buf), Err(OGNCodecError::MaxLineLengthExceeded)));
    assert_eq!(codec.decode(&mut buf).unwrap(), Some("found".to_string()));
    assert_eq!(codec.decode(&mut buf).unwrap(), None);
}

#[test]
fn recovery_depends_on_where_the_long_frame_ends() {
    for (len, recovers) in [
        (4097usize, false),
        (4098, true),
        (4099, true),
        (5000, true),
        (8194, true),
        (8195, false),
        (8196, true),
        (12_293, false),
        (20_000, true),
    ] {
        let mut codec = OGNCodec::new();
        let mut stream = long_line(len);
        stream.extend_from_slice(b"\r\nok\r\n");
        let mut buf = BytesMut::from(&stream[..]);
        assert!(matches!(codec.decode(&mut buf), Err(OGNCodecError::MaxLineLengthExceeded)));
        let expected = if recovers { Some("ok".to_string()) } else { None };
        assert_eq!(codec.decode(&mut buf).unwrap(), expected, "length {}", len);
        assert!(buf.is_empty());
    }
}

#[test]
fn frames_survive_many_chunkings() {
    let frames: Vec<Vec<u8>> = vec![
        b"# aprsc 2.1.4-g408ed49".to_vec(),
        Vec::new(),
        b"\rFLRDDA5BA>APRS,qAS,LFMX:/165829h4415.41N/00600.03E'342/049/A=005524".to_vec(),
        long_line(4095),
        b"\n\n\r".to_vec(),
        long_line(1),
        long_line(4000),
    ];
    let mut stream = Vec::new();
    for frame in &frames {
        stream.extend_from_slice(frame);
        stream.extend_from_slice(b"\r\n");
    }
    let mut seed: u64 = 1;
    for _ in 0..200 {
        let mut codec = OGNCodec::new();
        let mut buf = BytesMut::new();
        let mut decoded = Vec::new();
        let mut rest = &stream[..];
        while !rest.is_empty() {
            seed = seed.wrapping_mul(6364136223846793005).wrapping_add(1442695040888963407);
            let size = match seed >> 61 {
                0 => 1,
                1 => 2,
                2 => 4096,
                _ => 1 + (seed >> 33) as usize % 700,
            };
            let size = size.min(rest.len());
            buf.extend_from_slice(&rest[..size]);
            rest = &rest[size..];
            while let Some(frame) = codec.decode_frame(&mut buf).unwrap() {
                decoded.push(frame);
            }
        }
        assert_eq!(decoded, frames);
        assert!(buf.is_empty());
    }
}

/// The transition table of the decoder on a plain vector.
struct Model {
    next_index: usize,
    discarding: bool,
}

impl Model {
    fn step(&mut self, buf: &mut Vec<u8>) -> Result<Option<Vec<u8>>, ()> {
        loop {
            let read_to = buf.len().min(4098);
            if read_to == 0 {
                return Ok(None);
            }
            let found = (self.next_index..read_to.saturating_sub(1))
                .find(|&i| buf[i] == b'\r' && buf[i + 1] == b'\n');
            match (self.discarding, found) {
                (true, Some(at)) => {
                    buf.drain(..at + 2);
                    self.discarding = false;
                    self.next_index = 0;
                }
                (true, None) => {
                    buf.drain(..read_to);
                    self.next_index = 0;
                    if buf.is_empty() {
                        return Ok(None);
                    }
                }
                (false, Some(at)) => {
                    self.next_index = 0;
                    let frame = buf[..at].to_vec();
                    buf.drain(..at + 2);
                    return Ok(Some(frame));
                }
                (false, None) if buf.len() > 4096 => {
                    self.discarding = true;
                    return Err(());
                }
                (false, None) => {
                    self.next_index = read_to - 1;
                    return Ok(None);
                }
            }
        }
    }
}

#[test]
fn decoder_follows_the_transition_table() {
    let mut seed: u64 = 7;
    let mut next = move || {
        seed = seed.wrapping_mul(6364136223846793005).wrapping_add(1442695040888963407);
        (seed >> 33) as usize
    };
    for _ in 0..60 {
        let mut codec = OGNCodec::new();
        let mut model = Model { next_index: 0, discarding: false };
        let mut buf = BytesMut::new();
        let mut plain = Vec::new();
        for _ in 0..40 {
            let size = match next() % 6 {
                0 => 0,
                1 => 1,
                2 => 4097 + next() % 3,
                3 => 9000,
                _ => next() % 300,
            };
            let chunk: Vec<u8> = (0..size)
                .map(|_| match next() % 40 {
                    0 => b'\r',
                    1 => b'\n',
                    2 => {
                        if next() % 4 == 0 {
                            b'\r'
                        } else {
                            b'y'
                        }
                    }
                    _ => b'x',
                })
                .collect();
            buf.extend_from_slice(&chunk);
            plain.extend_from_slice(&chunk);
            loop {
                let expected = model.step(&mut plain);
                let got = codec.decode_frame(&mut buf);
                match (&expected, &got) {
                    (Ok(a), Ok(b)) => assert_eq!(a, b),
                    (Err(()), Err(OGNCodecError::MaxLineLengthExceeded)) => {}
                    _ => panic!("{:?} is not {:?}", got, expected),
                }
                assert_eq!(&buf[..], &plain[..]);
                assert_eq!(codec.next_index(), model.next_index);
                assert_eq!(codec.is_discarding(), model.discarding);
                if let Ok(None) = expected {
                    break;
                }
            }
        }
    }
}

#[test]
fn two_long_frames_are_reported_twice() {
    let mut codec = OGNCodec::new();
    let mut stream = long_line(5000);
    stream.extend_from_slice(b"\r\n");
    stream.extend_from_slice(&long_line(6000));
    stream.extend_from_slice(b"\r\nok\r\n");
    let mut buf = BytesMut::from(&stream[..]);
    assert!(matches!(codec.decode(&mut buf), Err(OGNCodecError::MaxLineLengthExceeded)));
    assert!(matches!(codec.decode(&mut buf), Err(OGNCodecError::MaxLineLengthExceeded)));
    assert_eq!(codec.decode(&mut buf).unwrap(), Some("ok".to_string()));
}

#[test]
fn eof_yields_the_remainder() {
    let mut codec = OGNCodec::new();
    let mut buf = BytesMut::from(&b"one\r\ntwo"[..]);
    assert_eq!(codec.decode_eof(&mut buf).unwrap(), Some("one".to_string()));
    assert_eq!(codec.decode_eof(&mut buf).unwrap(), Some("two".to_string()));
    assert!(buf.is_empty());
    assert_eq!(codec.decode_eof(&mut buf).unwrap(), None);
}

#[test]
fn eof_keeps_a_lone_carriage_return() {
    let mut codec = OGNCodec::new();
    let mut buf = BytesMut::from(&b"\r"[..]);
    assert_eq!(codec.decode_eof(&mut buf).unwrap(), None);
    assert_eq!(&buf[..], b"\r");
    let mut buf = BytesMut::from(&b"a\r"[..]);
    assert_eq!(codec.decode_frame_eof(&mut buf).unwrap(), Some(b"a\r".to_vec()));
}

#[test]
fn eof_on_an_empty_buffer_yields_nothing() {
    let mut codec = OGNCodec::new();
    let mut buf = BytesMut::new();
    assert_eq!(codec.decode_eof(&mut buf).unwrap(), None);
    assert_eq!(codec.decode_frame_eof(&mut buf).unwrap(), None);
}

#[test]
fn eof_reports_a_frame_that_is_too_long() {
    let mut codec = OGNCodec::new();
    let mut buf = BytesMut::from(&long_line(4097)[..]);
    assert!(matches!(codec.decode_eof(&mut buf), Err(OGNCodecError::MaxLineLengthExceeded)));
    assert_eq!(codec.decode_eof(&mut buf).unwrap(), None);
    assert!(buf.is_empty());
}

#[test]
fn valid_utf8_round_trips() {
    for text in ["", "plain ascii", "Flugplatz Zürich ✈", "\u{10348} and \u{7ff}"] {
        assert_eq!(utf8(text.as_bytes()), text);
    }
}

#[test]
fn invalid_utf8_falls_back_to_windows_1252() {
    assert_eq!(utf8(&[0x5a, 0xfc, 0x72, 0x69, 0x63, 0x68]), "Zürich");
    assert_eq!(utf8(&[0x80]), "\u{20ac}");
    assert_eq!(utf8(&[0xff, 0xfe, 0x41]), "\u{ff}\u{fe}A");
    assert_eq!(utf8(&[0xc3]), "\u{c3}");
}

#[test]
fn every_single_byte_decodes() {
    for byte in 0..=255u8 {
        let text = utf8(&[byte]);
        assert_eq!(text.chars().count(), 1);
        if byte < 0x80 {
            assert_eq!(text.as_bytes(), &[byte]);
        }
    }
}

#[test]
fn decode_uses_the_fallback_charset() {
    let mut codec = OGNCodec::new();
    let mut buf = BytesMut::from(&b"Z\xfcrich\r\nZ\xc3\xbcrich\r\n"[..]);
    assert_eq!(codec.decode(&mut buf).unwrap(), Some("Zürich".to_string()));
    assert_eq!(codec.decode(&mut buf).unwrap(), Some("Zürich".to_string()));
}

#[test]
fn encode_appends_the_delimiter() {
    let mut codec = OGNCodec::new();
    let mut buf = BytesMut::new();
    codec.encode("user test pass -1", &mut buf).unwrap();
    assert_eq!(&buf[..], b"user test pass -1\r\n");
    codec.encode("", &mut buf).unwrap();
    codec.encode("# keep alive", &mut buf).unwrap();
    assert_eq!(&buf[..], b"user test pass -1\r\n\r\n# keep alive\r\n");
}

#[test]
fn what_is_encoded_is_decoded() {
    let mut codec = OGNCodec::new();
    let mut buf = BytesMut::new();
    let lines = ["first", "", "Zürich", "# comment"];
    for line in lines {
        codec.encode(line, &mut buf).unwrap();
    }
    for line in lines {
        assert_eq!(codec.decode(&mut buf).unwrap(), Some(line.to_string()));
    }
    assert_eq!(codec.decode(&mut buf).unwrap(), None);
}

#[test]
fn error_messages() {
    assert_eq!(OGNCodecError::MaxLineLengthExceeded.message(), "max line length exceeded");
    let io = std::io::Error::new(std::io::ErrorKind::Other, "broken pipe");
    let error = OGNCodecError::from(io);
    assert!(matches!(error, OGNCodecError::Io(_)));
    assert_eq!(error.message(), "I/O error: broken pipe");
}
