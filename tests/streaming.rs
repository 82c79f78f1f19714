use base64::engine::general_purpose::STANDARD;
use base64::DecodeSliceError;
use base64::Engine;
use base64_stream::DecodeFailure;
use base64_stream::FromBase64Reader;
use base64_stream::ReadStep;
use base64_stream::BUFFER_SIZE;
use std::io::Read;

/// A byte source that hands out its data at most `chunk` bytes at a time.
struct Chunked {
    data: Vec<u8>,
    at: usize,
    chunk: usize,
}

impl Read for Chunked {
    fn read(&mut self, buf: &mut [u8]) -> std::io::Result<usize> {
        let n = self.chunk.min(buf.len()).min(self.data.len() - self.at);
        buf[..n].copy_from_slice(&self.data[self.at..self.at + n]);
        self.at += n;
        Ok(n)
    }
}

fn decoder(text: &[u8], chunk: usize) -> FromBase64Reader<Chunked> {
    FromBase64Reader::new(Chunked { data: text.to_vec(), at: 0, chunk })
}

/// One whole read: asks the source for text until a group is held or it is exhausted.
fn read_once(dec: &mut FromBase64Reader<Chunked>, out: &mut [u8]) -> Result<usize, DecodeFailure> {
    let mut scratch = vec![0u8; BUFFER_SIZE];
    loop {
        match dec.read(out)? {
            ReadStep::Produced(n) => return Ok(n),
            ReadStep::NeedInput(max) => {
                let c = dec.get_mut().read(&mut scratch[..max]).expect("in-memory source");
                if c == 0 {
                    return dec.read_end(out);
                }
                dec.fill(&scratch[..c]);
            }
        }
    }
}

fn decode_all(text: &[u8], chunk: usize, out_size: usize) -> Result<Vec<u8>, DecodeFailure> {
    let mut dec = decoder(text, chunk);
    let mut all = Vec::new();
    let mut out = vec![0u8; out_size];
    loop {
        let n = read_once(&mut dec, &mut out)?;
        if n == 0 {
            return Ok(all);
        }
        all.extend_from_slice(&out[..n]);
    }
}

fn sample(len: usize) -> Vec<u8> {
    (0..len).map(|i| (i * 131 + 7) as u8).collect()
}

#[test]
fn round_trip_every_buffer_size() {
    for len in [0usize, 1, 2, 3, 4, 5, 6, 7, 31, 100, 3000, 10000] {
        let bytes = sample(len);
        let text = STANDARD.encode(&bytes);
        for out_size in [1usize, 2, 3, 4, 7, 4096] {
            let got = decode_all(text.as_bytes(), BUFFER_SIZE, out_size).expect("valid text");
            assert_eq!(got, bytes, "len {} out {}", len, out_size);
        }
    }
}

#[test]
fn chunking_of_the_source_does_not_change_output() {
    let bytes = sample(5000);
    let text = STANDARD.encode(&bytes);
    for chunk in [1usize, 2, 3, 5, 7, 64, 4096] {
        for out_size in [1usize, 5, 4096] {
            let got = decode_all(text.as_bytes(), chunk, out_size).expect("valid text");
            assert_eq!(got, bytes, "chunk {} out {}", chunk, out_size);
        }
    }
}

#[test]
fn exhausted_stream_keeps_returning_zero() {
    let mut dec = decoder(b"QUJD", 4096);
    let mut out = [0u8; 8];
    assert_eq!(read_once(&mut dec, &mut out).unwrap(), 3);
    assert_eq!(&out[..3], b"ABC");
    for _ in 0..3 {
        assert_eq!(read_once(&mut dec, &mut out).unwrap(), 0);
    }
}

#[test]
fn empty_source_gives_end_of_stream() {
    let mut dec = decoder(b"", 4096);
    let mut out = [0u8; 4];
    assert_eq!(read_once(&mut dec, &mut out).unwrap(), 0);
    assert_eq!(read_once(&mut dec, &mut out).unwrap(), 0);
}

#[test]
fn unaligned_length_is_a_decode_error() {
    for text in [&b"SGVsbG8"[..], b"QUJDR", b"QUJDRA", b"QQ", b"QUI"] {
        assert!(decode_all(text, 4096, 16).is_err(), "{:?}", text);
        assert!(decode_all(text, 1, 1).is_err(), "{:?}", text);
    }
}

#[test]
fn padding_shortens_the_last_group() {
    assert_eq!(decode_all(b"QQ==", 4096, 16).unwrap(), b"A".to_vec());
    assert_eq!(decode_all(b"QUI=", 4096, 16).unwrap(), b"AB".to_vec());
    assert_eq!(decode_all(b"QUJD", 4096, 16).unwrap(), b"ABC".to_vec());
    assert_eq!(decode_all(b"QUJDRA==", 4096, 16).unwrap(), b"ABCD".to_vec());
    assert_eq!(decode_all(b"QUJDREU=", 1, 2).unwrap(), b"ABCDE".to_vec());
}

#[test]
fn overflow_bytes_open_the_next_read() {
    let mut dec = decoder(b"SGVsbG8s", 4096);
    let mut out = [0u8; 4];
    assert_eq!(read_once(&mut dec, &mut out).unwrap(), 4);
    assert_eq!(&out, b"Hell");
    let mut next = [0u8; 4];
    assert_eq!(read_once(&mut dec, &mut next).unwrap(), 2);
    assert_eq!(&next[..2], b"o,");

    let mut dec = decoder(b"QUJD", 4096);
    let mut one = [0u8; 1];
    for expected in [b'A', b'B', b'C'] {
        assert_eq!(read_once(&mut dec, &mut one).unwrap(), 1);
        assert_eq!(one[0], expected);
    }
    assert_eq!(read_once(&mut dec, &mut one).unwrap(), 0);
}

#[test]
fn hello_world_through_five_byte_buffer() {
    let mut dec = decoder(b"SGVsbG8sIFdvcmxkIQ==", 4096);
    let mut out = [0u8; 5];
    let mut all = Vec::new();
    loop {
        let n = read_once(&mut dec, &mut out).unwrap();
        if n == 0 {
            break;
        }
        all.extend_from_slice(&out[..n]);
    }
    assert_eq!(all, b"Hello, World!".to_vec());
    assert_eq!(read_once(&mut dec, &mut out).unwrap(), 0);
}

#[test]
fn malformed_group_is_reported() {
    for out_size in [5usize, 4096] {
        let mut dec = decoder(b"SGVsbG8!", 4096);
        let mut out = vec![0u8; out_size];
        match read_once(&mut dec, &mut out) {
            Err(e) => assert!(matches!(e.cause, DecodeSliceError::DecodeError(_))),
            Ok(n) => panic!("decoded {} bytes of malformed text", n),
        }
    }
}

#[test]
fn new_decoder_asks_for_a_full_buffer() {
    let mut dec = decoder(b"QUJD", 4096);
    let mut out = [0u8; 4];
    assert_eq!(dec.read(&mut out).unwrap(), ReadStep::NeedInput(BUFFER_SIZE));
    dec.fill(b"QU");
    assert_eq!(dec.read(&mut out).unwrap(), ReadStep::NeedInput(BUFFER_SIZE - 2));
    dec.fill(b"JD");
    assert_eq!(dec.read(&mut out).unwrap(), ReadStep::Produced(3));
    assert_eq!(&out[..3], b"ABC");
}

#[test]
fn from_wraps_like_new() {
    let mut dec: FromBase64Reader<Chunked> =
        FromBase64Reader::from(Chunked { data: b"QUI=".to_vec(), at: 0, chunk: 4096 });
    let mut out = [0u8; 4];
    assert_eq!(read_once(&mut dec, &mut out).unwrap(), 2);
    assert_eq!(&out[..2], b"AB");
}

#[test]
fn delivered_group_spills_into_overflow() {
    let mut dec = decoder(b"", 4096);
    let mut out = [9u8; 2];
    assert_eq!(dec.deliver_decoded(&[1, 2, 3], &mut out, 1), 2);
    assert_eq!(out, [9, 1]);
    let mut rest = [0u8; 4];
    assert_eq!(dec.read_end(&mut rest).unwrap(), 2);
    assert_eq!(&rest[..2], &[2, 3]);
    assert_eq!(dec.read_end(&mut rest).unwrap(), 0);
}

#[test]
fn end_read_into_empty_buffer_changes_nothing() {
    let mut dec = decoder(b"", 4096);
    dec.fill(b"QQ");
    let mut none: [u8; 0] = [];
    assert_eq!(dec.read_end(&mut none).unwrap(), 0);
    let mut out = [0u8; 2];
    assert!(dec.read_end(&mut out).is_err());
}

#[test]
fn long_text_exercises_buffer_compaction() {
    let bytes = sample(3 * BUFFER_SIZE + 17);
    let text = STANDARD.encode(&bytes);
    for (chunk, out_size) in [(4096usize, 13usize), (1000, 4096), (4096, 3000)] {
        assert_eq!(decode_all(text.as_bytes(), chunk, out_size).unwrap(), bytes);
    }
}
