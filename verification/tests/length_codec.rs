use std::collections::VecDeque;

use bytes::BytesMut;
use length_delimited::{FrameError, LengthDelimitedCodec};

// ===== Test driver =====
//
// The codec is exercised the way a framed transport drives it: a mock
// byte source/sink hands out (or accepts) scripted chunks, and the
// driver below feeds them through decode / decode_eof / encode until a
// frame, a pause, or an error comes out.

#[derive(Debug, PartialEq)]
enum Async<T> {
    Ready(T),
    NotReady,
}

use Async::{NotReady, Ready};

impl<T> Async<T> {
    fn is_ready(&self) -> bool {
        match self {
            Ready(_) => true,
            NotReady => false,
        }
    }
}

enum Op {
    Data(Vec<u8>),
    Flush,
    WouldBlock,
}

struct Mock {
    calls: VecDeque<Op>,
}

impl Mock {
    fn read(&mut self) -> Option<Op> {
        self.calls.pop_front()
    }

    fn write(&mut self, src: &[u8]) -> Async<usize> {
        match self.calls.pop_front() {
            Some(Op::Data(data)) => {
                let len = data.len();
                assert!(src.len() >= len, "expect={:?}; actual={:?}", data, src);
                assert_eq!(&data[..], &src[..len]);
                Ready(len)
            }
            Some(Op::WouldBlock) => NotReady,
            Some(Op::Flush) => panic!("unexpected flush"),
            None => Ready(0),
        }
    }

    fn flush(&mut self) {
        match self.calls.pop_front() {
            Some(Op::Flush) => {}
            Some(_) => panic!("expected flush"),
            None => {}
        }
    }
}

struct Framed {
    codec: LengthDelimitedCodec,
    mock: Mock,
    buffer: BytesMut,
    write_buf: BytesMut,
    eof: bool,
    is_readable: bool,
}

impl Framed {
    fn poll(&mut self) -> Result<Async<Option<BytesMut>>, FrameError> {
        loop {
            if self.eof {
                let frame = self.codec.decode_eof(&mut self.buffer)?;
                return Ok(Ready(frame));
            }
            while self.is_readable {
                if let Some(frame) = self.codec.decode(&mut self.buffer)? {
                    return Ok(Ready(Some(frame)));
                }
                self.is_readable = false;
            }
            match self.mock.read() {
                Some(Op::Data(data)) => {
                    self.buffer.extend_from_slice(&data);
                    self.is_readable = true;
                }
                Some(Op::WouldBlock) => return Ok(NotReady),
                Some(Op::Flush) => panic!("unexpected flush"),
                None => {
                    self.eof = true;
                    self.is_readable = true;
                }
            }
        }
    }

    fn start_send(&mut self, item: BytesMut) -> Result<Async<()>, FrameError> {
        self.codec.encode(item, &mut self.write_buf)?;
        Ok(Ready(()))
    }

    fn poll_complete(&mut self) -> Result<Async<()>, FrameError> {
        while !self.write_buf.is_empty() {
            match self.mock.write(&self.write_buf) {
                Ready(n) => {
                    assert!(n > 0);
                    let _ = self.write_buf.split_to(n);
                }
                NotReady => return Ok(NotReady),
            }
        }
        self.mock.flush();
        Ok(Ready(()))
    }
}

fn framed(codec: LengthDelimitedCodec, calls: Vec<Op>) -> Framed {
    Framed {
        codec,
        mock: Mock { calls: calls.into_iter().collect() },
        buffer: BytesMut::new(),
        write_buf: BytesMut::new(),
        eof: false,
        is_readable: false,
    }
}

fn data(bytes: &[u8]) -> Op {
    Op::Data(bytes.to_vec())
}

fn frame(bytes: &[u8]) -> BytesMut {
    BytesMut::from(bytes)
}

// ===== Read-side tests =====

#[test]
fn read_empty_io_yields_nothing() {
    let mut framed = framed(LengthDelimitedCodec::new(), vec![]);

    assert_eq!(framed.poll().unwrap(), Ready(None));
}

#[test]
fn read_single_frame_one_packet() {
    let mut framed = framed(
        LengthDelimitedCodec::new(),
        vec![data(b"\x00\x00\x00\x09abcdefghi")],
    );

    assert_eq!(framed.poll().unwrap(), Ready(Some(frame(b"abcdefghi"))));
    assert_eq!(framed.poll().unwrap(), Ready(None));
}

#[test]
fn read_single_frame_one_packet_little_endian() {
    let mut codec = LengthDelimitedCodec::new();
    codec.set_length_field_is_big_endian(false);
    let mut framed = framed(codec, vec![data(b"\x09\x00\x00\x00abcdefghi")]);

    assert_eq!(framed.poll().unwrap(), Ready(Some(frame(b"abcdefghi"))));
    assert_eq!(framed.poll().unwrap(), Ready(None));
}

#[test]
fn read_single_multi_frame_one_packet() {
    let mut d: Vec<u8> = vec![];
    d.extend_from_slice(b"\x00\x00\x00\x09abcdefghi");
    d.extend_from_slice(b"\x00\x00\x00\x03123");
    d.extend_from_slice(b"\x00\x00\x00\x0bhello world");
    let mut framed = framed(LengthDelimitedCodec::new(), vec![Op::Data(d)]);

    assert_eq!(framed.poll().unwrap(), Ready(Some(frame(b"abcdefghi"))));
    assert_eq!(framed.poll().unwrap(), Ready(Some(frame(b"123"))));
    assert_eq!(framed.poll().unwrap(), Ready(Some(frame(b"hello world"))));
    assert_eq!(framed.poll().unwrap(), Ready(None));
}

#[test]
fn read_single_frame_multi_packet() {
    let mut framed = framed(
        LengthDelimitedCodec::new(),
        vec![data(b"\x00\x00"), data(b"\x00\x09abc"), data(b"defghi")],
    );

    assert_eq!(framed.poll().unwrap(), Ready(Some(frame(b"abcdefghi"))));
    assert_eq!(framed.poll().unwrap(), Ready(None));
}

#[test]
fn read_multi_frame_multi_packet() {
    let mut framed = framed(
        LengthDelimitedCodec::new(),
        vec![
            data(b"\x00\x00"),
            data(b"\x00\x09abc"),
            data(b"defghi"),
            data(b"\x00\x00\x00\x0312"),
            data(b"3\x00\x00\x00\x0bhello world"),
        ],
    );

    assert_eq!(framed.poll().unwrap(), Ready(Some(frame(b"abcdefghi"))));
    assert_eq!(framed.poll().unwrap(), Ready(Some(frame(b"123"))));
    assert_eq!(framed.poll().unwrap(), Ready(Some(frame(b"hello world"))));
    assert_eq!(framed.poll().unwrap(), Ready(None));
}

#[test]
fn read_single_frame_multi_packet_wait() {
    let mut framed = framed(
        LengthDelimitedCodec::new(),
        vec![
            data(b"\x00\x00"),
            Op::WouldBlock,
            data(b"\x00\x09abc"),
            Op::WouldBlock,
            data(b"defghi"),
            Op::WouldBlock,
        ],
    );

    assert_eq!(framed.poll().unwrap(), NotReady);
    assert_eq!(framed.poll().unwrap(), NotReady);
    assert_eq!(framed.poll().unwrap(), Ready(Some(frame(b"abcdefghi"))));
    assert_eq!(framed.poll().unwrap(), NotReady);
    assert_eq!(framed.poll().unwrap(), Ready(None));
}

#[test]
fn read_multi_frame_multi_packet_wait() {
    let mut framed = framed(
        LengthDelimitedCodec::new(),
        vec![
            data(b"\x00\x00"),
            Op::WouldBlock,
            data(b"\x00\x09abc"),
            Op::WouldBlock,
            data(b"defghi"),
            Op::WouldBlock,
            data(b"\x00\x00\x00\x0312"),
            Op::WouldBlock,
            data(b"3\x00\x00\x00\x0bhello world"),
            Op::WouldBlock,
        ],
    );

    assert_eq!(framed.poll().unwrap(), NotReady);
    assert_eq!(framed.poll().unwrap(), NotReady);
    assert_eq!(framed.poll().unwrap(), Ready(Some(frame(b"abcdefghi"))));
    assert_eq!(framed.poll().unwrap(), NotReady);
    assert_eq!(framed.poll().unwrap(), NotReady);
    assert_eq!(framed.poll().unwrap(), Ready(Some(frame(b"123"))));
    assert_eq!(framed.poll().unwrap(), Ready(Some(frame(b"hello world"))));
    assert_eq!(framed.poll().unwrap(), NotReady);
    assert_eq!(framed.poll().unwrap(), Ready(None));
}

#[test]
fn read_incomplete_head() {
    let mut framed = framed(LengthDelimitedCodec::new(), vec![data(b"\x00\x00")]);

    assert!(framed.poll().is_err());
}

#[test]
fn read_incomplete_head_multi() {
    let mut framed = framed(
        LengthDelimitedCodec::new(),
        vec![Op::WouldBlock, data(b"\x00"), Op::WouldBlock],
    );

    assert_eq!(framed.poll().unwrap(), NotReady);
    assert_eq!(framed.poll().unwrap(), NotReady);
    assert!(framed.poll().is_err());
}

#[test]
fn read_incomplete_payload() {
    let mut framed = framed(
        LengthDelimitedCodec::new(),
        vec![
            data(b"\x00\x00\x00\x09ab"),
            Op::WouldBlock,
            data(b"cd"),
            Op::WouldBlock,
        ],
    );

    assert_eq!(framed.poll().unwrap(), NotReady);
    assert_eq!(framed.poll().unwrap(), NotReady);
    assert!(framed.poll().is_err());
}

#[test]
fn read_max_frame_len() {
    let mut codec = LengthDelimitedCodec::new();
    codec.set_max_frame_length(5);
    let mut framed = framed(codec, vec![data(b"\x00\x00\x00\x09abcdefghi")]);

    assert_eq!(framed.poll().unwrap_err(), FrameError::FrameTooLarge);
}

#[test]
fn read_update_max_frame_len_at_rest() {
    let mut framed = framed(
        LengthDelimitedCodec::new(),
        vec![
            data(b"\x00\x00\x00\x09abcdefghi"),
            data(b"\x00\x00\x00\x09abcdefghi"),
        ],
    );

    assert_eq!(framed.poll().unwrap(), Ready(Some(frame(b"abcdefghi"))));
    framed.codec.set_max_frame_length(5);
    assert_eq!(framed.poll().unwrap_err(), FrameError::FrameTooLarge);
}

#[test]
fn read_update_max_frame_len_in_flight() {
    let mut framed = framed(
        LengthDelimitedCodec::new(),
        vec![
            data(b"\x00\x00\x00\x09abcd"),
            Op::WouldBlock,
            data(b"efghi"),
            data(b"\x00\x00\x00\x09abcdefghi"),
        ],
    );

    assert_eq!(framed.poll().unwrap(), NotReady);
    framed.codec.set_max_frame_length(5);
    assert_eq!(framed.poll().unwrap(), Ready(Some(frame(b"abcdefghi"))));
    assert_eq!(framed.poll().unwrap_err(), FrameError::FrameTooLarge);
}

#[test]
fn read_one_byte_length_field() {
    let mut codec = LengthDelimitedCodec::new();
    codec.set_length_field_len(1);
    let mut framed = framed(codec, vec![data(b"\x09abcdefghi")]);

    assert_eq!(framed.poll().unwrap(), Ready(Some(frame(b"abcdefghi"))));
    assert_eq!(framed.poll().unwrap(), Ready(None));
}

#[test]
fn read_header_offset() {
    let mut codec = LengthDelimitedCodec::new();
    codec.set_length_field_len(2);
    codec.set_length_field_offset(4);
    let mut framed = framed(codec, vec![data(b"zzzz\x00\x09abcdefghi")]);

    assert_eq!(framed.poll().unwrap(), Ready(Some(frame(b"abcdefghi"))));
    assert_eq!(framed.poll().unwrap(), Ready(None));
}

#[test]
fn read_single_multi_frame_one_packet_skip_none_adjusted() {
    let mut d: Vec<u8> = vec![];
    d.extend_from_slice(b"xx\x00\x09abcdefghi");
    d.extend_from_slice(b"yy\x00\x03123");
    d.extend_from_slice(b"zz\x00\x0bhello world");
    let mut codec = LengthDelimitedCodec::new();
    codec.set_length_field_len(2);
    codec.set_length_field_offset(2);
    codec.set_num_skip(0);
    codec.set_length_adjustment(4);
    let mut framed = framed(codec, vec![Op::Data(d)]);

    assert_eq!(framed.poll().unwrap(), Ready(Some(frame(b"xx\x00\x09abcdefghi"))));
    assert_eq!(framed.poll().unwrap(), Ready(Some(frame(b"yy\x00\x03123"))));
    assert_eq!(framed.poll().unwrap(), Ready(Some(frame(b"zz\x00\x0bhello world"))));
    assert_eq!(framed.poll().unwrap(), Ready(None));
}

#[test]
fn read_single_multi_frame_one_packet_length_includes_head() {
    let mut d: Vec<u8> = vec![];
    d.extend_from_slice(b"\x00\x0babcdefghi");
    d.extend_from_slice(b"\x00\x05123");
    d.extend_from_slice(b"\x00\x0dhello world");
    let mut codec = LengthDelimitedCodec::new();
    codec.set_length_field_len(2);
    codec.set_length_adjustment(-2);
    let mut framed = framed(codec, vec![Op::Data(d)]);

    assert_eq!(framed.poll().unwrap(), Ready(Some(frame(b"abcdefghi"))));
    assert_eq!(framed.poll().unwrap(), Ready(Some(frame(b"123"))));
    assert_eq!(framed.poll().unwrap(), Ready(Some(frame(b"hello world"))));
    assert_eq!(framed.poll().unwrap(), Ready(None));
}

// ===== Write-side tests =====

#[test]
fn write_single_frame_length_adjusted() {
    let mut codec = LengthDelimitedCodec::new();
    codec.set_length_adjustment(-2);
    let mut framed = framed(
        codec,
        vec![data(b"\x00\x00\x00\x0b"), data(b"abcdefghi"), Op::Flush],
    );

    assert!(framed.start_send(frame(b"abcdefghi")).unwrap().is_ready());
    assert!(framed.poll_complete().unwrap().is_ready());
    assert!(framed.mock.calls.is_empty());
}

#[test]
fn write_nothing_yields_nothing() {
    let mut framed = framed(LengthDelimitedCodec::new(), vec![]);

    assert!(framed.poll_complete().unwrap().is_ready());
}

#[test]
fn write_single_frame_one_packet() {
    let mut framed = framed(
        LengthDelimitedCodec::new(),
        vec![data(b"\x00\x00\x00\x09"), data(b"abcdefghi"), Op::Flush],
    );

    assert!(framed.start_send(frame(b"abcdefghi")).unwrap().is_ready());
    assert!(framed.poll_complete().unwrap().is_ready());
    assert!(framed.mock.calls.is_empty());
}

#[test]
fn write_single_multi_frame_one_packet() {
    let mut framed = framed(
        LengthDelimitedCodec::new(),
        vec![
            data(b"\x00\x00\x00\x09"),
            data(b"abcdefghi"),
            data(b"\x00\x00\x00\x03"),
            data(b"123"),
            data(b"\x00\x00\x00\x0b"),
            data(b"hello world"),
            Op::Flush,
        ],
    );

    assert!(framed.start_send(frame(b"abcdefghi")).unwrap().is_ready());
    assert!(framed.start_send(frame(b"123")).unwrap().is_ready());
    assert!(framed.start_send(frame(b"hello world")).unwrap().is_ready());
    assert!(framed.poll_complete().unwrap().is_ready());
    assert!(framed.mock.calls.is_empty());
}

#[test]
fn write_single_multi_frame_multi_packet() {
    let mut framed = framed(
        LengthDelimitedCodec::new(),
        vec![
            data(b"\x00\x00\x00\x09"),
            data(b"abcdefghi"),
            Op::Flush,
            data(b"\x00\x00\x00\x03"),
            data(b"123"),
            Op::Flush,
            data(b"\x00\x00\x00\x0b"),
            data(b"hello world"),
            Op::Flush,
        ],
    );

    assert!(framed.start_send(frame(b"abcdefghi")).unwrap().is_ready());
    assert!(framed.poll_complete().unwrap().is_ready());
    assert!(framed.start_send(frame(b"123")).unwrap().is_ready());
    assert!(framed.poll_complete().unwrap().is_ready());
    assert!(framed.start_send(frame(b"hello world")).unwrap().is_ready());
    assert!(framed.poll_complete().unwrap().is_ready());
    assert!(framed.mock.calls.is_empty());
}

#[test]
fn write_single_frame_would_block() {
    let mut framed = framed(
        LengthDelimitedCodec::new(),
        vec![
            Op::WouldBlock,
            data(b"\x00\x00"),
            Op::WouldBlock,
            data(b"\x00\x09"),
            data(b"abcdefghi"),
            Op::Flush,
        ],
    );

    assert!(framed.start_send(frame(b"abcdefghi")).unwrap().is_ready());
    assert!(!framed.poll_complete().unwrap().is_ready());
    assert!(!framed.poll_complete().unwrap().is_ready());
    assert!(framed.poll_complete().unwrap().is_ready());

    assert!(framed.mock.calls.is_empty());
}

#[test]
fn write_single_frame_little_endian() {
    let mut codec = LengthDelimitedCodec::new();
    codec.set_length_field_is_big_endian(false);
    let mut framed = framed(
        codec,
        vec![data(b"\x09\x00\x00\x00"), data(b"abcdefghi"), Op::Flush],
    );

    assert!(framed.start_send(frame(b"abcdefghi")).unwrap().is_ready());
    assert!(framed.poll_complete().unwrap().is_ready());
    assert!(framed.mock.calls.is_empty());
}

#[test]
fn write_single_frame_with_short_length_field() {
    let mut codec = LengthDelimitedCodec::new();
    codec.set_length_field_len(1);
    let mut framed = framed(codec, vec![data(b"\x09"), data(b"abcdefghi"), Op::Flush]);

    assert!(framed.start_send(frame(b"abcdefghi")).unwrap().is_ready());
    assert!(framed.poll_complete().unwrap().is_ready());
    assert!(framed.mock.calls.is_empty());
}

#[test]
fn write_max_frame_len() {
    let mut codec = LengthDelimitedCodec::new();
    codec.set_max_frame_length(5);
    let mut framed = framed(codec, vec![]);

    assert_eq!(
        framed.start_send(frame(b"abcdef")).unwrap_err(),
        FrameError::FrameTooLarge
    );
    assert!(framed.mock.calls.is_empty());
}

#[test]
fn write_update_max_frame_len_at_rest() {
    let mut framed = framed(
        LengthDelimitedCodec::new(),
        vec![data(b"\x00\x00\x00\x06"), data(b"abcdef"), Op::Flush],
    );

    assert!(framed.start_send(frame(b"abcdef")).unwrap().is_ready());
    assert!(framed.poll_complete().unwrap().is_ready());
    framed.codec.set_max_frame_length(5);
    assert_eq!(
        framed.start_send(frame(b"abcdef")).unwrap_err(),
        FrameError::FrameTooLarge
    );
    assert!(framed.mock.calls.is_empty());
}

#[test]
fn write_update_max_frame_len_in_flight() {
    let mut framed = framed(
        LengthDelimitedCodec::new(),
        vec![
            data(b"\x00\x00\x00\x06"),
            data(b"ab"),
            Op::WouldBlock,
            data(b"cdef"),
            Op::Flush,
        ],
    );

    assert!(framed.start_send(frame(b"abcdef")).unwrap().is_ready());
    assert!(!framed.poll_complete().unwrap().is_ready());
    framed.codec.set_max_frame_length(5);
    assert!(framed.poll_complete().unwrap().is_ready());
    assert_eq!(
        framed.start_send(frame(b"abcdef")).unwrap_err(),
        FrameError::FrameTooLarge
    );
    assert!(framed.mock.calls.is_empty());
}
