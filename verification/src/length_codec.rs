//! The length-delimited frame codec: a two-phase decode state machine
//! (parse a header, then await the full payload) and the inverse encoder.
//!
//! The decoder is driven repeatedly against a growable buffer that the
//! caller refills between calls; each call consumes at most one frame's
//! worth of bytes from the front. The encoder appends a length field and
//! the payload to an output buffer.

use vstd::prelude::*;
use bytes::BytesMut;
use crate::bytes_buf::{bytes_view, buf_len, buf_split_to, buf_reserve, buf_extend};
use crate::wire::{
    big_endian_value, little_endian_value, big_endian_bytes, little_endian_bytes, read_big_endian,
    read_little_endian, append_field,
};

verus! {

/// Why a decode or encode call failed. Every failure is fatal to the
/// current stream position; the codec retries nothing.
#[derive(Clone, Copy, Debug, PartialEq, Eq, Structural)]
pub enum FrameError {
    /// The declared (decode) or actual (encode) payload length exceeds
    /// the configured maximum frame length.
    FrameTooLarge,
    /// Applying the length adjustment made the length negative or pushed
    /// it beyond the representable range.
    LengthAdjustmentOverflow,
    /// The source ended while a header or payload was only partly
    /// received.
    TruncatedStream,
}

#[derive(Clone, Copy, Debug)]
enum DecodeState {
    Head,
    Data(usize),
}

/// The decode cursor, at specification level.
pub enum StateModel {
    Head,
    Data(int),
}

/// The codec's configuration and decode cursor, at specification level.
pub struct CodecModel {
    pub max_frame_len: int,
    pub length_field_len: int,
    pub length_field_offset: int,
    pub length_adjustment: int,
    pub num_skip: Option<int>,
    pub length_field_is_big_endian: bool,
    pub state: StateModel,
}

/// Bytes discarded from the front of the buffer once a header has been
/// parsed; when unset it is the offset plus the field width.
pub open spec fn spec_num_skip(c: CodecModel) -> int {
    match c.num_skip {
        Option::Some(n) => n,
        Option::None => c.length_field_offset + c.length_field_len,
    }
}

/// Bytes that must be present before the header can be parsed: the skip
/// region must be covered even where it is wider than the length field.
pub open spec fn spec_head_len(c: CodecModel) -> int {
    let base = c.length_field_offset + c.length_field_len;
    let sk = match c.num_skip {
        Option::Some(n) => n,
        Option::None => 0,
    };
    if base < sk {
        sk
    } else {
        base
    }
}

/// The length field's value as the buffer holds it, before adjustment.
pub open spec fn spec_raw_len(c: CodecModel, buf: Seq<u8>) -> int {
    let field = buf.subrange(
        c.length_field_offset,
        c.length_field_offset + c.length_field_len,
    );
    if c.length_field_is_big_endian {
        big_endian_value(field) as int
    } else {
        little_endian_value(field) as int
    }
}

/// The bytes the encoder writes for field value `v`.
pub open spec fn spec_field_bytes(c: CodecModel, v: nat) -> Seq<u8> {
    if c.length_field_is_big_endian {
        big_endian_bytes(v, c.length_field_len as nat)
    } else {
        little_endian_bytes(v, c.length_field_len as nat)
    }
}

/// The configuration values a codec can actually hold: a field width of
/// one to eight bytes, and every count within the machine's range.
pub open spec fn wf_model(c: CodecModel) -> bool {
    &&& 1 <= c.length_field_len <= 8
    &&& 0 <= c.length_field_offset
    &&& c.length_field_offset + c.length_field_len <= usize::MAX as int
    &&& 0 <= c.max_frame_len <= usize::MAX as int
    &&& isize::MIN as int <= c.length_adjustment <= isize::MAX as int
    &&& match c.num_skip {
        Option::Some(n) => 0 <= n <= usize::MAX as int,
        Option::None => true,
    }
    &&& match c.state {
        StateModel::Data(n) => 0 <= n <= usize::MAX as int,
        StateModel::Head => true,
    }
}

/// What one decode call yields.
pub enum DecodeOutcome {
    /// Not enough bytes yet; the caller must supply more and call again.
    Pending,
    /// One complete frame, removed from the front of the buffer.
    Frame(Seq<u8>),
    /// The declared length exceeds the maximum frame length.
    TooLarge,
    /// The adjusted length left the representable range.
    AdjustOverflow,
}

/// The codec, the buffer, and the outcome after one decode call.
pub struct DecodeStep {
    pub codec: CodecModel,
    pub buf: Seq<u8>,
    pub outcome: DecodeOutcome,
}

/// The payload-await phase: with `n` payload bytes owed, either wait for
/// more input or deliver the frame and return to the header phase.
pub open spec fn spec_deliver(c: CodecModel, n: int, buf: Seq<u8>) -> DecodeStep {
    if buf.len() < n {
        DecodeStep {
            codec: CodecModel { state: StateModel::Data(n), ..c },
            buf,
            outcome: DecodeOutcome::Pending,
        }
    } else {
        DecodeStep {
            codec: CodecModel { state: StateModel::Head, ..c },
            buf: buf.skip(n),
            outcome: DecodeOutcome::Frame(buf.take(n)),
        }
    }
}

/// One decode call: parse the header if the cursor is at one, then await
/// or deliver the payload. Errors change neither codec nor buffer.
pub open spec fn spec_decode(c: CodecModel, buf: Seq<u8>) -> DecodeStep {
    match c.state {
        StateModel::Head => {
            if buf.len() < spec_head_len(c) {
                DecodeStep { codec: c, buf, outcome: DecodeOutcome::Pending }
            } else {
                let raw = spec_raw_len(c, buf);
                if raw > c.max_frame_len {
                    DecodeStep { codec: c, buf, outcome: DecodeOutcome::TooLarge }
                } else {
                    let adjusted = raw + c.length_adjustment;
                    if adjusted < 0 || adjusted > usize::MAX as int {
                        DecodeStep { codec: c, buf, outcome: DecodeOutcome::AdjustOverflow }
                    } else {
                        spec_deliver(c, adjusted, buf.skip(spec_num_skip(c)))
                    }
                }
            }
        }
        StateModel::Data(n) => spec_deliver(c, n, buf),
    }
}

/// One encode call: the bytes appended to the output buffer, or the
/// error, as a function of the configuration and the payload.
pub open spec fn spec_encode(c: CodecModel, item: Seq<u8>) -> Result<Seq<u8>, FrameError> {
    if item.len() > c.max_frame_len {
        Err(FrameError::FrameTooLarge)
    } else {
        let field = item.len() - c.length_adjustment;
        if field < 0 || field > usize::MAX as int {
            Err(FrameError::LengthAdjustmentOverflow)
        } else {
            Ok(spec_field_bytes(c, field as nat) + item)
        }
    }
}

/// A codec for a length-delimited frame format: a fixed-width length
/// field, at a configurable offset within the header, declares how many
/// payload bytes follow.
#[derive(Debug)]
pub struct LengthDelimitedCodec {
    max_frame_len: usize,
    length_field_len: usize,
    length_field_offset: usize,
    length_adjustment: isize,
    num_skip: Option<usize>,
    length_field_is_big_endian: bool,
    state: DecodeState,
}

impl View for LengthDelimitedCodec {
    type V = CodecModel;

    closed spec fn view(&self) -> CodecModel {
        CodecModel {
            max_frame_len: self.max_frame_len as int,
            length_field_len: self.length_field_len as int,
            length_field_offset: self.length_field_offset as int,
            length_adjustment: self.length_adjustment as int,
            num_skip: match self.num_skip {
                Option::Some(n) => Option::Some(n as int),
                Option::None => Option::None,
            },
            length_field_is_big_endian: self.length_field_is_big_endian,
            state: match self.state {
                DecodeState::Head => StateModel::Head,
                DecodeState::Data(n) => StateModel::Data(n as int),
            },
        }
    }
}

impl LengthDelimitedCodec {
    /// The configuration invariant: the field width is one to eight
    /// bytes and the header fits the machine's range.
    pub open spec fn wf(&self) -> bool {
        wf_model(self@)
    }

    /// A codec with the default configuration: an 8 MiB frame limit and
    /// a four-byte big-endian length field at the start of the header.
    pub fn new() -> (r: Self)
        ensures
            r@ == (CodecModel {
                max_frame_len: (8 * 1024 * 1024) as int,
                length_field_len: 4,
                length_field_offset: 0,
                length_adjustment: 0,
                num_skip: Option::None,
                length_field_is_big_endian: true,
                state: StateModel::Head,
            }),
            r.wf(),
    {
        LengthDelimitedCodec {
            max_frame_len: 8 * 1_024 * 1_024,
            length_field_len: 4,
            length_field_offset: 0,
            length_adjustment: 0,
            num_skip: None,
            length_field_is_big_endian: true,
            state: DecodeState::Head,
        }
    }

    pub fn max_frame_length(&self) -> (r: usize)
        ensures
            r == self@.max_frame_len,
    {
        self.max_frame_len
    }

    pub fn set_max_frame_length(&mut self, len: usize)
        ensures
            final(self)@ == (CodecModel { max_frame_len: len as int, ..old(self)@ }),
    {
        self.max_frame_len = len;
    }

    pub fn length_field_len(&self) -> (r: usize)
        ensures
            r == self@.length_field_len,
    {
        self.length_field_len
    }

    /// The width must be one to eight bytes, and the header must stay
    /// within the machine's range.
    pub fn set_length_field_len(&mut self, len: usize)
        requires
            1 <= len <= 8,
            old(self)@.length_field_offset + len <= usize::MAX as int,
        ensures
            final(self)@ == (CodecModel { length_field_len: len as int, ..old(self)@ }),
    {
        self.length_field_len = len;
    }

    pub fn length_field_offset(&self) -> (r: usize)
        ensures
            r == self@.length_field_offset,
    {
        self.length_field_offset
    }

    /// The header must stay within the machine's range.
    pub fn set_length_field_offset(&mut self, len: usize)
        requires
            len + old(self)@.length_field_len <= usize::MAX as int,
        ensures
            final(self)@ == (CodecModel { length_field_offset: len as int, ..old(self)@ }),
    {
        self.length_field_offset = len;
    }

    pub fn length_adjustment(&self) -> (r: isize)
        ensures
            r == self@.length_adjustment,
    {
        self.length_adjustment
    }

    pub fn set_length_adjustment(&mut self, len: isize)
        ensures
            final(self)@ == (CodecModel { length_adjustment: len as int, ..old(self)@ }),
    {
        self.length_adjustment = len;
    }

    /// The skip count in effect: the configured one, or the offset plus
    /// the field width when none was set.
    pub fn num_skip(&self) -> (r: usize)
        requires
            self.wf(),
        ensures
            r == spec_num_skip(self@),
    {
        match self.num_skip {
            Some(n) => n,
            None => self.length_field_offset + self.length_field_len,
        }
    }

    /// Zero is allowed even with a nonzero offset or field width, to
    /// keep the header bytes as part of the emitted frame.
    pub fn set_num_skip(&mut self, len: usize)
        ensures
            final(self)@ == (CodecModel {
                num_skip: Option::Some(len as int),
                ..old(self)@
            }),
    {
        self.num_skip = Some(len);
    }

    pub fn length_field_is_big_endian(&self) -> (r: bool)
        ensures
            r == self@.length_field_is_big_endian,
    {
        self.length_field_is_big_endian
    }

    pub fn set_length_field_is_big_endian(&mut self, is_big_endian: bool)
        ensures
            final(self)@ == (CodecModel {
                length_field_is_big_endian: is_big_endian,
                ..old(self)@
            }),
    {
        self.length_field_is_big_endian = is_big_endian;
    }

    /// The buffered bytes a header needs before it can be parsed.
    fn num_head_bytes(&self) -> (r: usize)
        requires
            self.wf(),
        ensures
            r == spec_head_len(self@),
    {
        let num = self.length_field_offset + self.length_field_len;
        let sk: usize = match self.num_skip {
            Some(n) => n,
            None => 0,
        };
        if num < sk {
            sk
        } else {
            num
        }
    }

    /// The header phase: read the length field, check it against the
    /// frame limit, apply the adjustment with overflow checking, and
    /// discard the skip region. Returns the payload length owed, or
    /// `None` while the header is still short.
    fn decode_head(&self, src: &mut BytesMut) -> (r: Result<Option<usize>, FrameError>)
        requires
            self.wf(),
        ensures
            ({
                let c = self@;
                let b = bytes_view(*old(src));
                match r {
                    Ok(None) => b.len() < spec_head_len(c) && bytes_view(*final(src)) == b,
                    Ok(Some(n)) => {
                        &&& b.len() >= spec_head_len(c)
                        &&& spec_raw_len(c, b) <= c.max_frame_len
                        &&& 0 <= spec_raw_len(c, b) + c.length_adjustment <= usize::MAX as int
                        &&& n == spec_raw_len(c, b) + c.length_adjustment
                        &&& bytes_view(*final(src)) == b.skip(spec_num_skip(c))
                    },
                    Err(FrameError::FrameTooLarge) => {
                        &&& b.len() >= spec_head_len(c)
                        &&& spec_raw_len(c, b) > c.max_frame_len
                        &&& bytes_view(*final(src)) == b
                    },
                    Err(FrameError::LengthAdjustmentOverflow) => {
                        &&& b.len() >= spec_head_len(c)
                        &&& spec_raw_len(c, b) <= c.max_frame_len
                        &&& !(0 <= spec_raw_len(c, b) + c.length_adjustment <= usize::MAX as int)
                        &&& bytes_view(*final(src)) == b
                    },
                    Err(FrameError::TruncatedStream) => false,
                }
            }),
    {
        let head_len = self.num_head_bytes();
        let field_len = self.length_field_len;

        if buf_len(src) < head_len {
            // not enough buffered yet to cover the header
            return Ok(None);
        }

        // read the field in the configured byte order
        let n_raw: u64 = if self.length_field_is_big_endian {
            read_big_endian(src, self.length_field_offset, field_len)
        } else {
            read_little_endian(src, self.length_field_offset, field_len)
        };

        if n_raw > self.max_frame_len as u64 {
            return Err(FrameError::FrameTooLarge);
        }

        // fits: the limit check above bounds it by a usize
        let n0 = n_raw as usize;

        // apply the adjustment, rejecting any value outside 0..=usize::MAX
        let adj = self.length_adjustment;
        let adjusted: Option<usize> = if adj < 0 {
            let mag: usize = ((-(adj + 1)) as usize) + 1;
            if n0 >= mag {
                Some(n0 - mag)
            } else {
                None
            }
        } else {
            let a = adj as usize;
            if n0 <= usize::MAX - a {
                Some(n0 + a)
            } else {
                None
            }
        };

        let n = match adjusted {
            Some(n) => n,
            None => {
                return Err(FrameError::LengthAdjustmentOverflow);
            },
        };

        let num_skip = self.num_skip();
        proof {
            assert(spec_num_skip(self@) <= spec_head_len(self@));
            assert(bytes_view(*src).skip(0) =~= bytes_view(*src));
        }
        if num_skip > 0 {
            let _head = buf_split_to(src, num_skip);
        }

        // room for the incoming payload (a capacity hint only)
        let cur = buf_len(src);
        if n <= usize::MAX - cur {
            buf_reserve(src, n);
        }

        Ok(Some(n))
    }

    /// The payload phase: once `n` bytes are buffered, remove and return
    /// them as the frame.
    fn decode_data(&self, n: usize, src: &mut BytesMut) -> (r: Option<BytesMut>)
        ensures
            ({
                let b = bytes_view(*old(src));
                match r {
                    None => b.len() < n && bytes_view(*final(src)) == b,
                    Some(frame) => {
                        &&& b.len() >= n
                        &&& bytes_view(frame) == b.take(n as int)
                        &&& bytes_view(*final(src)) == b.skip(n as int)
                    },
                }
            }),
    {
        if buf_len(src) < n {
            return None;
        }

        Some(buf_split_to(src, n))
    }

    /// One decode call against the buffered bytes received so far. Each
    /// call yields at most one frame; `Ok(None)` asks the caller to
    /// supply more bytes and call again. Errors leave the buffer and the
    /// cursor as they were.
    pub fn decode(&mut self, src: &mut BytesMut) -> (r: Result<Option<BytesMut>, FrameError>)
        requires
            old(self).wf(),
        ensures
            final(self).wf(),
            ({
                let step = spec_decode(old(self)@, bytes_view(*old(src)));
                &&& final(self)@ == step.codec
                &&& bytes_view(*final(src)) == step.buf
                &&& match r {
                    Ok(None) => step.outcome == DecodeOutcome::Pending,
                    Ok(Some(frame)) => step.outcome == DecodeOutcome::Frame(bytes_view(frame)),
                    Err(FrameError::FrameTooLarge) => step.outcome == DecodeOutcome::TooLarge,
                    Err(FrameError::LengthAdjustmentOverflow) => step.outcome
                        == DecodeOutcome::AdjustOverflow,
                    Err(FrameError::TruncatedStream) => false,
                }
            }),
    {
        let n: usize = match self.state {
            DecodeState::Head => {
                match self.decode_head(src) {
                    Ok(Some(n)) => {
                        self.state = DecodeState::Data(n);
                        n
                    },
                    Ok(None) => {
                        return Ok(None);
                    },
                    Err(e) => {
                        return Err(e);
                    },
                }
            },
            DecodeState::Data(n) => n,
        };

        match self.decode_data(n, src) {
            Some(data) => {
                self.state = DecodeState::Head;

                // room for the next header (a capacity hint only)
                let head_len = self.num_head_bytes();
                let cur = buf_len(src);
                if head_len <= usize::MAX - cur {
                    buf_reserve(src, head_len);
                }

                Ok(Some(data))
            },
            None => Ok(None),
        }
    }

    /// A decode call for a source that has ended. With the cursor at a
    /// header and nothing buffered the stream ended cleanly between
    /// frames; a partial header or payload is a framing violation.
    pub fn decode_eof(&mut self, src: &mut BytesMut) -> (r: Result<Option<BytesMut>, FrameError>)
        requires
            old(self).wf(),
        ensures
            final(self).wf(),
            ({
                let step = spec_decode(old(self)@, bytes_view(*old(src)));
                &&& final(self)@ == step.codec
                &&& bytes_view(*final(src)) == step.buf
                &&& match r {
                    Ok(Some(frame)) => step.outcome == DecodeOutcome::Frame(bytes_view(frame)),
                    Ok(None) => {
                        &&& step.outcome == DecodeOutcome::Pending
                        &&& step.buf.len() == 0
                        &&& step.codec.state == StateModel::Head
                    },
                    Err(FrameError::TruncatedStream) => {
                        &&& step.outcome == DecodeOutcome::Pending
                        &&& !(step.buf.len() == 0 && step.codec.state == StateModel::Head)
                    },
                    Err(FrameError::FrameTooLarge) => step.outcome == DecodeOutcome::TooLarge,
                    Err(FrameError::LengthAdjustmentOverflow) => step.outcome
                        == DecodeOutcome::AdjustOverflow,
                }
            }),
    {
        match self.decode(src) {
            Ok(Some(frame)) => Ok(Some(frame)),
            Ok(None) => {
                let empty = buf_len(src) == 0;
                let at_head = match self.state {
                    DecodeState::Head => true,
                    DecodeState::Data(_) => false,
                };
                if empty && at_head {
                    Ok(None)
                } else {
                    Err(FrameError::TruncatedStream)
                }
            },
            Err(e) => Err(e),
        }
    }

    /// One encode call: append the length field (the payload length with
    /// the adjustment subtracted, in the configured byte order) and then
    /// the payload to the output buffer.
    pub fn encode(&mut self, item: BytesMut, dst: &mut BytesMut) -> (r: Result<(), FrameError>)
        requires
            old(self).wf(),
            bytes_view(*old(dst)).len() + 8 + bytes_view(item).len() <= usize::MAX as int,
        ensures
            final(self)@ == old(self)@,
            final(self).wf(),
            ({
                let res = spec_encode(old(self)@, bytes_view(item));
                match r {
                    Ok(_) => {
                        &&& res matches Ok(seg) && bytes_view(*final(dst)) == bytes_view(
                            *old(dst),
                        ) + seg
                    },
                    Err(e) => {
                        &&& res == Err::<Seq<u8>, FrameError>(e)
                        &&& bytes_view(*final(dst)) == bytes_view(*old(dst))
                    },
                }
            }),
    {
        let n = buf_len(&item);

        if n > self.max_frame_len {
            return Err(FrameError::FrameTooLarge);
        }

        // the field holds the payload length with the adjustment taken
        // back out, rejecting any value outside 0..=usize::MAX
        let adj = self.length_adjustment;
        let adjusted: Option<usize> = if adj < 0 {
            let mag: usize = ((-(adj + 1)) as usize) + 1;
            if n <= usize::MAX - mag {
                Some(n + mag)
            } else {
                None
            }
        } else {
            let a = adj as usize;
            if n >= a {
                Some(n - a)
            } else {
                None
            }
        };

        let field = match adjusted {
            Some(v) => v,
            None => {
                return Err(FrameError::LengthAdjustmentOverflow);
            },
        };

        let ghost mid = bytes_view(*old(dst)) + spec_field_bytes(self@, field as nat);
        append_field(dst, field as u64, self.length_field_len, self.length_field_is_big_endian);
        proof {
            crate::wire::lemma_big_endian_bytes_value(field as nat, self@.length_field_len as nat);
            crate::wire::lemma_little_endian_bytes_value(
                field as nat,
                self@.length_field_len as nat,
            );
        }
        buf_extend(dst, &item);
        proof {
            assert(mid + bytes_view(item) =~= bytes_view(*old(dst)) + (spec_field_bytes(
                self@,
                field as nat,
            ) + bytes_view(item)));
        }
        Ok(())
    }
}

} // verus!
