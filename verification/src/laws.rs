//! The laws the codec obeys, stated over the specification-level state
//! machine and proved once for all configurations and inputs.

use vstd::prelude::*;
use vstd::arithmetic::power::pow;
use vstd::arithmetic::div_mod::lemma_small_mod;
use crate::length_codec::{
    CodecModel, StateModel, DecodeOutcome, FrameError, spec_decode, spec_encode, spec_head_len,
    spec_num_skip, spec_raw_len, spec_field_bytes, wf_model,
};
use crate::wire::{lemma_big_endian_bytes_value, lemma_little_endian_bytes_value};

verus! {

/// With the skip count unset — as in the default configuration — the
/// skip in effect is the length field offset plus the field width.
pub proof fn lemma_default_num_skip(c: CodecModel)
    requires
        c.num_skip is None,
    ensures
        spec_num_skip(c) == c.length_field_offset + c.length_field_len,
{
}

/// The frame limit is enforced at header parse, and exactly there: a
/// declared length of at most `max_frame_len` — in particular one equal
/// to it — is never rejected as too large, while one beyond it always
/// is.
pub proof fn lemma_max_frame_len_boundary(c: CodecModel, buf: Seq<u8>)
    requires
        c.state == StateModel::Head,
        buf.len() >= spec_head_len(c),
    ensures
        spec_raw_len(c, buf) <= c.max_frame_len ==> spec_decode(c, buf).outcome
            != DecodeOutcome::TooLarge,
        spec_raw_len(c, buf) > c.max_frame_len ==> spec_decode(c, buf).outcome
            == DecodeOutcome::TooLarge,
{
}

/// The length field the encoder writes holds the payload length with
/// the adjustment subtracted, and the decoder's header parse adds the
/// adjustment back: the two are inverse, so the declared length of an
/// encoded frame recovers the payload length exactly (the field must be
/// wide enough for the adjusted value, which the encoder's byte count
/// otherwise truncates).
pub proof fn lemma_adjustment_inverse(c: CodecModel, item: Seq<u8>, enc: Seq<u8>)
    requires
        wf_model(c),
        c.length_field_offset == 0,
        0 <= item.len() - c.length_adjustment < pow(256, c.length_field_len as nat),
        spec_encode(c, item) == Ok::<Seq<u8>, FrameError>(enc),
    ensures
        spec_raw_len(c, enc) == item.len() - c.length_adjustment,
        spec_raw_len(c, enc) + c.length_adjustment == item.len(),
{
    let w = c.length_field_len;
    let field = (item.len() - c.length_adjustment) as nat;
    lemma_big_endian_bytes_value(field, w as nat);
    lemma_little_endian_bytes_value(field, w as nat);
    assert(enc.subrange(0, w) =~= spec_field_bytes(c, field));
    lemma_small_mod(field, pow(256, w as nat) as nat);
}

/// Round-trip: any payload within the frame limit, encoded under a
/// configuration that skips exactly the length field it writes (no
/// offset) and whose field is wide enough for the adjusted length,
/// decodes back unchanged in a single call, leaving the cursor at
/// `Head` and the buffer empty.
pub proof fn lemma_encode_decode_round_trip(c: CodecModel, item: Seq<u8>)
    requires
        wf_model(c),
        c.state == StateModel::Head,
        c.length_field_offset == 0,
        spec_num_skip(c) == c.length_field_len,
        item.len() <= c.max_frame_len,
        0 <= item.len() - c.length_adjustment <= c.max_frame_len,
        item.len() - c.length_adjustment < pow(256, c.length_field_len as nat),
    ensures
        spec_encode(c, item) matches Ok(enc) && {
            let step = spec_decode(c, enc);
            &&& step.outcome == DecodeOutcome::Frame(item)
            &&& step.buf.len() == 0
            &&& step.codec.state == StateModel::Head
        },
{
    let w = c.length_field_len;
    let field = (item.len() - c.length_adjustment) as nat;
    let enc = spec_field_bytes(c, field) + item;
    assert(spec_encode(c, item) == Ok::<Seq<u8>, FrameError>(enc));
    lemma_big_endian_bytes_value(field, w as nat);
    lemma_little_endian_bytes_value(field, w as nat);
    assert(spec_head_len(c) == w);
    assert(enc.len() == w + item.len());
    lemma_adjustment_inverse(c, item, enc);
    assert(enc.skip(w) =~= item);
    let step = spec_decode(c, enc);
    assert(item.take(item.len() as int) =~= item);
    assert(item.skip(item.len() as int) =~= Seq::<u8>::empty());
}

/// Incremental delivery invariance: when a decode call ends `Pending`,
/// appending further bytes and calling again yields exactly what one
/// call on the combined byte sequence would have yielded. Applied
/// chunk by chunk, a stream split into arbitrarily many pieces — with
/// any number of no-progress calls in between — produces the same
/// frames as the whole stream fed at once.
pub proof fn lemma_decode_pending_extend(c: CodecModel, buf: Seq<u8>, ext: Seq<u8>)
    requires
        wf_model(c),
        spec_decode(c, buf).outcome == DecodeOutcome::Pending,
    ensures
        spec_decode(spec_decode(c, buf).codec, spec_decode(c, buf).buf + ext) == spec_decode(
            c,
            buf + ext,
        ),
{
    let step = spec_decode(c, buf);
    match c.state {
        StateModel::Head => {
            if buf.len() < spec_head_len(c) {
                assert(step.codec == c);
                assert(step.buf == buf);
            } else {
                let w = c.length_field_len;
                let off = c.length_field_offset;
                let sk = spec_num_skip(c);
                assert(sk <= spec_head_len(c));
                assert((buf + ext).subrange(off, off + w) =~= buf.subrange(off, off + w));
                assert(spec_raw_len(c, buf + ext) == spec_raw_len(c, buf));
                assert((buf + ext).skip(sk) =~= buf.skip(sk) + ext);
                let n = spec_raw_len(c, buf) + c.length_adjustment;
                assert(step.codec == (CodecModel { state: StateModel::Data(n), ..c }));
                assert(step.buf == buf.skip(sk));
            }
        },
        StateModel::Data(n) => {
            assert(step.codec == (CodecModel { state: StateModel::Data(n), ..c }));
            assert(step.buf == buf);
        },
    }
}

} // verus!
