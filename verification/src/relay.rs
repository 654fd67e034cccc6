//! The per-direction relay step: the decisions one copy loop makes between
//! its reads and writes. A loop feeds each raw header line to `header_feed`
//! until the block is complete, reads exactly the declared number of body
//! bytes, and hands them to `process_body`, which yields the bytes to forward
//! and the `id` to log. The two directions of a connection share no state, so
//! one direction failing never disturbs the other.

use vstd::prelude::*;

use crate::frame::{
    encode_frame, encode_frame_spec, spec_classify, spec_decode, spec_decode_headers,
    classify_header_line, decode_frame, first_nl, lemma_first_nl, FrameError, HeaderLine,
};
use crate::json::{body_id_view, json_object_id};

verus! {

/// What a copy loop has gathered from the header lines seen so far: the most
/// recent `Content-Length` value, if any. `Content-Type` leaves no trace — it
/// is accepted and ignored.
#[derive(Clone, Copy, PartialEq, Eq, Debug)]
pub struct HeaderAccum {
    /// The declared body length, once a `Content-Length` line has been seen.
    pub content_len: Option<usize>,
}

/// What one header line did to the header block being gathered.
#[derive(Clone, Copy, PartialEq, Eq, Debug)]
pub enum HeaderStep {
    /// The block is not finished; keep reading lines with this state.
    More(HeaderAccum),
    /// The blank line arrived: read exactly this many body bytes next.
    Body(usize),
    /// The line is rejected and the loop must stop, with the reason.
    Reject(FrameError),
}

/// What feeding one raw line to the accumulated state yields.
pub open spec fn spec_header_feed(acc: HeaderAccum, line: Seq<u8>) -> HeaderStep {
    match spec_classify(line) {
        HeaderLine::Blank => match acc.content_len {
            Some(n) => HeaderStep::Body(n),
            None => HeaderStep::Reject(FrameError::MissingLength),
        },
        HeaderLine::ContentType => HeaderStep::More(acc),
        HeaderLine::ContentLength(n) => HeaderStep::More(
            HeaderAccum { content_len: Some(n) },
        ),
        HeaderLine::Invalid(e) => HeaderStep::Reject(e),
    }
}

/// The state a copy loop starts each frame with: no length declared yet.
pub fn header_begin() -> (r: HeaderAccum)
    ensures
        r.content_len is None,
{
    HeaderAccum { content_len: None }
}

/// Feed one raw header line (bytes up to and including its `\n`) to the
/// block being gathered. An unrecognized header name is rejected from any
/// state; a repeated `Content-Length` keeps the most recent value; the blank
/// line completes the block only if a length was declared.
pub fn header_feed(acc: HeaderAccum, line: &[u8]) -> (r: HeaderStep)
    ensures
        r == spec_header_feed(acc, line@),
{
    match classify_header_line(line) {
        HeaderLine::Blank => match acc.content_len {
            Some(n) => HeaderStep::Body(n),
            None => HeaderStep::Reject(FrameError::MissingLength),
        },
        HeaderLine::ContentType => HeaderStep::More(acc),
        HeaderLine::ContentLength(n) => HeaderStep::More(
            HeaderAccum { content_len: Some(n) },
        ),
        HeaderLine::Invalid(e) => HeaderStep::Reject(e),
    }
}

/// Feeding the first line of a block to the incremental header step is
/// exactly one unfolding of the whole-block decoder: the loop a relay
/// direction runs and the frame decoder agree, line by line, from any
/// gathered state.
pub proof fn lemma_feed_agrees_with_decode(s: Seq<u8>, cur: Option<usize>)
    requires
        first_nl(s) >= 0,
    ensures
        spec_decode_headers(s, cur) == (match spec_header_feed(
            (HeaderAccum { content_len: cur }),
            s.take(first_nl(s) + 1),
        ) {
            HeaderStep::More(acc) => spec_decode_headers(
                s.skip(first_nl(s) + 1),
                acc.content_len,
            ),
            HeaderStep::Body(n) => Ok::<(usize, Seq<u8>), FrameError>(
                (n, s.skip(first_nl(s) + 1)),
            ),
            HeaderStep::Reject(e) => Err::<(usize, Seq<u8>), FrameError>(e),
        }),
{
    lemma_first_nl(s);
}

/// Handle one complete body: check that it is a key-value document, surface
/// its `id` for logging exactly when one is present, and re-serialize the
/// frame — the emitted header declares the body's own length and the body
/// bytes are forwarded verbatim.
pub fn process_body(body: &[u8]) -> (r: Result<(Vec<u8>, Option<String>), FrameError>)
    ensures
        match r {
            Ok(p) => {
                &&& p.0@ == encode_frame_spec(body@)
                &&& match p.1 {
                    Some(id) => body_id_view(body@) == Some(Some(id@)),
                    None => body_id_view(body@) == Some::<Option<Seq<char>>>(None),
                }
            },
            Err(e) => e == FrameError::BadPayload && body_id_view(body@) is None,
        },
{
    match json_object_id(body) {
        None => Err(FrameError::BadPayload),
        Some(id) => {
            let out = encode_frame(body);
            Ok((out, id))
        },
    }
}

/// Relay one whole frame held in `input`: decode it, check and peek at the
/// body, and produce the bytes to forward, the `id` to log, and how many
/// input bytes the frame occupied.
pub fn relay_frame(input: &[u8]) -> (r: Result<(Vec<u8>, Option<String>, usize), FrameError>)
    ensures
        match r {
            Ok(t) => {
                &&& spec_decode(input@) matches Ok(d)
                &&& t.2 == d.1
                &&& t.0@ == encode_frame_spec(d.0)
                &&& match t.1 {
                    Some(id) => body_id_view(d.0) == Some(Some(id@)),
                    None => body_id_view(d.0) == Some::<Option<Seq<char>>>(None),
                }
            },
            Err(e) => spec_decode(input@) == Err::<(Seq<u8>, int), FrameError>(e) || (
            spec_decode(input@) matches Ok(d) && e == FrameError::BadPayload && body_id_view(d.0)
                is None),
        },
{
    match decode_frame(input) {
        Err(e) => Err(e),
        Ok((body, consumed)) => match process_body(body.as_slice()) {
            Err(e) => Err(e),
            Ok((out, id)) => Ok((out, id, consumed)),
        },
    }
}

} // verus!
