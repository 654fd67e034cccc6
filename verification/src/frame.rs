//! The frame codec: classification of CRLF-terminated header lines, decoding
//! of one length-delimited frame from a byte sequence, and the exact
//! re-serialization of a frame from its body bytes.
//!
//! A frame is one or more header lines, each ending in `\r\n`, then a bare
//! `\r\n`, then exactly `Content-Length` bytes of body. `Content-Length` is
//! mandatory; `Content-Type` is accepted and ignored; any other header line
//! is a hard failure. On output only `Content-Length` is re-emitted: an
//! incoming `Content-Type` header is deliberately dropped when forwarding,
//! since the peer does not require it.

use vstd::prelude::*;

use crate::text::{
    dec_digits, dec_value, digits_of, has_prefix, lemma_dec_digits, len_field_ok,
    parse_len, render_dec, starts_with,
};

verus! {

/// Why a frame failed to decode.
#[derive(Clone, Copy, PartialEq, Eq, Debug)]
pub enum FrameError {
    /// A header line does not end in `\r\n` (including a source that ends
    /// mid-line).
    MalformedLine,
    /// A header line carries a name other than `Content-Length` or
    /// `Content-Type`.
    UnknownHeader,
    /// The `Content-Length` value is not a well-formed number of bytes.
    BadLength,
    /// The header block ended without a `Content-Length` header.
    MissingLength,
    /// The source ended before the declared number of body bytes.
    TruncatedBody,
    /// The body is not a structured key-value document.
    BadPayload,
}

/// What one header line (bytes up to and including its `\n`) means.
#[derive(Clone, Copy, PartialEq, Eq, Debug)]
pub enum HeaderLine {
    /// The bare `\r\n` line that terminates the header block.
    Blank,
    /// A `Content-Type` header; accepted and ignored.
    ContentType,
    /// A `Content-Length` header with its decoded byte count.
    ContentLength(usize),
    /// A line the codec rejects, with the reason.
    Invalid(FrameError),
}

/// The bytes of `"Content-Length: "`.
pub open spec fn clen_prefix() -> Seq<u8> {
    seq![
        67u8, 111u8, 110u8, 116u8, 101u8, 110u8, 116u8, 45u8, 76u8, 101u8, 110u8, 103u8, 116u8, 104u8, 58u8,
        32u8,
    ]
}

/// The bytes of `"Content-Type: "`.
pub open spec fn ctype_prefix() -> Seq<u8> {
    seq![67u8, 111u8, 110u8, 116u8, 101u8, 110u8, 116u8, 45u8, 84u8, 121u8, 112u8, 101u8, 58u8, 32u8]
}

/// The bytes of `"Content-Length: "`, for byte-level matching and encoding.
pub fn content_length_prefix() -> (r: Vec<u8>)
    ensures
        r@ == clen_prefix(),
{
    let mut v: Vec<u8> = Vec::new();
    v.push(67u8);
    v.push(111u8);
    v.push(110u8);
    v.push(116u8);
    v.push(101u8);
    v.push(110u8);
    v.push(116u8);
    v.push(45u8);
    v.push(76u8);
    v.push(101u8);
    v.push(110u8);
    v.push(103u8);
    v.push(116u8);
    v.push(104u8);
    v.push(58u8);
    v.push(32u8);
    proof {
        assert(v@ =~= clen_prefix());
    }
    v
}

/// The bytes of `"Content-Type: "`, for byte-level matching.
pub fn content_type_prefix() -> (r: Vec<u8>)
    ensures
        r@ == ctype_prefix(),
{
    let mut v: Vec<u8> = Vec::new();
    v.push(67u8);
    v.push(111u8);
    v.push(110u8);
    v.push(116u8);
    v.push(101u8);
    v.push(110u8);
    v.push(116u8);
    v.push(45u8);
    v.push(84u8);
    v.push(121u8);
    v.push(112u8);
    v.push(101u8);
    v.push(58u8);
    v.push(32u8);
    proof {
        assert(v@ =~= ctype_prefix());
    }
    v
}

/// The meaning of one raw header line. The line must end in `\r\n`; the text
/// before the terminator is either empty (end of the header block), one of
/// the two recognized header names with its value, or rejected.
pub open spec fn spec_classify(line: Seq<u8>) -> HeaderLine {
    if line.len() < 2 || line[line.len() - 2] != 13 || line[line.len() - 1] != 10 {
        HeaderLine::Invalid(FrameError::MalformedLine)
    } else {
        let text = line.take(line.len() - 2);
        if text.len() == 0 {
            HeaderLine::Blank
        } else if has_prefix(text, ctype_prefix()) {
            HeaderLine::ContentType
        } else if has_prefix(text, clen_prefix()) {
            let field = text.skip(clen_prefix().len() as int);
            if len_field_ok(field) {
                HeaderLine::ContentLength(dec_value(digits_of(field)) as usize)
            } else {
                HeaderLine::Invalid(FrameError::BadLength)
            }
        } else {
            HeaderLine::Invalid(FrameError::UnknownHeader)
        }
    }
}

/// Classify one raw header line, exactly as `spec_classify` reads it.
pub fn classify_header_line(line: &[u8]) -> (r: HeaderLine)
    ensures
        r == spec_classify(line@),
{
    let n = line.len();
    if n < 2 || line[n - 2] != 13 || line[n - 1] != 10 {
        return HeaderLine::Invalid(FrameError::MalformedLine);
    }
    let text = vstd::slice::slice_subrange(line, 0, n - 2);
    proof {
        assert(text@ =~= line@.take(line@.len() - 2));
    }
    if text.len() == 0 {
        return HeaderLine::Blank;
    }
    let ctype = content_type_prefix();
    if starts_with(text, ctype.as_slice()) {
        return HeaderLine::ContentType;
    }
    let clen = content_length_prefix();
    if starts_with(text, clen.as_slice()) {
        let field = vstd::slice::slice_subrange(text, 16, text.len());
        proof {
            assert(field@ =~= text@.skip(clen_prefix().len() as int));
        }
        match parse_len(field) {
            Some(v) => {
                proof {
                    assert(v == dec_value(digits_of(field@)) as usize);
                }
                return HeaderLine::ContentLength(v);
            },
            None => {
                return HeaderLine::Invalid(FrameError::BadLength);
            },
        }
    }
    HeaderLine::Invalid(FrameError::UnknownHeader)
}

/// Index of the first `\n` in `s`, or `-1` if there is none.
pub open spec fn first_nl(s: Seq<u8>) -> int
    decreases s.len(),
{
    if s.len() == 0 {
        -1
    } else if s[0] == 10 {
        0
    } else if first_nl(s.skip(1)) < 0 {
        -1
    } else {
        1 + first_nl(s.skip(1))
    }
}

/// What `first_nl` finds: a valid index of a `\n` preceded by none, or the
/// fact that `s` holds no `\n` at all.
pub proof fn lemma_first_nl(s: Seq<u8>)
    ensures
        first_nl(s) < 0 ==> forall|j: int| 0 <= j < s.len() ==> s[j] != 10,
        first_nl(s) >= 0 ==> 0 <= first_nl(s) < s.len() && s[first_nl(s)] == 10 && forall|j: int|
            0 <= j < first_nl(s) ==> s[j] != 10,
    decreases s.len(),
{
    if s.len() > 0 && s[0] != 10 {
        lemma_first_nl(s.skip(1));
        if first_nl(s.skip(1)) < 0 {
            assert forall|j: int| 0 <= j < s.len() implies s[j] != 10 by {
                if j > 0 {
                    assert(s.skip(1)[j - 1] == s[j]);
                }
            }
        } else {
            let m = first_nl(s.skip(1));
            assert(s[m + 1] == s.skip(1)[m]);
            assert forall|j: int| 0 <= j < m + 1 implies s[j] != 10 by {
                if j > 0 {
                    assert(s.skip(1)[j - 1] == s[j]);
                }
            }
        }
    }
}

/// If `k` is the position of the first `\n` in `s`, `first_nl` returns it.
pub proof fn lemma_first_nl_at(s: Seq<u8>, k: int)
    requires
        0 <= k < s.len(),
        s[k] == 10,
        forall|j: int| 0 <= j < k ==> s[j] != 10,
    ensures
        first_nl(s) == k,
    decreases k,
{
    if k > 0 {
        assert(forall|j: int| 0 <= j < k - 1 ==> s.skip(1)[j] == s[j + 1]);
        assert(s.skip(1)[k - 1] == 10);
        lemma_first_nl_at(s.skip(1), k - 1);
    }
}

/// If `s` holds no `\n`, `first_nl` reports none.
pub proof fn lemma_first_nl_none(s: Seq<u8>)
    requires
        forall|j: int| 0 <= j < s.len() ==> s[j] != 10,
    ensures
        first_nl(s) == -1,
    decreases s.len(),
{
    if s.len() > 0 {
        assert(forall|j: int| 0 <= j < s.skip(1).len() ==> s.skip(1)[j] == s[j + 1]);
        lemma_first_nl_none(s.skip(1));
    }
}

/// Decode the header block at the front of `s`, carrying the most recent
/// `Content-Length` value seen so far. On success, yields the declared body
/// length and the bytes that follow the blank line.
pub open spec fn spec_decode_headers(s: Seq<u8>, cur: Option<usize>) -> Result<
    (usize, Seq<u8>),
    FrameError,
>
    decreases s.len(),
{
    let k = first_nl(s);
    if k < 0 || k + 1 > s.len() {
        Err(FrameError::MalformedLine)
    } else {
        let line = s.take(k + 1);
        let rest = s.skip(k + 1);
        match spec_classify(line) {
            HeaderLine::Blank => match cur {
                Some(n) => Ok((n, rest)),
                None => Err(FrameError::MissingLength),
            },
            HeaderLine::ContentType => spec_decode_headers(rest, cur),
            HeaderLine::ContentLength(n) => spec_decode_headers(rest, Some(n)),
            HeaderLine::Invalid(e) => Err(e),
        }
    }
}

/// Decode one whole frame from the front of `s`: the body bytes and how many
/// bytes of `s` the frame occupied.
pub open spec fn spec_decode(s: Seq<u8>) -> Result<(Seq<u8>, int), FrameError> {
    match spec_decode_headers(s, None) {
        Err(e) => Err(e),
        Ok((n, rest)) => if n <= rest.len() {
            Ok((rest.take(n as int), s.len() - rest.len() + n))
        } else {
            Err(FrameError::TruncatedBody)
        },
    }
}

/// The exact bytes of the re-emitted header for a body of `n` bytes:
/// `Content-Length: <n>\r\n\r\n`.
pub open spec fn frame_header_spec(n: nat) -> Seq<u8> {
    clen_prefix() + dec_digits(n) + seq![13u8, 10u8] + seq![13u8, 10u8]
}

/// The exact bytes of a whole re-emitted frame: the header for the body's
/// length, then the body unchanged.
pub open spec fn encode_frame_spec(body: Seq<u8>) -> Seq<u8> {
    frame_header_spec(body.len()) + body
}

/// Build the header bytes for a body of `len` bytes.
pub fn encode_frame_header(len: usize) -> (r: Vec<u8>)
    ensures
        r@ == frame_header_spec(len as nat),
{
    let mut out = content_length_prefix();
    let mut digits = render_dec(len);
    out.append(&mut digits);
    out.push(13);
    out.push(10);
    out.push(13);
    out.push(10);
    proof {
        assert(out@ =~= frame_header_spec(len as nat));
    }
    out
}

/// Re-serialize a frame from its body bytes: header, then the body verbatim.
pub fn encode_frame(body: &[u8]) -> (r: Vec<u8>)
    ensures
        r@ == encode_frame_spec(body@),
{
    let mut out = encode_frame_header(body.len());
    let mut b = vstd::slice::slice_to_vec(body);
    out.append(&mut b);
    proof {
        assert(out@ =~= encode_frame_spec(body@));
    }
    out
}

/// Decode one frame from the front of `input`: on success the body bytes and
/// the number of bytes consumed, otherwise exactly the failure `spec_decode`
/// assigns.
pub fn decode_frame(input: &[u8]) -> (r: Result<(Vec<u8>, usize), FrameError>)
    ensures
        match r {
            Ok(p) => spec_decode(input@) == Ok::<(Seq<u8>, int), FrameError>((p.0@, p.1 as int)),
            Err(e) => spec_decode(input@) == Err::<(Seq<u8>, int), FrameError>(e),
        },
{
    let mut pos: usize = 0;
    let mut cur: Option<usize> = None;
    let mut blen: usize = 0;
    proof {
        assert(input@.skip(0) =~= input@);
    }
    loop
        invariant_except_break
            spec_decode_headers(input@, None) == spec_decode_headers(
                input@.skip(pos as int),
                cur,
            ),
        invariant
            pos <= input@.len(),
        ensures
            pos <= input@.len(),
            spec_decode_headers(input@, None) == Ok::<(usize, Seq<u8>), FrameError>(
                (blen, input@.skip(pos as int)),
            ),
        decreases input@.len() - pos,
    {
        let mut j: usize = pos;
        while j < input.len() && input[j] != 10
            invariant
                pos <= j <= input@.len(),
                forall|t: int| pos <= t < j ==> input@[t] != 10,
            decreases input@.len() - j,
        {
            j = j + 1;
        }
        if j == input.len() {
            proof {
                assert(forall|t: int|
                    0 <= t < input@.skip(pos as int).len() ==> input@.skip(pos as int)[t]
                        == input@[t + pos]);
                lemma_first_nl_none(input@.skip(pos as int));
            }
            return Err(FrameError::MalformedLine);
        }
        proof {
            assert(forall|t: int|
                0 <= t < input@.skip(pos as int).len() ==> input@.skip(pos as int)[t] == input@[t
                    + pos]);
            lemma_first_nl_at(input@.skip(pos as int), j - pos);
        }
        let line = vstd::slice::slice_subrange(input, pos, j + 1);
        proof {
            assert(line@ =~= input@.skip(pos as int).take(j - pos + 1));
            assert(input@.skip(pos as int).skip(j - pos + 1) =~= input@.skip(j + 1));
        }
        let next = j + 1;
        match classify_header_line(line) {
            HeaderLine::Blank => {
                match cur {
                    Some(n) => {
                        blen = n;
                        pos = next;
                        break;
                    },
                    None => {
                        return Err(FrameError::MissingLength);
                    },
                }
            },
            HeaderLine::ContentType => {
                pos = next;
            },
            HeaderLine::ContentLength(n) => {
                cur = Some(n);
                pos = next;
            },
            HeaderLine::Invalid(e) => {
                return Err(e);
            },
        }
    }
    if input.len() - pos < blen {
        return Err(FrameError::TruncatedBody);
    }
    let body = vstd::slice::slice_subrange(input, pos, pos + blen);
    proof {
        assert(body@ =~= input@.skip(pos as int).take(blen as int));
    }
    let v = vstd::slice::slice_to_vec(body);
    Ok((v, pos + blen))
}

/// The header block this codec emits — `Content-Length: <n>` and the blank
/// terminator line, nothing else — always decodes, to the length `n`, leaving
/// whatever follows it untouched.
pub proof fn lemma_header_block_accepted(n: nat, tail: Seq<u8>)
    requires
        n <= usize::MAX,
    ensures
        spec_decode_headers(frame_header_spec(n) + tail, None) == Ok::<
            (usize, Seq<u8>),
            FrameError,
        >((n as usize, tail)),
{
    lemma_dec_digits(n);
    let dd = dec_digits(n);
    let text = clen_prefix() + dd;
    let line1 = text + seq![13u8, 10u8];
    let s = frame_header_spec(n) + tail;
    let rest1 = seq![13u8, 10u8] + tail;
    assert(s =~= line1 + rest1);
    // The first newline of the whole block ends the Content-Length line.
    let k = text.len() as int + 1;
    assert(s[k] == 10);
    assert forall|j: int| 0 <= j < k implies s[j] != 10 by {
        if j < 16 {
            assert(s[j] == clen_prefix()[j]);
        } else if j < text.len() {
            assert(s[j] == dd[j - 16]);
            assert(48 <= dd[j - 16] <= 57);
        } else {
            assert(s[j] == 13);
        }
    }
    lemma_first_nl_at(s, k);
    // That line is a well-formed Content-Length header for n.
    assert(s.take(k + 1) =~= line1);
    assert(line1[line1.len() - 2] == 13 && line1[line1.len() - 1] == 10);
    assert(line1.take(line1.len() - 2) =~= text);
    assert(!has_prefix(text, ctype_prefix())) by {
        if has_prefix(text, ctype_prefix()) {
            assert(text.take(ctype_prefix().len() as int)[8] == ctype_prefix()[8]);
            assert(text[8] == clen_prefix()[8]);
        }
    }
    assert(has_prefix(text, clen_prefix())) by {
        assert(text.take(clen_prefix().len() as int) =~= clen_prefix());
    }
    assert(text.skip(clen_prefix().len() as int) =~= dd);
    assert(digits_of(dd) =~= dd) by {
        assert(48 <= dd[0] <= 57);
    }
    assert(len_field_ok(dd));
    assert(spec_classify(line1) == HeaderLine::ContentLength(n as usize));
    assert(s.skip(k + 1) =~= rest1);
    // The next line is the bare terminator, so the block is complete.
    lemma_first_nl_at(rest1, 1);
    assert(rest1.take(2) =~= seq![13u8, 10u8]);
    assert(rest1.take(2).take(0) =~= Seq::<u8>::empty());
    assert(spec_classify(rest1.take(2)) == HeaderLine::Blank);
    assert(rest1.skip(2) =~= tail);
    assert(spec_decode_headers(rest1, Some(n as usize)) == Ok::<(usize, Seq<u8>), FrameError>(
        (n as usize, tail),
    ));
    assert(spec_decode_headers(s, None) == spec_decode_headers(s.skip(k + 1), Some(n as usize)));
    assert(spec_decode_headers(s.skip(k + 1), Some(n as usize)) == spec_decode_headers(
        rest1,
        Some(n as usize),
    ));
}

/// Round trip: a frame re-serialized from any body decodes back to exactly
/// that body, consuming exactly the bytes that were written.
pub proof fn lemma_encode_decode(body: Seq<u8>)
    requires
        body.len() <= usize::MAX,
    ensures
        spec_decode(encode_frame_spec(body)) == Ok::<(Seq<u8>, int), FrameError>(
            (body, encode_frame_spec(body).len() as int),
        ),
{
    lemma_header_block_accepted(body.len(), body);
    let s = encode_frame_spec(body);
    assert(spec_decode_headers(s, None) == Ok::<(usize, Seq<u8>), FrameError>(
        (body.len() as usize, body),
    ));
    assert(body.take(body.len() as int) =~= body);
    assert(s.len() - body.len() + body.len() == s.len());
}

/// A header block that carries only `Content-Length` and the blank line
/// always decodes (the accepting half of header classification).
pub proof fn lemma_minimal_header_accepted(n: nat)
    requires
        n <= usize::MAX,
    ensures
        spec_decode_headers(frame_header_spec(n), None) == Ok::<(usize, Seq<u8>), FrameError>(
            (n as usize, Seq::<u8>::empty()),
        ),
{
    lemma_header_block_accepted(n, Seq::<u8>::empty());
    assert(frame_header_spec(n) + Seq::<u8>::empty() =~= frame_header_spec(n));
}

/// A block whose first line carries an unrecognized header name fails
/// decoding, no matter what headers have been accepted so far.
pub proof fn lemma_unknown_header_rejected(s: Seq<u8>, cur: Option<usize>)
    requires
        first_nl(s) >= 0,
        spec_classify(s.take(first_nl(s) + 1)) == HeaderLine::Invalid(FrameError::UnknownHeader),
    ensures
        spec_decode_headers(s, cur) == Err::<(usize, Seq<u8>), FrameError>(
            FrameError::UnknownHeader,
        ),
{
    lemma_first_nl(s);
}

/// A header block that decodes is a complete prefix: bytes arriving after it
/// cannot change what was decoded, only extend what follows.
pub proof fn lemma_headers_prefix_stable(
    s: Seq<u8>,
    t: Seq<u8>,
    cur: Option<usize>,
    n: usize,
    rest: Seq<u8>,
)
    requires
        spec_decode_headers(s, cur) == Ok::<(usize, Seq<u8>), FrameError>((n, rest)),
    ensures
        spec_decode_headers(s + t, cur) == Ok::<(usize, Seq<u8>), FrameError>((n, rest + t)),
    decreases s.len(),
{
    lemma_first_nl(s);
    let k = first_nl(s);
    assert(k >= 0);
    let st = s + t;
    assert(st[k] == 10);
    assert forall|j: int| 0 <= j < k implies st[j] != 10 by {
        assert(st[j] == s[j]);
    }
    lemma_first_nl_at(st, k);
    assert(st.take(k + 1) =~= s.take(k + 1));
    assert(st.skip(k + 1) =~= s.skip(k + 1) + t);
    match spec_classify(s.take(k + 1)) {
        HeaderLine::Blank => {
            assert(rest =~= s.skip(k + 1));
        },
        HeaderLine::ContentType => {
            lemma_headers_prefix_stable(s.skip(k + 1), t, cur, n, rest);
        },
        HeaderLine::ContentLength(m) => {
            lemma_headers_prefix_stable(s.skip(k + 1), t, Some(m), n, rest);
        },
        HeaderLine::Invalid(_) => {
            assert(false);
        },
    }
}

/// A decoded frame is unaffected by whatever bytes follow it on the stream:
/// decoding consumes a prefix, and later arrivals can neither change the body
/// nor the number of bytes the frame occupied. Frames are therefore handled
/// strictly in arrival order, one completed prefix at a time.
pub proof fn lemma_decode_prefix_stable(s: Seq<u8>, t: Seq<u8>, b: Seq<u8>, c: int)
    requires
        spec_decode(s) == Ok::<(Seq<u8>, int), FrameError>((b, c)),
    ensures
        spec_decode(s + t) == Ok::<(Seq<u8>, int), FrameError>((b, c)),
{
    match spec_decode_headers(s, None) {
        Ok(p) => {
            lemma_headers_prefix_stable(s, t, None, p.0, p.1);
            assert((p.1 + t).take(p.0 as int) =~= p.1.take(p.0 as int));
        },
        Err(_) => {
            assert(false);
        },
    }
}

/// A declared length larger than the bytes available after the header block
/// is never accepted: the frame fails with a truncated body.
pub proof fn lemma_short_body_rejected(s: Seq<u8>, n: usize, rest: Seq<u8>)
    requires
        spec_decode_headers(s, None) == Ok::<(usize, Seq<u8>), FrameError>((n, rest)),
        rest.len() < n,
    ensures
        spec_decode(s) == Err::<(Seq<u8>, int), FrameError>(FrameError::TruncatedBody),
{
}

} // verus!

