use vstd::prelude::*;

verus! {

/// Why no frame could be read.
#[derive(Debug, Clone, Copy, PartialEq, Eq, Structural)]
pub enum FrameError {
    /// The header block ended without a `Content-Length` header.
    MissingLengthHeader,
    /// The stream closed cleanly before a new frame began.
    UnexpectedEof,
    /// The stream closed inside a frame.
    Truncated,
}

/// One step of reading frames from a buffer.
#[derive(Debug, PartialEq)]
pub enum Decoded {
    /// A whole frame: its body, and the number of bytes of the buffer it took.
    Frame { body: Vec<u8>, consumed: usize },
    /// The buffer holds the start of a frame only; more bytes are needed.
    NeedMore,
}

/// The header name and separator that announce a body length: `Content-Length: `.
pub open spec fn length_prefix() -> Seq<u8> {
    seq![67u8, 111, 110, 116, 101, 110, 116, 45, 76, 101, 110, 103, 116, 104, 58, 32]
}

pub open spec fn is_digit(b: u8) -> bool {
    48 <= b <= 57
}

pub open spec fn all_digits(d: Seq<u8>) -> bool {
    forall|i: int| 0 <= i < d.len() ==> is_digit(#[trigger] d[i])
}

/// The number that a string of decimal digits writes.
pub open spec fn decimal(d: Seq<u8>) -> nat
    decreases d.len(),
{
    if d.len() == 0 {
        0
    } else {
        decimal(d.drop_last()) * 10 + (d.last() - 48) as nat
    }
}

/// The decimal digits of `n`, without leading zeros.
pub open spec fn digits(n: nat) -> Seq<u8>
    decreases n,
{
    if n < 10 {
        seq![(48 + n) as u8]
    } else {
        digits(n / 10).push((48 + n % 10) as u8)
    }
}

/// The value of a `Content-Length` header line (without its line end), when the line is one
/// and its value fits in a `usize`.
pub open spec fn header_value(line: Seq<u8>) -> Option<nat> {
    let d = line.subrange(16, line.len() as int);
    if line.len() > 16 && line.subrange(0, 16) == length_prefix() && all_digits(d) && decimal(d)
        <= usize::MAX {
        Some(decimal(d))
    } else {
        None
    }
}

/// The position of the first `\r\n` at or after `from`.
pub open spec fn line_end(s: Seq<u8>, from: int) -> Option<int>
    decreases s.len() - from,
{
    if from < 0 || from + 1 >= s.len() {
        None
    } else if s[from] == 13 && s[from + 1] == 10 {
        Some(from)
    } else {
        line_end(s, from + 1)
    }
}

/// The result of reading a header block.
pub enum HeaderScan {
    /// No blank line yet.
    Incomplete,
    /// The block ends before `body_start`; `length` is the last `Content-Length` value seen.
    Done { body_start: int, length: Option<nat> },
}

/// Reads header lines from `pos` until the blank line; `length` is the value seen so far.
pub open spec fn scan(s: Seq<u8>, pos: int, length: Option<nat>) -> HeaderScan
    decreases s.len() - pos,
{
    match line_end(s, pos) {
        None => HeaderScan::Incomplete,
        Some(e) => if e <= pos {
            HeaderScan::Done { body_start: e + 2, length }
        } else if e + 2 > s.len() {
            HeaderScan::Incomplete
        } else {
            scan(
                s,
                e + 2,
                match header_value(s.subrange(pos, e)) {
                    Some(v) => Some(v),
                    None => length,
                },
            )
        },
    }
}

/// What reading one frame from the start of `s` gives: `Ok(Some((body, consumed)))` for a
/// whole frame, `Ok(None)` when more bytes are needed; `closed` says that no more will come.
pub open spec fn frame_spec(s: Seq<u8>, closed: bool) -> Result<Option<(Seq<u8>, nat)>, FrameError> {
    if s.len() == 0 {
        if closed {
            Err(FrameError::UnexpectedEof)
        } else {
            Ok(None)
        }
    } else {
        match scan(s, 0, None) {
            HeaderScan::Incomplete => if closed {
                Err(FrameError::Truncated)
            } else {
                Ok(None)
            },
            HeaderScan::Done { body_start, length } => match length {
                None => Err(FrameError::MissingLengthHeader),
                Some(n) => if body_start + n <= s.len() {
                    Ok(Some((s.subrange(body_start, body_start + n), (body_start + n) as nat)))
                } else if closed {
                    Err(FrameError::Truncated)
                } else {
                    Ok(None)
                },
            },
        }
    }
}

/// The frame that carries `body`: its length header, a blank line, then the body.
pub open spec fn encode_spec(body: Seq<u8>) -> Seq<u8> {
    length_prefix() + digits(body.len()) + seq![13u8, 10, 13, 10] + body
}

impl Decoded {
    pub open spec fn spec_view(&self) -> Option<(Seq<u8>, nat)> {
        match self {
            Decoded::Frame { body, consumed } => Some((body@, *consumed as nat)),
            Decoded::NeedMore => None,
        }
    }
}

pub open spec fn decoded_view(r: Result<Decoded, FrameError>) -> Result<Option<(Seq<u8>, nat)>, FrameError> {
    match r {
        Ok(d) => Ok(d.spec_view()),
        Err(e) => Err(e),
    }
}

/// A line end found is a `\r\n` at or after `from`.
proof fn lemma_line_end_bounds(s: Seq<u8>, from: int)
    ensures
        match line_end(s, from) {
            Some(e) => 0 <= from <= e && e + 1 < s.len() && s[e] == 13 && s[e + 1] == 10,
            None => true,
        },
    decreases s.len() - from,
{
    if !(from < 0 || from + 1 >= s.len()) && !(s[from] == 13 && s[from + 1] == 10) {
        lemma_line_end_bounds(s, from + 1);
    }
}

fn find_line_end(buf: &[u8], from: usize) -> (r: Option<usize>)
    ensures
        match r {
            Some(e) => line_end(buf@, from as int) == Some(e as int),
            None => line_end(buf@, from as int) is None,
        },
{
    let mut i: usize = from;
    while i < buf.len()
        invariant
            from <= i,
            line_end(buf@, from as int) == line_end(buf@, i as int),
        decreases buf@.len() - i,
    {
        if i + 1 < buf.len() && buf[i] == 13 && buf[i + 1] == 10 {
            return Some(i);
        }
        if i + 1 >= buf.len() {
            return None;
        }
        i = i + 1;
    }
    None
}

/// A longer string of digits writes at least as large a number.
proof fn lemma_decimal_grows(d: Seq<u8>, x: u8)
    requires
        is_digit(x),
    ensures
        decimal(d.push(x)) == decimal(d) * 10 + (x - 48) as nat,
        decimal(d.push(x)) >= decimal(d),
{
    assert(d.push(x).drop_last() == d);
}

fn length_header(buf: &[u8], start: usize, end: usize) -> (r: Option<usize>)
    requires
        start <= end <= buf@.len(),
    ensures
        match r {
            Some(v) => header_value(buf@.subrange(start as int, end as int)) == Some(v as nat),
            None => header_value(buf@.subrange(start as int, end as int)) is None,
        },
{
    let ghost line = buf@.subrange(start as int, end as int);
    if end - start <= 16 {
        return None;
    }
    let prefix: Vec<u8> = vec![67, 111, 110, 116, 101, 110, 116, 45, 76, 101, 110, 103, 116, 104, 58, 32];
    assert(prefix@ == length_prefix());
    let mut k: usize = 0;
    while k < 16
        invariant
            k <= 16,
            start + 16 < end <= buf@.len(),
            prefix@ == length_prefix(),
            line == buf@.subrange(start as int, end as int),
            forall|t: int| 0 <= t < k ==> #[trigger] line[t] == prefix@[t],
        decreases 16 - k,
    {
        if buf[start + k] != prefix[k] {
            assert(line[k as int] != length_prefix()[k as int]);
            assert(line.subrange(0, 16)[k as int] != length_prefix()[k as int]);
            return None;
        }
        k = k + 1;
    }
    assert(line.subrange(0, 16) =~= length_prefix());
    let ghost d = line.subrange(16, line.len() as int);
    let mut value: usize = 0;
    let mut fits = true;
    let mut j: usize = start + 16;
    while j < end
        invariant
            start + 16 <= j <= end <= buf@.len(),
            line == buf@.subrange(start as int, end as int),
            d == line.subrange(16, line.len() as int),
            all_digits(buf@.subrange(start + 16, j as int)),
            fits ==> value == decimal(buf@.subrange(start + 16, j as int)),
            !fits ==> decimal(buf@.subrange(start + 16, j as int)) > usize::MAX,
        decreases end - j,
    {
        let b = buf[j];
        if b < 48 || b > 57 {
            assert(d[j - start - 16] == b);
            return None;
        }
        let ghost prev = buf@.subrange(start + 16, j as int);
        proof {
            assert(buf@.subrange(start + 16, j + 1) == prev.push(b));
            lemma_decimal_grows(prev, b);
        }
        let digit = (b - 48) as usize;
        if fits {
            if value > (usize::MAX - digit) / 10 {
                fits = false;
                assert(value * 10 + digit > usize::MAX) by (nonlinear_arith)
                    requires
                        value > (usize::MAX - digit) / 10,
                        digit <= 9,
                ;
            } else {
                assert(value * 10 + digit <= usize::MAX) by (nonlinear_arith)
                    requires
                        value <= (usize::MAX - digit) / 10,
                        digit <= 9,
                ;
                value = value * 10 + digit;
            }
        }
        j = j + 1;
    }
    assert(buf@.subrange(start + 16, end as int) =~= d);
    if fits {
        Some(value)
    } else {
        None
    }
}

fn copy_range(buf: &[u8], from: usize, to: usize) -> (r: Vec<u8>)
    requires
        from <= to <= buf@.len(),
    ensures
        r@ == buf@.subrange(from as int, to as int),
{
    let mut out: Vec<u8> = Vec::new();
    let mut i: usize = from;
    while i < to
        invariant
            from <= i <= to <= buf@.len(),
            out@ == buf@.subrange(from as int, i as int),
        decreases to - i,
    {
        out.push(buf[i]);
        i = i + 1;
        assert(out@ =~= buf@.subrange(from as int, i as int));
    }
    out
}

/// Reads one frame from the start of `buf`: header lines ended by `\r\n`, of which a
/// `Content-Length: <decimal>` line gives the body length and others are ignored, a blank
/// line, then the body. `closed` says that the stream has ended, so that what is missing
/// will not come.
pub fn decode_frame(buf: &[u8], closed: bool) -> (r: Result<Decoded, FrameError>)
    ensures
        decoded_view(r) == frame_spec(buf@, closed),
{
    let n = buf.len();
    if n == 0 {
        return if closed {
            Err(FrameError::UnexpectedEof)
        } else {
            Ok(Decoded::NeedMore)
        };
    }
    let ghost s = buf@;
    let mut pos: usize = 0;
    let mut length: Option<usize> = None;
    loop
        invariant
            s == buf@,
            n == s.len(),
            n > 0,
            pos <= n,
            scan(s, 0, None) == scan(
                s,
                pos as int,
                match length {
                    Some(v) => Some(v as nat),
                    None => None,
                },
            ),
        decreases n - pos,
    {
        proof {
            lemma_line_end_bounds(s, pos as int);
        }
        match find_line_end(buf, pos) {
            None => {
                proof {
                    let lv = match length {
                        Some(v) => Some(v as nat),
                        None => None,
                    };
                    assert(scan(s, pos as int, lv) == HeaderScan::Incomplete);
                }
                if closed {
                    return Err(FrameError::Truncated);
                } else {
                    return Ok(Decoded::NeedMore);
                }
            },
            Some(e) => {
                if e <= pos {
                    let body_start = e + 2;
                    match length {
                        None => {
                            return Err(FrameError::MissingLengthHeader);
                        },
                        Some(len) => {
                            if len <= n - body_start {
                                let body = copy_range(buf, body_start, body_start + len);
                                return Ok(Decoded::Frame { body, consumed: body_start + len });
                            } else if closed {
                                return Err(FrameError::Truncated);
                            } else {
                                return Ok(Decoded::NeedMore);
                            }
                        },
                    }
                }
                match length_header(buf, pos, e) {
                    Some(v) => {
                        length = Some(v);
                    },
                    None => {},
                }
                pos = e + 2;
            },
        }
    }
}

fn push_decimal(out: &mut Vec<u8>, n: usize)
    ensures
        final(out)@ == old(out)@ + digits(n as nat),
    decreases n,
{
    if n >= 10 {
        push_decimal(out, n / 10);
    }
    out.push((48 + n % 10) as u8);
    proof {
        if n >= 10 {
            assert(final(out)@ =~= old(out)@ + digits(n as nat));
        } else {
            assert(final(out)@ =~= old(out)@ + digits(n as nat));
        }
    }
}

/// Frames `body`: `Content-Length: <length>\r\n\r\n` followed by the body bytes.
pub fn encode_frame(body: &[u8]) -> (r: Vec<u8>)
    ensures
        r@ == encode_spec(body@),
{
    let mut out: Vec<u8> = vec![67, 111, 110, 116, 101, 110, 116, 45, 76, 101, 110, 103, 116, 104, 58, 32];
    assert(out@ == length_prefix());
    push_decimal(&mut out, body.len());
    out.push(13);
    out.push(10);
    out.push(13);
    out.push(10);
    let ghost before = out@;
    let mut i: usize = 0;
    while i < body.len()
        invariant
            i <= body@.len(),
            out@ == before + body@.subrange(0, i as int),
        decreases body@.len() - i,
    {
        out.push(body[i]);
        i = i + 1;
        assert(out@ =~= before + body@.subrange(0, i as int));
    }
    assert(body@.subrange(0, body@.len() as int) == body@);
    assert(out@ =~= encode_spec(body@));
    out
}

/// The digits of `n` are decimal digits that write `n`.
pub proof fn lemma_digits(n: nat)
    ensures
        digits(n).len() >= 1,
        all_digits(digits(n)),
        decimal(digits(n)) == n,
    decreases n,
{
    if n >= 10 {
        lemma_digits(n / 10);
        let x = (48 + n % 10) as u8;
        lemma_decimal_grows(digits(n / 10), x);
        assert((x - 48) as nat == n % 10);
        assert((n / 10) * 10 + n % 10 == n);
        assert(all_digits(digits(n))) by {
            assert forall|i: int| 0 <= i < digits(n).len() implies is_digit(#[trigger] digits(n)[i]) by {
                if i < digits(n / 10).len() {
                    assert(digits(n)[i] == digits(n / 10)[i]);
                }
            }
        }
    } else {
        assert(digits(n).drop_last() =~= Seq::<u8>::empty());
        assert(decimal(digits(n).drop_last()) == 0);
    }
}

/// The first line end after a stretch without carriage returns.
proof fn lemma_line_end_at(s: Seq<u8>, from: int, e: int)
    requires
        0 <= from <= e,
        e + 1 < s.len(),
        s[e] == 13,
        s[e + 1] == 10,
        forall|i: int| from <= i < e ==> #[trigger] s[i] != 13,
    ensures
        line_end(s, from) == Some(e),
    decreases e - from,
{
    if from < e {
        lemma_line_end_at(s, from + 1, e);
    }
}

/// Framing is undone by reading: the frame of any body, whatever bytes follow it, reads
/// back as that body and takes exactly the frame's bytes.
pub proof fn lemma_frame_round_trip(body: Seq<u8>, rest: Seq<u8>, closed: bool)
    requires
        body.len() <= usize::MAX,
    ensures
        frame_spec(encode_spec(body) + rest, closed) == Ok::<Option<(Seq<u8>, nat)>, FrameError>(
            Some((body, encode_spec(body).len()))),
{
    let p = length_prefix();
    let d = digits(body.len());
    let crlf2 = seq![13u8, 10, 13, 10];
    let s = encode_spec(body) + rest;
    lemma_digits(body.len());
    let k = d.len() as int;
    let e1 = 16 + k;
    assert(s == p + d + crlf2 + body + rest);
    assert forall|i: int| 0 <= i < e1 implies #[trigger] s[i] != 13 by {
        if i < 16 {
            assert(s[i] == p[i]);
        } else {
            assert(s[i] == d[i - 16]);
            assert(is_digit(d[i - 16]));
        }
    }
    assert(s[e1] == 13);
    assert(s[e1 + 1] == 10);
    assert(s[e1 + 2] == 13);
    assert(s[e1 + 3] == 10);
    lemma_line_end_at(s, 0, e1);
    lemma_line_end_at(s, e1 + 2, e1 + 2);
    let line = s.subrange(0, e1);
    assert(line =~= p + d);
    assert(line.subrange(0, 16) =~= p);
    assert(line.subrange(16, line.len() as int) =~= d);
    assert(header_value(line) == Some(body.len()));
    assert(scan(s, e1 + 2, Some(body.len())) == HeaderScan::Done {
        body_start: e1 + 4,
        length: Some(body.len()),
    });
    assert(scan(s, 0, None) == HeaderScan::Done { body_start: e1 + 4, length: Some(body.len()) });
    assert(s.subrange(e1 + 4, e1 + 4 + body.len()) =~= body);
}

} // verus!
