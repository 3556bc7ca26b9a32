//! The HTTP/1.1 response codec: header-line splitting, status-line parsing,
//! header recognition, and the three body-framing modes (fixed length,
//! chunked, read-until-close).
//!
//! Everything here is a pure function over the bytes received so far plus an
//! end-of-stream flag, so the caller can feed a growing buffer until the
//! outcome is no longer `NeedMore`.

use vstd::prelude::*;

use crate::ascii::{
    is_ws_byte, lower_seq, spec_contains_seq, spec_find_byte, spec_parse_uint, spec_trim,
    spec_trim_end, spec_trim_start, spec_uint_str, find_byte_from, parse_uint_window, skip_ws_lo, trim_window,
    uint_to_bytes, window_contains, window_eq_lower,
};
use vstd::string::StringSliceAdditionalSpecFns;

verus! {

/// The sequence of byte sequences a vector of byte vectors holds.
pub open spec fn lines_view(lines: Seq<Vec<u8>>) -> Seq<Seq<u8>> {
    lines.map_values(|v: Vec<u8>| v@)
}

/// The header section of a response: the header lines (each with its line
/// terminator, the status line first) and the offset where the body starts.
/// `None` while the terminating empty line has not arrived yet.
pub open spec fn spec_header_section(s: Seq<u8>) -> Option<(Seq<Seq<u8>>, int)>
    decreases s.len() via spec_header_section_decreases
{
    match spec_find_byte(s, 10) {
        None => None,
        Some(i) => {
            if i == 1 && s[0] == 13 {
                Some((Seq::empty(), 2))
            } else {
                match spec_header_section(s.skip(i + 1)) {
                    None => None,
                    Some((lines, end)) => Some((seq![s.take(i + 1)] + lines, i + 1 + end)),
                }
            }
        },
    }
}

#[via_fn]
proof fn spec_header_section_decreases(s: Seq<u8>) {
    crate::ascii::lemma_find_byte(s, 10);
}

/// Splits the header lines off `data[pos..]`, stopping at the empty line.
/// Returns the lines and the absolute offset of the body.
pub fn read_header_lines(data: &Vec<u8>, pos: usize) -> (r: Option<(Vec<Vec<u8>>, usize)>)
    requires
        pos <= data.len(),
    ensures
        match r {
            None => spec_header_section(data@.skip(pos as int)) is None,
            Some((lines, end)) => pos <= end <= data.len() && spec_header_section(
                data@.skip(pos as int),
            ) == Some((lines_view(lines@), end - pos)),
        },
    decreases data.len() - pos,
{
    let ghost s = data@.skip(pos as int);
    match find_byte_from(data, pos, 10) {
        None => None,
        Some(nl) => {
            let ghost i = nl - pos;
            assert(s[i] == data@[nl as int]);
            if nl == pos + 1 && data[pos] == 13 {
                let lines: Vec<Vec<u8>> = Vec::new();
                assert(lines_view(lines@) =~= Seq::<Seq<u8>>::empty());
                Some((lines, pos + 2))
            } else {
                let line: Vec<u8> = vstd::slice::slice_to_vec(
                    vstd::slice::slice_subrange(data.as_slice(), pos, nl + 1),
                );
                assert(line@ == s.take(i + 1)) by {
                    assert(data@.subrange(pos as int, nl + 1) =~= s.take(i + 1));
                }
                match read_header_lines(data, nl + 1) {
                    None => {
                        assert(s.skip(i + 1) =~= data@.skip(nl + 1));
                        None
                    },
                    Some((mut lines, end)) => {
                        assert(s.skip(i + 1) =~= data@.skip(nl + 1));
                        let ghost rest_lines = lines_view(lines@);
                        let ghost old_lines = lines@;
                        lines.insert(0, line);
                        proof {
                            let dv = lines_view(lines@);
                            assert(dv.len() == rest_lines.len() + 1);
                            assert(dv[0] == line@);
                            assert(forall|k: int|
                                1 <= k < dv.len() ==> lines@[k] == old_lines[k - 1]);
                            assert(forall|k: int|
                                1 <= k < dv.len() ==> #[trigger] dv[k] == rest_lines[k - 1]);
                            assert(dv =~= seq![s.take(i + 1)] + rest_lines);
                        }
                        Some((lines, end))
                    },
                }
            }
        },
    }
}

/// `s` with its leading run of non-whitespace bytes removed.
pub open spec fn spec_drop_tok(s: Seq<u8>) -> Seq<u8>
    decreases s.len(),
{
    if s.len() > 0 && !is_ws_byte(s[0]) {
        spec_drop_tok(s.drop_first())
    } else {
        s
    }
}

/// The leading run of non-whitespace bytes of `s`.
pub open spec fn spec_take_tok(s: Seq<u8>) -> Seq<u8>
    decreases s.len(),
{
    if s.len() > 0 && !is_ws_byte(s[0]) {
        seq![s[0]] + spec_take_tok(s.drop_first())
    } else {
        Seq::empty()
    }
}

/// The second whitespace-separated token of `s`, if `s` has at least two.
pub open spec fn spec_second_token(s: Seq<u8>) -> Option<Seq<u8>> {
    let rest = spec_trim_start(spec_drop_tok(spec_trim_start(s)));
    if rest.len() == 0 {
        None
    } else {
        Some(spec_take_tok(rest))
    }
}

/// The status code carried by a status line: its second token parsed as a
/// 16-bit unsigned decimal number, as `str::parse` reads one.
pub open spec fn spec_status_code_of(line: Seq<u8>) -> Option<int> {
    match spec_second_token(line) {
        None => None,
        Some(tok) => spec_parse_uint(tok, 10, 65535),
    }
}

/// Moves `lo` forward past the leading token inside the window `lo..hi`,
/// also identifying the token passed over.
pub fn skip_tok_lo(data: &Vec<u8>, lo: usize, hi: usize) -> (r: usize)
    requires
        lo <= hi <= data.len(),
    ensures
        lo <= r <= hi,
        data@.subrange(r as int, hi as int) == spec_drop_tok(data@.subrange(lo as int, hi as int)),
        data@.subrange(lo as int, r as int) == spec_take_tok(data@.subrange(lo as int, hi as int)),
    decreases hi - lo,
{
    if lo < hi && !(data[lo] == 32 || data[lo] == 9 || data[lo] == 13 || data[lo] == 10) {
        assert(data@.subrange(lo as int, hi as int).drop_first() =~= data@.subrange(
            lo as int + 1,
            hi as int,
        ));
        let r = skip_tok_lo(data, lo + 1, hi);
        assert(data@.subrange(lo as int, r as int) =~= seq![data@[lo as int]] + data@.subrange(
            lo as int + 1,
            r as int,
        ));
        r
    } else {
        assert(data@.subrange(lo as int, lo as int) =~= Seq::<u8>::empty());
        lo
    }
}

/// Parses the status code out of one status line, returning `None` where the
/// line has no second token or it is not a 16-bit decimal number.
pub fn status_code_of_line(line: &Vec<u8>) -> (r: Option<u16>)
    ensures
        match r {
            Some(c) => spec_status_code_of(line@) == Some(c as int),
            None => spec_status_code_of(line@) is None,
        },
{
    let n = line.len();
    assert(line@.subrange(0, n as int) =~= line@);
    let a = skip_ws_lo(line, 0, n);
    let b = skip_tok_lo(line, a, n);
    let c = skip_ws_lo(line, b, n);
    if c == n {
        assert(spec_trim_start(spec_drop_tok(spec_trim_start(line@))).len() == 0);
        None
    } else {
        let d = skip_tok_lo(line, c, n);
        assert(spec_second_token(line@) == Some(line@.subrange(c as int, d as int))) by {
            assert(spec_trim_start(spec_drop_tok(spec_trim_start(line@))) == line@.subrange(
                c as int,
                n as int,
            ));
        }
        match parse_uint_window(line, c, d, 10, 65535) {
            Some(v) => Some(v as u16),
            None => None,
        }
    }
}

/// The framing information a single `key: value` header line contributes:
/// a later `Content-Length` overwrites an earlier one (an unparsable value
/// clears it, as `str::parse().ok()` would), and `Transfer-Encoding`
/// containing the token `chunked` switches chunked framing on for good.
/// Both keys are matched without regard to ASCII case; a line without a
/// colon contributes nothing.
pub open spec fn spec_header_update(acc: (Option<int>, bool), line: Seq<u8>) -> (Option<int>, bool) {
    match spec_find_byte(line, 58) {
        None => acc,
        Some(i) => {
            let key = spec_trim(line.take(i));
            let value = spec_trim(line.skip(i + 1));
            let cl = if lower_seq(key) == lower_seq("content-length".spec_bytes()) {
                spec_parse_uint(value, 10, usize::MAX as int)
            } else {
                acc.0
            };
            let ch = acc.1 || (lower_seq(key) == lower_seq("transfer-encoding".spec_bytes())
                && spec_contains_seq(value, "chunked".spec_bytes()));
            (cl, ch)
        },
    }
}

/// The content length and chunked flag after reading all header lines in
/// order.
pub open spec fn spec_scan_headers(lines: Seq<Seq<u8>>) -> (Option<int>, bool)
    decreases lines.len(),
{
    if lines.len() == 0 {
        (None, false)
    } else {
        spec_header_update(spec_scan_headers(lines.drop_last()), lines.last())
    }
}

/// Reads the recognized framing headers out of the header lines (the status
/// line excluded by the caller).
pub fn scan_headers(lines: &Vec<Vec<u8>>) -> (r: (Option<u64>, bool))
    ensures
        ({
            let (cl, ch) = spec_scan_headers(lines_view(lines@));
            (match r.0 {
                Some(v) => cl == Some(v as int) && v <= usize::MAX as u64,
                None => cl is None,
            }) && r.1 == ch
        }),
{
    let ghost dv = lines_view(lines@);
    let mut cl: Option<u64> = None;
    let mut ch: bool = false;
    let mut k: usize = 0;
    while k < lines.len()
        invariant
            k <= lines.len(),
            dv == lines_view(lines@),
            ({
                let (scl, sch) = spec_scan_headers(dv.take(k as int));
                (match cl {
                    Some(v) => scl == Some(v as int) && v <= usize::MAX as u64,
                    None => scl is None,
                }) && ch == sch
            }),
        decreases lines.len() - k,
    {
        let ghost prev = spec_scan_headers(dv.take(k as int));
        let line: &Vec<u8> = &lines[k];
        let n = line.len();
        proof {
            assert(dv.take(k + 1).drop_last() =~= dv.take(k as int));
            assert(dv.take(k + 1).last() == line@);
        }
        match find_byte_from(line, 0, 58) {
            None => {
                proof {
                    assert(line@.skip(0) =~= line@);
                    assert(spec_scan_headers(dv.take(k + 1)) == spec_header_update(prev, line@));
                }
            },
            Some(ci) => {
                assert(line@.skip(0) =~= line@);
                let (klo, khi) = trim_window(line, 0, ci);
                let (vlo, vhi) = trim_window(line, ci + 1, n);
                assert(line@.take(ci as int) =~= line@.subrange(0, ci as int));
                assert(line@.skip(ci + 1) =~= line@.subrange(ci + 1, n as int));
                let ghost key = spec_trim(line@.take(ci as int));
                let ghost value = spec_trim(line@.skip(ci + 1));
                assert(line@.subrange(klo as int, khi as int) == key);
                assert(line@.subrange(vlo as int, vhi as int) == value);
                if window_eq_lower(line, klo, khi, "content-length".as_bytes()) {
                    cl = parse_uint_window(line, vlo, vhi, 10, usize::MAX as u64);
                }
                if window_eq_lower(line, klo, khi, "transfer-encoding".as_bytes()) {
                    if window_contains(line, vlo, vhi, "chunked".as_bytes()) {
                        ch = true;
                    }
                }
                proof {
                    assert(spec_scan_headers(dv.take(k + 1)) == spec_header_update(prev, line@));
                }
            },
        }
        k = k + 1;
    }
    proof {
        assert(dv.take(lines@.len() as int) =~= dv);
    }
    (cl, ch)
}

/// Outcome of decoding a chunked body from the bytes seen so far.
pub enum SpecChunked {
    /// More bytes must arrive before the body is complete.
    NeedMore,
    /// The chunk framing is malformed or the stream closed inside a frame.
    Fail,
    /// The assembled body bytes.
    Done(Seq<u8>),
}

/// Chunked-transfer decoding of `s`: read a line holding a hexadecimal
/// chunk size (blank lines are skipped), stop after a zero-size chunk and
/// one trailing line, otherwise take that many data bytes, pass over the
/// line that follows them, and repeat.
pub open spec fn spec_chunked(s: Seq<u8>, eof: bool) -> SpecChunked
    decreases s.len() via spec_chunked_decreases
{
    match spec_find_byte(s, 10) {
        None => if eof {
            SpecChunked::Fail
        } else {
            SpecChunked::NeedMore
        },
        Some(i) => {
            let line = spec_trim(s.take(i));
            if line.len() == 0 {
                spec_chunked(s.skip(i + 1), eof)
            } else {
                match spec_parse_uint(line, 16, usize::MAX as int) {
                    None => SpecChunked::Fail,
                    Some(sz) => if sz == 0 {
                        match spec_find_byte(s.skip(i + 1), 10) {
                            Some(_) => SpecChunked::Done(Seq::empty()),
                            None => if eof {
                                SpecChunked::Done(Seq::empty())
                            } else {
                                SpecChunked::NeedMore
                            },
                        }
                    } else if s.len() - (i + 1) < sz {
                        if eof {
                            SpecChunked::Fail
                        } else {
                            SpecChunked::NeedMore
                        }
                    } else {
                        let chunk = s.subrange(i + 1, i + 1 + sz);
                        let rest = s.skip(i + 1 + sz);
                        match spec_find_byte(rest, 10) {
                            None => if eof {
                                SpecChunked::Fail
                            } else {
                                SpecChunked::NeedMore
                            },
                            Some(j) => match spec_chunked(rest.skip(j + 1), eof) {
                                SpecChunked::Done(b) => SpecChunked::Done(chunk + b),
                                SpecChunked::NeedMore => SpecChunked::NeedMore,
                                SpecChunked::Fail => SpecChunked::Fail,
                            },
                        }
                    },
                }
            }
        },
    }
}

#[via_fn]
proof fn spec_chunked_decreases(s: Seq<u8>, eof: bool) {
    crate::ascii::lemma_find_byte(s, 10);
    match spec_find_byte(s, 10) {
        None => {},
        Some(i) => {
            let line = spec_trim(s.take(i));
            if line.len() != 0 {
                match spec_parse_uint(line, 16, usize::MAX as int) {
                    None => {},
                    Some(sz) => {
                        crate::ascii::lemma_parse_uint_nonneg(line, 16, usize::MAX as int);
                        if sz != 0 && s.len() - (i + 1) >= sz {
                            crate::ascii::lemma_find_byte(s.skip(i + 1 + sz), 10);
                        }
                    },
                }
            }
        },
    }
}

/// Exec mirror of [`SpecChunked`].
pub enum ChunkedStep {
    NeedMore,
    Fail,
    Done(Vec<u8>),
}

impl View for ChunkedStep {
    type V = SpecChunked;

    open spec fn view(&self) -> SpecChunked {
        match self {
            ChunkedStep::NeedMore => SpecChunked::NeedMore,
            ChunkedStep::Fail => SpecChunked::Fail,
            ChunkedStep::Done(b) => SpecChunked::Done(b@),
        }
    }
}

/// Decodes a chunked body out of `data[pos..]`.
pub fn decode_chunked_at(data: &Vec<u8>, pos: usize, eof: bool) -> (r: ChunkedStep)
    requires
        pos <= data.len(),
    ensures
        r@ == spec_chunked(data@.skip(pos as int), eof),
    decreases data.len() - pos,
{
    let ghost s = data@.skip(pos as int);
    match find_byte_from(data, pos, 10) {
        None => if eof {
            ChunkedStep::Fail
        } else {
            ChunkedStep::NeedMore
        },
        Some(nl) => {
            let ghost i = nl - pos;
            assert(s.take(i) =~= data@.subrange(pos as int, nl as int));
            let (llo, lhi) = trim_window(data, pos, nl);
            let ghost line = spec_trim(s.take(i));
            assert(data@.subrange(llo as int, lhi as int) == line);
            if llo == lhi {
                assert(s.skip(i + 1) =~= data@.skip(nl + 1));
                decode_chunked_at(data, nl + 1, eof)
            } else {
                match parse_uint_window(data, llo, lhi, 16, usize::MAX as u64) {
                    None => ChunkedStep::Fail,
                    Some(sz64) => {
                        let sz = sz64 as usize;
                        if sz == 0 {
                            match find_byte_from(data, nl + 1, 10) {
                                Some(_) => {
                                    assert(s.skip(i + 1) =~= data@.skip(nl + 1));
                                    let empty: Vec<u8> = Vec::new();
                                    assert(empty@ =~= Seq::<u8>::empty());
                                    ChunkedStep::Done(empty)
                                },
                                None => {
                                    assert(s.skip(i + 1) =~= data@.skip(nl + 1));
                                    if eof {
                                        let empty: Vec<u8> = Vec::new();
                                        assert(empty@ =~= Seq::<u8>::empty());
                                        ChunkedStep::Done(empty)
                                    } else {
                                        ChunkedStep::NeedMore
                                    }
                                },
                            }
                        } else if data.len() - (nl + 1) < sz {
                            if eof {
                                ChunkedStep::Fail
                            } else {
                                ChunkedStep::NeedMore
                            }
                        } else {
                            let end = nl + 1 + sz;
                            let mut body: Vec<u8> = vstd::slice::slice_to_vec(
                                vstd::slice::slice_subrange(data.as_slice(), nl + 1, end),
                            );
                            let ghost chunk = s.subrange(i + 1, i + 1 + sz64 as int);
                            assert(body@ == chunk) by {
                                assert(data@.subrange(nl + 1, end as int) =~= chunk);
                            }
                            let ghost rest = s.skip(i + 1 + sz64 as int);
                            assert(rest =~= data@.skip(end as int));
                            match find_byte_from(data, end, 10) {
                                None => if eof {
                                    ChunkedStep::Fail
                                } else {
                                    ChunkedStep::NeedMore
                                },
                                Some(nl2) => {
                                    assert(rest.skip(nl2 - end + 1) =~= data@.skip(nl2 + 1));
                                    match decode_chunked_at(data, nl2 + 1, eof) {
                                        ChunkedStep::Done(mut b) => {
                                            let ghost btail = b@;
                                            body.append(&mut b);
                                            assert(body@ =~= chunk + btail);
                                            ChunkedStep::Done(body)
                                        },
                                        ChunkedStep::NeedMore => ChunkedStep::NeedMore,
                                        ChunkedStep::Fail => ChunkedStep::Fail,
                                    }
                                },
                            }
                        }
                    },
                }
            }
        },
    }
}

/// Outcome of parsing a response from the bytes seen so far.
pub enum SpecParse {
    /// More bytes must arrive.
    NeedMore,
    /// The exchange is malformed: the stream closed before the header
    /// terminator or inside a framed body, the status line carries no
    /// 16-bit status code, or the chunk framing is broken.
    Fail,
    /// Status code and raw body bytes.
    Done(u16, Seq<u8>),
}

/// Parsing a response out of the bytes received so far: split the header
/// lines at the empty line, take the status code from the status line, read
/// the framing headers, then frame the body — chunked first, else an exact
/// `Content-Length`, else everything up to the close of the stream.
pub open spec fn spec_parse_response(s: Seq<u8>, eof: bool) -> SpecParse {
    match spec_header_section(s) {
        None => if eof {
            SpecParse::Fail
        } else {
            SpecParse::NeedMore
        },
        Some((lines, body_start)) => if lines.len() == 0 {
            SpecParse::Fail
        } else {
            match spec_status_code_of(lines[0]) {
                None => SpecParse::Fail,
                Some(code) => {
                    let (clen, chunked) = spec_scan_headers(lines.drop_first());
                    let rest = s.skip(body_start);
                    if chunked {
                        match spec_chunked(rest, eof) {
                            SpecChunked::Done(b) => SpecParse::Done(code as u16, b),
                            SpecChunked::NeedMore => SpecParse::NeedMore,
                            SpecChunked::Fail => SpecParse::Fail,
                        }
                    } else if clen is Some {
                        let n = clen.unwrap();
                        if rest.len() >= n {
                            SpecParse::Done(code as u16, rest.take(n))
                        } else if eof {
                            SpecParse::Fail
                        } else {
                            SpecParse::NeedMore
                        }
                    } else if eof {
                        SpecParse::Done(code as u16, rest)
                    } else {
                        SpecParse::NeedMore
                    }
                },
            }
        },
    }
}

/// Exec mirror of [`SpecParse`].
pub enum ParseStep {
    NeedMore,
    Fail,
    Done(u16, Vec<u8>),
}

impl View for ParseStep {
    type V = SpecParse;

    open spec fn view(&self) -> SpecParse {
        match self {
            ParseStep::NeedMore => SpecParse::NeedMore,
            ParseStep::Fail => SpecParse::Fail,
            ParseStep::Done(c, b) => SpecParse::Done(*c, b@),
        }
    }
}

/// Parses an HTTP/1.1 response out of the bytes received so far. `eof`
/// says that the peer has closed the stream and no more bytes will come.
pub fn parse_response(data: &Vec<u8>, eof: bool) -> (r: ParseStep)
    ensures
        r@ == spec_parse_response(data@, eof),
{
    assert(data@.skip(0) =~= data@);
    match read_header_lines(data, 0) {
        None => if eof {
            ParseStep::Fail
        } else {
            ParseStep::NeedMore
        },
        Some((mut lines, end)) => {
            if lines.len() == 0 {
                ParseStep::Fail
            } else {
                let ghost dv = lines_view(lines@);
                let ghost pre = lines@;
                let first: Vec<u8> = lines.remove(0);
                proof {
                    assert(first@ == dv[0]);
                    assert(forall|k: int| 0 <= k < lines@.len() ==> lines@[k] == pre[k + 1]);
                    assert(forall|k: int|
                        0 <= k < lines@.len() ==> #[trigger] lines_view(lines@)[k]
                            == dv.drop_first()[k]);
                    assert(lines_view(lines@) =~= dv.drop_first());
                }
                match status_code_of_line(&first) {
                    None => ParseStep::Fail,
                    Some(code) => {
                        let (cl, ch) = scan_headers(&lines);
                        let ghost rest = data@.skip(end as int);
                        if ch {
                            match decode_chunked_at(data, end, eof) {
                                ChunkedStep::Done(b) => ParseStep::Done(code, b),
                                ChunkedStep::NeedMore => ParseStep::NeedMore,
                                ChunkedStep::Fail => ParseStep::Fail,
                            }
                        } else if let Some(n64) = cl {
                            let n = n64 as usize;
                            if data.len() - end >= n {
                                let body: Vec<u8> = vstd::slice::slice_to_vec(
                                    vstd::slice::slice_subrange(data.as_slice(), end, end + n),
                                );
                                assert(body@ == rest.take(n as int)) by {
                                    assert(data@.subrange(end as int, end + n) =~= rest.take(
                                        n as int,
                                    ));
                                }
                                ParseStep::Done(code, body)
                            } else if eof {
                                ParseStep::Fail
                            } else {
                                ParseStep::NeedMore
                            }
                        } else if eof {
                            let body: Vec<u8> = vstd::slice::slice_to_vec(
                                vstd::slice::slice_subrange(data.as_slice(), end, data.len()),
                            );
                            assert(body@ == rest) by {
                                assert(data@.subrange(end as int, data@.len() as int) =~= rest);
                            }
                            ParseStep::Done(code, body)
                        } else {
                            ParseStep::NeedMore
                        }
                    },
                }
            }
        },
    }
}

/// The chunked-transfer encoding of a list of data chunks: each chunk as a
/// lower-case hexadecimal size line, the data, and a line break, closed by
/// a zero-size line and one final line break.
pub open spec fn spec_encode_chunked(chunks: Seq<Seq<u8>>) -> Seq<u8>
    decreases chunks.len(),
{
    if chunks.len() == 0 {
        seq![48u8, 13u8, 10u8, 13u8, 10u8]
    } else {
        spec_uint_str(chunks[0].len() as int, 16) + seq![13u8, 10u8] + chunks[0] + seq![
            13u8,
            10u8,
        ] + spec_encode_chunked(chunks.drop_first())
    }
}

/// Encodes the given data chunks with chunked-transfer framing.
pub fn encode_chunked(chunks: &Vec<Vec<u8>>) -> (r: Vec<u8>)
    ensures
        r@ == spec_encode_chunked(lines_view(chunks@)),
{
    let ghost dv = lines_view(chunks@);
    let mut r: Vec<u8> = Vec::new();
    proof {
        assert(dv.skip(0) =~= dv);
        assert(r@ + spec_encode_chunked(dv) =~= spec_encode_chunked(dv));
    }
    let mut k: usize = 0;
    while k < chunks.len()
        invariant
            k <= chunks.len(),
            dv == lines_view(chunks@),
            spec_encode_chunked(dv) == r@ + spec_encode_chunked(dv.skip(k as int)),
        decreases chunks.len() - k,
    {
        let ghost before = r@;
        let chunk: &Vec<u8> = &chunks[k];
        let mut size_line = uint_to_bytes(chunk.len() as u64, 16);
        r.append(&mut size_line);
        r.push(13);
        r.push(10);
        let mut chunk_copy: Vec<u8> = vstd::slice::slice_to_vec(chunk.as_slice());
        r.append(&mut chunk_copy);
        r.push(13);
        r.push(10);
        proof {
            assert(dv.skip(k as int).drop_first() =~= dv.skip(k + 1));
            assert(dv.skip(k as int)[0] == dv[k as int]);
            assert(r@ =~= before + spec_uint_str(dv[k as int].len() as int, 16) + seq![13u8, 10u8]
                + dv[k as int] + seq![13u8, 10u8]);
            assert(spec_encode_chunked(dv) =~= r@ + spec_encode_chunked(dv.skip(k + 1)));
        }
        k = k + 1;
    }
    let ghost before = r@;
    r.push(48);
    r.push(13);
    r.push(10);
    r.push(13);
    r.push(10);
    proof {
        assert(dv.skip(chunks@.len() as int) =~= Seq::<Seq<u8>>::empty());
        assert(r@ =~= before + seq![48u8, 13u8, 10u8, 13u8, 10u8]);
        assert(r@ =~= spec_encode_chunked(dv));
    }
    r
}

/// For a response framed by an explicit `Content-Length` (and not chunked),
/// the parsed body's byte length equals the declared length exactly.
pub proof fn lemma_content_length_framing(s: Seq<u8>, eof: bool, code: u16, body: Seq<u8>)
    requires
        spec_parse_response(s, eof) == SpecParse::Done(code, body),
        spec_header_section(s) is Some,
        ({
            let (lines, start) = spec_header_section(s).unwrap();
            let (cl, ch) = spec_scan_headers(lines.drop_first());
            cl is Some && !ch
        }),
    ensures
        ({
            let (lines, start) = spec_header_section(s).unwrap();
            body.len() == spec_scan_headers(lines.drop_first()).0.unwrap()
        }),
{
    let (lines, start) = spec_header_section(s).unwrap();
    let (cl, ch) = spec_scan_headers(lines.drop_first());
    lemma_scan_headers_bounds(lines.drop_first());
    let n = cl.unwrap();
    let rest = s.skip(start);
    assert(rest.len() >= n && body == rest.take(n));
}

/// Trimming a digit run with a trailing carriage return gives the digits
/// back unchanged.
proof fn lemma_trim_digit_line(u: Seq<u8>)
    requires
        u.len() >= 1,
        forall|j: int| 0 <= j < u.len() ==> 48 <= #[trigger] u[j] <= 57 || 97 <= u[j] <= 102,
    ensures
        spec_trim(u + seq![13u8]) == u,
    decreases u.len(),
{
    let s = u + seq![13u8];
    assert(!is_ws_byte(s[0]));
    assert(spec_trim_start(s) == s);
    assert(s.drop_last() =~= u);
    assert(spec_trim_end(s) == spec_trim_end(u));
    assert(!is_ws_byte(u.last()));
    assert(spec_trim_end(u) == u);
}

/// The chunked round trip: decoding what `spec_encode_chunked` wrote — with
/// any bytes whatever following it on the stream — reproduces exactly the
/// concatenation of the original chunks, and decoding stops at the
/// terminator without reading past it. Empty chunks are excluded, since an
/// empty chunk would itself encode as the terminator.
pub proof fn lemma_chunked_round_trip(chunks: Seq<Seq<u8>>, tail: Seq<u8>, eof: bool)
    requires
        forall|k: int|
            0 <= k < chunks.len() ==> 0 < (#[trigger] chunks[k]).len() <= usize::MAX as int,
    ensures
        spec_chunked(spec_encode_chunked(chunks) + tail, eof) == SpecChunked::Done(
            chunks.flatten(),
        ),
    decreases chunks.len(),
{
    let s = spec_encode_chunked(chunks) + tail;
    if chunks.len() == 0 {
        assert(s =~= seq![48u8, 13u8, 10u8, 13u8, 10u8] + tail);
        assert(s[0] == 48 && s[1] == 13 && s[2] == 10);
        crate::ascii::lemma_find_byte_at(s, 10, 2);
        assert(s.take(2) =~= seq![48u8] + seq![13u8]);
        lemma_trim_digit_line(seq![48u8]);
        let line = spec_trim(s.take(2));
        assert(line =~= seq![48u8]);
        assert(line.len() == 1);
        assert(crate::ascii::spec_digit_val(48u8, 16) == Some(0int));
        assert(spec_parse_uint(line, 16, usize::MAX as int) == Some(0int));
        let s3 = s.skip(3);
        assert(s3[1] == 10);
        crate::ascii::lemma_find_byte(s3, 10);
        assert(spec_find_byte(s3, 10) is Some);
        assert(chunks.flatten() =~= Seq::<u8>::empty());
    } else {
        let c0 = chunks[0];
        let u = spec_uint_str(c0.len() as int, 16);
        let rest_enc = spec_encode_chunked(chunks.drop_first());
        assert(s =~= u + seq![13u8, 10u8] + c0 + seq![13u8, 10u8] + rest_enc + tail);
        crate::ascii::lemma_uint_str_digits(c0.len() as int, 16);
        let ul = u.len() as int;
        assert(forall|j: int| 0 <= j < ul ==> s[j] == u[j]);
        assert(s[ul] == 13 && s[ul + 1] == 10);
        assert(forall|j: int| 0 <= j < ul + 1 ==> s[j] != 10);
        crate::ascii::lemma_find_byte_at(s, 10, ul + 1);
        let i = ul + 1;
        assert(s.take(i) =~= u + seq![13u8]);
        lemma_trim_digit_line(u);
        let line = spec_trim(s.take(i));
        assert(line == u);
        assert(line.len() >= 1);
        crate::ascii::lemma_parse_uint_inverse(c0.len() as int, 16, usize::MAX as int);
        assert(spec_parse_uint(line, 16, usize::MAX as int) == Some(c0.len() as int));
        let sz = c0.len() as int;
        assert(sz > 0);
        assert(s.len() - (i + 1) >= sz);
        assert(s.subrange(i + 1, i + 1 + sz) =~= c0);
        let rest = s.skip(i + 1 + sz);
        assert(rest =~= seq![13u8, 10u8] + rest_enc + tail);
        assert(rest[0] == 13 && rest[1] == 10);
        crate::ascii::lemma_find_byte_at(rest, 10, 1);
        assert(rest.skip(2) =~= rest_enc + tail);
        lemma_chunked_round_trip(chunks.drop_first(), tail, eof);
        assert(spec_chunked(rest_enc + tail, eof) == SpecChunked::Done(
            chunks.drop_first().flatten(),
        ));
        assert(chunks.flatten() == c0 + chunks.drop_first().flatten());
        assert(spec_chunked(s, eof) == SpecChunked::Done(chunks.flatten()));
    }
}

/// A content length read out of the headers lies between zero and the
/// machine's size limit.
pub proof fn lemma_scan_headers_bounds(lines: Seq<Seq<u8>>)
    ensures
        ({
            let (cl, ch) = spec_scan_headers(lines);
            cl is Some ==> 0 <= cl.unwrap() <= usize::MAX as int
        }),
    decreases lines.len(),
{
    if lines.len() > 0 {
        lemma_scan_headers_bounds(lines.drop_last());
        let line = lines.last();
        match spec_find_byte(line, 58) {
            None => {},
            Some(i) => {
                let value = spec_trim(line.skip(i + 1));
                if spec_parse_uint(value, 10, usize::MAX as int) is Some {
                    crate::ascii::lemma_parse_uint_nonneg(value, 10, usize::MAX as int);
                }
            },
        }
    }
}

} // verus!
