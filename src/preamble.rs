use vstd::prelude::*;
use vstd::utf8::*;

use crate::text::{find_from, lacks, lemma_find_from_advance, lemma_find_from_found, lemma_find_from_is, lemma_find_from_skip, lemma_find_past, lemma_split_cons, lemma_split_last, lemma_split_nonempty, lemma_split_single, lemma_split_step, occurs_at, split_by};

verus! {

/// The request line and the header lines of an HTTP/1.x request.
#[derive(Debug, Clone)]
pub struct Preamble {
    pub method: String,
    pub uri: String,
    pub http_version: String,
    /// Raw header lines, in the order in which they arrived.
    pub headers: Vec<String>,
}

/// The mathematical value of a `Preamble`.
pub struct PreambleView {
    pub method: Seq<char>,
    pub uri: Seq<char>,
    pub http_version: Seq<char>,
    pub headers: Seq<Seq<char>>,
}

impl View for Preamble {
    type V = PreambleView;

    open spec fn view(&self) -> PreambleView {
        PreambleView {
            method: self.method@,
            uri: self.uri@,
            http_version: self.http_version@,
            headers: self.headers@.map_values(|h: String| h@),
        }
    }
}

/// A preamble read off a stream, with the bytes that were read past its end.
#[derive(Debug)]
pub struct IncomingResult {
    pub preamble: Preamble,
    pub buffered: Vec<u8>,
}

/// Why a preamble could not be read.
#[derive(Debug, Clone, Copy, PartialEq, Eq, Structural)]
pub enum PreambleError {
    /// The stream closed before the blank line that ends a preamble.
    UnexpectedEof,
    /// The request line is not three fields separated by single spaces.
    Malformed,
    /// A field or a header line is not UTF-8.
    InvalidUtf8,
}

pub open spec fn crlf() -> Seq<u8> {
    seq![13u8, 10u8]
}

/// The blank line that ends a preamble: `CR LF CR LF`.
pub open spec fn delimiter() -> Seq<u8> {
    seq![13u8, 10u8, 13u8, 10u8]
}

pub open spec fn space() -> Seq<u8> {
    seq![32u8]
}

/// The preamble that the bytes before the delimiter describe: the first line
/// split on single spaces into method, URI and version, and every further
/// line a header.
pub open spec fn parse_head(head: Seq<u8>) -> Result<PreambleView, PreambleError> {
    let lines = split_by(head, crlf());
    let fields = split_by(lines[0], space());
    if fields.len() != 3 {
        Err(PreambleError::Malformed)
    } else if !(forall|i: int| 0 <= i < 3 ==> valid_utf8(#[trigger] fields[i])) || !(forall|
        j: int,
    |
        1 <= j < lines.len() ==> valid_utf8(#[trigger] lines[j])) {
        Err(PreambleError::InvalidUtf8)
    } else {
        Ok(
            PreambleView {
                method: decode_utf8(fields[0]),
                uri: decode_utf8(fields[1]),
                http_version: decode_utf8(fields[2]),
                headers: lines.skip(1).map_values(|l: Seq<u8>| decode_utf8(l)),
            },
        )
    }
}

/// What reading from a stream that has delivered `buf` gives: nothing yet
/// while no delimiter has arrived and the stream is open; else the preamble
/// before the first delimiter and the bytes after it.
pub open spec fn sniff_spec(buf: Seq<u8>, closed: bool) -> Option<
    Result<(PreambleView, Seq<u8>), PreambleError>,
> {
    match find_from(buf, delimiter(), 0) {
        Some(e) => Some(
            match parse_head(buf.take(e)) {
                Ok(p) => Ok((p, buf.skip(e + 4))),
                Err(err) => Err(err),
            },
        ),
        None => if closed {
            Some(Err(PreambleError::UnexpectedEof))
        } else {
            None
        },
    }
}

pub open spec fn incoming_view(r: Result<IncomingResult, PreambleError>) -> Result<
    (PreambleView, Seq<u8>),
    PreambleError,
> {
    match r {
        Ok(inc) => Ok((inc.preamble@, inc.buffered@)),
        Err(e) => Err(e),
    }
}

/// The request line as bytes: `method SP uri SP http_version`.
pub open spec fn request_line_bytes(p: PreambleView) -> Seq<u8> {
    encode_utf8(p.method) + space() + encode_utf8(p.uri) + space() + encode_utf8(p.http_version)
}

/// Each header followed by `CR LF`.
pub open spec fn header_lines(hs: Seq<Seq<char>>) -> Seq<u8>
    decreases hs.len(),
{
    if hs.len() == 0 {
        seq![]
    } else {
        header_lines(hs.drop_last()) + encode_utf8(hs.last()) + crlf()
    }
}

/// A preamble as it goes on the wire: the request line and `CR LF`, each
/// header and `CR LF`, then a final `CR LF`.
pub open spec fn preamble_bytes(p: PreambleView) -> Seq<u8> {
    request_line_bytes(p) + crlf() + header_lines(p.headers) + crlf()
}

/// Relies on String::from_utf8: it succeeds exactly on valid UTF-8, with the
/// characters that the bytes encode.
#[verifier::external_body]
fn string_from_utf8(bytes: Vec<u8>) -> (r: Option<String>)
    ensures
        r is Some <==> valid_utf8(bytes@),
        r is Some ==> r->Some_0@ == decode_utf8(bytes@),
{
    String::from_utf8(bytes).ok()
}

/// The bytes `s[from..to]`.
fn copy_range(s: &Vec<u8>, from: usize, to: usize) -> (r: Vec<u8>)
    requires
        from <= to <= s@.len(),
    ensures
        r@ == s@.subrange(from as int, to as int),
{
    let mut out: Vec<u8> = Vec::new();
    let mut i = from;
    while i < to
        invariant
            from <= i <= to <= s@.len(),
            out@ == s@.subrange(from as int, i as int),
        decreases to - i,
    {
        out.push(s[i]);
        assert(s@.subrange(from as int, i + 1) =~= s@.subrange(from as int, i as int).push(
            s@[i as int],
        ));
        i += 1;
    }
    out
}

/// Whether `sep` occurs in `s` at `k`.
fn bytes_at(s: &Vec<u8>, k: usize, sep: &Vec<u8>) -> (r: bool)
    ensures
        r == occurs_at(s@, sep@, k as int),
{
    if sep.len() > s.len() || k > s.len() - sep.len() {
        return false;
    }
    let n = s.len();
    let mut i: usize = 0;
    while i < sep.len()
        invariant
            i <= sep@.len(),
            n == s@.len(),
            k + sep@.len() <= s@.len(),
            s@.subrange(k as int, k + i) == sep@.take(i as int),
        decreases sep@.len() - i,
    {
        assert(k + i < s@.len());
        if s[k + i] != sep[i] {
            assert(s@.subrange(k as int, k + sep@.len())[i as int] != sep@[i as int]);
            return false;
        }
        assert(s@.subrange(k as int, k + i + 1) =~= s@.subrange(k as int, k + i).push(
            s@[k + i],
        ));
        assert(sep@.take(i + 1) =~= sep@.take(i as int).push(sep@[i as int]));
        i += 1;
    }
    assert(sep@.take(sep@.len() as int) =~= sep@);
    true
}

/// The first index at or after `k` where `sep` occurs in `s`.
pub fn find_bytes(s: &Vec<u8>, sep: &Vec<u8>, k: usize) -> (r: Option<usize>)
    requires
        k <= s@.len(),
    ensures
        match r {
            Some(i) => find_from(s@, sep@, k as int) == Some(i as int),
            None => find_from(s@, sep@, k as int) is None,
        },
{
    let mut i = k;
    while i < s.len()
        invariant
            k <= i <= s@.len(),
            find_from(s@, sep@, k as int) == find_from(s@, sep@, i as int),
        decreases s@.len() - i,
    {
        if bytes_at(s, i, sep) {
            return Some(i);
        }
        i += 1;
    }
    if bytes_at(s, i, sep) {
        return Some(i);
    }
    assert(find_from(s@, sep@, i + 1) is None);
    None
}

/// `s` cut at every occurrence of `sep`.
pub fn split_bytes(s: &Vec<u8>, sep: &Vec<u8>) -> (r: Vec<Vec<u8>>)
    requires
        sep@.len() > 0,
    ensures
        r@.map_values(|p: Vec<u8>| p@) == split_by(s@, sep@),
{
    let n = s.len();
    let mut pieces: Vec<Vec<u8>> = Vec::new();
    let mut start: usize = 0;
    assert(s@.skip(0) =~= s@);
    assert(pieces@.map_values(|p: Vec<u8>| p@) + split_by(s@, sep@) =~= split_by(s@, sep@));
    loop
        invariant
            start <= n,
            n == s@.len(),
            sep@.len() > 0,
            pieces@.map_values(|p: Vec<u8>| p@) + split_by(s@.skip(start as int), sep@)
                == split_by(s@, sep@),
        decreases n - start,
    {
        match find_bytes(s, sep, start) {
            Some(i) => {
                proof {
                    lemma_split_step(s@, sep@, start as int, i as int);
                }
                let piece = copy_range(s, start, i);
                let ghost before = pieces@.map_values(|p: Vec<u8>| p@);
                pieces.push(piece);
                assert(pieces@.map_values(|p: Vec<u8>| p@) =~= before.push(piece@));
                assert(before.push(piece@) + split_by(s@.skip(i + sep@.len()), sep@) =~= before
                    + (seq![piece@] + split_by(s@.skip(i + sep@.len()), sep@)));
                start = i + sep.len();
            },
            None => {
                proof {
                    lemma_split_last(s@, sep@, start as int);
                }
                let piece = copy_range(s, start, n);
                let ghost before = pieces@.map_values(|p: Vec<u8>| p@);
                assert(s@.subrange(start as int, n as int) =~= s@.skip(start as int));
                pieces.push(piece);
                assert(pieces@.map_values(|p: Vec<u8>| p@) =~= before.push(piece@));
                return pieces;
            },
        }
    }
}

/// Reads the preamble that the bytes `head` (everything before the
/// delimiter) describe.
pub fn parse_preamble(head: &Vec<u8>) -> (r: Result<Preamble, PreambleError>)
    ensures
        match r {
            Ok(p) => parse_head(head@) == Ok::<PreambleView, PreambleError>(p@),
            Err(e) => parse_head(head@) == Err::<PreambleView, PreambleError>(e),
        },
{
    let crlf_v: Vec<u8> = vec![13u8, 10u8];
    let space_v: Vec<u8> = vec![32u8];
    assert(crlf_v@ == crlf());
    assert(space_v@ == space());
    let lines = split_bytes(head, &crlf_v);
    let ghost lv = lines@.map_values(|p: Vec<u8>| p@);
    proof {
        lemma_split_nonempty(head@, crlf());
    }
    assert(lv.len() == lines@.len());
    let fields = split_bytes(&lines[0], &space_v);
    let ghost fv = fields@.map_values(|p: Vec<u8>| p@);
    assert(lv[0] == lines@[0]@);
    if fields.len() != 3 {
        assert(fv.len() == fields@.len());
        return Err(PreambleError::Malformed);
    }
    assert(fv.len() == 3);
    assert(fv[0] == fields@[0]@ && fv[1] == fields@[1]@ && fv[2] == fields@[2]@);
    let method = match string_from_utf8(fields[0].clone()) {
        Some(m) => m,
        None => return Err(PreambleError::InvalidUtf8),
    };
    let uri = match string_from_utf8(fields[1].clone()) {
        Some(u) => u,
        None => return Err(PreambleError::InvalidUtf8),
    };
    let http_version = match string_from_utf8(fields[2].clone()) {
        Some(v) => v,
        None => return Err(PreambleError::InvalidUtf8),
    };
    assert(forall|i: int| 0 <= i < 3 ==> valid_utf8(#[trigger] fv[i])) by {
        assert(valid_utf8(fv[0]) && valid_utf8(fv[1]) && valid_utf8(fv[2]));
    }
    let mut headers: Vec<String> = Vec::new();
    let mut j: usize = 1;
    while j < lines.len()
        invariant
            1 <= j <= lines@.len(),
            lv == lines@.map_values(|p: Vec<u8>| p@),
            lv == split_by(head@, crlf()),
            fv == split_by(lv[0], space()),
            fv.len() == 3,
            forall|i: int| 0 <= i < 3 ==> valid_utf8(#[trigger] fv[i]),
            method@ == decode_utf8(fv[0]),
            uri@ == decode_utf8(fv[1]),
            http_version@ == decode_utf8(fv[2]),
            headers@.len() == j - 1,
            forall|k: int| 1 <= k < j ==> valid_utf8(#[trigger] lv[k]),
            forall|k: int|
                0 <= k < j - 1 ==> (#[trigger] headers@[k])@ == decode_utf8(lv[k + 1]),
        decreases lines@.len() - j,
    {
        assert(lv[j as int] == lines@[j as int]@);
        match string_from_utf8(lines[j].clone()) {
            Some(h) => headers.push(h),
            None => {
                assert(!valid_utf8(lv[j as int]));
                return Err(PreambleError::InvalidUtf8);
            },
        }
        j += 1;
    }
    let p = Preamble { method, uri, http_version, headers };
    assert(p@.headers =~= lv.skip(1).map_values(|l: Seq<u8>| decode_utf8(l)));
    Ok(p)
}

/// Reads a preamble from the bytes that a stream has delivered so far.
/// `None` asks for more bytes; a closed stream without a delimiter is an
/// error. The bytes after the first delimiter are handed back as `buffered`.
pub fn sniff_incoming_connection(data: &Vec<u8>, closed: bool) -> (r: Option<
    Result<IncomingResult, PreambleError>,
>)
    ensures
        match r {
            Some(res) => sniff_spec(data@, closed) == Some(incoming_view(res)),
            None => sniff_spec(data@, closed) is None,
        },
{
    let delim: Vec<u8> = vec![13u8, 10u8, 13u8, 10u8];
    assert(delim@ == delimiter());
    match find_bytes(data, &delim, 0) {
        None => {
            if closed {
                Some(Err(PreambleError::UnexpectedEof))
            } else {
                None
            }
        },
        Some(e) => {
            proof {
                lemma_find_from_found(data@, delimiter(), 0);
                assert(delimiter().len() == 4);
            }
            let n = data.len();
            let head = copy_range(data, 0, e);
            assert(head@ =~= data@.take(e as int));
            match parse_preamble(&head) {
                Ok(preamble) => {
                    let buffered = copy_range(data, e + 4, n);
                    assert(buffered@ =~= data@.skip(e + 4));
                    Some(Ok(IncomingResult { preamble, buffered }))
                },
                Err(err) => Some(Err(err)),
            }
        },
    }
}

impl Preamble {
    /// The bytes that put this preamble on the wire.
    pub fn write(&self) -> (r: Vec<u8>)
        ensures
            r@ == preamble_bytes(self@),
    {
        let mut out: Vec<u8> = Vec::new();
        out.extend_from_slice(self.method.as_str().as_bytes());
        out.push(32u8);
        out.extend_from_slice(self.uri.as_str().as_bytes());
        out.push(32u8);
        out.extend_from_slice(self.http_version.as_str().as_bytes());
        assert(out@ =~= request_line_bytes(self@));
        out.push(13u8);
        out.push(10u8);
        let ghost line = out@;
        assert(line =~= request_line_bytes(self@) + crlf());
        let ghost hs = self@.headers;
        let mut i: usize = 0;
        assert(hs.take(0) =~= Seq::<Seq<char>>::empty());
        assert(out@ =~= line + header_lines(hs.take(0)));
        while i < self.headers.len()
            invariant
                i <= self.headers@.len(),
                hs == self@.headers,
                hs.len() == self.headers@.len(),
                out@ == line + header_lines(hs.take(i as int)),
            decreases self.headers@.len() - i,
        {
            let ghost before = out@;
            out.extend_from_slice(self.headers[i].as_str().as_bytes());
            out.push(13u8);
            out.push(10u8);
            assert(hs.take(i + 1).drop_last() =~= hs.take(i as int));
            assert(hs[i as int] == self.headers@[i as int]@);
            assert(out@ =~= line + header_lines(hs.take(i + 1)));
            i += 1;
        }
        assert(hs.take(hs.len() as int) =~= hs);
        out.push(13u8);
        out.push(10u8);
        assert(out@ =~= preamble_bytes(self@));
        out
    }
}

/// A request-line field: no spaces or line breaks.
pub open spec fn is_token(s: Seq<char>) -> bool {
    forall|i: int|
        0 <= i < s.len() ==> #[trigger] s[i] != ' ' && s[i] != '\r' && s[i] != '\n'
}

/// A header line: non-empty, without line breaks.
pub open spec fn is_header_line(s: Seq<char>) -> bool {
    s.len() > 0 && forall|i: int|
        0 <= i < s.len() ==> #[trigger] s[i] != '\r' && s[i] != '\n'
}

/// A preamble that can go on the wire and be read back as it is.
pub open spec fn well_formed(p: PreambleView) -> bool {
    &&& is_token(p.method)
    &&& is_token(p.uri)
    &&& is_token(p.http_version)
    &&& forall|i: int| 0 <= i < p.headers.len() ==> is_header_line(#[trigger] p.headers[i])
}

/// Each header preceded by `CR LF`.
spec fn joined(hs: Seq<Seq<char>>) -> Seq<u8>
    decreases hs.len(),
{
    if hs.len() == 0 {
        seq![]
    } else {
        joined(hs.drop_last()) + crlf() + encode_utf8(hs.last())
    }
}

proof fn lemma_lines_joined(hs: Seq<Seq<char>>)
    ensures
        crlf() + header_lines(hs) == joined(hs) + crlf(),
    decreases hs.len(),
{
    if hs.len() > 0 {
        lemma_lines_joined(hs.drop_last());
        assert(crlf() + header_lines(hs) =~= (crlf() + header_lines(hs.drop_last()))
            + encode_utf8(hs.last()) + crlf());
        assert(joined(hs) + crlf() =~= (joined(hs.drop_last()) + crlf()) + encode_utf8(hs.last())
            + crlf());
    } else {
        assert(crlf() + header_lines(hs) =~= joined(hs) + crlf());
    }
}

proof fn lemma_joined_front(hs: Seq<Seq<char>>)
    requires
        hs.len() > 0,
    ensures
        joined(hs) == crlf() + encode_utf8(hs[0]) + joined(hs.drop_first()),
    decreases hs.len(),
{
    if hs.len() == 1 {
        assert(hs.drop_last().len() == 0);
        assert(hs.drop_first().len() == 0);
        assert(joined(hs.drop_last()) =~= Seq::<u8>::empty());
        assert(joined(hs.drop_first()) =~= Seq::<u8>::empty());
        assert(hs.last() == hs[0]);
        assert(joined(hs) =~= crlf() + encode_utf8(hs[0]) + joined(hs.drop_first()));
    } else {
        let init = hs.drop_last();
        lemma_joined_front(init);
        assert(hs.drop_first().drop_last() =~= init.drop_first());
        assert(hs.drop_first().last() == hs.last());
        assert(init[0] == hs[0]);
        assert(joined(hs.drop_first()) == joined(init.drop_first()) + crlf() + encode_utf8(
            hs.last(),
        ));
        assert(joined(hs) =~= crlf() + encode_utf8(hs[0]) + joined(hs.drop_first()));
    }
}

/// The UTF-8 bytes of a character other than the ASCII character `b` do not
/// include `b`: multi-byte encodings use only bytes from 0x80 up.
proof fn lemma_scalar_lacks(c: char, b: u8)
    requires
        b < 0x80,
        c as u32 != b as u32,
    ensures
        lacks(encode_scalar(c as u32), b),
        encode_scalar(c as u32).len() > 0,
{
    let v = c as u32;
    let e = encode_scalar(v);
    if has_width_1_encoding(v) {
        assert((v & 0x7F) == v) by (bit_vector)
            requires
                v <= 0x7F,
        ;
        assert(e[0] == (v & 0x7F) as u8);
    } else {
        assert(forall|x: u8| #![auto] (0x80u8 | x) >= 0x80) by (bit_vector);
        assert(forall|x: u8| #![auto] (0xC0u8 | x) >= 0x80) by (bit_vector);
        assert(forall|x: u8| #![auto] (0xE0u8 | x) >= 0x80) by (bit_vector);
        assert(forall|x: u8| #![auto] (0xF0u8 | x) >= 0x80) by (bit_vector);
        assert forall|i: int| 0 <= i < e.len() implies e[i] >= 0x80 by {}
    }
}

/// The UTF-8 bytes of a text without the ASCII character `c` lack the byte
/// of `c`.
proof fn lemma_text_lacks(s: Seq<char>, c: char)
    requires
        (c as u32) < 0x80,
        forall|i: int| 0 <= i < s.len() ==> s[i] != c,
    ensures
        lacks(encode_utf8(s), c as u8),
        s.len() > 0 ==> encode_utf8(s).len() > 0,
    decreases s.len(),
{
    if s.len() > 0 {
        assert((c as u8) as u32 == c as u32);
        assert(s[0] as u32 != c as u32) by {
            char_u32_cast(s[0], s[0] as u32);
            char_u32_cast(c, c as u32);
            assert(s[0] != c);
        }
        lemma_scalar_lacks(s[0], c as u8);
        let rest = s.drop_first();
        assert forall|i: int| 0 <= i < rest.len() implies rest[i] != c by {
            assert(rest[i] == s[i + 1]);
        }
        lemma_text_lacks(rest, c);
        let e0 = encode_scalar(s[0] as u32);
        let e1 = encode_utf8(rest);
        assert(encode_utf8(s) == e0 + e1);
        assert forall|i: int| 0 <= i < encode_utf8(s).len() implies encode_utf8(s)[i] != c as u8 by {
            if i < e0.len() {
                assert(encode_utf8(s)[i] == e0[i]);
            } else {
                assert(encode_utf8(s)[i] == e1[i - e0.len()]);
            }
        }
    }
}

proof fn lemma_find_joined(hs: Seq<Seq<char>>)
    requires
        forall|i: int|
            0 <= i < hs.len() ==> lacks(encode_utf8(#[trigger] hs[i]), 13u8) && encode_utf8(
                hs[i],
            ).len() > 0,
    ensures
        find_from(joined(hs) + delimiter(), delimiter(), 0) == Some(joined(hs).len() as int),
    decreases hs.len(),
{
    let d = delimiter();
    if hs.len() == 0 {
        assert(joined(hs) + d =~= d);
        assert(d.subrange(0, 4) =~= d);
    } else {
        lemma_joined_front(hs);
        let tail = hs.drop_first();
        assert forall|i: int| 0 <= i < tail.len() implies lacks(
            encode_utf8(#[trigger] tail[i]),
            13u8,
        ) && encode_utf8(tail[i]).len() > 0 by {
            assert(tail[i] == hs[i + 1]);
        }
        lemma_find_joined(tail);
        let h0 = encode_utf8(hs[0]);
        assert(lacks(h0, 13u8) && h0.len() > 0);
        let a = seq![10u8] + h0;
        let t = joined(hs) + d;
        assert(t =~= seq![13u8] + (a + (joined(tail) + d)));
        assert(!occurs_at(t, d, 0)) by {
            assert(t[2] == h0[0]);
            if occurs_at(t, d, 0) {
                assert(t.subrange(0, 4)[2] == t[2]);
            }
        }
        lemma_find_from_advance(t, d, 0, 1);
        lemma_find_from_skip(t, d, 1, 0);
        assert(t.skip(1) =~= a + (joined(tail) + d));
        assert(lacks(a, d[0]));
        lemma_find_past(a, joined(tail) + d, d);
    }
}

proof fn lemma_split_joined(first: Seq<u8>, hs: Seq<Seq<char>>)
    requires
        lacks(first, 13u8),
        forall|i: int| 0 <= i < hs.len() ==> lacks(encode_utf8(#[trigger] hs[i]), 13u8),
    ensures
        split_by(first + joined(hs), crlf()) == seq![first] + hs.map_values(
            |h: Seq<char>| encode_utf8(h),
        ),
    decreases hs.len(),
{
    if hs.len() == 0 {
        assert(first + joined(hs) =~= first);
        lemma_split_single(first, crlf());
        assert(seq![first] + hs.map_values(|h: Seq<char>| encode_utf8(h)) =~= seq![first]);
    } else {
        lemma_joined_front(hs);
        let tail = hs.drop_first();
        let h0 = encode_utf8(hs[0]);
        assert forall|i: int| 0 <= i < tail.len() implies lacks(
            encode_utf8(#[trigger] tail[i]),
            13u8,
        ) by {
            assert(tail[i] == hs[i + 1]);
        }
        lemma_split_joined(h0, tail);
        assert(first + joined(hs) =~= first + crlf() + (h0 + joined(tail)));
        lemma_split_cons(first, h0 + joined(tail), crlf());
        assert(seq![first] + hs.map_values(|h: Seq<char>| encode_utf8(h)) =~= seq![first] + (
        seq![h0] + tail.map_values(|h: Seq<char>| encode_utf8(h))));
    }
}

/// Writing a well-formed preamble and reading the bytes back gives the same
/// preamble, with nothing buffered past it.
pub proof fn lemma_preamble_round_trip(p: PreambleView, closed: bool)
    requires
        well_formed(p),
    ensures
        sniff_spec(preamble_bytes(p), closed) == Some(
            Ok::<(PreambleView, Seq<u8>), PreambleError>((p, Seq::<u8>::empty())),
        ),
{
    broadcast use encode_utf8_valid_utf8, encode_utf8_decode_utf8;

    let m = encode_utf8(p.method);
    let u = encode_utf8(p.uri);
    let v = encode_utf8(p.http_version);
    lemma_text_lacks(p.method, '\r');
    lemma_text_lacks(p.method, ' ');
    lemma_text_lacks(p.uri, '\r');
    lemma_text_lacks(p.uri, ' ');
    lemma_text_lacks(p.http_version, '\r');
    lemma_text_lacks(p.http_version, ' ');
    let line = request_line_bytes(p);
    assert(lacks(line, 13u8)) by {
        assert forall|i: int| 0 <= i < line.len() implies line[i] != 13u8 by {
            if i < m.len() {
                assert(line[i] == m[i]);
            } else if i == m.len() {
            } else if i < m.len() + 1 + u.len() {
                assert(line[i] == u[i - m.len() - 1]);
            } else if i == m.len() + 1 + u.len() {
            } else {
                assert(line[i] == v[i - m.len() - 2 - u.len()]);
            }
        }
    }
    let hs = p.headers;
    assert forall|i: int| 0 <= i < hs.len() implies lacks(encode_utf8(#[trigger] hs[i]), 13u8)
        && encode_utf8(hs[i]).len() > 0 by {
        assert(is_header_line(hs[i]));
        lemma_text_lacks(hs[i], '\r');
    }
    lemma_lines_joined(hs);
    let j = joined(hs);
    let d = delimiter();
    let b = preamble_bytes(p);
    assert(b =~= line + (crlf() + header_lines(hs)) + crlf());
    assert(b =~= line + (j + d));
    lemma_find_joined(hs);
    lemma_find_past(line, j + d, d);
    let e: int = (line.len() + j.len()) as int;
    assert(b.take(e) =~= line + j);
    assert(b.skip(e + 4) =~= Seq::<u8>::empty());
    lemma_split_joined(line, hs);
    let lines = split_by(line + j, crlf());
    assert(lines[0] == line);
    assert(line =~= m + space() + (u + space() + v));
    assert(u + space() + v =~= u + space() + v);
    lemma_split_cons(m, u + space() + v, space());
    lemma_split_cons(u, v, space());
    lemma_split_single(v, space());
    let fields = split_by(line, space());
    assert(fields =~= seq![m, u, v]);
    assert(lines.skip(1) =~= hs.map_values(|h: Seq<char>| encode_utf8(h)));
    assert(lines.skip(1).map_values(|l: Seq<u8>| decode_utf8(l)) =~= hs);
    assert(forall|k: int| 1 <= k < lines.len() ==> valid_utf8(#[trigger] lines[k])) by {
        assert forall|k: int| 1 <= k < lines.len() implies valid_utf8(#[trigger] lines[k]) by {
            assert(lines[k] == encode_utf8(hs[k - 1]));
        }
    }
    assert(forall|k: int| 0 <= k < 3 ==> valid_utf8(#[trigger] fields[k]));
}

/// Whatever follows the first delimiter is handed back, byte for byte, and
/// does not change the preamble that is read.
pub proof fn lemma_buffered_preserved(head: Seq<u8>, rest: Seq<u8>, closed: bool)
    requires
        find_from(head + delimiter(), delimiter(), 0) == Some(head.len() as int),
    ensures
        sniff_spec(head + delimiter() + rest, closed) == Some(
            match parse_head(head) {
                Ok(p) => Ok((p, rest)),
                Err(e) => Err(e),
            },
        ),
{
    let d = delimiter();
    let short = head + d;
    let s = head + d + rest;
    lemma_find_from_found(short, d, 0);
    assert forall|j: int| 0 <= j < head.len() implies !occurs_at(s, d, j) by {
        assert(!occurs_at(short, d, j));
        assert(s.subrange(j, j + 4) =~= short.subrange(j, j + 4));
    }
    assert(s.subrange(head.len() as int, head.len() + 4int) =~= d);
    lemma_find_from_is(s, d, 0, head.len() as int);
    assert(s.take(head.len() as int) =~= head);
    assert(s.skip(head.len() + 4int) =~= rest);
}


} // verus!
