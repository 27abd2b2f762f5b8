//! The head parser: given the complete head text of an HTTP/1.x-style
//! request (request line, headers, blank-line terminator), produce a
//! structured [`Request`] or a typed [`ParserError`].

use crate::headers::Headers;
use crate::text::{
    chars_of, find_char, find_char_from, find_sub_chars, find_sub_from, is_space, is_space_c,
    lines_of, lower_seq, lower_vec, parse_u8, parse_u8_vec, split_lines, string_from_chars,
    sub_vec, tokenize, tokens_of, trim_left, trim_left_vec, trim_right, trim_right_vec,
};
use vstd::prelude::*;

verus! {

/// An HTTP version, as `major.minor`.
#[derive(PartialEq, Eq, Structural, Debug, Clone, Copy)]
pub struct HttpVersion {
    pub major: u8,
    pub minor: u8,
}

/// A request method: one of the known verbs, or `UNSUPPORTED` carrying the
/// original token. The parser classifies unknown methods instead of
/// rejecting them.
#[derive(PartialEq, Eq, Debug)]
pub enum Method {
    DELETE,
    GET,
    POST,
    PUT,
    UPDATE,
    UNSUPPORTED(String),
}

/// Mathematical form of [`Method`], carrying the token as a sequence.
pub enum MethodV {
    Delete,
    Get,
    Post,
    Put,
    Update,
    Unsupported(Seq<char>),
}

impl View for Method {
    type V = MethodV;

    open spec fn view(&self) -> MethodV {
        match self {
            Method::DELETE => MethodV::Delete,
            Method::GET => MethodV::Get,
            Method::POST => MethodV::Post,
            Method::PUT => MethodV::Put,
            Method::UPDATE => MethodV::Update,
            Method::UNSUPPORTED(t) => MethodV::Unsupported(t@),
        }
    }
}

/// The errors a parse can end in; the structural ones carry the offending
/// line text.
#[derive(PartialEq, Eq, Debug, Clone)]
pub enum ParserError {
    BufferOverflow,
    IOError,
    InvalidFormat,
    InvalidHeader(String),
    InvalidHttpVersion,
    InvalidInitialLine(String),
    Utf8Error,
}

/// Mathematical form of [`ParserError`].
pub enum ErrorV {
    BufferOverflow,
    IOError,
    InvalidFormat,
    InvalidHeader(Seq<char>),
    InvalidHttpVersion,
    InvalidInitialLine(Seq<char>),
    Utf8Error,
}

impl View for ParserError {
    type V = ErrorV;

    open spec fn view(&self) -> ErrorV {
        match self {
            ParserError::BufferOverflow => ErrorV::BufferOverflow,
            ParserError::IOError => ErrorV::IOError,
            ParserError::InvalidFormat => ErrorV::InvalidFormat,
            ParserError::InvalidHeader(l) => ErrorV::InvalidHeader(l@),
            ParserError::InvalidHttpVersion => ErrorV::InvalidHttpVersion,
            ParserError::InvalidInitialLine(l) => ErrorV::InvalidInitialLine(l@),
            ParserError::Utf8Error => ErrorV::Utf8Error,
        }
    }
}

/// A parsed request head. The URL is kept verbatim; header names are
/// lowercased at insertion.
#[derive(PartialEq, Eq, Debug)]
pub struct Request {
    pub method: Method,
    pub url: String,
    pub version: HttpVersion,
    pub headers: Headers,
}

/// Mathematical form of [`Request`].
pub struct RequestV {
    pub method: MethodV,
    pub url: Seq<char>,
    pub version: HttpVersion,
    pub headers: Map<Seq<char>, Seq<char>>,
}

impl View for Request {
    type V = RequestV;

    open spec fn view(&self) -> RequestV {
        RequestV {
            method: self.method@,
            url: self.url@,
            version: self.version,
            headers: self.headers@,
        }
    }
}

/// Classification of a method token: an exact, case-sensitive match
/// against the known verbs; anything else is `Unsupported`.
pub open spec fn method_of(t: Seq<char>) -> MethodV {
    if t == seq!['D', 'E', 'L', 'E', 'T', 'E'] {
        MethodV::Delete
    } else if t == seq!['G', 'E', 'T'] {
        MethodV::Get
    } else if t == seq!['P', 'O', 'S', 'T'] {
        MethodV::Post
    } else if t == seq!['P', 'U', 'T'] {
        MethodV::Put
    } else if t == seq!['U', 'P', 'D', 'A', 'T', 'E'] {
        MethodV::Update
    } else {
        MethodV::Unsupported(t)
    }
}

/// Parsing of a version token `HTTP/<major>.<minor>`: the segment after
/// the first `'/'` must consist of exactly two digit groups separated by
/// `'.'`, each a strict base-10 `u8`.
pub open spec fn version_of(t: Seq<char>) -> Result<HttpVersion, ErrorV> {
    match find_char_from(t, '/', 0) {
        None => Err(ErrorV::InvalidHttpVersion),
        Some(k) => {
            let e = match find_char_from(t, '/', k + 1) {
                None => t.len() as int,
                Some(k2) => k2,
            };
            let seg = t.subrange(k + 1, e);
            match find_char_from(seg, '.', 0) {
                None => Err(ErrorV::InvalidHttpVersion),
                Some(d) => {
                    if find_char_from(seg, '.', d + 1) is Some {
                        Err(ErrorV::InvalidHttpVersion)
                    } else {
                        match (parse_u8(seg.subrange(0, d)), parse_u8(
                            seg.subrange(d + 1, seg.len() as int),
                        )) {
                            (Some(ma), Some(mi)) => Ok(HttpVersion { major: ma, minor: mi }),
                            _ => Err(ErrorV::InvalidHttpVersion),
                        }
                    }
                },
            }
        },
    }
}

/// A continuation line: one that begins with whitespace.
pub open spec fn is_cont(l: Seq<char>) -> bool {
    l.len() > 0 && is_space(l[0])
}

/// The value of a header once the consecutive continuation lines that
/// follow it are folded in, each joined by a single space with its leading
/// whitespace stripped.
pub open spec fn fold_conts(ls: Seq<Seq<char>>, i: int, v: Seq<char>) -> Seq<char>
    decreases ls.len() - i,
{
    if i < 0 || i >= ls.len() || !is_cont(ls[i]) {
        v
    } else {
        fold_conts(ls, i + 1, v + seq![' '] + trim_left(ls[i]))
    }
}

/// The header mapping built from the lines `ls` starting at line `i`, with
/// `acc` the mapping built so far. A continuation line is never a header
/// start; a header-start line must contain `':'`; the name is the part
/// before it, right-trimmed and lowercased, the value is the part after
/// it, left-trimmed, with continuations folded in; a later name overwrites
/// an earlier one.
pub open spec fn hdrs_from(ls: Seq<Seq<char>>, i: int, acc: Map<Seq<char>, Seq<char>>) -> Result<
    Map<Seq<char>, Seq<char>>,
    ErrorV,
>
    decreases ls.len() - i,
{
    if i < 0 || i >= ls.len() {
        Ok(acc)
    } else if is_cont(ls[i]) {
        hdrs_from(ls, i + 1, acc)
    } else {
        match find_char_from(ls[i], ':', 0) {
            None => Err(ErrorV::InvalidHeader(ls[i])),
            Some(k) => hdrs_from(
                ls,
                i + 1,
                acc.insert(
                    lower_seq(trim_right(ls[i].subrange(0, k))),
                    fold_conts(ls, i + 1, trim_left(ls[i].subrange(k + 1, ls[i].len() as int))),
                ),
            ),
        }
    }
}

/// The header mapping of a whole header block, given as lines.
pub open spec fn spec_headers(ls: Seq<Seq<char>>) -> Result<Map<Seq<char>, Seq<char>>, ErrorV> {
    hdrs_from(ls, 0, Map::empty())
}

/// The head terminator when lines end in `"\r\n"`.
pub open spec fn crlf_terminator() -> Seq<char> {
    seq!['\r', '\n', '\r', '\n']
}

/// The head terminator when lines end in `"\n"`.
pub open spec fn lf_terminator() -> Seq<char> {
    seq!['\n', '\n']
}

/// The parse of a complete head text: split at the first line break;
/// tokenize the request line into exactly three tokens (method, URL,
/// version); classify the method; parse the version; locate the blank-line
/// terminator the sender used in the remainder; parse the header block
/// before it.
pub open spec fn spec_parse(s: Seq<char>) -> Result<RequestV, ErrorV> {
    match find_char_from(s, '\n', 0) {
        None => Err(ErrorV::InvalidInitialLine(s)),
        Some(nl) => {
            let line = s.subrange(0, nl);
            let rest = s.subrange(nl + 1, s.len() as int);
            let toks = tokens_of(line);
            if toks.len() != 3 {
                Err(ErrorV::InvalidInitialLine(line))
            } else {
                match version_of(toks[2]) {
                    Err(e) => Err(e),
                    Ok(ver) => {
                        let term = if line.len() > 0 && line.last() == '\r' {
                            crlf_terminator()
                        } else {
                            lf_terminator()
                        };
                        match find_sub_from(rest, term, 0) {
                            None => Err(ErrorV::InvalidFormat),
                            Some(p) => match spec_headers(lines_of(rest.subrange(0, p))) {
                                Err(e) => Err(e),
                                Ok(hm) => Ok(
                                    RequestV {
                                        method: method_of(toks[0]),
                                        url: toks[1],
                                        version: ver,
                                        headers: hm,
                                    },
                                ),
                            },
                        }
                    },
                }
            }
        },
    }
}

/// Classification of a method token.
fn classify_method(t: &Vec<char>) -> (r: Method)
    ensures
        r@ == method_of(t@),
{
    if t.len() == 6 && t[0] == 'D' && t[1] == 'E' && t[2] == 'L' && t[3] == 'E' && t[4] == 'T'
        && t[5] == 'E' {
        proof {
            assert(t@ =~= seq!['D', 'E', 'L', 'E', 'T', 'E']);
        }
        Method::DELETE
    } else if t.len() == 3 && t[0] == 'G' && t[1] == 'E' && t[2] == 'T' {
        proof {
            assert(t@ =~= seq!['G', 'E', 'T']);
        }
        Method::GET
    } else if t.len() == 4 && t[0] == 'P' && t[1] == 'O' && t[2] == 'S' && t[3] == 'T' {
        proof {
            assert(t@ =~= seq!['P', 'O', 'S', 'T']);
        }
        Method::POST
    } else if t.len() == 3 && t[0] == 'P' && t[1] == 'U' && t[2] == 'T' {
        proof {
            assert(t@ =~= seq!['P', 'U', 'T']);
        }
        Method::PUT
    } else if t.len() == 6 && t[0] == 'U' && t[1] == 'P' && t[2] == 'D' && t[3] == 'A' && t[4]
        == 'T' && t[5] == 'E' {
        proof {
            assert(t@ =~= seq!['U', 'P', 'D', 'A', 'T', 'E']);
        }
        Method::UPDATE
    } else {
        Method::UNSUPPORTED(string_from_chars(t))
    }
}

/// Parsing of a version token held as a character vector.
fn parse_version_chars(t: &Vec<char>) -> (r: Result<HttpVersion, ParserError>)
    ensures
        match r {
            Ok(v) => version_of(t@) == Ok::<HttpVersion, ErrorV>(v),
            Err(e) => version_of(t@) == Err::<HttpVersion, ErrorV>(e@),
        },
{
    let n = t.len();
    let k = match find_char(t, '/', 0) {
        None => {
            return Err(ParserError::InvalidHttpVersion);
        },
        Some(k) => k,
    };
    let e = match find_char(t, '/', k + 1) {
        None => n,
        Some(k2) => k2,
    };
    let seg = sub_vec(t, k + 1, e);
    let d = match find_char(&seg, '.', 0) {
        None => {
            return Err(ParserError::InvalidHttpVersion);
        },
        Some(d) => d,
    };
    if let Some(_) = find_char(&seg, '.', d + 1) {
        return Err(ParserError::InvalidHttpVersion);
    }
    let d1 = sub_vec(&seg, 0, d);
    let d2 = sub_vec(&seg, d + 1, seg.len());
    match (parse_u8_vec(&d1), parse_u8_vec(&d2)) {
        (Some(ma), Some(mi)) => Ok(HttpVersion { major: ma, minor: mi }),
        _ => Err(ParserError::InvalidHttpVersion),
    }
}

/// Whether a line, held as a character vector, is a continuation line.
fn is_cont_line(l: &Vec<char>) -> (r: bool)
    ensures
        r == is_cont(l@),
{
    l.len() > 0 && is_space_c(l[0])
}

/// Parsing of a header block held as a vector of lines.
fn parse_lines(lines: &Vec<Vec<char>>) -> (r: Result<Headers, ParserError>)
    ensures
        match r {
            Ok(h) => spec_headers(lines.deep_view()) == Ok::<Map<Seq<char>, Seq<char>>, ErrorV>(
                h@,
            ),
            Err(e) => spec_headers(lines.deep_view()) == Err::<Map<Seq<char>, Seq<char>>, ErrorV>(
                e@,
            ),
        },
{
    let ghost lv = lines.deep_view();
    let mut hs = Headers::new();
    let mut i: usize = 0;
    while i < lines.len()
        invariant
            i <= lines@.len(),
            lv == lines.deep_view(),
            lv.len() == lines@.len(),
            forall|q: int| 0 <= q < lv.len() ==> lv[q] == lines@[q]@,
            spec_headers(lv) == hdrs_from(lv, i as int, hs@),
        decreases lines@.len() - i,
    {
        let line = &lines[i];
        proof {
            assert(lv[i as int] == lines@[i as int]@);
        }
        if is_cont_line(line) {
            // a continuation line is never a header start
        } else {
            let llen = line.len();
            let k = match find_char(line, ':', 0) {
                None => {
                    return Err(ParserError::InvalidHeader(string_from_chars(line)));
                },
                Some(k) => k,
            };
            let before = sub_vec(line, 0, k);
            let name_trimmed = trim_right_vec(&before);
            let name_chars = lower_vec(&name_trimmed);
            let after = sub_vec(line, k + 1, llen);
            let mut val = trim_left_vec(&after);
            let ghost base = val@;
            let mut j: usize = i + 1;
            while j < lines.len() && is_cont_line(&lines[j])
                invariant
                    i < j <= lines@.len(),
                    lv == lines.deep_view(),
                    lv.len() == lines@.len(),
                    forall|q: int| 0 <= q < lv.len() ==> lv[q] == lines@[q]@,
                    fold_conts(lv, i as int + 1, base) == fold_conts(lv, j as int, val@),
                decreases lines@.len() - j,
            {
                let ghost vold = val@;
                val.push(' ');
                let mut cont = trim_left_vec(&lines[j]);
                val.append(&mut cont);
                proof {
                    assert(val@ =~= vold + seq![' '] + trim_left(lv[j as int]));
                }
                j += 1;
            }
            proof {
                assert(fold_conts(lv, j as int, val@) == val@);
            }
            hs.insert(string_from_chars(&name_chars), string_from_chars(&val));
            proof {
                assert(name_chars@ == lower_seq(trim_right(lv[i as int].subrange(0, k as int))));
                assert(base == trim_left(
                    lv[i as int].subrange(k as int + 1, lv[i as int].len() as int),
                ));
            }
        }
        i += 1;
    }
    Ok(hs)
}

impl Request {
    /// Parses a header block: one header per line, `name: value`, with
    /// leading-whitespace continuation lines folded into the value of the
    /// preceding header.
    pub fn parse_headers(header_text: &str) -> (r: Result<Headers, ParserError>)
        ensures
            match r {
                Ok(h) => spec_headers(lines_of(header_text@)) == Ok::<
                    Map<Seq<char>, Seq<char>>,
                    ErrorV,
                >(h@),
                Err(e) => spec_headers(lines_of(header_text@)) == Err::<
                    Map<Seq<char>, Seq<char>>,
                    ErrorV,
                >(e@),
            },
    {
        let cs = chars_of(header_text);
        let lines = split_lines(&cs);
        parse_lines(&lines)
    }

    /// Parses a complete head text into a request, or reports the first
    /// error: the text must hold a line break; the request line must
    /// tokenize into exactly three tokens; the version token must parse;
    /// the blank-line terminator the sender used must occur after the
    /// request line; and the header block before it must parse.
    pub fn from_str(request_text: &str) -> (r: Result<Request, ParserError>)
        ensures
            match r {
                Ok(req) => spec_parse(request_text@) == Ok::<RequestV, ErrorV>(req@),
                Err(e) => spec_parse(request_text@) == Err::<RequestV, ErrorV>(e@),
            },
    {
        let cs = chars_of(request_text);
        let n = cs.len();
        let nl = match find_char(&cs, '\n', 0) {
            None => {
                return Err(ParserError::InvalidInitialLine(request_text.to_owned()));
            },
            Some(nl) => nl,
        };
        let line = sub_vec(&cs, 0, nl);
        let rest = sub_vec(&cs, nl + 1, n);
        let toks = tokenize(&line);
        if toks.len() != 3 {
            return Err(ParserError::InvalidInitialLine(string_from_chars(&line)));
        }
        proof {
            assert(toks.deep_view().len() == toks@.len());
            assert(toks.deep_view()[0] == toks@[0]@);
            assert(toks.deep_view()[1] == toks@[1]@);
            assert(toks.deep_view()[2] == toks@[2]@);
        }
        let ver = match parse_version_chars(&toks[2]) {
            Err(e) => {
                return Err(e);
            },
            Ok(v) => v,
        };
        let method = classify_method(&toks[0]);
        let url = string_from_chars(&toks[1]);
        let mut term: Vec<char> = Vec::new();
        if line.len() > 0 && line[line.len() - 1] == '\r' {
            term.push('\r');
            term.push('\n');
            term.push('\r');
            term.push('\n');
            proof {
                assert(term@ =~= crlf_terminator());
            }
        } else {
            term.push('\n');
            term.push('\n');
            proof {
                assert(term@ =~= lf_terminator());
            }
        }
        let p = match find_sub_chars(&rest, &term, 0) {
            None => {
                return Err(ParserError::InvalidFormat);
            },
            Some(p) => p,
        };
        let header_text = sub_vec(&rest, 0, p);
        let lines = split_lines(&header_text);
        let headers = match parse_lines(&lines) {
            Err(e) => {
                return Err(e);
            },
            Ok(h) => h,
        };
        Ok(Request { method, url, version: ver, headers })
    }

    /// Parses a version token such as `"HTTP/1.1"`.
    pub fn parse_version(text: &str) -> (r: Result<HttpVersion, ParserError>)
        ensures
            match r {
                Ok(v) => version_of(text@) == Ok::<HttpVersion, ErrorV>(v),
                Err(e) => version_of(text@) == Err::<HttpVersion, ErrorV>(e@),
            },
    {
        let cs = chars_of(text);
        parse_version_chars(&cs)
    }
}

} // verus!
