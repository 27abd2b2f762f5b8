//! The buffer accumulator: collects bytes from a stream into a bounded
//! buffer, chunk by chunk, until a blank-line head terminator has arrived,
//! then hands the decoded text to the head parser.

use crate::request::{spec_parse, ErrorV, ParserError, Request, RequestV};
use crate::text::find_sub_from;
use vstd::prelude::*;
use vstd::utf8::{decode_utf8, valid_utf8};

verus! {

/// Capacity of the accumulation buffer: a generous upper bound for a
/// request line plus headers.
pub const HEAD_CAPACITY: usize = 8192;

/// What a feed reports: more bytes are needed, or the head is complete
/// and has been parsed.
#[derive(PartialEq, Eq, Debug)]
pub enum ParserState {
    FillingBuffer,
    Done(Request),
}

/// Whether the bytes hold a blank-line head terminator, `"\r\n\r\n"` or
/// `"\n\n"`.
pub open spec fn head_complete(bytes: Seq<u8>) -> bool {
    find_sub_from(bytes, seq![13u8, 10u8, 13u8, 10u8], 0) is Some || find_sub_from(
        bytes,
        seq![10u8, 10u8],
        0,
    ) is Some
}

/// The chunk was appended to the buffer, within capacity.
pub open spec fn appended(old_buf: Seq<u8>, chunk: Seq<u8>, new_buf: Seq<u8>) -> bool {
    new_buf == old_buf + chunk && new_buf.len() <= HEAD_CAPACITY
}

/// Accumulates the bytes of one head; owned by a single parse cycle.
pub struct Accumulator {
    buf: Vec<u8>,
}

impl View for Accumulator {
    type V = Seq<u8>;

    closed spec fn view(&self) -> Seq<u8> {
        self.buf@
    }
}

/// Relies on `str::from_utf8`: it returns `Ok` exactly on UTF-8-valid
/// bytes, decoding them to their character sequence.
#[verifier::external_body]
fn decode_buffer(bytes: &Vec<u8>) -> (r: Option<String>)
    ensures
        r is Some <==> valid_utf8(bytes@),
        match r {
            Some(s) => s@ == decode_utf8(bytes@),
            None => true,
        },
{
    match core::str::from_utf8(bytes.as_slice()) {
        Ok(s) => Some(s.to_string()),
        Err(_) => None,
    }
}

/// Index of the first occurrence of the pattern `pat` in `bs` at or after
/// `from`, if any.
fn find_sub_bytes(bs: &Vec<u8>, pat: &Vec<u8>, from: usize) -> (r: Option<usize>)
    requires
        from <= bs@.len(),
        pat@.len() > 0,
    ensures
        match r {
            Some(j) => find_sub_from(bs@, pat@, from as int) == Some(j as int) && from <= j && j
                + pat@.len() <= bs@.len(),
            None => find_sub_from(bs@, pat@, from as int) is None,
        },
{
    if pat.len() > bs.len() {
        return None;
    }
    let mut i: usize = from;
    while i <= bs.len() - pat.len()
        invariant
            from <= i,
            i <= bs@.len() + 1,
            0 < pat@.len() <= bs@.len(),
            find_sub_from(bs@, pat@, from as int) == find_sub_from(bs@, pat@, i as int),
        decreases bs@.len() + 1 - i,
    {
        let mut j: usize = 0;
        let mut matched = true;
        proof {
            assert(bs@.subrange(i as int, i as int) =~= pat@.take(0));
        }
        while j < pat.len()
            invariant
                i + pat@.len() <= bs@.len(),
                bs@.len() <= usize::MAX,
                j <= pat@.len(),
                matched == (bs@.subrange(i as int, i as int + j as int) == pat@.take(j as int)),
            decreases pat@.len() - j,
        {
            let cj = bs[i + j];
            let pj = pat[j];
            proof {
                let ii = i as int;
                let jj = j as int;
                assert(bs@.subrange(ii, ii + jj + 1).subrange(0, jj) =~= bs@.subrange(ii, ii + jj));
                assert(pat@.take(jj + 1).subrange(0, jj) =~= pat@.take(jj));
                assert(bs@.subrange(ii, ii + jj + 1)[jj] == cj);
                assert(pat@.take(jj + 1)[jj] == pj);
                if matched && cj == pj {
                    assert(bs@.subrange(ii, ii + jj + 1) =~= pat@.take(jj + 1));
                }
            }
            matched = matched && cj == pj;
            j += 1;
        }
        proof {
            assert(pat@.take(pat@.len() as int) =~= pat@);
        }
        if matched {
            proof {
                assert(bs@.subrange(i as int, i as int + pat@.len() as int) == pat@);
            }
            return Some(i);
        }
        proof {
            assert(bs@.subrange(i as int, i as int + pat@.len() as int) != pat@);
        }
        i += 1;
    }
    None
}

/// The head parser reports only structural errors: never a transport,
/// encoding or capacity failure.
pub proof fn lemma_hdrs_err_kind(ls: Seq<Seq<char>>, i: int, acc: Map<Seq<char>, Seq<char>>)
    ensures
        crate::request::hdrs_from(ls, i, acc) matches Err(e) ==> e is InvalidHeader,
    decreases ls.len() - i,
{
    if 0 <= i < ls.len() {
        if crate::request::is_cont(ls[i]) {
            lemma_hdrs_err_kind(ls, i + 1, acc);
        } else {
            match crate::text::find_char_from(ls[i], ':', 0) {
                None => {},
                Some(k) => {
                    lemma_hdrs_err_kind(
                        ls,
                        i + 1,
                        acc.insert(
                            crate::text::lower_seq(
                                crate::text::trim_right(ls[i].subrange(0, k)),
                            ),
                            crate::request::fold_conts(
                                ls,
                                i + 1,
                                crate::text::trim_left(
                                    ls[i].subrange(k + 1, ls[i].len() as int),
                                ),
                            ),
                        ),
                    );
                },
            }
        }
    }
}

/// A failed head parse carries a structural error: one of the invalid-line,
/// invalid-version, invalid-header or invalid-format kinds.
pub proof fn lemma_parse_err_kind(s: Seq<char>)
    ensures
        spec_parse(s) matches Err(e) ==> !(e is BufferOverflow) && !(e is Utf8Error) && !(
        e is IOError),
{
    match crate::text::find_char_from(s, '\n', 0) {
        None => {},
        Some(nl) => {
            let line = s.subrange(0, nl);
            let rest = s.subrange(nl + 1, s.len() as int);
            let toks = crate::text::tokens_of(line);
            if toks.len() == 3 {
                match crate::request::version_of(toks[2]) {
                    Err(_) => {},
                    Ok(_) => {
                        let term = if line.len() > 0 && line.last() == '\r' {
                            crate::request::crlf_terminator()
                        } else {
                            crate::request::lf_terminator()
                        };
                        match find_sub_from(rest, term, 0) {
                            None => {},
                            Some(p) => {
                                lemma_hdrs_err_kind(
                                    crate::text::lines_of(rest.subrange(0, p)),
                                    0,
                                    Map::empty(),
                                );
                            },
                        }
                    },
                }
            }
        },
    }
}

impl Accumulator {
    /// A fresh accumulator with an empty buffer.
    pub fn new() -> (r: Accumulator)
        ensures
            r@ == Seq::<u8>::empty(),
    {
        Accumulator { buf: Vec::new() }
    }

    /// Discards all buffered bytes, so that a new parse cycle can begin.
    pub fn reset(&mut self)
        ensures
            final(self)@ == Seq::<u8>::empty(),
    {
        self.buf.clear();
    }

    /// Number of bytes buffered so far.
    pub fn buffered(&self) -> (r: usize)
        ensures
            r == self@.len(),
    {
        self.buf.len()
    }

    /// Feeds the next chunk of the stream. The chunk is appended to the
    /// buffer (unless that would exceed the capacity, a fatal
    /// `BufferOverflow`); the whole buffer must stay valid UTF-8 (else
    /// `Utf8Error`); once the buffer holds a head terminator the decoded
    /// text is parsed, and the parse's own result is returned; before that
    /// the caller is asked for more bytes with `FillingBuffer`.
    pub fn feed(&mut self, chunk: &[u8]) -> (r: Result<ParserState, ParserError>)
        ensures
            match r {
                Ok(ParserState::FillingBuffer) => appended(old(self)@, chunk@, final(self)@)
                    && valid_utf8(final(self)@) && !head_complete(final(self)@),
                Ok(ParserState::Done(req)) => appended(old(self)@, chunk@, final(self)@)
                    && valid_utf8(final(self)@) && head_complete(final(self)@) && spec_parse(
                    decode_utf8(final(self)@),
                ) == Ok::<RequestV, ErrorV>(req@),
                Err(e) => match e@ {
                    ErrorV::BufferOverflow => final(self)@ == old(self)@ && old(self)@.len()
                        + chunk@.len() > HEAD_CAPACITY,
                    ErrorV::Utf8Error => appended(old(self)@, chunk@, final(self)@)
                        && !valid_utf8(final(self)@),
                    ErrorV::IOError => false,
                    _ => appended(old(self)@, chunk@, final(self)@) && valid_utf8(final(self)@)
                        && head_complete(final(self)@) && spec_parse(decode_utf8(final(self)@))
                        == Err::<RequestV, ErrorV>(e@),
                },
            },
    {
        if chunk.len() > HEAD_CAPACITY || self.buf.len() > HEAD_CAPACITY - chunk.len() {
            return Err(ParserError::BufferOverflow);
        }
        let mut i: usize = 0;
        while i < chunk.len()
            invariant
                i <= chunk@.len(),
                old(self)@.len() + chunk@.len() <= HEAD_CAPACITY,
                self.buf@ == old(self)@ + chunk@.subrange(0, i as int),
            decreases chunk@.len() - i,
        {
            self.buf.push(chunk[i]);
            i += 1;
            proof {
                assert(self.buf@ =~= old(self)@ + chunk@.subrange(0, i as int));
            }
        }
        proof {
            assert(self.buf@ =~= old(self)@ + chunk@);
        }
        let text = match decode_buffer(&self.buf) {
            None => {
                return Err(ParserError::Utf8Error);
            },
            Some(t) => t,
        };
        let mut crlf_pat: Vec<u8> = Vec::new();
        crlf_pat.push(13);
        crlf_pat.push(10);
        crlf_pat.push(13);
        crlf_pat.push(10);
        let mut lf_pat: Vec<u8> = Vec::new();
        lf_pat.push(10);
        lf_pat.push(10);
        proof {
            assert(crlf_pat@ =~= seq![13u8, 10u8, 13u8, 10u8]);
            assert(lf_pat@ =~= seq![10u8, 10u8]);
        }
        let crlf_found = find_sub_bytes(&self.buf, &crlf_pat, 0);
        let lf_found = find_sub_bytes(&self.buf, &lf_pat, 0);
        if crlf_found.is_none() && lf_found.is_none() {
            return Ok(ParserState::FillingBuffer);
        }
        proof {
            lemma_parse_err_kind(decode_utf8(self.buf@));
        }
        match Request::from_str(text.as_str()) {
            Ok(req) => Ok(ParserState::Done(req)),
            Err(e) => Err(e),
        }
    }
}

} // verus!
