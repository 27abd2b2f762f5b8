//! General properties of the head parser, stated and proved over its
//! mathematical model: what a well-formed request line parses to, how
//! unknown methods are classified, that header names come out lowercase,
//! and that a header line without a colon fails.

use crate::request::{
    hdrs_from, is_cont, lf_terminator, method_of, spec_headers, spec_parse, version_of, ErrorV,
    HttpVersion, MethodV, RequestV,
};
use crate::text::{find_char_from, find_sub_from, is_space, lower_char, lower_seq, tokens_acc,
    tokens_of};
use vstd::prelude::*;

verus! {

/// The first occurrence of `c` at or after `i0` is at `j` when `s[j] == c`
/// and no position between holds `c`.
pub proof fn lemma_find_char_at(s: Seq<char>, c: char, i0: int, j: int)
    requires
        0 <= i0 <= j < s.len(),
        s[j] == c,
        forall|k: int| i0 <= k < j ==> s[k] != c,
    ensures
        find_char_from(s, c, i0) == Some(j),
    decreases j - i0,
{
    if i0 < j {
        lemma_find_char_at(s, c, i0 + 1, j);
    }
}

/// Consuming a run of non-whitespace characters extends the current token
/// and produces no others.
pub proof fn lemma_tokens_run(s: Seq<char>, i: int, j: int, cur: Seq<char>)
    requires
        0 <= i <= j <= s.len(),
        forall|k: int| i <= k < j ==> !is_space(s[k]),
    ensures
        tokens_acc(s, i, cur) == tokens_acc(s, j, cur + s.subrange(i, j)),
    decreases j - i,
{
    if i == j {
        assert(cur + s.subrange(i, j) =~= cur);
    } else {
        lemma_tokens_run(s, i + 1, j, cur.push(s[i]));
        assert(cur.push(s[i]) + s.subrange(i + 1, j) =~= cur + s.subrange(i, j));
    }
}

/// Parsing a head of the form `"<M> <U> <V>\n" + rest`, where the three
/// tokens are non-empty and hold no whitespace, `V` parses as a version,
/// and `rest` holds the `"\n\n"` terminator at `p` with a header block
/// before it that parses, yields exactly the classified method, the
/// verbatim URL, that version and those headers. With an unknown `M` the
/// method is `Unsupported(M)`; the parse never fails over the method.
pub proof fn lemma_request_line(
    m: Seq<char>,
    u: Seq<char>,
    v: Seq<char>,
    rest: Seq<char>,
    p: int,
    ver: HttpVersion,
    hm: Map<Seq<char>, Seq<char>>,
)
    requires
        m.len() > 0 && u.len() > 0 && v.len() > 0,
        forall|i: int| 0 <= i < m.len() ==> !is_space(m[i]),
        forall|i: int| 0 <= i < u.len() ==> !is_space(u[i]),
        forall|i: int| 0 <= i < v.len() ==> !is_space(v[i]),
        version_of(v) == Ok::<HttpVersion, ErrorV>(ver),
        find_sub_from(rest, lf_terminator(), 0) == Some(p),
        spec_headers(crate::text::lines_of(rest.subrange(0, p))) == Ok::<
            Map<Seq<char>, Seq<char>>,
            ErrorV,
        >(hm),
    ensures
        spec_parse(m + seq![' '] + u + seq![' '] + v + seq!['\n'] + rest) == Ok::<
            RequestV,
            ErrorV,
        >(RequestV { method: method_of(m), url: u, version: ver, headers: hm }),
{
    let line = m + seq![' '] + u + seq![' '] + v;
    let s = line + seq!['\n'] + rest;
    let ml = m.len() as int;
    let ul = u.len() as int;
    let vl = v.len() as int;
    let ll = line.len() as int;
    assert(ll == ml + 1 + ul + 1 + vl);
    assert(s[ll] == '\n');
    assert forall|k: int| 0 <= k < ll implies s[k] != '\n' by {
        assert(s[k] == line[k]);
        if k < ml {
            assert(line[k] == m[k]);
        } else if k == ml {
            assert(line[k] == ' ');
        } else if k < ml + 1 + ul {
            assert(line[k] == u[k - ml - 1]);
        } else if k == ml + 1 + ul {
            assert(line[k] == ' ');
        } else {
            assert(line[k] == v[k - ml - 2 - ul]);
        }
    }
    lemma_find_char_at(s, '\n', 0, ll);
    assert(s.subrange(0, ll) =~= line);
    assert(s.subrange(ll + 1, s.len() as int) =~= rest);

    // the request line tokenizes to exactly [m, u, v]
    assert forall|k: int| 0 <= k < ml implies !is_space(line[k]) by {
        assert(line[k] == m[k]);
    }
    lemma_tokens_run(line, 0, ml, seq![]);
    assert(seq![] + line.subrange(0, ml) =~= m);
    assert(is_space(line[ml]));
    assert(tokens_acc(line, ml, m) == seq![m] + tokens_acc(line, ml + 1, seq![]));
    assert forall|k: int| ml + 1 <= k < ml + 1 + ul implies !is_space(line[k]) by {
        assert(line[k] == u[k - ml - 1]);
    }
    lemma_tokens_run(line, ml + 1, ml + 1 + ul, seq![]);
    assert(seq![] + line.subrange(ml + 1, ml + 1 + ul) =~= u);
    assert(is_space(line[ml + 1 + ul]));
    assert(tokens_acc(line, ml + 1 + ul, u) == seq![u] + tokens_acc(line, ml + 2 + ul, seq![]));
    assert forall|k: int| ml + 2 + ul <= k < ll implies !is_space(line[k]) by {
        assert(line[k] == v[k - ml - 2 - ul]);
    }
    lemma_tokens_run(line, ml + 2 + ul, ll, seq![]);
    assert(seq![] + line.subrange(ml + 2 + ul, ll) =~= v);
    assert(tokens_acc(line, ll, v) == seq![v]);
    assert(tokens_of(line) =~~= seq![m, u, v]);

    // the line ends with the last character of `v`, so the terminator is "\n\n"
    assert(line.last() == v[vl - 1]);
    assert(!is_space(line.last()));
    assert(line.last() != '\r');
}

/// `c` does not occur at or after `i0` when no position holds it.
pub proof fn lemma_find_char_none(s: Seq<char>, c: char, i0: int)
    requires
        0 <= i0,
        forall|k: int| i0 <= k < s.len() ==> s[k] != c,
    ensures
        find_char_from(s, c, i0) is None,
    decreases s.len() - i0,
{
    if i0 < s.len() {
        lemma_find_char_none(s, c, i0 + 1);
    }
}

/// A version token written `"HTTP/" + <major digits> + "." + <minor
/// digits>`, with each group a digit string whose value fits in `u8`,
/// parses to exactly those two values.
pub proof fn lemma_version_rendering(d1: Seq<char>, d2: Seq<char>)
    requires
        crate::text::is_digits(d1),
        crate::text::dec_val(d1) < 256,
        crate::text::is_digits(d2),
        crate::text::dec_val(d2) < 256,
    ensures
        version_of(seq!['H', 'T', 'T', 'P', '/'] + d1 + seq!['.'] + d2) == Ok::<
            HttpVersion,
            ErrorV,
        >(
            HttpVersion {
                major: crate::text::dec_val(d1) as u8,
                minor: crate::text::dec_val(d2) as u8,
            },
        ),
{
    let t = seq!['H', 'T', 'T', 'P', '/'] + d1 + seq!['.'] + d2;
    let n1 = d1.len() as int;
    let n2 = d2.len() as int;
    assert(t.len() == 5 + n1 + 1 + n2);
    assert(t[4] == '/');
    assert forall|k: int| 0 <= k < 4 implies t[k] != '/' by {}
    lemma_find_char_at(t, '/', 0, 4);
    assert forall|k: int| 5 <= k < t.len() implies t[k] != '/' by {
        if k < 5 + n1 {
            assert(t[k] == d1[k - 5]);
        } else if k == 5 + n1 {
            assert(t[k] == '.');
        } else {
            assert(t[k] == d2[k - 6 - n1]);
        }
    }
    lemma_find_char_none(t, '/', 5);
    let seg = t.subrange(5, t.len() as int);
    assert(seg =~= d1 + seq!['.'] + d2);
    assert(seg[n1] == '.');
    assert forall|k: int| 0 <= k < n1 implies seg[k] != '.' by {
        assert(seg[k] == d1[k]);
    }
    lemma_find_char_at(seg, '.', 0, n1);
    assert forall|k: int| n1 + 1 <= k < seg.len() implies seg[k] != '.' by {
        assert(seg[k] == d2[k - n1 - 1]);
    }
    lemma_find_char_none(seg, '.', n1 + 1);
    assert(seg.subrange(0, n1) =~= d1);
    assert(seg.subrange(n1 + 1, seg.len() as int) =~= d2);
}

/// An unknown method token is classified as `Unsupported`, carrying the
/// token verbatim, rather than rejected.
pub proof fn lemma_unknown_method(t: Seq<char>)
    requires
        t != seq!['D', 'E', 'L', 'E', 'T', 'E'],
        t != seq!['G', 'E', 'T'],
        t != seq!['P', 'O', 'S', 'T'],
        t != seq!['P', 'U', 'T'],
        t != seq!['U', 'P', 'D', 'A', 'T', 'E'],
    ensures
        method_of(t) == MethodV::Unsupported(t),
{
}

/// Lowercase folding is idempotent.
pub proof fn lemma_lower_idempotent(x: Seq<char>)
    ensures
        lower_seq(lower_seq(x)) == lower_seq(x),
{
    assert forall|i: int| 0 <= i < x.len() implies lower_char(lower_char(x[i])) == lower_char(
        x[i],
    ) by {
        let c = x[i];
        if 'A' <= c && c <= 'Z' {
            assert(lower_char(c) == ((c as u8) + 32) as char);
        }
    }
    assert(lower_seq(lower_seq(x)) =~= lower_seq(x));
}

/// Every name in the mapping a header block builds is already lowercase.
proof fn lemma_hdrs_keys_lower(ls: Seq<Seq<char>>, i: int, acc: Map<Seq<char>, Seq<char>>)
    requires
        forall|k: Seq<char>| acc.dom().contains(k) ==> k == lower_seq(k),
    ensures
        hdrs_from(ls, i, acc) matches Ok(hm) ==> forall|k: Seq<char>|
            hm.dom().contains(k) ==> k == lower_seq(k),
    decreases ls.len() - i,
{
    if 0 <= i < ls.len() {
        if is_cont(ls[i]) {
            lemma_hdrs_keys_lower(ls, i + 1, acc);
        } else {
            match find_char_from(ls[i], ':', 0) {
                None => {},
                Some(k) => {
                    let name = lower_seq(crate::text::trim_right(ls[i].subrange(0, k)));
                    let value = crate::request::fold_conts(
                        ls,
                        i + 1,
                        crate::text::trim_left(ls[i].subrange(k + 1, ls[i].len() as int)),
                    );
                    lemma_lower_idempotent(crate::text::trim_right(ls[i].subrange(0, k)));
                    lemma_hdrs_keys_lower(ls, i + 1, acc.insert(name, value));
                },
            }
        }
    }
}

/// Header name case is irrelevant for lookup: every header name of a
/// successfully parsed request is stored lowercase, so a lowercase query
/// matches however the sender wrote the name.
pub proof fn lemma_header_names_lowercase(s: Seq<char>, r: RequestV)
    requires
        spec_parse(s) == Ok::<RequestV, ErrorV>(r),
    ensures
        forall|k: Seq<char>| r.headers.dom().contains(k) ==> k == lower_seq(k),
{
    let nl = find_char_from(s, '\n', 0)->Some_0;
    let rest = s.subrange(nl + 1, s.len() as int);
    let p = find_sub_from(
        rest,
        if s.subrange(0, nl).len() > 0 && s.subrange(0, nl).last() == '\r' {
            crate::request::crlf_terminator()
        } else {
            lf_terminator()
        },
        0,
    )->Some_0;
    lemma_hdrs_keys_lower(crate::text::lines_of(rest.subrange(0, p)), 0, Map::empty());
}

/// Parsing is deterministic: the parse of a head text is a function of
/// the text alone, so two parses of the same complete head text yield
/// structurally equal results.
pub proof fn lemma_parse_deterministic(
    s: Seq<char>,
    r1: Result<RequestV, ErrorV>,
    r2: Result<RequestV, ErrorV>,
)
    requires
        r1 == spec_parse(s),
        r2 == spec_parse(s),
    ensures
        r1 == r2,
{
}

/// Processing the block from `i0` still fails on the colon-less line `i`
/// when the lines between parse as continuations or header starts.
proof fn lemma_missing_colon_from(ls: Seq<Seq<char>>, i0: int, acc: Map<Seq<char>, Seq<char>>, i: int)
    requires
        0 <= i0 <= i < ls.len(),
        !is_cont(ls[i]),
        find_char_from(ls[i], ':', 0) is None,
        forall|j: int| i0 <= j < i ==> is_cont(ls[j]) || find_char_from(ls[j], ':', 0) is Some,
    ensures
        hdrs_from(ls, i0, acc) == Err::<Map<Seq<char>, Seq<char>>, ErrorV>(
            ErrorV::InvalidHeader(ls[i]),
        ),
    decreases i - i0,
{
    if i0 < i {
        if is_cont(ls[i0]) {
            lemma_missing_colon_from(ls, i0 + 1, acc, i);
        } else {
            let k = find_char_from(ls[i0], ':', 0)->Some_0;
            lemma_missing_colon_from(
                ls,
                i0 + 1,
                acc.insert(
                    lower_seq(crate::text::trim_right(ls[i0].subrange(0, k))),
                    crate::request::fold_conts(
                        ls,
                        i0 + 1,
                        crate::text::trim_left(ls[i0].subrange(k + 1, ls[i0].len() as int)),
                    ),
                ),
                i,
            );
        }
    }
}

/// A header-start line without a colon fails the whole header block with
/// `InvalidHeader` carrying that line's text, provided every line before
/// it is a continuation line or holds a colon.
pub proof fn lemma_header_without_colon(ls: Seq<Seq<char>>, i: int)
    requires
        0 <= i < ls.len(),
        !is_cont(ls[i]),
        find_char_from(ls[i], ':', 0) is None,
        forall|j: int| 0 <= j < i ==> is_cont(ls[j]) || find_char_from(ls[j], ':', 0) is Some,
    ensures
        spec_headers(ls) == Err::<Map<Seq<char>, Seq<char>>, ErrorV>(
            ErrorV::InvalidHeader(ls[i]),
        ),
{
    lemma_missing_colon_from(ls, 0, Map::empty(), i);
}

} // verus!
