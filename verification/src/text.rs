//! Character-level text utilities shared by the head parser: whitespace
//! classification, searching, trimming, lowercasing, line splitting,
//! whitespace tokenizing and strict decimal parsing, each with a
//! mathematical model over `Seq<char>`.

use vstd::prelude::*;

verus! {

/// The whitespace characters recognized by the parser: space, horizontal
/// tab, carriage return and line feed.
pub open spec fn is_space(c: char) -> bool {
    c == ' ' || c == '\t' || c == '\r' || c == '\n'
}

/// ASCII lowercase folding of a single character; characters outside
/// `'A'..='Z'` are left unchanged.
pub open spec fn lower_char(c: char) -> char {
    if 'A' <= c && c <= 'Z' {
        (((c as u8) + 32) as u8) as char
    } else {
        c
    }
}

/// Pointwise ASCII lowercase folding of a character sequence.
pub open spec fn lower_seq(s: Seq<char>) -> Seq<char> {
    Seq::new(s.len(), |i: int| lower_char(s[i]))
}

/// Index of the first occurrence of `c` in `s` at or after `i`, if any.
pub open spec fn find_char_from(s: Seq<char>, c: char, i: int) -> Option<int>
    decreases s.len() - i,
{
    if i < 0 || i >= s.len() {
        None
    } else if s[i] == c {
        Some(i)
    } else {
        find_char_from(s, c, i + 1)
    }
}

/// Index of the first occurrence of the (non-empty) pattern `pat` as a
/// contiguous subsequence of `s` at or after `i`, if any.
pub open spec fn find_sub_from<T>(s: Seq<T>, pat: Seq<T>, i: int) -> Option<int>
    decreases s.len() + 1 - i,
{
    if i < 0 || i + pat.len() > s.len() {
        None
    } else if s.subrange(i, i + pat.len() as int) == pat {
        Some(i)
    } else {
        find_sub_from(s, pat, i + 1)
    }
}

/// `s` without its leading whitespace.
pub open spec fn trim_left(s: Seq<char>) -> Seq<char>
    decreases s.len(),
{
    if s.len() > 0 && is_space(s[0]) {
        trim_left(s.drop_first())
    } else {
        s
    }
}

/// `s` without its trailing whitespace.
pub open spec fn trim_right(s: Seq<char>) -> Seq<char>
    decreases s.len(),
{
    if s.len() > 0 && is_space(s.last()) {
        trim_right(s.drop_last())
    } else {
        s
    }
}

/// `s` without one trailing carriage return, if it has one.
pub open spec fn strip_cr(s: Seq<char>) -> Seq<char> {
    if s.len() > 0 && s.last() == '\r' {
        s.drop_last()
    } else {
        s
    }
}

/// The lines of `s`, split at `'\n'`, each line stripped of one trailing
/// `'\r'`; a final fragment without a line ending counts only if non-empty.
/// `cur` accumulates the current line.
pub open spec fn lines_acc(s: Seq<char>, i: int, cur: Seq<char>) -> Seq<Seq<char>>
    decreases s.len() - i,
{
    if i < 0 || i >= s.len() {
        if cur.len() > 0 {
            seq![cur]
        } else {
            seq![]
        }
    } else if s[i] == '\n' {
        seq![strip_cr(cur)] + lines_acc(s, i + 1, seq![])
    } else {
        lines_acc(s, i + 1, cur.push(s[i]))
    }
}

/// The lines of `s`, as `str::lines` yields them.
pub open spec fn lines_of(s: Seq<char>) -> Seq<Seq<char>> {
    lines_acc(s, 0, seq![])
}

/// The maximal whitespace-separated runs of non-whitespace characters of
/// `s`, in order; `cur` accumulates the current run.
pub open spec fn tokens_acc(s: Seq<char>, i: int, cur: Seq<char>) -> Seq<Seq<char>>
    decreases s.len() - i,
{
    if i < 0 || i >= s.len() {
        if cur.len() > 0 {
            seq![cur]
        } else {
            seq![]
        }
    } else if is_space(s[i]) {
        if cur.len() > 0 {
            seq![cur] + tokens_acc(s, i + 1, seq![])
        } else {
            tokens_acc(s, i + 1, seq![])
        }
    } else {
        tokens_acc(s, i + 1, cur.push(s[i]))
    }
}

/// The whitespace-separated tokens of `s`.
pub open spec fn tokens_of(s: Seq<char>) -> Seq<Seq<char>> {
    tokens_acc(s, 0, seq![])
}

/// Whether `s` is a non-empty sequence of ASCII decimal digits.
pub open spec fn is_digits(s: Seq<char>) -> bool {
    s.len() > 0 && forall|i: int| 0 <= i < s.len() ==> '0' <= s[i] && s[i] <= '9'
}

/// The base-10 value of a digit sequence.
pub open spec fn dec_val(s: Seq<char>) -> int
    decreases s.len(),
{
    if s.len() == 0 {
        0
    } else {
        dec_val(s.drop_last()) * 10 + (s.last() as int - 48)
    }
}

/// Strict unsigned base-10 parsing: non-empty, digits only (no sign, no
/// leading `'+'`), and the value must fit in `u8`.
pub open spec fn parse_u8(s: Seq<char>) -> Option<u8> {
    if is_digits(s) && dec_val(s) < 256 {
        Some(dec_val(s) as u8)
    } else {
        None
    }
}

/// `dec_val` can only grow as more digits are appended.
pub proof fn lemma_dec_val_mono(s: Seq<char>, i: int)
    requires
        0 <= i <= s.len(),
        forall|k: int| 0 <= k < s.len() ==> '0' <= s[k] && s[k] <= '9',
        dec_val(s.take(i)) >= 0,
    ensures
        dec_val(s) >= dec_val(s.take(i)),
    decreases s.len() - i,
{
    if i == s.len() {
        assert(s.take(i) =~= s);
    } else {
        assert(s.take(i + 1).drop_last() =~= s.take(i));
        assert(s.take(i + 1).last() == s[i]);
        assert(dec_val(s.take(i + 1)) == dec_val(s.take(i)) * 10 + (s[i] as int - 48));
        lemma_dec_val_mono(s, i + 1);
    }
}

/// The characters of `s`, as a vector.
pub fn chars_of(s: &str) -> (r: Vec<char>)
    ensures
        r@ == s@,
{
    let n = s.unicode_len();
    let mut r: Vec<char> = Vec::new();
    let mut i: usize = 0;
    while i < n
        invariant
            n == s@.len(),
            i <= n,
            r@ == s@.subrange(0, i as int),
        decreases n - i,
    {
        r.push(s.get_char(i));
        i += 1;
        proof {
            assert(r@ =~= s@.subrange(0, i as int));
        }
    }
    proof {
        assert(r@ =~= s@);
    }
    r
}

/// Relies on `Iterator::collect` for `String`: collecting the characters of
/// a `&[char]` yields the string of exactly those characters, in order.
#[verifier::external_body]
pub fn string_from_chars(v: &Vec<char>) -> (r: String)
    ensures
        r@ == v@,
{
    v.iter().collect()
}

/// Whether two string slices hold the same characters.
pub fn str_eq(a: &str, b: &str) -> (r: bool)
    ensures
        r == (a@ == b@),
{
    let na = a.unicode_len();
    let nb = b.unicode_len();
    if na != nb {
        return false;
    }
    let mut i: usize = 0;
    while i < na
        invariant
            na == a@.len(),
            na == b@.len(),
            i <= na,
            forall|j: int| 0 <= j < i ==> a@[j] == b@[j],
        decreases na - i,
    {
        if a.get_char(i) != b.get_char(i) {
            return false;
        }
        i += 1;
    }
    proof {
        assert(a@ =~= b@);
    }
    true
}

/// The characters of `cs` from `a` (inclusive) to `b` (exclusive).
pub fn sub_vec(cs: &Vec<char>, a: usize, b: usize) -> (r: Vec<char>)
    requires
        a <= b <= cs@.len(),
    ensures
        r@ == cs@.subrange(a as int, b as int),
{
    let mut r: Vec<char> = Vec::new();
    let mut i: usize = a;
    while i < b
        invariant
            a <= i <= b <= cs@.len(),
            r@ == cs@.subrange(a as int, i as int),
        decreases b - i,
    {
        r.push(cs[i]);
        i += 1;
        proof {
            assert(r@ =~= cs@.subrange(a as int, i as int));
        }
    }
    r
}

/// Executable form of [`is_space`].
pub fn is_space_c(c: char) -> (r: bool)
    ensures
        r == is_space(c),
{
    c == ' ' || c == '\t' || c == '\r' || c == '\n'
}

/// Executable form of [`lower_char`].
pub fn lower_char_c(c: char) -> (r: char)
    ensures
        r == lower_char(c),
{
    if 'A' <= c && c <= 'Z' {
        ((c as u8) + 32) as char
    } else {
        c
    }
}

/// Pointwise ASCII lowercase folding of a character vector.
pub fn lower_vec(v: &Vec<char>) -> (r: Vec<char>)
    ensures
        r@ == lower_seq(v@),
{
    let mut r: Vec<char> = Vec::new();
    let mut i: usize = 0;
    while i < v.len()
        invariant
            i <= v@.len(),
            r@.len() == i,
            forall|j: int| 0 <= j < i ==> r@[j] == lower_char(v@[j]),
        decreases v@.len() - i,
    {
        r.push(lower_char_c(v[i]));
        i += 1;
    }
    proof {
        assert(r@ =~= lower_seq(v@));
    }
    r
}

/// Index of the first occurrence of `c` in `cs` at or after `from`, if any.
pub fn find_char(cs: &Vec<char>, c: char, from: usize) -> (r: Option<usize>)
    requires
        from <= cs@.len(),
    ensures
        match r {
            Some(j) => find_char_from(cs@, c, from as int) == Some(j as int) && from <= j < cs@.len(),
            None => find_char_from(cs@, c, from as int) is None,
        },
{
    let mut i: usize = from;
    while i < cs.len()
        invariant
            from <= i <= cs@.len(),
            find_char_from(cs@, c, from as int) == find_char_from(cs@, c, i as int),
        decreases cs@.len() - i,
    {
        if cs[i] == c {
            return Some(i);
        }
        i += 1;
    }
    None
}

/// The characters of `v` without leading whitespace.
pub fn trim_left_vec(v: &Vec<char>) -> (r: Vec<char>)
    ensures
        r@ == trim_left(v@),
{
    let n = v.len();
    let mut i: usize = 0;
    proof {
        assert(v@.subrange(0, n as int) =~= v@);
    }
    while i < n && is_space_c(v[i])
        invariant
            i <= n == v@.len(),
            trim_left(v@) == trim_left(v@.subrange(i as int, n as int)),
        decreases n - i,
    {
        proof {
            assert(v@.subrange(i as int, n as int).drop_first() =~= v@.subrange(
                i as int + 1,
                n as int,
            ));
        }
        i += 1;
    }
    proof {
        assert(trim_left(v@) == v@.subrange(i as int, n as int));
    }
    sub_vec(v, i, n)
}

/// The whitespace-separated tokens of `line`.
pub fn tokenize(line: &Vec<char>) -> (r: Vec<Vec<char>>)
    ensures
        r.deep_view() == tokens_of(line@),
{
    let mut toks: Vec<Vec<char>> = Vec::new();
    let mut cur: Vec<char> = Vec::new();
    let mut i: usize = 0;
    while i < line.len()
        invariant
            i <= line@.len(),
            tokens_of(line@) == toks.deep_view() + tokens_acc(line@, i as int, cur@),
        decreases line@.len() - i,
    {
        let c = line[i];
        if is_space_c(c) {
            if cur.len() > 0 {
                let ghost prev = toks.deep_view();
                let ghost cv = cur@;
                toks.push(cur);
                cur = Vec::new();
                proof {
                    assert(toks.deep_view() =~~= prev + seq![cv]);
                    assert(cur@ =~= Seq::<char>::empty());
                    assert(tokens_acc(line@, i as int, cv) == seq![cv] + tokens_acc(
                        line@,
                        i as int + 1,
                        cur@,
                    ));
                    assert(prev + (seq![cv] + tokens_acc(line@, i as int + 1, cur@)) =~~= (prev
                        + seq![cv]) + tokens_acc(line@, i as int + 1, cur@));
                }
            } else {
                proof {
                    assert(cur@ =~= Seq::<char>::empty());
                }
            }
        } else {
            cur.push(c);
        }
        i += 1;
    }
    if cur.len() > 0 {
        let ghost prev = toks.deep_view();
        let ghost cv = cur@;
        toks.push(cur);
        proof {
            assert(toks.deep_view() =~~= prev + seq![cv]);
        }
    }
    proof {
        assert(tokens_of(line@) =~~= toks.deep_view());
    }
    toks
}

/// The lines of `text`, split at `'\n'`, each stripped of one trailing
/// `'\r'`; a final fragment without a line ending counts only if non-empty.
pub fn split_lines(text: &Vec<char>) -> (r: Vec<Vec<char>>)
    ensures
        r.deep_view() == lines_of(text@),
{
    let mut out: Vec<Vec<char>> = Vec::new();
    let mut cur: Vec<char> = Vec::new();
    let mut i: usize = 0;
    while i < text.len()
        invariant
            i <= text@.len(),
            lines_of(text@) == out.deep_view() + lines_acc(text@, i as int, cur@),
        decreases text@.len() - i,
    {
        let c = text[i];
        if c == '\n' {
            let ghost cv0 = cur@;
            if cur.len() > 0 && cur[cur.len() - 1] == '\r' {
                cur.pop();
                proof {
                    assert(cur@ =~= strip_cr(cv0));
                }
            }
            let ghost prev = out.deep_view();
            let ghost cv = cur@;
            out.push(cur);
            cur = Vec::new();
            proof {
                assert(cv == strip_cr(cv0));
                assert(out.deep_view() =~~= prev + seq![cv]);
                assert(cur@ =~= Seq::<char>::empty());
                assert(lines_acc(text@, i as int, cv0) == seq![strip_cr(cv0)] + lines_acc(
                    text@,
                    i as int + 1,
                    cur@,
                ));
                assert(prev + (seq![cv] + lines_acc(text@, i as int + 1, cur@)) =~~= (prev
                    + seq![cv]) + lines_acc(text@, i as int + 1, cur@));
            }
        } else {
            cur.push(c);
        }
        i += 1;
    }
    if cur.len() > 0 {
        let ghost prev = out.deep_view();
        let ghost cv = cur@;
        out.push(cur);
        proof {
            assert(out.deep_view() =~~= prev + seq![cv]);
        }
    }
    proof {
        assert(lines_of(text@) =~~= out.deep_view());
    }
    out
}

/// Strict unsigned base-10 parsing of a whole character vector.
pub fn parse_u8_vec(v: &Vec<char>) -> (r: Option<u8>)
    ensures
        r == parse_u8(v@),
{
    if v.len() == 0 {
        return None;
    }
    let mut val: u32 = 0;
    let mut i: usize = 0;
    while i < v.len()
        invariant
            i <= v@.len(),
            val == dec_val(v@.take(i as int)),
            val <= 255,
            forall|j: int| 0 <= j < i ==> '0' <= v@[j] && v@[j] <= '9',
        decreases v@.len() - i,
    {
        let c = v[i];
        if c < '0' || c > '9' {
            return None;
        }
        let d: u32 = (c as u32) - 48;
        proof {
            assert(v@.take(i as int + 1).drop_last() =~= v@.take(i as int));
        }
        let nv: u32 = val * 10 + d;
        if nv > 255 {
            proof {
                if is_digits(v@) {
                    lemma_dec_val_mono(v@, i as int + 1);
                }
            }
            return None;
        }
        val = nv;
        i += 1;
    }
    proof {
        assert(v@.take(v@.len() as int) =~= v@);
    }
    Some(val as u8)
}

/// Index of the first occurrence of the pattern `pat` in `cs` at or after
/// `from`, if any.
pub fn find_sub_chars(cs: &Vec<char>, pat: &Vec<char>, from: usize) -> (r: Option<usize>)
    requires
        from <= cs@.len(),
        pat@.len() > 0,
    ensures
        match r {
            Some(j) => find_sub_from(cs@, pat@, from as int) == Some(j as int) && from <= j
                && j + pat@.len() <= cs@.len(),
            None => find_sub_from(cs@, pat@, from as int) is None,
        },
{
    if pat.len() > cs.len() {
        return None;
    }
    let mut i: usize = from;
    while i <= cs.len() - pat.len()
        invariant
            from <= i,
            i <= cs@.len() + 1,
            0 < pat@.len() <= cs@.len(),
            find_sub_from(cs@, pat@, from as int) == find_sub_from(cs@, pat@, i as int),
        decreases cs@.len() + 1 - i,
    {
        let mut j: usize = 0;
        let mut matched = true;
        proof {
            assert(cs@.subrange(i as int, i as int) =~= pat@.take(0));
        }
        while j < pat.len()
            invariant
                i + pat@.len() <= cs@.len(),
                cs@.len() <= usize::MAX,
                j <= pat@.len(),
                matched == (cs@.subrange(i as int, i as int + j as int) == pat@.take(j as int)),
            decreases pat@.len() - j,
        {
            let cj = cs[i + j];
            let pj = pat[j];
            proof {
                let ii = i as int;
                let jj = j as int;
                assert(cs@.subrange(ii, ii + jj + 1).subrange(0, jj) =~= cs@.subrange(ii, ii + jj));
                assert(pat@.take(jj + 1).subrange(0, jj) =~= pat@.take(jj));
                assert(cs@.subrange(ii, ii + jj + 1)[jj] == cj);
                assert(pat@.take(jj + 1)[jj] == pj);
                if matched && cj == pj {
                    assert(cs@.subrange(ii, ii + jj + 1) =~= pat@.take(jj + 1));
                }
            }
            matched = matched && cj == pj;
            j += 1;
        }
        proof {
            assert(pat@.take(pat@.len() as int) =~= pat@);
        }
        if matched {
            proof {
                assert(cs@.subrange(i as int, i as int + pat@.len() as int) == pat@);
            }
            return Some(i);
        }
        proof {
            assert(cs@.subrange(i as int, i as int + pat@.len() as int) != pat@);
        }
        i += 1;
    }
    None
}

/// The characters of `v` without trailing whitespace.
pub fn trim_right_vec(v: &Vec<char>) -> (r: Vec<char>)
    ensures
        r@ == trim_right(v@),
{
    let mut e: usize = v.len();
    proof {
        assert(v@.subrange(0, e as int) =~= v@);
    }
    while e > 0 && is_space_c(v[e - 1])
        invariant
            e <= v@.len(),
            trim_right(v@) == trim_right(v@.subrange(0, e as int)),
        decreases e,
    {
        proof {
            assert(v@.subrange(0, e as int).drop_last() =~= v@.subrange(0, e as int - 1));
        }
        e -= 1;
    }
    proof {
        assert(trim_right(v@) == v@.subrange(0, e as int));
    }
    sub_vec(v, 0, e)
}

} // verus!
