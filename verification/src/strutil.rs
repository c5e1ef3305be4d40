//! Small verified string helpers shared by the rest of the library: character
//! comparison, prefix tests, ASCII-whitespace trimming, lexicographic order,
//! substring replacement, line splitting and joining.

use vstd::prelude::*;
use vstd::string::StrSliceExecFns;
use vstd::string::StringExecFns;

verus! {

/// Relies on std's `String::push`: appends exactly one character.
#[verifier::external_body]
pub fn push_char(s: &mut String, c: char)
    ensures
        final(s)@ == old(s)@.push(c),
{
    s.push(c);
}

/// The ASCII whitespace characters this library trims and skips.
pub open spec fn is_space(c: char) -> bool {
    c == ' ' || c == '\t' || c == '\n' || c == '\r'
}

pub open spec fn spec_starts_with(s: Seq<char>, p: Seq<char>) -> bool {
    p.len() <= s.len() && s.subrange(0, p.len() as int) == p
}

/// True exactly when the characters of `s` from `from` on begin with `pat`.
pub fn matches_at(s: &str, from: usize, pat: &str) -> (r: bool)
    requires
        from <= s@.len(),
    ensures
        r == (from + pat@.len() <= s@.len() && s@.subrange(
            from as int,
            from + pat@.len(),
        ) == pat@),
{
    let n: usize = s.unicode_len();
    let p: usize = pat.unicode_len();
    if n - from < p {
        return false;
    }
    let mut j: usize = 0;
    while j < p
        invariant
            n == s@.len(),
            p == pat@.len(),
            from + p <= n,
            j <= p,
            forall|k: int| 0 <= k < j ==> s@[from + k] == pat@[k],
        decreases p - j,
    {
        if s.get_char(from + j) != pat.get_char(j) {
            proof {
                assert(s@.subrange(from as int, from + pat@.len())[j as int] != pat@[j as int]);
            }
            return false;
        }
        j = j + 1;
    }
    proof {
        assert(s@.subrange(from as int, from + pat@.len()) =~= pat@);
    }
    true
}

/// True exactly when `s` and `t` hold the same characters.
pub fn str_eq(s: &str, t: &str) -> (r: bool)
    ensures
        r == (s@ == t@),
{
    let n: usize = s.unicode_len();
    if n != t.unicode_len() {
        return false;
    }
    let r = matches_at(s, 0, t);
    proof {
        if r {
            assert(s@.subrange(0, s@.len() as int) =~= s@);
        } else {
            assert(s@.subrange(0, t@.len() as int) =~= s@);
        }
    }
    r
}

/// True exactly when `p` is a prefix of `s`.
pub fn starts_with_str(s: &str, p: &str) -> (r: bool)
    ensures
        r == spec_starts_with(s@, p@),
{
    matches_at(s, 0, p)
}

pub open spec fn spec_trim_end(s: Seq<char>) -> Seq<char>
    decreases s.len(),
{
    if s.len() > 0 && is_space(s[s.len() - 1]) {
        spec_trim_end(s.drop_last())
    } else {
        s
    }
}

pub open spec fn spec_trim_start(s: Seq<char>) -> Seq<char>
    decreases s.len(),
{
    if s.len() > 0 && is_space(s[0]) {
        spec_trim_start(s.drop_first())
    } else {
        s
    }
}

/// Both ends trimmed of ASCII whitespace.
pub open spec fn spec_trim(s: Seq<char>) -> Seq<char> {
    spec_trim_start(spec_trim_end(s))
}

proof fn lemma_trim_end_at(s: Seq<char>, e: int)
    requires
        0 <= e <= s.len(),
        forall|j: int| e <= j < s.len() ==> is_space(s[j]),
        e > 0 ==> !is_space(s[e - 1]),
    ensures
        spec_trim_end(s) == s.subrange(0, e),
    decreases s.len() - e,
{
    if e == s.len() {
        if s.len() == 0 {
            assert(spec_trim_end(s) =~= s.subrange(0, e));
        } else {
            assert(spec_trim_end(s) =~= s.subrange(0, e));
        }
    } else {
        assert(is_space(s[s.len() - 1]));
        let s2 = s.drop_last();
        assert(s2 =~= s.subrange(0, s.len() - 1));
        lemma_trim_end_at(s2, e);
        assert(s2.subrange(0, e) =~= s.subrange(0, e));
    }
}

proof fn lemma_trim_start_at(s: Seq<char>, b: int)
    requires
        0 <= b <= s.len(),
        forall|j: int| 0 <= j < b ==> is_space(s[j]),
        b < s.len() ==> !is_space(s[b]),
    ensures
        spec_trim_start(s) == s.subrange(b, s.len() as int),
    decreases b,
{
    if b == 0 {
        if s.len() > 0 {
            assert(!is_space(s[0]));
        }
        assert(spec_trim_start(s) =~= s.subrange(0, s.len() as int));
    } else {
        assert(is_space(s[0]));
        let s2 = s.drop_first();
        assert(s2 =~= s.subrange(1, s.len() as int));
        lemma_trim_start_at(s2, b - 1);
        assert(s2.subrange(b - 1, s2.len() as int) =~= s.subrange(b, s.len() as int));
    }
}

/// Trims ASCII whitespace from the end of `s`.
pub fn trim_end(s: &str) -> (r: String)
    ensures
        r@ == spec_trim_end(s@),
{
    let n: usize = s.unicode_len();
    let mut e: usize = n;
    loop
        invariant
            n == s@.len(),
            e <= n,
            forall|j: int| e <= j < n ==> is_space(s@[j]),
        ensures
            e <= n,
            forall|j: int| e <= j < n ==> is_space(s@[j]),
            e > 0 ==> !is_space(s@[e - 1]),
        decreases e,
    {
        if e == 0 {
            break;
        }
        let c = s.get_char(e - 1);
        if !(c == ' ' || c == '\t' || c == '\n' || c == '\r') {
            break;
        }
        e = e - 1;
    }
    proof {
        lemma_trim_end_at(s@, e as int);
    }
    s.substring_char(0, e).to_owned()
}

/// Trims ASCII whitespace from both ends of `s`.
pub fn trim(s: &str) -> (r: String)
    ensures
        r@ == spec_trim(s@),
{
    let t = trim_end(s);
    let ts = t.as_str();
    let n: usize = ts.unicode_len();
    let mut b: usize = 0;
    loop
        invariant
            n == ts@.len(),
            ts@ == spec_trim_end(s@),
            b <= n,
            forall|j: int| 0 <= j < b ==> is_space(ts@[j]),
        ensures
            b <= n,
            forall|j: int| 0 <= j < b ==> is_space(ts@[j]),
            b < n ==> !is_space(ts@[b as int]),
        decreases n - b,
    {
        if b == n {
            break;
        }
        let c = ts.get_char(b);
        if !(c == ' ' || c == '\t' || c == '\n' || c == '\r') {
            break;
        }
        b = b + 1;
    }
    proof {
        lemma_trim_start_at(ts@, b as int);
    }
    ts.substring_char(b, n).to_owned()
}

/// Lexicographic order on character sequences, by code point.
pub open spec fn lex_le(a: Seq<char>, b: Seq<char>) -> bool
    decreases a.len(),
{
    if a.len() == 0 {
        true
    } else if b.len() == 0 {
        false
    } else if (a[0] as u32) < (b[0] as u32) {
        true
    } else if (a[0] as u32) > (b[0] as u32) {
        false
    } else {
        lex_le(a.drop_first(), b.drop_first())
    }
}

pub proof fn lemma_lex_le_refl(a: Seq<char>)
    ensures
        lex_le(a, a),
    decreases a.len(),
{
    if a.len() > 0 {
        lemma_lex_le_refl(a.drop_first());
    }
}

pub proof fn lemma_lex_le_total(a: Seq<char>, b: Seq<char>)
    ensures
        lex_le(a, b) || lex_le(b, a),
    decreases a.len(),
{
    if a.len() > 0 && b.len() > 0 && (a[0] as u32) == (b[0] as u32) {
        lemma_lex_le_total(a.drop_first(), b.drop_first());
    }
}

pub proof fn lemma_lex_le_trans(a: Seq<char>, b: Seq<char>, c: Seq<char>)
    requires
        lex_le(a, b),
        lex_le(b, c),
    ensures
        lex_le(a, c),
    decreases a.len(),
{
    if a.len() > 0 && b.len() > 0 && c.len() > 0 {
        if (a[0] as u32) == (b[0] as u32) && (b[0] as u32) == (c[0] as u32) {
            lemma_lex_le_trans(a.drop_first(), b.drop_first(), c.drop_first());
        }
    }
}

/// Compares two strings in lexicographic (code point) order.
pub fn str_le(a: &str, b: &str) -> (r: bool)
    ensures
        r == lex_le(a@, b@),
{
    let na: usize = a.unicode_len();
    let nb: usize = b.unicode_len();
    let mut i: usize = 0;
    proof {
        assert(a@.subrange(0, na as int) =~= a@);
        assert(b@.subrange(0, nb as int) =~= b@);
    }
    loop
        invariant
            na == a@.len(),
            nb == b@.len(),
            i <= na,
            i <= nb,
            lex_le(a@, b@) == lex_le(a@.subrange(i as int, na as int), b@.subrange(i as int, nb as int)),
        decreases na - i,
    {
        if i >= na {
            proof {
                assert(a@.subrange(i as int, na as int).len() == 0);
            }
            return true;
        }
        if i >= nb {
            proof {
                assert(b@.subrange(i as int, nb as int).len() == 0);
                assert(a@.subrange(i as int, na as int).len() > 0);
            }
            return false;
        }
        let ca = a.get_char(i);
        let cb = b.get_char(i);
        proof {
            let sa = a@.subrange(i as int, na as int);
            let sb = b@.subrange(i as int, nb as int);
            assert(sa[0] == a@[i as int]);
            assert(sb[0] == b@[i as int]);
            assert(sa.drop_first() =~= a@.subrange(i + 1, na as int));
            assert(sb.drop_first() =~= b@.subrange(i + 1, nb as int));
        }
        if (ca as u32) < (cb as u32) {
            return true;
        }
        if (ca as u32) > (cb as u32) {
            return false;
        }
        i = i + 1;
    }
}


/// The character sequences of a sequence of strings.
pub open spec fn views_of(v: Seq<String>) -> Seq<Seq<char>> {
    Seq::new(v.len(), |i: int| v[i]@)
}

/// `s` with every occurrence of `pat` replaced by `rep`, scanning left to
/// right; an empty pattern replaces nothing.
pub open spec fn spec_replace(s: Seq<char>, pat: Seq<char>, rep: Seq<char>) -> Seq<char>
    decreases s.len(),
{
    if pat.len() == 0 || s.len() < pat.len() {
        s
    } else if s.subrange(0, pat.len() as int) == pat {
        rep + spec_replace(s.subrange(pat.len() as int, s.len() as int), pat, rep)
    } else {
        seq![s[0]] + spec_replace(s.subrange(1, s.len() as int), pat, rep)
    }
}

/// Replaces every occurrence of `pat` in `s` by `rep`.
pub fn replace_all(s: &str, pat: &str, rep: &str) -> (r: String)
    ensures
        r@ == spec_replace(s@, pat@, rep@),
{
    let n: usize = s.unicode_len();
    let p: usize = pat.unicode_len();
    if p == 0 {
        return s.to_owned();
    }
    let mut out: String = String::new();
    let mut i: usize = 0;
    proof {
        assert(s@.subrange(0, n as int) =~= s@);
    }
    while i < n
        invariant
            n == s@.len(),
            p == pat@.len(),
            p > 0,
            i <= n,
            out@ + spec_replace(s@.subrange(i as int, n as int), pat@, rep@) == spec_replace(
                s@,
                pat@,
                rep@,
            ),
        decreases n - i,
    {
        let ghost suffix = s@.subrange(i as int, n as int);
        if matches_at(s, i, pat) {
            out.append(rep);
            proof {
                assert(suffix.subrange(0, p as int) =~= s@.subrange(i as int, i + p));
                assert(suffix.subrange(p as int, suffix.len() as int) =~= s@.subrange(
                    i + p,
                    n as int,
                ));
                assert(out@ + spec_replace(s@.subrange(i + p, n as int), pat@, rep@)
                    =~= spec_replace(s@, pat@, rep@));
            }
            i = i + p;
        } else {
            let c = s.get_char(i);
            push_char(&mut out, c);
            proof {
                if suffix.len() >= p {
                    assert(suffix.subrange(0, p as int) =~= s@.subrange(i as int, i + p));
                }
                assert(suffix.subrange(1, suffix.len() as int) =~= s@.subrange(
                    i + 1,
                    n as int,
                ));
                assert(seq![suffix[0]] =~= Seq::<char>::empty().push(s@[i as int]));
                assert(out@ + spec_replace(s@.subrange(i + 1, n as int), pat@, rep@)
                    =~= spec_replace(s@, pat@, rep@));
            }
            i = i + 1;
        }
    }
    proof {
        assert(s@.subrange(n as int, n as int).len() == 0);
        assert(out@ + spec_replace(s@.subrange(n as int, n as int), pat@, rep@) =~= out@);
    }
    out
}

/// The index of the first newline in `s`, or its length when there is none.
pub open spec fn spec_first_newline(s: Seq<char>) -> int
    decreases s.len(),
{
    if s.len() == 0 {
        0
    } else if s[0] == '\n' {
        0
    } else {
        1 + spec_first_newline(s.drop_first())
    }
}

proof fn lemma_first_newline_bounds(s: Seq<char>)
    ensures
        0 <= spec_first_newline(s) <= s.len(),
        spec_first_newline(s) < s.len() ==> s[spec_first_newline(s)] == '\n',
        forall|j: int| 0 <= j < spec_first_newline(s) ==> s[j] != '\n',
    decreases s.len(),
{
    if s.len() > 0 && s[0] != '\n' {
        lemma_first_newline_bounds(s.drop_first());
        assert forall|j: int| 0 <= j < spec_first_newline(s) implies s[j] != '\n' by {
            if j > 0 {
                assert(s.drop_first()[j - 1] == s[j]);
            }
        }
    }
}

proof fn lemma_first_newline_at(s: Seq<char>, k: int)
    requires
        0 <= k <= s.len(),
        forall|j: int| 0 <= j < k ==> s[j] != '\n',
        k < s.len() ==> s[k] == '\n',
    ensures
        spec_first_newline(s) == k,
    decreases k,
{
    if s.len() == 0 {
    } else if k == 0 {
    } else {
        assert(s[0] != '\n');
        let s2 = s.drop_first();
        assert forall|j: int| 0 <= j < k - 1 implies s2[j] != '\n' by {
            assert(s2[j] == s[j + 1]);
        }
        lemma_first_newline_at(s2, k - 1);
    }
}

/// `spec_first_newline`, clipped into the bounds of `s`.
pub open spec fn spec_first_newline_clipped(s: Seq<char>) -> int {
    let k = spec_first_newline(s);
    if k < 0 {
        0
    } else if k > s.len() {
        s.len() as int
    } else {
        k
    }
}

/// A line with a trailing carriage return removed.
pub open spec fn strip_cr(l: Seq<char>) -> Seq<char> {
    if l.len() > 0 && l[l.len() - 1] == '\r' {
        l.drop_last()
    } else {
        l
    }
}

/// The lines of `s`, split at newlines; a line before a newline loses a
/// trailing carriage return, and a final newline opens no further line.
pub open spec fn spec_lines(s: Seq<char>) -> Seq<Seq<char>>
    decreases s.len(),
{
    if s.len() == 0 {
        Seq::empty()
    } else {
        let k = spec_first_newline_clipped(s);
        if k == s.len() {
            seq![s]
        } else {
            seq![strip_cr(s.subrange(0, k))] + spec_lines(s.subrange(k + 1, s.len() as int))
        }
    }
}

/// Splits `s` into its lines.
pub fn split_lines(s: &str) -> (r: Vec<String>)
    ensures
        views_of(r@) == spec_lines(s@),
{
    let n: usize = s.unicode_len();
    let mut out: Vec<String> = Vec::new();
    let mut start: usize = 0;
    proof {
        assert(s@.subrange(0, n as int) =~= s@);
        assert(views_of(out@) + spec_lines(s@.subrange(0, n as int)) =~= spec_lines(s@));
    }
    while start < n
        invariant
            n == s@.len(),
            start <= n,
            views_of(out@) + spec_lines(s@.subrange(start as int, n as int)) == spec_lines(s@),
        decreases n - start,
    {
        let ghost suffix = s@.subrange(start as int, n as int);
        let mut k: usize = start;
        loop
            invariant
                n == s@.len(),
                start <= k <= n,
                forall|j: int| start <= j < k ==> s@[j] != '\n',
            ensures
                start <= k <= n,
                forall|j: int| start <= j < k ==> s@[j] != '\n',
                k < n ==> s@[k as int] == '\n',
            decreases n - k,
        {
            if k == n {
                break;
            }
            if s.get_char(k) == '\n' {
                break;
            }
            k = k + 1;
        }
        proof {
            assert forall|j: int| 0 <= j < k - start implies suffix[j] != '\n' by {
                assert(suffix[j] == s@[start + j]);
            }
            if (k as int) - (start as int) < suffix.len() {
                assert(suffix[k - start] == s@[k as int]);
            }
            lemma_first_newline_at(suffix, k - start);
        }
        if k == n {
            let line = s.substring_char(start, n).to_owned();
            out.push(line);
            proof {
                assert(suffix =~= s@.subrange(start as int, n as int));
                assert(spec_lines(suffix) =~= seq![suffix]);
                assert(views_of(out@) =~= views_of(out@.drop_last()) + seq![suffix]);
                assert(views_of(out@) + spec_lines(s@.subrange(n as int, n as int))
                    =~= spec_lines(s@));
            }
            start = n;
        } else {
            let mut e: usize = k;
            if e > start && s.get_char(e - 1) == '\r' {
                e = e - 1;
            }
            let line = s.substring_char(start, e).to_owned();
            out.push(line);
            proof {
                let raw = suffix.subrange(0, k - start);
                assert(raw =~= s@.subrange(start as int, k as int));
                if k > start && s@[k - 1] == '\r' {
                    assert(raw.len() > 0 && raw[raw.len() - 1] == '\r');
                    assert(strip_cr(raw) =~= s@.subrange(start as int, (k - 1) as int));
                } else {
                    assert(strip_cr(raw) =~= raw);
                }
                assert(line@ =~= strip_cr(raw));
                assert(suffix.subrange(k - start + 1, suffix.len() as int) =~= s@.subrange(
                    k + 1,
                    n as int,
                ));
                assert(spec_lines(suffix) =~= seq![strip_cr(raw)] + spec_lines(
                    s@.subrange(k + 1, n as int),
                ));
                assert(views_of(out@) =~= views_of(out@.drop_last()) + seq![line@]);
                assert(views_of(out@) + spec_lines(s@.subrange(k + 1, n as int))
                    =~= spec_lines(s@));
            }
            start = k + 1;
        }
    }
    proof {
        assert(spec_lines(s@.subrange(n as int, n as int)).len() == 0);
        assert(views_of(out@) =~= spec_lines(s@));
    }
    out
}

/// The parts joined with `sep` between neighbours.
pub open spec fn spec_join(parts: Seq<Seq<char>>, sep: Seq<char>) -> Seq<char>
    decreases parts.len(),
{
    if parts.len() == 0 {
        Seq::empty()
    } else if parts.len() == 1 {
        parts[0]
    } else {
        parts[0] + sep + spec_join(parts.drop_first(), sep)
    }
}

fn join_from(parts: &Vec<String>, sep: &str, i: usize) -> (r: String)
    requires
        i <= parts@.len(),
    ensures
        r@ == spec_join(views_of(parts@).subrange(i as int, parts@.len() as int), sep@),
    decreases parts@.len() - i,
{
    let ghost whole = views_of(parts@).subrange(i as int, parts@.len() as int);
    if i == parts.len() {
        proof {
            assert(whole.len() == 0);
        }
        String::new()
    } else if i + 1 == parts.len() {
        proof {
            assert(whole[0] == parts@[i as int]@);
        }
        parts[i].clone()
    } else {
        let rest = join_from(parts, sep, i + 1);
        let mut out = parts[i].clone();
        out.append(sep);
        let out2 = out.concat(rest.as_str());
        proof {
            assert(whole.drop_first() =~= views_of(parts@).subrange(
                i + 1,
                parts@.len() as int,
            ));
            assert(whole[0] == parts@[i as int]@);
            assert(out2@ =~= spec_join(whole, sep@));
        }
        out2
    }
}

/// The strings of `parts` joined with `sep`.
pub fn join_with(parts: &Vec<String>, sep: &str) -> (r: String)
    ensures
        r@ == spec_join(views_of(parts@), sep@),
{
    let r = join_from(parts, sep, 0);
    proof {
        assert(views_of(parts@).subrange(0, parts@.len() as int) =~= views_of(parts@));
    }
    r
}

} // verus!
