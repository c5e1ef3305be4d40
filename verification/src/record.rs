//! Workspace records and their persisted form. A record is stored as a small
//! JSON object with string fields `branch` and `created_at` and an optional
//! `directory`; a file that does not parse as such an object is read as a
//! legacy record, its whole content being the branch name.
//!
//! The grammar accepted back is the one this module writes, plus ASCII
//! whitespace around tokens and the usual JSON character escapes, so records
//! written with pretty-printing are read as well.

use crate::naming::spec_dir_name;
use crate::strutil::{is_space, push_char, spec_trim, trim};
use crate::timefmt::{rfc3339_parses, rfc3339_valid};
use vstd::prelude::*;
use vstd::string::StrSliceExecFns;
use vstd::string::StringExecFns;

verus! {

/// One workspace record: the canonical branch name, the creation time as
/// RFC 3339 text, and the derived directory name (absent in legacy records
/// only until they are re-read, since reading derives it).
pub struct RepositoryMetadata {
    pub branch: String,
    pub created_at: String,
    pub directory: Option<String>,
}

/// The fields of a record at the specification level:
/// branch, creation time, directory.
pub type SpecRecord = (Seq<char>, Seq<char>, Option<Seq<char>>);

/// How a record corresponds to its specification-level fields.
pub open spec fn record_matches(r: RepositoryMetadata, t: SpecRecord) -> bool {
    &&& r.branch@ == t.0
    &&& r.created_at@ == t.1
    &&& match (r.directory, t.2) {
        (Some(d), Some(e)) => d@ == e,
        (None, None) => true,
        _ => false,
    }
}

// --- escaping ---------------------------------------------------------

/// How one character is written inside a JSON string: quote and backslash
/// are escaped, everything else stands for itself.
pub open spec fn spec_escape_char(c: char) -> Seq<char> {
    if c == '"' {
        seq!['\\', '"']
    } else if c == '\\' {
        seq!['\\', '\\']
    } else {
        seq![c]
    }
}

/// A whole field value as written inside its quotes.
pub open spec fn spec_escape(s: Seq<char>) -> Seq<char>
    decreases s.len(),
{
    if s.len() == 0 {
        Seq::empty()
    } else {
        spec_escape_char(s[0]) + spec_escape(s.drop_first())
    }
}

proof fn lemma_escape_push(s: Seq<char>, c: char)
    ensures
        spec_escape(s.push(c)) == spec_escape(s) + spec_escape_char(c),
    decreases s.len(),
{
    let sp = s.push(c);
    if s.len() == 0 {
        assert(sp[0] == c);
        assert(sp.drop_first() =~= Seq::<char>::empty());
        assert(spec_escape(sp) == spec_escape_char(c) + spec_escape(sp.drop_first()));
        assert(spec_escape(sp) =~= spec_escape(s) + spec_escape_char(c));
    } else {
        assert(sp[0] == s[0]);
        assert(sp.drop_first() =~= s.drop_first().push(c));
        lemma_escape_push(s.drop_first(), c);
        assert(spec_escape(sp) == spec_escape_char(s[0]) + spec_escape(sp.drop_first()));
        assert(spec_escape(sp.drop_first()) == spec_escape(s.drop_first())
            + spec_escape_char(c));
        assert(spec_escape(s) == spec_escape_char(s[0]) + spec_escape(s.drop_first()));
        assert(spec_escape(sp) =~= spec_escape(s) + spec_escape_char(c));
    }
}

/// Writes `s` as it stands inside a JSON string literal.
fn escape_into(out: &mut String, s: &str)
    ensures
        final(out)@ == old(out)@ + spec_escape(s@),
{
    let n = s.unicode_len();
    let mut i: usize = 0;
    proof {
        assert(s@.subrange(0, 0) =~= Seq::<char>::empty());
        assert(old(out)@ + spec_escape(s@.subrange(0, 0)) =~= old(out)@);
    }
    while i < n
        invariant
            n == s@.len(),
            i <= n,
            out@ == old(out)@ + spec_escape(s@.subrange(0, i as int)),
        decreases n - i,
    {
        let c = s.get_char(i);
        if c == '"' {
            push_char(out, '\\');
            push_char(out, '"');
        } else if c == '\\' {
            push_char(out, '\\');
            push_char(out, '\\');
        } else {
            push_char(out, c);
        }
        proof {
            lemma_escape_push(s@.subrange(0, i as int), s@[i as int]);
            assert(s@.subrange(0, i + 1) =~= s@.subrange(0, i as int).push(s@[i as int]));
            assert(out@ =~= old(out)@ + spec_escape(s@.subrange(0, i + 1)));
        }
        i = i + 1;
    }
    proof {
        assert(s@.subrange(0, n as int) =~= s@);
    }
}

// --- the written form -------------------------------------------------

/// The exact text this library writes for a record.
pub open spec fn spec_encode(b: Seq<char>, c: Seq<char>, d: Option<Seq<char>>) -> Seq<char> {
    let head = "{\"branch\":"@ + "\""@ + spec_escape(b) + "\""@ + ",\"created_at\":"@ + "\""@
        + spec_escape(c) + "\""@;
    match d {
        Some(dd) => head + ",\"directory\":"@ + "\""@ + spec_escape(dd) + "\""@ + "}"@,
        None => head + "}"@,
    }
}

/// Serializes a record to its stored text.
pub fn encode_record(r: &RepositoryMetadata) -> (out: String)
    ensures
        out@ == spec_encode(
            r.branch@,
            r.created_at@,
            match r.directory {
                Some(d) => Some(d@),
                None => None,
            },
        ),
{
    let mut out = String::new();
    out.append("{\"branch\":");
    out.append("\"");
    escape_into(&mut out, r.branch.as_str());
    out.append("\"");
    out.append(",\"created_at\":");
    out.append("\"");
    escape_into(&mut out, r.created_at.as_str());
    out.append("\"");
    match &r.directory {
        Some(d) => {
            out.append(",\"directory\":");
            out.append("\"");
            escape_into(&mut out, d.as_str());
            out.append("\"");
            out.append("}");
        },
        None => {
            out.append("}");
        },
    }
    proof {
        assert(out@ =~= spec_encode(
            r.branch@,
            r.created_at@,
            match r.directory {
                Some(d) => Some(d@),
                None => None,
            },
        ));
    }
    out
}

// --- parsing ----------------------------------------------------------

/// The first index at or after `i` holding no ASCII whitespace.
pub open spec fn spec_skip_ws(s: Seq<char>, i: int) -> int
    decreases s.len() - i,
{
    if i < 0 || i >= s.len() {
        i
    } else if is_space(s[i]) {
        spec_skip_ws(s, i + 1)
    } else {
        i
    }
}

/// Whether `lit` stands at position `i` of `s`.
pub open spec fn spec_match_at(s: Seq<char>, i: int, lit: Seq<char>) -> bool {
    0 <= i && i + lit.len() <= s.len() && s.subrange(i, i + lit.len()) == lit
}

/// What a single-character escape code stands for.
pub open spec fn spec_unescape_char(c: char) -> Option<char> {
    if c == '"' {
        Some('"')
    } else if c == '\\' {
        Some('\\')
    } else if c == '/' {
        Some('/')
    } else if c == 'n' {
        Some('\n')
    } else if c == 't' {
        Some('\t')
    } else if c == 'r' {
        Some('\r')
    } else if c == 'b' {
        Some('\u{8}')
    } else if c == 'f' {
        Some('\u{c}')
    } else {
        None
    }
}

/// Reads a JSON string from after its opening quote at `i` up to and past
/// its closing quote: the characters it denotes and the index after the
/// closing quote.
pub open spec fn spec_parse_string_body(s: Seq<char>, i: int) -> Option<(Seq<char>, int)>
    decreases s.len() - i,
{
    if i < 0 || i >= s.len() {
        None
    } else if s[i] == '"' {
        Some((Seq::empty(), i + 1))
    } else if s[i] == '\\' {
        if i + 1 < s.len() {
            match spec_unescape_char(s[i + 1]) {
                Some(c) => match spec_parse_string_body(s, i + 2) {
                    Some(t) => Some((seq![c] + t.0, t.1)),
                    None => None,
                },
                None => None,
            }
        } else {
            None
        }
    } else {
        match spec_parse_string_body(s, i + 1) {
            Some(t) => Some((seq![s[i]] + t.0, t.1)),
            None => None,
        }
    }
}

/// Reads one `"key": "value"` member starting at `i`: the value and the
/// index after its closing quote. `qkey` is the quoted key text.
pub open spec fn spec_parse_field(s: Seq<char>, i: int, qkey: Seq<char>) -> Option<
    (Seq<char>, int),
> {
    let i1 = spec_skip_ws(s, i);
    if spec_match_at(s, i1, qkey) {
        let i2 = spec_skip_ws(s, i1 + qkey.len());
        if 0 <= i2 < s.len() && s[i2] == ':' {
            let i3 = spec_skip_ws(s, i2 + 1);
            if 0 <= i3 < s.len() && s[i3] == '"' {
                spec_parse_string_body(s, i3 + 1)
            } else {
                None
            }
        } else {
            None
        }
    } else {
        None
    }
}

/// Parses a whole stored record: an object holding `branch` and
/// `created_at`, then either the closing brace or a `directory` member.
pub open spec fn spec_parse_record(s: Seq<char>) -> Option<SpecRecord> {
    let i0 = spec_skip_ws(s, 0);
    if 0 <= i0 < s.len() && s[i0] == '{' {
        match spec_parse_field(s, i0 + 1, "\"branch\""@) {
            Some(bt) => match spec_parse_comma_field(s, bt.1, "\"created_at\""@) {
                Some(ct) => {
                    let j2 = spec_skip_ws(s, ct.1);
                    if 0 <= j2 < s.len() && s[j2] == '}' {
                        if spec_skip_ws(s, j2 + 1) == s.len() {
                            Some((bt.0, ct.0, None))
                        } else {
                            None
                        }
                    } else {
                        match spec_parse_comma_field(s, ct.1, "\"directory\""@) {
                            Some(dt) => {
                                let j3 = spec_skip_ws(s, dt.1);
                                if 0 <= j3 < s.len() && s[j3] == '}' && spec_skip_ws(s, j3 + 1)
                                    == s.len() {
                                    Some((bt.0, ct.0, Some(dt.0)))
                                } else {
                                    None
                                }
                            },
                            None => None,
                        }
                    }
                },
                None => None,
            },
            None => None,
        }
    } else {
        None
    }
}

/// A comma, then one member.
pub open spec fn spec_parse_comma_field(s: Seq<char>, i: int, qkey: Seq<char>) -> Option<
    (Seq<char>, int),
> {
    let j = spec_skip_ws(s, i);
    if 0 <= j < s.len() && s[j] == ',' {
        spec_parse_field(s, j + 1, qkey)
    } else {
        None
    }
}

/// The record read from file content `content`: the structured fields when
/// the content parses as a record object with an accepted timestamp, and
/// otherwise the legacy reading, where the trimmed content is the branch
/// name, the directory is derived from it, and the creation time is `now`.
pub open spec fn spec_decode(content: Seq<char>, now: Seq<char>) -> SpecRecord {
    match spec_parse_record(content) {
        Some(t) => if rfc3339_valid(t.1) {
            t
        } else {
            spec_legacy(content, now)
        },
        None => spec_legacy(content, now),
    }
}

/// The legacy reading of a record file.
pub open spec fn spec_legacy(content: Seq<char>, now: Seq<char>) -> SpecRecord {
    let b = spec_trim(content);
    (b, now, Some(spec_dir_name(b)))
}

// --- executable parser ------------------------------------------------

/// The first position at or after `i` holding no ASCII whitespace.
fn skip_ws(s: &str, i: usize) -> (r: usize)
    requires
        i <= s@.len(),
    ensures
        r == spec_skip_ws(s@, i as int),
        i <= r <= s@.len(),
{
    let n = s.unicode_len();
    let mut j = i;
    while j < n
        invariant
            n == s@.len(),
            i <= j <= n,
            spec_skip_ws(s@, i as int) == spec_skip_ws(s@, j as int),
        decreases n - j,
    {
        let c = s.get_char(j);
        if !(c == ' ' || c == '\t' || c == '\n' || c == '\r') {
            return j;
        }
        j = j + 1;
    }
    j
}

fn unescape_char(c: char) -> (r: Option<char>)
    ensures
        r == spec_unescape_char(c),
{
    if c == '"' {
        Some('"')
    } else if c == '\\' {
        Some('\\')
    } else if c == '/' {
        Some('/')
    } else if c == 'n' {
        Some('\n')
    } else if c == 't' {
        Some('\t')
    } else if c == 'r' {
        Some('\r')
    } else if c == 'b' {
        Some('\u{8}')
    } else if c == 'f' {
        Some('\u{c}')
    } else {
        None
    }
}

fn parse_string_body(s: &str, start: usize) -> (r: Option<(String, usize)>)
    requires
        start <= s@.len(),
    ensures
        match r {
            Some(t) => spec_parse_string_body(s@, start as int) == Some((t.0@, t.1 as int))
                && start < t.1 <= s@.len(),
            None => spec_parse_string_body(s@, start as int) is None,
        },
{
    let n = s.unicode_len();
    let mut out = String::new();
    let mut i = start;
    while i < n
        invariant
            n == s@.len(),
            start <= i <= n,
            spec_parse_string_body(s@, start as int) == (match spec_parse_string_body(
                s@,
                i as int,
            ) {
                Some(t) => Some((out@ + t.0, t.1)),
                None => None::<(Seq<char>, int)>,
            }),
        decreases n - i,
    {
        let c = s.get_char(i);
        if c == '"' {
            proof {
                assert(out@ + Seq::<char>::empty() =~= out@);
            }
            return Some((out, i + 1));
        }
        if c == '\\' {
            if i + 1 >= n {
                return None;
            }
            match unescape_char(s.get_char(i + 1)) {
                Some(u) => {
                    push_char(&mut out, u);
                    proof {
                        assert forall|t: (Seq<char>, int)|
                            spec_parse_string_body(s@, i + 2) == Some::<(Seq<char>, int)>(t)
                                implies out@ + t.0 =~= (out@.drop_last() + (seq![u] + t.0)) by {
                            assert(out@.drop_last().push(u) =~= out@);
                        }
                        assert(spec_parse_string_body(s@, start as int) == (
                        match spec_parse_string_body(s@, i + 2) {
                            Some(t) => Some((out@ + t.0, t.1)),
                            None => None::<(Seq<char>, int)>,
                        }));
                    }
                    i = i + 2;
                },
                None => {
                    return None;
                },
            }
        } else {
            push_char(&mut out, c);
            proof {
                assert forall|t: (Seq<char>, int)|
                    spec_parse_string_body(s@, i + 1) == Some::<(Seq<char>, int)>(t) implies out@
                        + t.0 =~= (out@.drop_last() + (seq![c] + t.0)) by {
                    assert(out@.drop_last().push(c) =~= out@);
                }
                assert(spec_parse_string_body(s@, start as int) == (
                match spec_parse_string_body(s@, i + 1) {
                    Some(t) => Some((out@ + t.0, t.1)),
                    None => None::<(Seq<char>, int)>,
                }));
            }
            i = i + 1;
        }
    }
    None
}

fn parse_field(s: &str, i: usize, qkey: &str) -> (r: Option<(String, usize)>)
    requires
        i <= s@.len(),
    ensures
        match r {
            Some(t) => spec_parse_field(s@, i as int, qkey@) == Some((t.0@, t.1 as int)) && i
                < t.1 <= s@.len(),
            None => spec_parse_field(s@, i as int, qkey@) is None,
        },
{
    let n = s.unicode_len();
    let i1 = skip_ws(s, i);
    if !crate::strutil::matches_at(s, i1, qkey) {
        return None;
    }
    let kl = qkey.unicode_len();
    let i2 = skip_ws(s, i1 + kl);
    if i2 >= n {
        return None;
    }
    if s.get_char(i2) != ':' {
        return None;
    }
    let i3 = skip_ws(s, i2 + 1);
    if i3 >= n {
        return None;
    }
    if s.get_char(i3) != '"' {
        return None;
    }
    parse_string_body(s, i3 + 1)
}

fn parse_comma_field(s: &str, i: usize, qkey: &str) -> (r: Option<(String, usize)>)
    requires
        i <= s@.len(),
    ensures
        match r {
            Some(t) => spec_parse_comma_field(s@, i as int, qkey@) == Some((t.0@, t.1 as int))
                && i < t.1 <= s@.len(),
            None => spec_parse_comma_field(s@, i as int, qkey@) is None,
        },
{
    let n = s.unicode_len();
    let j = skip_ws(s, i);
    if j >= n {
        return None;
    }
    if s.get_char(j) != ',' {
        return None;
    }
    parse_field(s, j + 1, qkey)
}

/// Parses stored content as a structured record object, if it is one.
pub fn parse_record(s: &str) -> (r: Option<(String, String, Option<String>)>)
    ensures
        match r {
            Some(t) => spec_parse_record(s@) == Some::<SpecRecord>(
                (
                    t.0@,
                    t.1@,
                    match t.2 {
                        Some(d) => Some(d@),
                        None => None,
                    },
                ),
            ),
            None => spec_parse_record(s@) is None,
        },
{
    let n = s.unicode_len();
    let i0 = skip_ws(s, 0);
    if i0 >= n {
        return None;
    }
    if s.get_char(i0) != '{' {
        return None;
    }
    let bt = match parse_field(s, i0 + 1, "\"branch\"") {
        Some(t) => t,
        None => {
            return None;
        },
    };
    let ct = match parse_comma_field(s, bt.1, "\"created_at\"") {
        Some(t) => t,
        None => {
            return None;
        },
    };
    let j2 = skip_ws(s, ct.1);
    if j2 < n && s.get_char(j2) == '}' {
        if skip_ws(s, j2 + 1) == n {
            return Some((bt.0, ct.0, None));
        } else {
            return None;
        }
    }
    let dt = match parse_comma_field(s, ct.1, "\"directory\"") {
        Some(t) => t,
        None => {
            return None;
        },
    };
    let j3 = skip_ws(s, dt.1);
    if j3 < n && s.get_char(j3) == '}' && skip_ws(s, j3 + 1) == n {
        Some((bt.0, ct.0, Some(dt.0)))
    } else {
        None
    }
}

/// Reads stored file content as a record: the structured fields when the
/// content parses and its timestamp is accepted, and otherwise the legacy
/// reading with creation time `now`.
pub fn decode_record(content: &str, now: &str) -> (r: RepositoryMetadata)
    ensures
        record_matches(r, spec_decode(content@, now@)),
{
    match parse_record(content) {
        Some(t) => {
            if rfc3339_parses(t.1.as_str()) {
                return RepositoryMetadata { branch: t.0, created_at: t.1, directory: t.2 };
            }
            legacy_record(content, now)
        },
        None => legacy_record(content, now),
    }
}

/// The legacy reading: the trimmed content is the branch name.
fn legacy_record(content: &str, now: &str) -> (r: RepositoryMetadata)
    ensures
        record_matches(r, spec_legacy(content@, now@)),
{
    let b = trim(content);
    let d = crate::naming::branch_to_directory_name(b.as_str());
    RepositoryMetadata { branch: b, created_at: now.to_owned(), directory: Some(d) }
}


// --- round trip -------------------------------------------------------

proof fn lemma_skip_ws_stop(s: Seq<char>, i: int)
    requires
        0 <= i,
        i < s.len() ==> !is_space(s[i]),
    ensures
        spec_skip_ws(s, i) == i,
{
}

proof fn lemma_parse_body_escaped(s: Seq<char>, i: int, x: Seq<char>, rest: Seq<char>)
    requires
        0 <= i <= s.len(),
        s == s.subrange(0, i) + spec_escape(x) + seq!['"'] + rest,
    ensures
        spec_parse_string_body(s, i) == Some((x, i + spec_escape(x).len() as int + 1)),
    decreases x.len(),
{
    let ex = spec_escape(x);
    assert(s.len() == i + ex.len() + 1 + rest.len());
    if x.len() == 0 {
        assert(ex.len() == 0);
        assert(s[i] == '"');
        assert(x =~= Seq::<char>::empty());
        assert(spec_parse_string_body(s, i) == Some((Seq::<char>::empty(), i + 1)));
    } else {
        let c0 = x[0];
        let x2 = x.drop_first();
        let e0 = spec_escape_char(c0);
        assert(ex == e0 + spec_escape(x2));
        let i2: int = i + e0.len() as int;
        assert(s.subrange(0, i2) =~= s.subrange(0, i) + e0);
        assert(s =~= s.subrange(0, i2) + spec_escape(x2) + seq!['"'] + rest);
        lemma_parse_body_escaped(s, i2, x2, rest);
        if c0 == '"' {
            assert(s[i] == '\\');
            assert(s[i + 1] == '"');
            assert(spec_unescape_char(s[i + 1]) == Some('"'));
            assert(seq!['"'] + x2 =~= x);
            assert(spec_parse_string_body(s, i) == Some((x, i + ex.len() as int + 1)));
        } else if c0 == '\\' {
            assert(s[i] == '\\');
            assert(s[i + 1] == '\\');
            assert(spec_unescape_char(s[i + 1]) == Some('\\'));
            assert(seq!['\\'] + x2 =~= x);
            assert(spec_parse_string_body(s, i) == Some((x, i + ex.len() as int + 1)));
        } else {
            assert(s[i] == c0);
            assert(seq![c0] + x2 =~= x);
            assert(spec_parse_string_body(s, i) == Some((x, i + ex.len() as int + 1)));
        }
    }
}

/// The text written for a record parses back to exactly its fields.
pub proof fn lemma_encode_parses(b: Seq<char>, c: Seq<char>, d: Option<Seq<char>>)
    ensures
        spec_parse_record(spec_encode(b, c, d)) == Some::<SpecRecord>((b, c, d)),
{
    match d {
        Some(dd) => lemma_encode_parses_with_directory(b, c, dd),
        None => lemma_encode_parses_without_directory(b, c),
    }
}

#[verifier::rlimit(100)]
proof fn lemma_encode_parses_without_directory(b: Seq<char>, c: Seq<char>)
    ensures
        spec_parse_record(spec_encode(b, c, None)) == Some::<SpecRecord>((b, c, None)),
{
    reveal_strlit("{\"branch\":");
    reveal_strlit("\"");
    reveal_strlit(",\"created_at\":");
    reveal_strlit("}");
    let lb = "{\"branch\":"@;
    let q = "\""@;
    let cc = ",\"created_at\":"@;
    let rb = "}"@;
    let eb = spec_escape(b);
    let ec = spec_escape(c);
    let s = spec_encode(b, c, None);
    let head = lb + q + eb + q + cc + q + ec + q;
    assert(lb.len() == 10);
    assert(q.len() == 1);
    assert(cc.len() == 14);
    assert(rb.len() == 1);
    assert(s =~= head + rb);
    assert(s.len() == 10 + 1 + eb.len() + 1 + 14 + 1 + ec.len() + 1 + 1);
    assert(s.subrange(0, 28 + eb.len() as int + ec.len() as int) =~= head);
    lemma_parse_head(s, b, c, eb, ec);
    let j2: int = 28 + eb.len() as int + ec.len() as int;
    assert(s[j2] == '}');
    lemma_skip_ws_stop(s, j2);
    assert(spec_skip_ws(s, j2 + 1) == s.len());
    assert(spec_parse_record(s) == Some::<SpecRecord>((b, c, None)));
}

#[verifier::rlimit(100)]
proof fn lemma_encode_parses_with_directory(b: Seq<char>, c: Seq<char>, dd: Seq<char>)
    ensures
        spec_parse_record(spec_encode(b, c, Some(dd))) == Some::<SpecRecord>((b, c, Some(dd))),
{
    reveal_strlit("{\"branch\":");
    reveal_strlit("\"");
    reveal_strlit(",\"created_at\":");
    reveal_strlit(",\"directory\":");
    reveal_strlit("}");
    reveal_strlit("\"directory\"");
    let lb = "{\"branch\":"@;
    let q = "\""@;
    let cc = ",\"created_at\":"@;
    let dl = ",\"directory\":"@;
    let rb = "}"@;
    let qk3 = "\"directory\""@;
    let eb = spec_escape(b);
    let ec = spec_escape(c);
    let ed = spec_escape(dd);
    let s = spec_encode(b, c, Some(dd));
    let head = lb + q + eb + q + cc + q + ec + q;
    assert(lb.len() == 10);
    assert(q.len() == 1);
    assert(cc.len() == 14);
    assert(dl.len() == 13);
    assert(rb.len() == 1);
    assert(qk3.len() == 11);
    assert(s =~= head + dl + q + ed + q + rb);
    assert(s.len() == 10 + 1 + eb.len() + 1 + 14 + 1 + ec.len() + 1 + 13 + 1 + ed.len() + 1
        + 1);
    assert(s.subrange(0, 28 + eb.len() as int + ec.len() as int) =~= head);
    lemma_parse_head(s, b, c, eb, ec);
    let j2: int = 28 + eb.len() as int + ec.len() as int;
    let tail = dl + q + ed + q + rb;
    assert(s.subrange(j2, s.len() as int) =~= tail);
    assert forall|k: int| 0 <= k < tail.len() implies s[j2 + k] == tail[k] by {
        assert(s.subrange(j2, s.len() as int)[k] == s[j2 + k]);
    }
    assert(s[j2] == ',');
    lemma_skip_ws_stop(s, j2);
    assert(s[j2 + 1] == '"');
    lemma_skip_ws_stop(s, j2 + 1);
    assert(s.subrange(j2 + 1, j2 + 12) =~= qk3);
    assert(spec_match_at(s, j2 + 1, qk3));
    assert(s[j2 + 12] == ':');
    lemma_skip_ws_stop(s, j2 + 12);
    assert(s[j2 + 13] == '"');
    lemma_skip_ws_stop(s, j2 + 13);
    assert(s.subrange(0, j2 + 14) =~= head + dl + q);
    assert(s =~= s.subrange(0, j2 + 14) + ed + seq!['"'] + rb);
    lemma_parse_body_escaped(s, j2 + 14, dd, rb);
    assert(spec_parse_comma_field(s, j2, qk3) == Some((dd, j2 + 15 + ed.len() as int)));
    let j3: int = j2 + 15 + ed.len() as int;
    assert(s[j3] == '}');
    lemma_skip_ws_stop(s, j3);
    assert(spec_skip_ws(s, j3 + 1) == s.len());
    assert(spec_skip_ws(s, j2) == j2 && s[j2] != '}');
    assert(spec_parse_record(s) == Some::<SpecRecord>((b, c, Some(dd))));
}

/// Parsing the shared head of an encoded record: the object opening and the
/// `branch` and `created_at` members.
proof fn lemma_parse_head(s: Seq<char>, b: Seq<char>, c: Seq<char>, eb: Seq<char>, ec: Seq<char>)
    requires
        eb == spec_escape(b),
        ec == spec_escape(c),
        s.len() >= 29 + eb.len() as int + ec.len() as int,
        s.subrange(0, 28 + eb.len() as int + ec.len() as int) == "{\"branch\":"@ + "\""@ + eb + "\""@
            + ",\"created_at\":"@ + "\""@ + ec + "\""@,
    ensures
        spec_skip_ws(s, 0) == 0,
        s[0] == '{',
        spec_parse_field(s, 1, "\"branch\""@) == Some((b, 12 + eb.len() as int)),
        spec_parse_comma_field(s, 12 + eb.len() as int, "\"created_at\""@) == Some(
            (c, 28 + eb.len() as int + ec.len() as int),
        ),
{
    reveal_strlit("{\"branch\":");
    reveal_strlit("\"");
    reveal_strlit(",\"created_at\":");
    reveal_strlit("\"branch\"");
    reveal_strlit("\"created_at\"");
    let lb = "{\"branch\":"@;
    let q = "\""@;
    let cc = ",\"created_at\":"@;
    let qk1 = "\"branch\""@;
    let qk2 = "\"created_at\""@;
    let head = lb + q + eb + q + cc + q + ec + q;
    assert(lb.len() == 10);
    assert(q.len() == 1);
    assert(cc.len() == 14);
    assert(qk1.len() == 8);
    assert(qk2.len() == 12);
    assert(head.len() == 28 + eb.len() as int + ec.len() as int);
    assert(forall|k: int| 0 <= k < head.len() ==> s[k] == head[k]);
    assert(s[0] == '{');
    lemma_skip_ws_stop(s, 0);
    // branch member
    assert(s[1] == '"');
    lemma_skip_ws_stop(s, 1);
    assert(s.subrange(1, 9) =~= qk1);
    assert(spec_match_at(s, 1, qk1));
    assert(s[9] == ':');
    lemma_skip_ws_stop(s, 9);
    assert(s[10] == '"');
    lemma_skip_ws_stop(s, 10);
    let restb = cc + q + ec + q + s.subrange(head.len() as int, s.len() as int);
    assert(s.subrange(0, 11) =~= lb + q);
    assert(s =~= s.subrange(0, 11) + eb + seq!['"'] + restb);
    lemma_parse_body_escaped(s, 11, b, restb);
    assert(spec_parse_field(s, 1, qk1) == Some((b, 12 + eb.len() as int)));
    // created_at member
    let j1: int = 12 + eb.len() as int;
    assert(s[j1] == ',');
    lemma_skip_ws_stop(s, j1);
    assert(s[j1 + 1] == '"');
    lemma_skip_ws_stop(s, j1 + 1);
    assert(s.subrange(j1 + 1, j1 + 13) =~= qk2);
    assert(spec_match_at(s, j1 + 1, qk2));
    assert(s[j1 + 13] == ':');
    lemma_skip_ws_stop(s, j1 + 13);
    assert(s[j1 + 14] == '"');
    lemma_skip_ws_stop(s, j1 + 14);
    let restc = s.subrange(head.len() as int, s.len() as int);
    assert(s.subrange(0, j1 + 15) =~= lb + q + eb + q + cc + q);
    assert(s =~= s.subrange(0, j1 + 15) + ec + seq!['"'] + restc);
    lemma_parse_body_escaped(s, j1 + 15, c, restc);
    assert(spec_parse_comma_field(s, j1, qk2) == Some((c, 28 + eb.len() as int + ec.len() as int)));
}

/// A record written by the store and read back yields identical fields:
/// whenever its timestamp is accepted, decoding the encoded text returns
/// exactly the branch, creation time and directory that were written.
pub proof fn lemma_record_round_trip(
    b: Seq<char>,
    c: Seq<char>,
    d: Option<Seq<char>>,
    now: Seq<char>,
)
    ensures
        rfc3339_valid(c) ==> spec_decode(spec_encode(b, c, d), now) == (b, c, d),
{
    lemma_encode_parses(b, c, d);
}

} // verus!
