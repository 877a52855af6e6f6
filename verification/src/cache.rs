//! The incremental compilation cache: the SHA-256 hash of each source file,
//! and the object file compiled from it, kept in a small JSON manifest.
use vstd::prelude::*;
use vstd::string::StringSliceAdditionalSpecFns;
use crate::text::{push_char, trim, trimmed, u64_to_decimal, decimal, str_eq, first_occurrence, find_chars, strip_quotes_start, lemma_strip_quotes_from};
use crate::sha256::{sha256_hex, sha256_spec};
use crate::http::{is_digit, digits_value, lemma_digits_suffix_grows, lemma_digits_value_nonneg};

verus! {

pub const COMPILER_VER: &'static str = "sovereign-1.0.0";

/// One cached compilation.
pub struct CacheEntry {
    pub source_hash: String,
    pub obj_path: String,
    pub timestamp: u64,
    pub compiler_ver: String,
}

/// What an entry holds: the content hash, the object path, the time of the
/// compilation and the compiler version.
pub type EntryView = (Seq<char>, Seq<char>, u64, Seq<char>);

impl View for CacheEntry {
    type V = EntryView;

    open spec fn view(&self) -> EntryView {
        (self.source_hash@, self.obj_path@, self.timestamp, self.compiler_ver@)
    }
}

/// The cache: an entry per source path, and whether it changed since it
/// was loaded.
pub struct CompileCache {
    entries: Vec<(String, CacheEntry)>,
    dirty: bool,
}

// ── Content hashes ──────────────────────────────────────────────────────

/// The SHA-256 digest of a text's bytes, as 64 lowercase hexadecimal digits.
pub fn sha256_of(s: &str) -> (r: String)
    requires
        s.spec_bytes().len() + 72 <= usize::MAX,
    ensures
        r@ == sha256_spec(s.spec_bytes()),
{
    sha256_simple(s)
}

fn sha256_simple(input: &str) -> (r: String)
    requires
        input.spec_bytes().len() + 72 <= usize::MAX,
    ensures
        r@ == sha256_spec(input.spec_bytes()),
{
    sha256_hex(input)
}

// ── JSON text ───────────────────────────────────────────────────────────

/// `s` with backslashes and double quotes escaped.
pub open spec fn escape_json(s: Seq<char>) -> Seq<char>
    decreases s.len(),
{
    if s.len() == 0 {
        Seq::empty()
    } else {
        let rest = escape_json(s.drop_last());
        if s.last() == '\\' {
            rest + "\\\\"@
        } else if s.last() == '"' {
            rest + "\\\""@
        } else {
            rest.push(s.last())
        }
    }
}

fn escape_json_text(s: &str) -> (r: String)
    ensures
        r@ == escape_json(s@),
{
    let cs = crate::text::chars_of(s);
    let mut out = String::new();
    let mut i: usize = 0;
    while i < cs.len()
        invariant
            i <= cs@.len(),
            cs@ == s@,
            out@ == escape_json(s@.take(i as int)),
        decreases cs.len() - i,
    {
        proof {
            assert(s@.take(i + 1).drop_last() =~= s@.take(i as int));
        }
        if cs[i] == '\\' {
            out.append("\\\\");
        } else if cs[i] == '"' {
            out.append("\\\"");
        } else {
            push_char(&mut out, cs[i]);
        }
        i = i + 1;
    }
    proof {
        assert(s@.take(s@.len() as int) =~= s@);
    }
    out
}

/// One line of the manifest's entries.
pub open spec fn entry_line(path: Seq<char>, e: CacheEntry, last: bool) -> Seq<char> {
    "    \""@ + escape_json(path) + "\": {\"hash\":\""@ + e.source_hash@ + "\",\"obj\":\""@
        + escape_json(e.obj_path@) + "\",\"ts\":"@ + decimal(e.timestamp as nat) + ",\"ver\":\""@
        + e.compiler_ver@ + "\"}"@ + (if last { ""@ } else { ","@ }) + "\n"@
}

pub open spec fn entry_lines(es: Seq<(String, CacheEntry)>, n: int) -> Seq<char>
    decreases n,
{
    if n <= 0 {
        Seq::empty()
    } else {
        entry_lines(es, n - 1) + entry_line(es[n - 1].0@, es[n - 1].1, n == es.len())
    }
}

/// The manifest file's text.
pub open spec fn manifest_text(es: Seq<(String, CacheEntry)>) -> Seq<char> {
    "{\n"@ + "  \"compiler\": \""@ + COMPILER_VER@ + "\",\n"@ + "  \"entries\": {\n"@
        + entry_lines(es, es.len() as int) + "  }\n}\n"@
}

fn entry_line_text(path: &String, e: &CacheEntry, last: bool) -> (r: String)
    ensures
        r@ == entry_line(path@, *e, last),
{
    let mut line = String::from_str("    \"");
    line.append(escape_json_text(path.as_str()).as_str());
    line.append("\": {\"hash\":\"");
    line.append(e.source_hash.as_str());
    line.append("\",\"obj\":\"");
    line.append(escape_json_text(e.obj_path.as_str()).as_str());
    line.append("\",\"ts\":");
    line.append(u64_to_decimal(e.timestamp).as_str());
    line.append(",\"ver\":\"");
    line.append(e.compiler_ver.as_str());
    line.append("\"}");
    if last {
        line.append("");
    } else {
        line.append(",");
    }
    line.append("\n");
    line
}

// ── Reading a manifest ──────────────────────────────────────────────────

/// A line without the carriage return that ends it, if any.
pub open spec fn strip_cr(l: Seq<char>) -> Seq<char> {
    if l.len() > 0 && l.last() == '\r' {
        l.drop_last()
    } else {
        l
    }
}

/// The complete lines of a text and its unfinished last line.
pub open spec fn lines_fold(s: Seq<char>) -> (Seq<Seq<char>>, Seq<char>)
    decreases s.len(),
{
    if s.len() == 0 {
        (Seq::empty(), Seq::empty())
    } else {
        let (done, cur) = lines_fold(s.drop_last());
        if s.last() == '\n' {
            (done.push(strip_cr(cur)), Seq::empty())
        } else {
            (done, cur.push(s.last()))
        }
    }
}

/// The lines of a text as `str::lines` gives them: split at line feeds,
/// without a carriage return just before a line feed; a last line without
/// a line feed counts when it is not empty.
pub open spec fn text_lines(s: Seq<char>) -> Seq<Seq<char>> {
    let (done, cur) = lines_fold(s);
    if cur.len() > 0 {
        done.push(cur)
    } else {
        done
    }
}

fn chars_to_string(cs: &Vec<char>, start: usize, end: usize) -> (r: String)
    requires
        start <= end <= cs@.len(),
    ensures
        r@ == cs@.subrange(start as int, end as int),
{
    let mut out = String::new();
    let mut i: usize = start;
    while i < end
        invariant
            start <= i <= end,
            end <= cs@.len(),
            out@ == cs@.subrange(start as int, i as int),
        decreases end - i,
    {
        push_char(&mut out, cs[i]);
        proof {
            assert(cs@.subrange(start as int, i + 1) =~= cs@.subrange(start as int, i as int).push(cs@[i as int]));
        }
        i = i + 1;
    }
    out
}

fn line_text(cur: &Vec<char>, strip: bool) -> (r: String)
    ensures
        r@ == (if strip { strip_cr(cur@) } else { cur@ }),
{
    let n = cur.len();
    let end = if strip && n > 0 && cur[n - 1] == '\r' { n - 1 } else { n };
    let r = chars_to_string(cur, 0, end);
    assert(cur@.subrange(0, n as int) =~= cur@);
    assert(cur@.subrange(0, n - 1) =~= cur@.drop_last());
    r
}

/// The lines of a text (see `text_lines`).
pub(crate) fn split_lines(s: &str) -> (r: Vec<String>)
    ensures
        crate::cross_compile::texts(r@) == text_lines(s@),
{
    let cs = crate::text::chars_of(s);
    let mut lines: Vec<String> = Vec::new();
    let mut cur: Vec<char> = Vec::new();
    let mut i: usize = 0;
    while i < cs.len()
        invariant
            cs@ == s@,
            i <= cs@.len(),
            (crate::cross_compile::texts(lines@), cur@) == lines_fold(cs@.take(i as int)),
        decreases cs.len() - i,
    {
        proof {
            assert(cs@.take(i + 1).drop_last() =~= cs@.take(i as int));
        }
        if cs[i] == '\n' {
            let ghost before = lines@;
            let line = line_text(&cur, true);
            lines.push(line);
            proof {
                assert(crate::cross_compile::texts(lines@) =~= crate::cross_compile::texts(before).push(strip_cr(cur@)));
            }
            cur = Vec::new();
            assert(cur@ =~= Seq::<char>::empty());
        } else {
            cur.push(cs[i]);
        }
        i = i + 1;
    }
    assert(cs@.take(cs@.len() as int) =~= cs@);
    if cur.len() > 0 {
        let ghost before = lines@;
        let line = line_text(&cur, false);
        lines.push(line);
        proof {
            assert(crate::cross_compile::texts(lines@) =~= crate::cross_compile::texts(before).push(cur@));
        }
    }
    lines
}

/// What a manifest line searches for a key: `"key":`.
pub open spec fn json_search(key: Seq<char>) -> Seq<char> {
    seq!['"'] + key + seq!['"', ':']
}

/// The trimmed text after the first `"key":` of a line.
pub open spec fn value_after_spec(line: Seq<char>, key: Seq<char>) -> Option<Seq<char>> {
    match first_occurrence(line, json_search(key)) {
        Some(p) => Some(trimmed(line.subrange(p + json_search(key).len(), line.len() as int))),
        None => None,
    }
}

/// The position of the first double quote of `s`, if any.
pub open spec fn first_quote(s: Seq<char>) -> Option<int> {
    if exists|i: int| 0 <= i < s.len() && s[i] == '"' {
        Some(choose|i: int| 0 <= i < s.len() && s[i] == '"' && forall|j: int| 0 <= j < i ==> s[j] != '"')
    } else {
        None
    }
}

/// The string value of `"key": "value"` in a manifest line: after the
/// key, its leading quotes skipped, up to the next quote.
pub open spec fn json_str_spec(line: Seq<char>, key: Seq<char>) -> Option<Seq<char>> {
    match value_after_spec(line, key) {
        Some(rest) => {
            let r2 = strip_quotes_start(rest);
            match first_quote(r2) {
                Some(e) => Some(r2.subrange(0, e)),
                None => None,
            }
        },
        None => None,
    }
}

/// How many decimal digits `s` starts with.
pub open spec fn digit_run(s: Seq<char>) -> nat
    decreases s.len(),
{
    if s.len() > 0 && is_digit(s[0]) {
        1 + digit_run(s.drop_first())
    } else {
        0
    }
}

/// The number value of `"key": 123` in a manifest line: the digits after
/// the key, when there are some and they fit in a `u64`.
pub open spec fn json_num_spec(line: Seq<char>, key: Seq<char>) -> Option<u64> {
    match value_after_spec(line, key) {
        Some(rest) => {
            let d = rest.take(digit_run(rest) as int);
            if d.len() > 0 && digits_value(d) <= u64::MAX {
                Some(digits_value(d) as u64)
            } else {
                None
            }
        },
        None => None,
    }
}

/// The characters taken off around an entry's path key.
pub open spec fn is_key_edge(c: char) -> bool {
    c == '"' || c == '{' || c == ':' || c == ' '
}

pub open spec fn strip_key_start(s: Seq<char>) -> Seq<char>
    decreases s.len(),
{
    if s.len() > 0 && is_key_edge(s[0]) {
        strip_key_start(s.drop_first())
    } else {
        s
    }
}

pub open spec fn strip_key_end(s: Seq<char>) -> Seq<char>
    decreases s.len(),
{
    if s.len() > 0 && is_key_edge(s.last()) {
        strip_key_end(s.drop_last())
    } else {
        s
    }
}

/// The path key of an entry's opening line, `"path": {`: the line without
/// the quotes, braces, colons and spaces around it.
pub open spec fn key_of(line: Seq<char>) -> Seq<char> {
    strip_key_end(strip_key_start(line))
}

proof fn lemma_strip_key_start_from(s: Seq<char>, i: int)
    requires
        0 <= i <= s.len(),
        forall|j: int| 0 <= j < i ==> is_key_edge(#[trigger] s[j]),
        i == s.len() || !is_key_edge(s[i]),
    ensures
        strip_key_start(s) == s.subrange(i, s.len() as int),
    decreases i,
{
    if i == 0 {
        assert(s.subrange(0, s.len() as int) =~= s);
    } else {
        let t = s.drop_first();
        assert forall|j: int| 0 <= j < i - 1 implies is_key_edge(#[trigger] t[j]) by {
            assert(t[j] == s[j + 1]);
        }
        lemma_strip_key_start_from(t, i - 1);
        assert(t.subrange(i - 1, t.len() as int) =~= s.subrange(i, s.len() as int));
    }
}

proof fn lemma_strip_key_end_to(s: Seq<char>, e: int)
    requires
        0 <= e <= s.len(),
        forall|j: int| e <= j < s.len() ==> is_key_edge(#[trigger] s[j]),
        e == 0 || !is_key_edge(s[e - 1]),
    ensures
        strip_key_end(s) == s.subrange(0, e),
    decreases s.len() - e,
{
    if e == s.len() {
        assert(s.subrange(0, s.len() as int) =~= s);
    } else {
        let t = s.drop_last();
        assert forall|j: int| e <= j < t.len() implies is_key_edge(#[trigger] t[j]) by {
            assert(t[j] == s[j]);
        }
        lemma_strip_key_end_to(t, e);
        assert(t.subrange(0, e) =~= s.subrange(0, e));
    }
}

proof fn lemma_digit_run_from(s: Seq<char>, i: int)
    requires
        0 <= i <= s.len(),
        forall|j: int| 0 <= j < i ==> is_digit(#[trigger] s[j]),
        i == s.len() || !is_digit(s[i]),
    ensures
        digit_run(s) == i,
    decreases i,
{
    if i > 0 {
        let t = s.drop_first();
        assert forall|j: int| 0 <= j < i - 1 implies is_digit(#[trigger] t[j]) by {
            assert(t[j] == s[j + 1]);
        }
        lemma_digit_run_from(t, i - 1);
    }
}

/// The trimmed text after the first `"key":` of a line.
fn value_after(line: &str, key: &str) -> (r: Option<Vec<char>>)
    ensures
        match r {
            Some(v) => value_after_spec(line@, key@) == Some(v@),
            None => value_after_spec(line@, key@) is None,
        },
{
    let cs = crate::text::chars_of(line);
    let mut search: Vec<char> = Vec::new();
    search.push('"');
    let kc = crate::text::chars_of(key);
    let mut i: usize = 0;
    while i < kc.len()
        invariant
            i <= kc@.len(),
            search@ == seq!['"'] + kc@.take(i as int),
        decreases kc.len() - i,
    {
        search.push(kc[i]);
        assert(kc@.take(i + 1) =~= kc@.take(i as int).push(kc@[i as int]));
        i = i + 1;
    }
    search.push('"');
    search.push(':');
    assert(kc@.take(kc@.len() as int) =~= kc@);
    assert(search@ =~= json_search(key@));
    let n = cs.len();
    match find_chars(&cs, &search) {
        Some(pos) => {
            let rest = chars_to_string(&cs, pos + search.len(), n);
            let trimmed_rest = trim(rest.as_str());
            Some(crate::text::chars_of(trimmed_rest.as_str()))
        },
        None => None,
    }
}

/// The string value of `"key": "value"` in a manifest line.
fn extract_json_str(line: &str, key: &str) -> (r: Option<String>)
    ensures
        match r {
            Some(v) => json_str_spec(line@, key@) == Some(v@),
            None => json_str_spec(line@, key@) is None,
        },
{
    let rest = match value_after(line, key) {
        Some(r) => r,
        None => {
            return None;
        },
    };
    let n = rest.len();
    let mut start: usize = 0;
    while start < n && rest[start] == '"'
        invariant
            n == rest@.len(),
            start <= n,
            forall|j: int| 0 <= j < start ==> rest@[j] == '"',
        decreases n - start,
    {
        start = start + 1;
    }
    proof {
        lemma_strip_quotes_from(rest@, start as int);
    }
    let ghost r2 = rest@.subrange(start as int, n as int);
    let mut end: usize = start;
    while end < n && rest[end] != '"'
        invariant
            n == rest@.len(),
            start <= end <= n,
            forall|m: int| start <= m < end ==> rest@[m] != '"',
        decreases n - end,
    {
        end = end + 1;
    }
    if end >= n {
        proof {
            assert forall|i: int| 0 <= i < r2.len() implies r2[i] != '"' by {
                assert(r2[i] == rest@[start + i]);
            }
        }
        return None;
    }
    proof {
        let e = end - start;
        assert(r2[e] == '"');
        let c = choose|i: int| 0 <= i < r2.len() && r2[i] == '"' && forall|j: int| 0 <= j < i ==> r2[j] != '"';
        if c < e {
            assert(r2[c] == rest@[start + c]);
        }
        if c > e {
            assert(r2[e] != '"');
        }
        assert(r2.subrange(0, e) =~= rest@.subrange(start as int, end as int));
    }
    Some(chars_to_string(&rest, start, end))
}

/// The value of a decimal digit.
fn digit_value(c: char) -> (d: u64)
    requires
        is_digit(c),
    ensures
        d == (c as u32) - ('0' as u32),
{
    if c == '0' { 0 } else if c == '1' { 1 } else if c == '2' { 2 } else if c == '3' { 3 }
    else if c == '4' { 4 } else if c == '5' { 5 } else if c == '6' { 6 } else if c == '7' { 7 }
    else if c == '8' { 8 } else { 9 }
}

/// The number value of `"key": 123` in a manifest line.
fn extract_json_num(line: &str, key: &str) -> (r: Option<u64>)
    ensures
        r == json_num_spec(line@, key@),
{
    let rest = match value_after(line, key) {
        Some(r) => r,
        None => {
            return None;
        },
    };
    let n = rest.len();
    let mut end: usize = 0;
    while end < n && '0' <= rest[end] && rest[end] <= '9'
        invariant
            n == rest@.len(),
            end <= n,
            forall|m: int| 0 <= m < end ==> is_digit(#[trigger] rest@[m]),
        decreases n - end,
    {
        end = end + 1;
    }
    proof {
        lemma_digit_run_from(rest@, end as int);
    }
    let ghost d = rest@.take(end as int);
    if end == 0 {
        return None;
    }
    let mut v: u64 = 0;
    let mut i: usize = 0;
    while i < end
        invariant
            n == rest@.len(),
            end <= n,
            i <= end,
            d == rest@.take(end as int),
            value_after_spec(line@, key@) == Some(rest@),
            digit_run(rest@) == end,
            forall|m: int| 0 <= m < end ==> is_digit(#[trigger] rest@[m]),
            v == digits_value(rest@.take(i as int)),
        decreases end - i,
    {
        let c = rest[i];
        let dv = digit_value(c);
        proof {
            assert(rest@.take(i + 1).drop_last() =~= rest@.take(i as int));
        }
        let next = match v.checked_mul(10) {
            Some(m) => m.checked_add(dv),
            None => None,
        };
        match next {
            Some(s) => {
                v = s;
            },
            None => {
                proof {
                    assert(d.subrange(0, i + 1) =~= rest@.take(i + 1));
                    assert forall|j: int| 0 <= j < d.len() implies is_digit(#[trigger] d[j]) by {
                        assert(d[j] == rest@[j]);
                    }
                    lemma_digits_suffix_grows(d, i + 1);
                    lemma_digits_value_nonneg(rest@.take(i as int));
                    assert(rest@.take(i + 1).last() == c);
                    assert(digits_value(rest@.take(i + 1)) == v * 10 + dv);
                    assert(digits_value(d) > u64::MAX);
                }
                return None;
            },
        }
        i = i + 1;
    }
    Some(v)
}

/// What a one-line entry holds.
pub open spec fn entry_line_view(line: Seq<char>) -> EntryView {
    (
        json_str_spec(line, "hash"@)->0,
        match json_str_spec(line, "obj"@) { Some(v) => v, None => Seq::empty() },
        match json_num_spec(line, "ts"@) { Some(v) => v, None => 0 },
        match json_str_spec(line, "ver"@) { Some(v) => v, None => Seq::empty() },
    )
}

/// The entry a trimmed manifest line holds whole, if it is one.
fn entry_of_line(line: &String) -> (r: Option<(String, CacheEntry)>)
    ensures
        match r {
            Some(p) => is_entry_line(line@) && p.0@ == unescape_from(line@, 1) && p.1@ == entry_line_view(line@),
            None => !is_entry_line(line@),
        },
{
    proof {
        reveal_strlit("hash");
        reveal_strlit("obj");
        reveal_strlit("ver");
        reveal_strlit("ts");
    }
    let lc = crate::text::chars_of(line.as_str());
    if !(lc.len() > 0 && lc[0] == '"' && lc[lc.len() - 1] != '{' && has_brace_exec(&lc)) {
        return None;
    }
    let h = match extract_json_str(line.as_str(), "hash") {
        Some(h) => h,
        None => {
            return None;
        },
    };
    if crate::text::chars_of(h.as_str()).len() == 0 {
        return None;
    }
    let obj = match extract_json_str(line.as_str(), "obj") {
        Some(v) => v,
        None => String::new(),
    };
    let ver = match extract_json_str(line.as_str(), "ver") {
        Some(v) => v,
        None => String::new(),
    };
    let ts = match extract_json_num(line.as_str(), "ts") {
        Some(v) => v,
        None => 0,
    };
    let entry = CacheEntry { source_hash: h, obj_path: obj, timestamp: ts, compiler_ver: ver };
    Some((quoted_key(line.as_str()), entry))
}

/// The path a one-line entry starts with (see `unescape_from`).
fn quoted_key(line: &str) -> (r: String)
    ensures
        r@ == unescape_from(line@, 1),
{
    let cs = crate::text::chars_of(line);
    let n = cs.len();
    let mut out = String::new();
    let mut i: usize = 1;
    proof {
        assert(Seq::<char>::empty() + unescape_from(line@, 1) =~= unescape_from(line@, 1));
    }
    while i < n && cs[i] != '"'
        invariant
            cs@ == line@,
            n == cs@.len(),
            1 <= i,
            out@ + unescape_from(line@, i as int) == unescape_from(line@, 1),
        decreases n - i,
    {
        if cs[i] == '\\' && i + 1 < n {
            push_char(&mut out, cs[i + 1]);
            proof {
                assert(out@ + unescape_from(line@, i + 2) =~= old_plus(out@, unescape_from(line@, i + 2)));
            }
            i = i + 2;
        } else {
            push_char(&mut out, cs[i]);
            i = i + 1;
        }
    }
    proof {
        assert(out@ + unescape_from(line@, i as int) =~= out@);
    }
    out
}

spec fn old_plus(a: Seq<char>, b: Seq<char>) -> Seq<char> {
    a + b
}

/// The path key of an entry's opening line (see `key_of`).
fn entry_key(line: &str) -> (r: String)
    ensures
        r@ == key_of(line@),
{
    let cs = crate::text::chars_of(line);
    let n = cs.len();
    let mut start: usize = 0;
    while start < n && (cs[start] == '"' || cs[start] == '{' || cs[start] == ':' || cs[start] == ' ')
        invariant
            n == cs@.len(),
            cs@ == line@,
            start <= n,
            forall|j: int| 0 <= j < start ==> is_key_edge(#[trigger] cs@[j]),
        decreases n - start,
    {
        start = start + 1;
    }
    proof {
        lemma_strip_key_start_from(line@, start as int);
    }
    let mut end: usize = n;
    while end > start && (cs[end - 1] == '"' || cs[end - 1] == '{' || cs[end - 1] == ':' || cs[end - 1] == ' ')
        invariant
            n == cs@.len(),
            start <= end <= n,
            forall|j: int| end <= j < n ==> is_key_edge(#[trigger] cs@[j]),
        decreases end - start,
    {
        end = end - 1;
    }
    proof {
        let t = line@.subrange(start as int, n as int);
        assert forall|j: int| end - start <= j < t.len() implies is_key_edge(#[trigger] t[j]) by {
            assert(t[j] == cs@[start + j]);
        }
        if end > start {
            assert(t[end - start - 1] == cs@[end - 1]);
        }
        lemma_strip_key_end_to(t, end - start);
        assert(t.subrange(0, end - start) =~= cs@.subrange(start as int, end as int));
    }
    chars_to_string(&cs, start, end)
}

/// No path occurs twice among the entries.
pub open spec fn keys_distinct(es: Seq<(String, CacheEntry)>) -> bool {
    forall|i: int, j: int| 0 <= i < j < es.len() ==> (#[trigger] es[i]).0@ != (#[trigger] es[j]).0@
}

/// Whether an entry has the path `k`.
pub open spec fn has_key(es: Seq<(String, CacheEntry)>, k: Seq<char>) -> bool {
    exists|i: int| 0 <= i < es.len() && (#[trigger] es[i]).0@ == k
}

/// The position of the entry with path `k` (meaningful when `has_key`).
pub open spec fn key_index(es: Seq<(String, CacheEntry)>, k: Seq<char>) -> int {
    choose|i: int| 0 <= i < es.len() && (#[trigger] es[i]).0@ == k
}

/// The entries after an insertion of `(path, entry)`: the entry of that path
/// replaced in place, or the pair appended when the path is new.
pub open spec fn put_spec(es: Seq<(String, CacheEntry)>, path: String, entry: CacheEntry) -> Seq<(String, CacheEntry)> {
    if has_key(es, path@) {
        es.update(key_index(es, path@), (path, entry))
    } else {
        es.push((path, entry))
    }
}

/// The cache as a map from source path to entry.
pub open spec fn entry_map(es: Seq<(String, CacheEntry)>) -> Map<Seq<char>, EntryView> {
    Map::new(|k: Seq<char>| has_key(es, k), |k: Seq<char>| es[key_index(es, k)].1@)
}

fn put_entry(entries: &mut Vec<(String, CacheEntry)>, path: String, entry: CacheEntry)
    requires
        keys_distinct(old(entries)@),
    ensures
        final(entries)@ == put_spec(old(entries)@, path, entry),
        keys_distinct(final(entries)@),
{
    let ghost old_es = entries@;
    let mut i: usize = 0;
    while i < entries.len()
        invariant
            entries@ == old_es,
            old_es == old(entries)@,
            keys_distinct(old_es),
            i <= entries@.len(),
            forall|j: int| 0 <= j < i ==> (#[trigger] entries@[j]).0@ != path@,
        decreases entries.len() - i,
    {
        if str_eq(entries[i].0.as_str(), path.as_str()) {
            proof {
                assert(has_key(old_es, path@));
                let k = key_index(old_es, path@);
                assert(old_es[k].0@ == path@);
                assert(k == i);
            }
            let ghost g_path = path;
            let ghost g_entry = entry;
            entries.set(i, (path, entry));
            proof {
                lemma_put_map(old_es, g_path, g_entry);
                assert(key_index(old_es, g_path@) == i);
                assert(entries@ == old_es.update(i as int, (g_path, g_entry)));
            }
            return;
        }
        i = i + 1;
    }
    proof {
        assert(!has_key(old_es, path@));
    }
    let ghost g_path = path;
    let ghost g_entry = entry;
    entries.push((path, entry));
    proof {
        lemma_put_map(old_es, g_path, g_entry);
    }
}

/// The entries as paths and what each holds.
pub open spec fn entry_views(es: Seq<(String, CacheEntry)>) -> Seq<(Seq<char>, EntryView)> {
    es.map_values(|p: (String, CacheEntry)| (p.0@, p.1@))
}

/// The entries after `path` is bound to `v`: its entry replaced in place,
/// or appended when the path is new.
pub open spec fn put_view(vs: Seq<(Seq<char>, EntryView)>, path: Seq<char>, v: EntryView) -> Seq<(Seq<char>, EntryView)> {
    if exists|i: int| 0 <= i < vs.len() && (#[trigger] vs[i]).0 == path {
        vs.update(choose|i: int| 0 <= i < vs.len() && (#[trigger] vs[i]).0 == path, (path, v))
    } else {
        vs.push((path, v))
    }
}

/// What the reader holds between lines: the entries so far, then the
/// path, content hash, object, time and version of the entry being read.
pub type ManifestState = (Seq<(Seq<char>, EntryView)>, Seq<char>, Seq<char>, Seq<char>, u64, Seq<char>);

/// The text of the quoted string that a line starts with, from position
/// `i` on: `\x` stands for `x`, and the string ends at a plain `"`.
pub open spec fn unescape_from(s: Seq<char>, i: int) -> Seq<char>
    decreases s.len() - i,
{
    if i < 0 || i >= s.len() || s[i] == '"' {
        Seq::empty()
    } else if s[i] == '\\' && i + 1 < s.len() {
        seq![s[i + 1]] + unescape_from(s, i + 2)
    } else {
        seq![s[i]] + unescape_from(s, i + 1)
    }
}

/// A whole entry on one line, as the manifest is written:
/// `"path": {"hash":...,"obj":...,"ts":...,"ver":...}`.
/// Whether a line holds an opening brace.
pub open spec fn has_brace(line: Seq<char>) -> bool {
    exists|i: int| 0 <= i < line.len() && line[i] == '{'
}

fn has_brace_exec(lc: &Vec<char>) -> (r: bool)
    ensures
        r == has_brace(lc@),
{
    let mut i: usize = 0;
    while i < lc.len()
        invariant
            i <= lc@.len(),
            forall|j: int| 0 <= j < i ==> lc@[j] != '{',
        decreases lc.len() - i,
    {
        if lc[i] == '{' {
            return true;
        }
        i = i + 1;
    }
    false
}

pub open spec fn is_entry_line(line: Seq<char>) -> bool {
    &&& line.len() > 0
    &&& line[0] == '"'
    &&& line.last() != '{'
    &&& has_brace(line)
    &&& json_str_spec(line, "hash"@) matches Some(h) && h.len() > 0
}

/// Reading one line of a manifest. A whole entry on one line is taken at
/// once, under the path it starts with. Otherwise a line `"path": {`
/// starts an entry; `"hash"`, `"obj"`, `"ver"` and `"ts"` values anywhere
/// on a line are kept; a line starting with `}` closes the entry, which is
/// taken when it has a path and a content hash.
pub open spec fn manifest_step(st: ManifestState, raw: Seq<char>) -> ManifestState {
    let line = trimmed(raw);
    if is_entry_line(line) {
        let hash = json_str_spec(line, "hash"@)->0;
        let obj = match json_str_spec(line, "obj"@) { Some(v) => v, None => Seq::empty() };
        let ver = match json_str_spec(line, "ver"@) { Some(v) => v, None => Seq::empty() };
        let ts = match json_num_spec(line, "ts"@) { Some(v) => v, None => 0 };
        (put_view(st.0, unescape_from(line, 1), (hash, obj, ts, ver)), Seq::empty(), Seq::empty(), Seq::empty(), 0, Seq::empty())
    } else {
        manifest_multi_step(st, line)
    }
}

/// Reading a line of an entry written over several lines.
pub open spec fn manifest_multi_step(st: ManifestState, line: Seq<char>) -> ManifestState {
    let path = if line.len() > 0 && line[0] == '"' && line.last() == '{' { key_of(line) } else { st.1 };
    let hash = match json_str_spec(line, "hash"@) { Some(v) => v, None => st.2 };
    let obj = match json_str_spec(line, "obj"@) { Some(v) => v, None => st.3 };
    let ver = match json_str_spec(line, "ver"@) { Some(v) => v, None => st.5 };
    let ts = match json_num_spec(line, "ts"@) { Some(v) => v, None => st.4 };
    if line.len() > 0 && line[0] == '}' && path.len() > 0 && hash.len() > 0 {
        (put_view(st.0, path, (hash, obj, ts, ver)), Seq::empty(), Seq::empty(), Seq::empty(), 0, Seq::empty())
    } else {
        (st.0, path, hash, obj, ts, ver)
    }
}

/// The reader's state after the first `n` lines.
pub open spec fn manifest_fold(lines: Seq<Seq<char>>, n: int) -> ManifestState
    decreases n,
{
    if n <= 0 {
        (Seq::empty(), Seq::empty(), Seq::empty(), Seq::empty(), 0, Seq::empty())
    } else {
        manifest_step(manifest_fold(lines, n - 1), lines[n - 1])
    }
}

/// The entries a manifest text holds.
pub open spec fn manifest_entries(json: Seq<char>) -> Seq<(Seq<char>, EntryView)> {
    manifest_fold(text_lines(json), text_lines(json).len() as int).0
}

proof fn lemma_put_views(es: Seq<(String, CacheEntry)>, path: String, entry: CacheEntry)
    requires
        keys_distinct(es),
    ensures
        entry_views(put_spec(es, path, entry)) == put_view(entry_views(es), path@, entry@),
{
    let vs = entry_views(es);
    if has_key(es, path@) {
        let k = key_index(es, path@);
        assert(vs[k].0 == path@);
        let c = choose|i: int| 0 <= i < vs.len() && (#[trigger] vs[i]).0 == path@;
        assert(es[c].0@ == path@);
        assert(c == k);
        assert(entry_views(put_spec(es, path, entry)) =~= put_view(vs, path@, entry@));
    } else {
        assert forall|i: int| 0 <= i < vs.len() implies (#[trigger] vs[i]).0 != path@ by {
            assert(es[i].0@ != path@);
        }
        assert(entry_views(put_spec(es, path, entry)) =~= put_view(vs, path@, entry@));
    }
}

/// The entries a manifest text holds (see `manifest_entries`).
#[verifier::rlimit(100)]
#[verifier::spinoff_prover]
pub fn parse_manifest(json: &str) -> (r: Vec<(String, CacheEntry)>)
    ensures
        keys_distinct(r@),
        entry_views(r@) == manifest_entries(json@),
{
    proof {
        reveal_strlit("hash");
        reveal_strlit("obj");
        reveal_strlit("ver");
        reveal_strlit("ts");
    }
    let lines = split_lines(json);
    let ghost ls = text_lines(json@);
    let mut entries: Vec<(String, CacheEntry)> = Vec::new();
    let mut current_path = String::new();
    let mut current_hash = String::new();
    let mut current_obj = String::new();
    let mut current_ts: u64 = 0;
    let mut current_ver = String::new();
    let mut li: usize = 0;
    assert(entry_views(entries@) =~= Seq::<(Seq<char>, EntryView)>::empty());
    while li < lines.len()
        invariant
            crate::cross_compile::texts(lines@) == ls,
            li <= lines@.len(),
            keys_distinct(entries@),
            (entry_views(entries@), current_path@, current_hash@, current_obj@, current_ts, current_ver@)
                == manifest_fold(ls, li as int),
        decreases lines.len() - li,
    {
        let ghost st = manifest_fold(ls, li as int);
        assert(lines@[li as int]@ == ls[li as int]);
        let line = trim(lines[li].as_str());
        let lc = crate::text::chars_of(line.as_str());
        match entry_of_line(&line) {
            Some((p, entry)) => {
                let ghost old_es = entries@;
                let ghost g_p = p;
                let ghost g_e = entry;
                put_entry(&mut entries, p, entry);
                proof {
                    lemma_put_views(old_es, g_p, g_e);
                }
                current_path = String::new();
                current_hash = String::new();
                current_obj = String::new();
                current_ts = 0;
                current_ver = String::new();
                assert(current_path@ =~= Seq::<char>::empty());
                assert(current_hash@ =~= Seq::<char>::empty());
                assert(current_obj@ =~= Seq::<char>::empty());
                assert(current_ver@ =~= Seq::<char>::empty());
                li = li + 1;
                continue;
            },
            None => {},
        }
        if lc.len() > 0 && lc[0] == '"' && lc[lc.len() - 1] == '{' {
            current_path = entry_key(line.as_str());
        }
        match extract_json_str(line.as_str(), "hash") {
            Some(v) => current_hash = v,
            None => {},
        }
        match extract_json_str(line.as_str(), "obj") {
            Some(v) => current_obj = v,
            None => {},
        }
        match extract_json_str(line.as_str(), "ver") {
            Some(v) => current_ver = v,
            None => {},
        }
        match extract_json_num(line.as_str(), "ts") {
            Some(v) => current_ts = v,
            None => {},
        }
        let path_len = crate::text::chars_of(current_path.as_str()).len();
        let hash_len = crate::text::chars_of(current_hash.as_str()).len();
        if lc.len() > 0 && lc[0] == '}' && path_len > 0 && hash_len > 0 {
            let entry = CacheEntry {
                source_hash: current_hash.clone(),
                obj_path: current_obj.clone(),
                timestamp: current_ts,
                compiler_ver: current_ver.clone(),
            };
            let p = current_path.clone();
            let ghost old_es = entries@;
            let ghost g_p = p;
            let ghost g_e = entry;
            put_entry(&mut entries, p, entry);
            proof {
                lemma_put_views(old_es, g_p, g_e);
            }
            current_path = String::new();
            current_hash = String::new();
            current_obj = String::new();
            current_ts = 0;
            current_ver = String::new();
            assert(current_path@ =~= Seq::<char>::empty());
            assert(current_hash@ =~= Seq::<char>::empty());
            assert(current_obj@ =~= Seq::<char>::empty());
            assert(current_ver@ =~= Seq::<char>::empty());
        }
        li = li + 1;
    }
    entries
}

/// Whether a file exists at `path`: `std::path::Path::exists`. Trusted,
/// and nothing is claimed of the result: it depends on the disk.
#[verifier::external_body]
fn file_exists(path: &str) -> (r: bool) {
    std::path::Path::new(path).exists()
}

/// Seconds since the Unix epoch (0 if the clock is before it):
/// `std::time::SystemTime::now`. Trusted; nothing is claimed of the
/// result.
#[verifier::external_body]
fn current_timestamp() -> (r: u64) {
    std::time::SystemTime::now().duration_since(std::time::UNIX_EPOCH).map(|d| d.as_secs()).unwrap_or(0)
}

/// What the cache answers for a source path and a content hash: the object
/// of the path's entry, when the content hash and the compiler version match.
pub open spec fn cache_hit(m: Map<Seq<char>, EntryView>, path: Seq<char>, hash: Seq<char>) -> Option<Seq<char>> {
    if m.contains_key(path) && m[path].0 == hash && m[path].3 == COMPILER_VER@ {
        Some(m[path].1)
    } else {
        None
    }
}

/// The content hash of a source: its SHA-256 digest in hexadecimal.
pub open spec fn content_hash(content: &str) -> Seq<char> {
    sha256_spec(content.spec_bytes())
}

impl View for CompileCache {
    type V = Map<Seq<char>, EntryView>;

    closed spec fn view(&self) -> Map<Seq<char>, EntryView> {
        entry_map(self.entries@)
    }
}

impl CompileCache {
    /// The cache's invariant: no source path has two entries.
    pub closed spec fn wf(&self) -> bool {
        keys_distinct(self.entries@)
    }

    pub closed spec fn is_dirty_spec(&self) -> bool {
        self.dirty
    }

    /// The entries in the order the manifest lists them.
    pub closed spec fn entries_spec(&self) -> Seq<(String, CacheEntry)> {
        self.entries@
    }

    /// A cache with the entries of a manifest, unchanged since loaded.
    pub fn from_manifest(json: &str) -> (r: CompileCache)
        ensures
            r.wf(),
            !r.is_dirty_spec(),
            entry_views(r.entries_spec()) == manifest_entries(json@),
    {
        CompileCache { entries: parse_manifest(json), dirty: false }
    }

    /// An empty cache.
    pub fn new() -> (r: CompileCache)
        ensures
            r.wf(),
            !r.is_dirty_spec(),
            r.entries_spec().len() == 0,
            r@ == Map::<Seq<char>, EntryView>::empty(),
    {
        let r = CompileCache { entries: Vec::new(), dirty: false };
        assert(r@ =~= Map::<Seq<char>, EntryView>::empty());
        r
    }

    /// Whether entries were recorded since the cache was loaded.
    pub fn is_dirty(&self) -> (r: bool)
        ensures
            r == self.is_dirty_spec(),
    {
        self.dirty
    }

    /// How many entries the cache holds.
    pub fn entry_count(&self) -> (r: usize)
        ensures
            r == self.entries_spec().len(),
    {
        self.entries.len()
    }

    /// The object files the cache refers to, in manifest order.
    pub fn object_paths(&self) -> (r: Vec<String>)
        ensures
            r@.len() == self.entries_spec().len(),
            forall|i: int| 0 <= i < r@.len() ==> #[trigger] r@[i]@ == self.entries_spec()[i].1.obj_path@,
    {
        let mut r: Vec<String> = Vec::new();
        let mut i: usize = 0;
        while i < self.entries.len()
            invariant
                i <= self.entries@.len(),
                r@.len() == i,
                forall|j: int| 0 <= j < i ==> #[trigger] r@[j]@ == self.entries@[j].1.obj_path@,
            decreases self.entries.len() - i,
        {
            r.push(self.entries[i].1.obj_path.clone());
            i = i + 1;
        }
        r
    }

    /// The object recorded for the source, if the source's content hash and
    /// the compiler version still match its entry.
    pub fn cached_object(&self, source_path: &str, source_content: &str) -> (r: Option<String>)
        requires
            self.wf(),
            source_content.spec_bytes().len() + 72 <= usize::MAX,
        ensures
            r matches Some(p) ==> cache_hit(self@, source_path@, content_hash(source_content)) == Some(p@),
            r is None ==> cache_hit(self@, source_path@, content_hash(source_content)) is None,
    {
        let hash = sha256_simple(source_content);
        let ghost es = self.entries@;
        let mut i: usize = 0;
        while i < self.entries.len()
            invariant
                es == self.entries@,
                keys_distinct(es),
                i <= es.len(),
                hash@ == content_hash(source_content),
                forall|j: int| 0 <= j < i ==> (#[trigger] es[j]).0@ != source_path@,
            decreases self.entries.len() - i,
        {
            let e = &self.entries[i];
            if str_eq(e.0.as_str(), source_path) {
                proof {
                    assert(has_key(es, source_path@));
                    let k = key_index(es, source_path@);
                    assert(es[k].0@ == source_path@);
                    assert(k == i);
                }
                if str_eq(e.1.source_hash.as_str(), hash.as_str()) && str_eq(e.1.compiler_ver.as_str(), COMPILER_VER) {
                    return Some(e.1.obj_path.clone());
                } else {
                    return None;
                }
            }
            i = i + 1;
        }
        proof {
            assert(!has_key(es, source_path@));
        }
        None
    }

    /// The cached object for the source when it can be reused: the cache
    /// has it for this content and the object file is still there.
    pub fn check(&self, source_path: &str, source_content: &str) -> (r: Option<String>)
        requires
            self.wf(),
            source_content.spec_bytes().len() + 72 <= usize::MAX,
        ensures
            r matches Some(p) ==> cache_hit(self@, source_path@, content_hash(source_content)) == Some(p@),
            cache_hit(self@, source_path@, content_hash(source_content)) is None ==> r is None,
    {
        match self.cached_object(source_path, source_content) {
            Some(p) => {
                if file_exists(p.as_str()) {
                    Some(p)
                } else {
                    None
                }
            },
            None => None,
        }
    }

    /// Records a compilation made at `timestamp`: the source's entry now
    /// holds its content hash, the object, the time and the compiler version.
    pub fn record_at(&mut self, source_path: &str, source_content: &str, obj_path: &str, timestamp: u64)
        requires
            old(self).wf(),
            source_content.spec_bytes().len() + 72 <= usize::MAX,
        ensures
            final(self).wf(),
            final(self).is_dirty_spec(),
            final(self)@ == old(self)@.insert(source_path@, (content_hash(source_content), obj_path@, timestamp, COMPILER_VER@)),
    {
        let hash = sha256_simple(source_content);
        let entry = CacheEntry {
            source_hash: hash,
            obj_path: String::from_str(obj_path),
            timestamp,
            compiler_ver: String::from_str(COMPILER_VER),
        };
        let key = String::from_str(source_path);
        let ghost old_es = self.entries@;
        let ghost g_key = key;
        let ghost g_entry = entry;
        put_entry(&mut self.entries, key, entry);
        self.dirty = true;
        proof {
            lemma_put_map(old_es, g_key, g_entry);
        }
    }

    /// Records a compilation made now (see `record_at`).
    pub fn record(&mut self, source_path: &str, source_content: &str, obj_path: &str)
        requires
            old(self).wf(),
            source_content.spec_bytes().len() + 72 <= usize::MAX,
        ensures
            final(self).wf(),
            final(self).is_dirty_spec(),
            exists|ts: u64| final(self)@ == old(self)@.insert(source_path@, (content_hash(source_content), obj_path@, ts, COMPILER_VER@)),
    {
        let ts = current_timestamp();
        self.record_at(source_path, source_content, obj_path, ts);
    }

    /// The manifest file's text for the cache's entries.
    pub fn manifest_json(&self) -> (r: String)
        ensures
            r@ == manifest_text(self.entries_spec()),
    {
        let mut json = String::from_str("{\n");
        json.append("  \"compiler\": \"");
        json.append(COMPILER_VER);
        json.append("\",\n");
        json.append("  \"entries\": {\n");
        let mut body = String::new();
        let n = self.entries.len();
        let mut i: usize = 0;
        while i < n
            invariant
                n == self.entries@.len(),
                i <= n,
                body@ == entry_lines(self.entries@, i as int),
            decreases n - i,
        {
            let line = entry_line_text(&self.entries[i].0, &self.entries[i].1, i + 1 == n);
            body.append(line.as_str());
            i = i + 1;
        }
        json.append(body.as_str());
        json.append("  }\n}\n");
        json
    }
}

/// The map of the entries after an insertion is the old map with the
/// inserted path bound to the new entry.
proof fn lemma_put_map(es: Seq<(String, CacheEntry)>, path: String, entry: CacheEntry)
    requires
        keys_distinct(es),
    ensures
        keys_distinct(put_spec(es, path, entry)),
        entry_map(put_spec(es, path, entry)) == entry_map(es).insert(path@, entry@),
{
    let ns = put_spec(es, path, entry);
    assert forall|k: Seq<char>| #![auto] has_key(ns, k) == (has_key(es, k) || k == path@) by {
        if has_key(es, path@) {
            let p = key_index(es, path@);
            if has_key(es, k) {
                let q = key_index(es, k);
                assert(ns[q].0@ == k || q == p);
            }
            if has_key(ns, k) {
                let q = key_index(ns, k);
                if q != p {
                    assert(es[q].0@ == k);
                }
            }
        } else {
            if has_key(es, k) {
                let q = key_index(es, k);
                assert(ns[q] == es[q]);
            }
            if k == path@ {
                assert(ns[es.len() as int].0@ == k);
            }
            if has_key(ns, k) {
                let q = key_index(ns, k);
                if q < es.len() {
                    assert(es[q].0@ == k);
                }
            }
        }
    }
    assert(keys_distinct(ns)) by {
        if has_key(es, path@) {
            let p = key_index(es, path@);
            assert forall|i: int, j: int| 0 <= i < j < ns.len() implies (#[trigger] ns[i]).0@ != (#[trigger] ns[j]).0@ by {
                if i == p {
                    assert(es[j].0@ != es[p].0@);
                } else if j == p {
                    assert(es[i].0@ != es[p].0@);
                } else {
                    assert(es[i].0@ != es[j].0@);
                }
            }
        } else {
            assert forall|i: int, j: int| 0 <= i < j < ns.len() implies (#[trigger] ns[i]).0@ != (#[trigger] ns[j]).0@ by {
                if j == es.len() {
                    assert(es[i].0@ != path@);
                } else {
                    assert(es[i].0@ != es[j].0@);
                }
            }
        }
    }
    assert forall|k: Seq<char>| has_key(ns, k) implies #[trigger] ns[key_index(ns, k)].1@ == (if k == path@ { entry@ } else { es[key_index(es, k)].1@ }) by {
        let q = key_index(ns, k);
        if k == path@ {
            if has_key(es, path@) {
                let p = key_index(es, path@);
                assert(ns[p].0@ == k);
            } else {
                assert(ns[es.len() as int].0@ == k);
            }
        } else {
            assert(has_key(es, k));
            let r = key_index(es, k);
            assert(ns[r] == es[r]);
            assert(ns[r].0@ == k);
        }
    }
    assert(entry_map(ns) =~= entry_map(es).insert(path@, entry@));
}

/// After a compilation of `path` is recorded with content hash `hash`, the
/// cache answers that object for the same path and the same content hash.
pub proof fn law_record_then_hit(m: Map<Seq<char>, EntryView>, path: Seq<char>, hash: Seq<char>, obj: Seq<char>, ts: u64)
    ensures
        cache_hit(m.insert(path, (hash, obj, ts, COMPILER_VER@)), path, hash) == Some(obj),
{
}

/// A source whose content hash changed since its compilation was recorded
/// is not answered from the cache: it must be compiled again.
pub proof fn law_changed_source_misses(m: Map<Seq<char>, EntryView>, path: Seq<char>, hash: Seq<char>, new_hash: Seq<char>, obj: Seq<char>, ts: u64)
    requires
        new_hash != hash,
    ensures
        cache_hit(m.insert(path, (hash, obj, ts, COMPILER_VER@)), path, new_hash) is None,
{
}

/// Recording one source leaves what the cache answers for every other
/// source unchanged.
pub proof fn law_record_keeps_others(m: Map<Seq<char>, EntryView>, path: Seq<char>, other: Seq<char>, hash: Seq<char>, v: EntryView)
    requires
        other != path,
    ensures
        cache_hit(m.insert(path, v), other, hash) == cache_hit(m, other, hash),
{
}

} // verus!
