//! The package manager's HTTP client: which downloader is tried in which
//! order, the command line each one is run with, and how each one's output
//! is read back into a response.
use vstd::prelude::*;
use crate::text::{string_of, concat2, concat3, concat5, trim, trimmed, chars_of, push_char, first_occurrence, find_chars};

verus! {

/// An HTTP response: the status code (0 when none could be read) and the
/// body.
pub struct HttpResponse {
    pub status: u32,
    pub body: String,
}

/// A way of making a request.
#[derive(PartialEq, Eq, Structural, Clone, Copy)]
pub enum FetchMethod {
    /// Windows' own HTTP stack (reached through PowerShell).
    WinHttp,
    Curl,
    PowerShell,
    Wget,
}

/// The methods a GET tries, in order, until one succeeds.
pub fn get_methods(windows: bool) -> (r: Vec<FetchMethod>)
    ensures
        windows ==> r@ == seq![FetchMethod::WinHttp, FetchMethod::Curl, FetchMethod::PowerShell],
        !windows ==> r@ == seq![FetchMethod::Curl, FetchMethod::Wget],
{
    if windows {
        vec![FetchMethod::WinHttp, FetchMethod::Curl, FetchMethod::PowerShell]
    } else {
        vec![FetchMethod::Curl, FetchMethod::Wget]
    }
}

/// The methods a download tries, in order, until one succeeds.
pub fn download_methods(windows: bool) -> (r: Vec<FetchMethod>)
    ensures
        windows ==> r@ == seq![FetchMethod::Curl, FetchMethod::PowerShell],
        !windows ==> r@ == seq![FetchMethod::Curl, FetchMethod::Wget],
{
    if windows {
        vec![FetchMethod::Curl, FetchMethod::PowerShell]
    } else {
        vec![FetchMethod::Curl, FetchMethod::Wget]
    }
}

// ── Numbers ─────────────────────────────────────────────────────────────

pub open spec fn is_digit(c: char) -> bool {
    '0' <= c && c <= '9'
}

/// The value of a run of decimal digits.
pub open spec fn digits_value(s: Seq<char>) -> int
    decreases s.len(),
{
    if s.len() == 0 {
        0
    } else {
        digits_value(s.drop_last()) * 10 + ((s.last() as u32) - ('0' as u32))
    }
}

/// The text after an optional leading `+`.
pub open spec fn unsigned_digits(s: Seq<char>) -> Seq<char> {
    if s.len() > 0 && s[0] == '+' {
        s.drop_first()
    } else {
        s
    }
}

pub open spec fn all_digits(d: Seq<char>) -> bool {
    forall|i: int| 0 <= i < d.len() ==> is_digit(#[trigger] d[i])
}

/// What `str::parse::<u32>` gives: an optional `+`, then one or more
/// digits whose value fits.
pub open spec fn parse_u32_spec(s: Seq<char>) -> Option<u32> {
    let d = unsigned_digits(s);
    if d.len() > 0 && all_digits(d) && digits_value(d) <= u32::MAX {
        Some(digits_value(d) as u32)
    } else {
        None
    }
}

pub proof fn lemma_digits_value_nonneg(s: Seq<char>)
    requires
        forall|i: int| 0 <= i < s.len() ==> is_digit(#[trigger] s[i]),
    ensures
        digits_value(s) >= 0,
    decreases s.len(),
{
    if s.len() > 0 {
        lemma_digits_value_nonneg(s.drop_last());
    }
}

fn digit_of(c: char) -> (d: u64)
    requires
        is_digit(c),
    ensures
        d == (c as u32) - ('0' as u32),
{
    if c == '0' { 0 } else if c == '1' { 1 } else if c == '2' { 2 } else if c == '3' { 3 }
    else if c == '4' { 4 } else if c == '5' { 5 } else if c == '6' { 6 } else if c == '7' { 7 }
    else if c == '8' { 8 } else { 9 }
}

/// `str::parse::<u32>`.
pub fn parse_u32(s: &str) -> (r: Option<u32>)
    ensures
        r == parse_u32_spec(s@),
{
    let cs = chars_of(s);
    let n = cs.len();
    let start: usize = if n > 0 && cs[0] == '+' { 1 } else { 0 };
    let ghost d = unsigned_digits(s@);
    assert(d =~= cs@.subrange(start as int, n as int));
    if start == n {
        return None;
    }
    let mut v: u64 = 0;
    let mut i: usize = start;
    while i < n
        invariant
            cs@ == s@,
            n == cs@.len(),
            start <= i <= n,
            d == cs@.subrange(start as int, n as int),
            d == unsigned_digits(s@),
            forall|j: int| start <= j < i ==> is_digit(#[trigger] cs@[j]),
            v == digits_value(cs@.subrange(start as int, i as int)),
            v <= u32::MAX,
        decreases n - i,
    {
        let c = cs[i];
        if !('0' <= c && c <= '9') {
            proof {
                assert(d[i - start] == cs@[i as int]);
                assert(!is_digit(d[i - start]));
                assert(!all_digits(d));
            }
            return None;
        }
        proof {
            assert(cs@.subrange(start as int, i + 1).drop_last() =~= cs@.subrange(start as int, i as int));
        }
        let next = v * 10 + digit_of(c);
        if next > 4294967295 {
            proof {
                let pre = cs@.subrange(start as int, i + 1);
                assert forall|j: int| 0 <= j < pre.len() implies is_digit(#[trigger] pre[j]) by {
                    assert(pre[j] == cs@[start + j]);
                }
                assert(d.subrange(0, i + 1 - start) =~= pre);
                assert forall|j: int| 0 <= j < i + 1 - start implies is_digit(#[trigger] d[j]) by {
                    assert(d[j] == cs@[start + j]);
                }
                lemma_digits_suffix_grows(d, (i + 1 - start) as int);
                assert(digits_value(pre) == v * 10 + ((c as u32) - ('0' as u32)));
            }
            return None;
        }
        v = next;
        i = i + 1;
    }
    proof {
        assert(cs@.subrange(start as int, n as int) =~= d);
        assert forall|j: int| 0 <= j < d.len() implies is_digit(#[trigger] d[j]) by {
            assert(d[j] == cs@[start + j]);
        }
    }
    Some(v as u32)
}

/// A longer run of digits is worth at least as much as its prefix.
pub proof fn lemma_digits_suffix_grows(d: Seq<char>, k: int)
    requires
        0 <= k <= d.len(),
        forall|i: int| 0 <= i < k ==> is_digit(#[trigger] d[i]),
    ensures
        (forall|i: int| 0 <= i < d.len() ==> is_digit(#[trigger] d[i])) ==> digits_value(d) >= digits_value(d.subrange(0, k)),
    decreases d.len() - k,
{
    if k < d.len() && (forall|i: int| 0 <= i < d.len() ==> is_digit(#[trigger] d[i])) {
        lemma_digits_suffix_grows(d, k + 1);
        let p = d.subrange(0, k + 1);
        assert(p.drop_last() =~= d.subrange(0, k));
        assert(is_digit(p.last()));
        assert forall|i: int| 0 <= i < k implies is_digit(#[trigger] d.subrange(0, k)[i]) by {}
        lemma_digits_value_nonneg(d.subrange(0, k));
    } else if k == d.len() {
        assert(d.subrange(0, k) =~= d);
    }
}

// ── Reading a downloader's output ───────────────────────────────────────

/// The position of the last line feed of `s`, if it has one.
pub open spec fn last_newline(s: Seq<char>) -> Option<int> {
    if exists|i: int| 0 <= i < s.len() && s[i] == '\n' {
        Some(choose|i: int| 0 <= i < s.len() && s[i] == '\n' && forall|j: int| i < j < s.len() ==> s[j] != '\n')
    } else {
        None
    }
}

/// curl was asked to print the status code on a line of its own after the
/// body: the body is what comes before the last line feed, the status what
/// follows it (0 when it is not a number).
pub open spec fn curl_response(text: Seq<char>) -> (u32, Seq<char>) {
    match last_newline(text) {
        Some(p) => {
            let code = parse_u32_spec(trimmed(text.subrange(p + 1, text.len() as int)));
            (if code is Some { code->0 } else { 0 }, text.subrange(0, p))
        },
        None => {
            let code = parse_u32_spec(trimmed(text));
            (if code is Some { code->0 } else { 0 }, Seq::empty())
        },
    }
}

fn copy_range(cs: &Vec<char>, a: usize, b: usize) -> (r: String)
    requires
        a <= b <= cs@.len(),
    ensures
        r@ == cs@.subrange(a as int, b as int),
{
    let mut out = String::new();
    let mut k: usize = a;
    while k < b
        invariant
            a <= k <= b,
            b <= cs@.len(),
            out@ == cs@.subrange(a as int, k as int),
        decreases b - k,
    {
        push_char(&mut out, cs[k]);
        assert(cs@.subrange(a as int, k + 1) =~= cs@.subrange(a as int, k as int).push(cs@[k as int]));
        k = k + 1;
    }
    out
}

/// The response read from curl's output.
pub fn parse_curl_output(text: &str) -> (r: HttpResponse)
    ensures
        (r.status, r.body@) == curl_response(text@),
{
    let cs = chars_of(text);
    let n = cs.len();
    let mut p: usize = n;
    while p > 0 && cs[p - 1] != '\n'
        invariant
            cs@ == text@,
            n == cs@.len(),
            p <= n,
            forall|j: int| p <= j < n ==> cs@[j] != '\n',
        decreases p,
    {
        p = p - 1;
    }
    if p == 0 {
        proof {
            assert(!(exists|i: int| 0 <= i < text@.len() && text@[i] == '\n'));
        }
        let t = trim(text);
        let status = match parse_u32(t.as_str()) {
            Some(v) => v,
            None => 0,
        };
        HttpResponse { status, body: String::new() }
    } else {
        let nl = p - 1;
        proof {
            assert(text@[nl as int] == '\n');
            let q = choose|i: int| 0 <= i < text@.len() && text@[i] == '\n' && forall|j: int| i < j < text@.len() ==> text@[j] != '\n';
            if q < nl {
                assert(text@[nl as int] != '\n');
            }
            if q > nl {
                assert(cs@[q] != '\n');
            }
        }
        let tail = copy_range(&cs, p, n);
        let t = trim(tail.as_str());
        let status = match parse_u32(t.as_str()) {
            Some(v) => v,
            None => 0,
        };
        HttpResponse { status, body: copy_range(&cs, 0, nl) }
    }
}

/// The separator PowerShell is asked to print between the status and the
/// body.
pub open spec fn body_marker() -> Seq<char> {
    "---BODY---"@
}

/// PowerShell printed the status, the marker, then the body: the status is
/// the trimmed text before the first marker (0 when it is not a number),
/// the body the trimmed text after it ("" without a marker).
pub open spec fn powershell_response(text: Seq<char>) -> (u32, Seq<char>) {
    match first_occurrence(text, body_marker()) {
        Some(q) => {
            let code = parse_u32_spec(trimmed(text.subrange(0, q)));
            (if code is Some { code->0 } else { 0 }, trimmed(text.subrange(q + body_marker().len(), text.len() as int)))
        },
        None => {
            let code = parse_u32_spec(trimmed(text));
            (if code is Some { code->0 } else { 0 }, Seq::empty())
        },
    }
}

/// The response read from PowerShell's output, or its error output when it
/// failed.
pub fn parse_powershell_output(stdout: &str, success: bool, stderr: &str) -> (r: Result<HttpResponse, String>)
    ensures
        match r {
            Ok(resp) => success && (resp.status, resp.body@) == powershell_response(stdout@),
            Err(e) => !success && e@ == stderr@,
        },
{
    if !success {
        return Err(string_of(stderr));
    }
    proof {
        reveal_strlit("---BODY---");
    }
    let cs = chars_of(stdout);
    let marker = chars_of("---BODY---");
    let n = cs.len();
    match find_chars(&cs, &marker) {
        Some(q) => {
            let head = copy_range(&cs, 0, q);
            let tail = copy_range(&cs, q + marker.len(), n);
            let t = trim(head.as_str());
            let status = match parse_u32(t.as_str()) {
                Some(v) => v,
                None => 0,
            };
            Ok(HttpResponse { status, body: trim(tail.as_str()) })
        },
        None => {
            let t = trim(stdout);
            let status = match parse_u32(t.as_str()) {
                Some(v) => v,
                None => 0,
            };
            Ok(HttpResponse { status, body: String::new() })
        },
    }
}

/// wget prints only the body: the status is 200 when it succeeded, else 0.
pub fn wget_response(success: bool, body: String) -> (r: HttpResponse)
    ensures
        r.status == (if success { 200u32 } else { 0u32 }),
        r.body@ == body@,
{
    HttpResponse { status: if success { 200 } else { 0 }, body }
}

// ── Command lines ───────────────────────────────────────────────────────

/// curl's arguments for a GET that prints the status code after the body.
pub fn curl_get_args(url: &str) -> (r: Vec<String>)
    ensures
        r@.map_values(|s: String| s@) == seq!["-s"@, "-w"@, "\n%{http_code}"@, "--max-time"@, "30"@, url@],
{
    let r = vec![string_of("-s"), string_of("-w"), string_of("\n%{http_code}"), string_of("--max-time"), string_of("30"), string_of(url)];
    assert(r@.map_values(|s: String| s@) =~= seq!["-s"@, "-w"@, "\n%{http_code}"@, "--max-time"@, "30"@, url@]);
    r
}

/// curl's arguments for a download that follows redirects.
pub fn curl_download_args(url: &str, dest: &str) -> (r: Vec<String>)
    ensures
        r@.map_values(|s: String| s@) == seq!["-s"@, "-L"@, "--max-time"@, "60"@, "-o"@, dest@, url@],
{
    let r = vec![string_of("-s"), string_of("-L"), string_of("--max-time"), string_of("60"), string_of("-o"), string_of(dest), string_of(url)];
    assert(r@.map_values(|s: String| s@) =~= seq!["-s"@, "-L"@, "--max-time"@, "60"@, "-o"@, dest@, url@]);
    r
}

/// wget's arguments for a GET that prints the body.
pub fn wget_get_args(url: &str) -> (r: Vec<String>)
    ensures
        r@.map_values(|s: String| s@) == seq!["-q"@, "-O"@, "-"@, "--timeout=30"@, url@],
{
    let r = vec![string_of("-q"), string_of("-O"), string_of("-"), string_of("--timeout=30"), string_of(url)];
    assert(r@.map_values(|s: String| s@) =~= seq!["-q"@, "-O"@, "-"@, "--timeout=30"@, url@]);
    r
}

/// wget's arguments for a download.
pub fn wget_download_args(url: &str, dest: &str) -> (r: Vec<String>)
    ensures
        r@.map_values(|s: String| s@) == seq!["-q"@, "--timeout=60"@, "-O"@, dest@, url@],
{
    let r = vec![string_of("-q"), string_of("--timeout=60"), string_of("-O"), string_of(dest), string_of(url)];
    assert(r@.map_values(|s: String| s@) =~= seq!["-q"@, "--timeout=60"@, "-O"@, dest@, url@]);
    r
}

/// The PowerShell script of a GET: status, marker, body.
pub fn powershell_get_script(url: &str) -> (r: String)
    ensures
        r@ == "$r = Invoke-WebRequest -Uri '"@ + url@
            + "' -UseBasicParsing; Write-Output $r.StatusCode; Write-Output '---BODY---'; Write-Output $r.Content"@,
{
    concat3("$r = Invoke-WebRequest -Uri '", url, "' -UseBasicParsing; Write-Output $r.StatusCode; Write-Output '---BODY---'; Write-Output $r.Content")
}

/// The PowerShell script of a download.
pub fn powershell_download_script(url: &str, dest: &str) -> (r: String)
    ensures
        r@ == "Invoke-WebRequest -Uri '"@ + url@ + "' -OutFile '"@ + dest@ + "' -UseBasicParsing"@,
{
    concat5("Invoke-WebRequest -Uri '", url, "' -OutFile '", dest, "' -UseBasicParsing")
}

// ── URLs ────────────────────────────────────────────────────────────────

/// `s` without every leading copy of `p` (`str::trim_start_matches`).
pub open spec fn strip_all_prefix(s: Seq<char>, p: Seq<char>) -> Seq<char>
    decreases s.len(),
{
    if p.len() > 0 && p.len() <= s.len() && s.subrange(0, p.len() as int) == p {
        strip_all_prefix(s.subrange(p.len() as int, s.len() as int), p)
    } else {
        s
    }
}

/// The host and the path of a URL without its scheme: the host runs to the
/// first `/`, and the path is the rest ("/" when there is none).
pub open spec fn host_path(rest: Seq<char>) -> (Seq<char>, Seq<char>) {
    let slash = if exists|i: int| 0 <= i < rest.len() && rest[i] == '/' {
        choose|i: int| 0 <= i < rest.len() && rest[i] == '/' && forall|j: int| 0 <= j < i ==> rest[j] != '/'
    } else {
        rest.len() as int
    };
    (rest.subrange(0, slash), if slash < rest.len() { rest.subrange(slash, rest.len() as int) } else { "/"@ })
}

/// The host and the path of a URL, after its leading `https://` and then
/// `http://` prefixes are taken off.
pub open spec fn url_parts(url: Seq<char>) -> (Seq<char>, Seq<char>) {
    host_path(strip_all_prefix(strip_all_prefix(url, "https://"@), "http://"@))
}

proof fn lemma_host_path(rest: Seq<char>, k: int)
    requires
        0 <= k <= rest.len(),
        forall|j: int| 0 <= j < k ==> rest[j] != '/',
        k == rest.len() || rest[k] == '/',
    ensures
        host_path(rest) == (rest.subrange(0, k), if k < rest.len() { rest.subrange(k, rest.len() as int) } else { "/"@ }),
{
    if exists|i: int| 0 <= i < rest.len() && rest[i] == '/' {
        let c = choose|i: int| 0 <= i < rest.len() && rest[i] == '/' && forall|j: int| 0 <= j < i ==> rest[j] != '/';
        assert(0 <= k < rest.len() && rest[k] == '/' && forall|j: int| 0 <= j < k ==> rest[j] != '/');
        if c < k {
            assert(rest[c] != '/');
        }
        if c > k {
            assert(rest[k] != '/');
        }
    }
}

fn split_host_path(cs: &Vec<char>, b: usize) -> (r: (String, String))
    requires
        b <= cs@.len(),
    ensures
        (r.0@, r.1@) == host_path(cs@.subrange(b as int, cs@.len() as int)),
{
    let n = cs.len();
    let mut s: usize = b;
    while s < n && cs[s] != '/'
        invariant
            n == cs@.len(),
            b <= s <= n,
            forall|j: int| b <= j < s ==> cs@[j] != '/',
        decreases n - s,
    {
        s = s + 1;
    }
    proof {
        let rest = cs@.subrange(b as int, n as int);
        assert forall|j: int| 0 <= j < s - b implies rest[j] != '/' by {
            assert(rest[j] == cs@[b + j]);
        }
        if s < n {
            assert(rest[s - b] == cs@[s as int]);
        }
        lemma_host_path(rest, s - b);
        assert(rest.subrange(0, s - b) =~= cs@.subrange(b as int, s as int));
        assert(rest.subrange(s - b, rest.len() as int) =~= cs@.subrange(s as int, n as int));
    }
    let host = copy_range(cs, b, s);
    let path = if s < n { copy_range(cs, s, n) } else { string_of("/") };
    (host, path)
}

fn strip_prefix_all(cs: &Vec<char>, from: usize, p: &Vec<char>) -> (r: usize)
    requires
        from <= cs@.len(),
        p@.len() > 0,
    ensures
        from <= r <= cs@.len(),
        cs@.subrange(r as int, cs@.len() as int) == strip_all_prefix(cs@.subrange(from as int, cs@.len() as int), p@),
{
    let n = cs.len();
    let m = p.len();
    let mut i: usize = from;
    while m <= n - i
        invariant
            n == cs@.len(),
            m == p@.len(),
            m > 0,
            from <= i <= n,
            strip_all_prefix(cs@.subrange(i as int, n as int), p@) == strip_all_prefix(cs@.subrange(from as int, n as int), p@),
        decreases n - i,
    {
        let mut k: usize = 0;
        let mut same = true;
        while k < m
            invariant
                n == cs@.len(),
                m == p@.len(),
                i + m <= n,
                k <= m,
                same == (forall|t: int| 0 <= t < k ==> cs@[i + t] == p@[t]),
            decreases m - k,
        {
            if cs[i + k] != p[k] {
                same = false;
            }
            k = k + 1;
        }
        let ghost s = cs@.subrange(i as int, n as int);
        if !same {
            proof {
                let t = choose|t: int| 0 <= t < m && cs@[i + t] != p@[t];
                assert(s.subrange(0, m as int)[t] != p@[t]);
            }
            return i;
        }
        proof {
            assert(s.subrange(0, m as int) =~= p@);
            assert(s.subrange(m as int, s.len() as int) =~= cs@.subrange(i + m, n as int));
        }
        i = i + m;
    }
    i
}

/// The host and the path of a URL (see `url_parts`); it never fails.
pub fn parse_url(url: &str) -> (r: Result<(String, String), String>)
    ensures
        r matches Ok(hp) && (hp.0@, hp.1@) == url_parts(url@),
{
    proof {
        reveal_strlit("https://");
        reveal_strlit("http://");
    }
    let cs = chars_of(url);
    let n = cs.len();
    let https = chars_of("https://");
    let http = chars_of("http://");
    assert(cs@.subrange(0, n as int) =~= cs@);
    let a = strip_prefix_all(&cs, 0, &https);
    let b = strip_prefix_all(&cs, a, &http);
    Ok(split_host_path(&cs, b))
}

} // verus!
