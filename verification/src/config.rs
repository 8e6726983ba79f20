//! Run configuration and its validation, and the small parsing steps of
//! client setup: custom header lines and the export format word.
//!
//! Configuration errors are detected before any request is sent; a run
//! with an invalid configuration produces no partial report. Whether a
//! POST-data file exists is an I/O question and is checked by the binary
//! before it fills `post_body`.

use vstd::prelude::*;

verus! {

/// A configuration error, detected before the run starts.
#[derive(PartialEq, Eq, Structural, Clone, Copy, Debug)]
pub enum ConfigError {
    /// The concurrency level is zero.
    ZeroConcurrency,
    /// No time limit is set and the request count is zero.
    ZeroRequests,
    /// The proxy URL carries none of the supported schemes.
    InvalidProxyScheme,
    /// A custom header line holds no colon between name and value.
    MalformedHeader,
}

impl ConfigError {
    /// A human-readable description of the error.
    pub fn message(&self) -> (r: String)
        ensures
            *self == ConfigError::ZeroConcurrency ==> r@ == "concurrency must be greater than 0"@,
            *self == ConfigError::ZeroRequests ==> r@ == "number of requests must be greater than 0"@,
            *self == ConfigError::InvalidProxyScheme ==> r@
                == "proxy URL must start with http://, https://, socks4:// or socks5://"@,
            *self == ConfigError::MalformedHeader ==> r@
                == "custom header must have the form 'Key: Value'"@,
    {
        match self {
            ConfigError::ZeroConcurrency => "concurrency must be greater than 0".to_owned(),
            ConfigError::ZeroRequests => "number of requests must be greater than 0".to_owned(),
            ConfigError::InvalidProxyScheme => {
                "proxy URL must start with http://, https://, socks4:// or socks5://".to_owned()
            },
            ConfigError::MalformedHeader => {
                "custom header must have the form 'Key: Value'".to_owned()
            },
        }
    }
}

/// The validated inputs of one run, as argument parsing hands them over.
/// When `timelimit_secs` is set, `requests` is ignored entirely.
pub struct RunConfig {
    pub url: String,
    pub requests: u64,
    pub concurrency: u64,
    pub timelimit_secs: Option<u64>,
    pub post_body: Option<String>,
    pub proxy: Option<String>,
    pub content_type: Option<String>,
    pub headers: Vec<String>,
    pub keepalive: bool,
}

/// A proxy URL is accepted exactly when it starts with one of the four
/// supported schemes.
pub open spec fn proxy_scheme_ok(s: Seq<char>) -> bool {
    ||| "http://"@.is_prefix_of(s)
    ||| "https://"@.is_prefix_of(s)
    ||| "socks4://"@.is_prefix_of(s)
    ||| "socks5://"@.is_prefix_of(s)
}

/// The error a configuration is rejected with, if any, in the order the
/// checks run: concurrency first, then the request bound, then the
/// proxy, then the custom header lines.
pub open spec fn spec_validate(c: RunConfig) -> Result<(), ConfigError> {
    if c.concurrency == 0 {
        Err(ConfigError::ZeroConcurrency)
    } else if c.timelimit_secs is None && c.requests == 0 {
        Err(ConfigError::ZeroRequests)
    } else if c.proxy is Some && !proxy_scheme_ok(c.proxy->0@) {
        Err(ConfigError::InvalidProxyScheme)
    } else if !headers_ok(c.headers@) {
        Err(ConfigError::MalformedHeader)
    } else {
        Ok(())
    }
}

/// A custom header line is well-formed exactly when it holds a colon to
/// split at.
pub open spec fn header_line_ok(s: Seq<char>) -> bool {
    first_colon(s, 0) < s.len()
}

/// Every custom header line of the configuration is well-formed.
pub open spec fn headers_ok(headers: Seq<String>) -> bool {
    forall|i: int| 0 <= i < headers.len() ==> header_line_ok(#[trigger] headers[i]@)
}

/// Whether `p` is a prefix of `s`, by characters.
fn has_prefix(s: &str, p: &str) -> (b: bool)
    ensures
        b == p@.is_prefix_of(s@),
{
    let sn = s.unicode_len();
    let pn = p.unicode_len();
    if pn > sn {
        return false;
    }
    let mut i: usize = 0;
    while i < pn
        invariant
            i <= pn,
            pn == p@.len(),
            pn <= sn == s@.len(),
            forall|k: int| 0 <= k < i ==> p@[k] == s@[k],
        decreases pn - i,
    {
        if s.get_char(i) != p.get_char(i) {
            proof {
                assert(s@.subrange(0, pn as int)[i as int] == s@[i as int]);
            }
            return false;
        }
        i = i + 1;
    }
    proof {
        assert(p@ =~= s@.subrange(0, pn as int));
    }
    true
}

/// Whether the proxy URL carries a supported scheme.
pub fn proxy_ok(s: &str) -> (b: bool)
    ensures
        b == proxy_scheme_ok(s@),
{
    has_prefix(s, "http://") || has_prefix(s, "https://") || has_prefix(s, "socks4://")
        || has_prefix(s, "socks5://")
}

/// Whether a header line holds a colon at all.
fn header_has_colon(s: &str) -> (b: bool)
    ensures
        b == header_line_ok(s@),
{
    let n = s.unicode_len();
    let mut i: usize = 0;
    while i < n && s.get_char(i) != ':'
        invariant
            i <= n == s@.len(),
            forall|k: int| 0 <= k < i ==> s@[k] != ':',
        decreases n - i,
    {
        i = i + 1;
    }
    proof {
        lemma_first_colon_skip(s@, i as int);
    }
    i < n
}

/// Validate a configuration before the run: zero concurrency, a zero
/// request count without a time limit, an unsupported proxy scheme and a
/// custom header line without a colon are each rejected with their
/// error; anything else is accepted. No request is sent on a rejected
/// configuration.
pub fn validate(c: &RunConfig) -> (r: Result<(), ConfigError>)
    ensures
        r == spec_validate(*c),
        r is Ok ==> c.concurrency >= 1,
        r is Ok ==> c.timelimit_secs is Some || c.requests >= 1,
        r is Ok && c.proxy is Some ==> proxy_scheme_ok(c.proxy->0@),
        r is Ok ==> headers_ok(c.headers@),
{
    if c.concurrency == 0 {
        return Err(ConfigError::ZeroConcurrency);
    }
    if c.timelimit_secs.is_none() && c.requests == 0 {
        return Err(ConfigError::ZeroRequests);
    }
    if let Some(p) = &c.proxy {
        if !proxy_ok(p.as_str()) {
            return Err(ConfigError::InvalidProxyScheme);
        }
        proof {
            assert(proxy_scheme_ok(c.proxy->0@));
        }
    }
    let nh = c.headers.len();
    let mut i: usize = 0;
    while i < nh
        invariant
            i <= nh == c.headers@.len(),
            forall|k: int| 0 <= k < i ==> header_line_ok(#[trigger] c.headers@[k]@),
            c.concurrency != 0,
            !(c.timelimit_secs is None && c.requests == 0),
            !(c.proxy is Some && !proxy_scheme_ok(c.proxy->0@)),
        decreases nh - i,
    {
        if !header_has_colon(c.headers[i].as_str()) {
            proof {
                assert(!header_line_ok(c.headers@[i as int]@));
                assert(!headers_ok(c.headers@));
            }
            return Err(ConfigError::MalformedHeader);
        }
        i = i + 1;
    }
    proof {
        assert(headers_ok(c.headers@));
    }
    Ok(())
}

/// The characters trimmed from both ends of a header name or value: the
/// Unicode white-space characters.
pub open spec fn is_ws(c: char) -> bool {
    ||| c == '\u{0009}'
    ||| c == '\u{000A}'
    ||| c == '\u{000B}'
    ||| c == '\u{000C}'
    ||| c == '\u{000D}'
    ||| c == '\u{0020}'
    ||| c == '\u{0085}'
    ||| c == '\u{00A0}'
    ||| c == '\u{1680}'
    ||| c == '\u{2000}'
    ||| c == '\u{2001}'
    ||| c == '\u{2002}'
    ||| c == '\u{2003}'
    ||| c == '\u{2004}'
    ||| c == '\u{2005}'
    ||| c == '\u{2006}'
    ||| c == '\u{2007}'
    ||| c == '\u{2008}'
    ||| c == '\u{2009}'
    ||| c == '\u{200A}'
    ||| c == '\u{2028}'
    ||| c == '\u{2029}'
    ||| c == '\u{202F}'
    ||| c == '\u{205F}'
    ||| c == '\u{3000}'
}

/// A sequence without its trailing whitespace.
pub open spec fn trim_end_of(s: Seq<char>) -> Seq<char>
    decreases s.len(),
{
    if s.len() == 0 {
        s
    } else if is_ws(s.last()) {
        trim_end_of(s.drop_last())
    } else {
        s
    }
}

/// A sequence without its leading whitespace.
pub open spec fn trim_start_of(s: Seq<char>) -> Seq<char>
    decreases s.len(),
{
    if s.len() == 0 {
        s
    } else if is_ws(s.first()) {
        trim_start_of(s.drop_first())
    } else {
        s
    }
}

/// A sequence without leading and trailing whitespace.
pub open spec fn trim_of(s: Seq<char>) -> Seq<char> {
    trim_start_of(trim_end_of(s))
}

/// Index of the first colon at or after `i`, or the length if none.
pub open spec fn first_colon(s: Seq<char>, i: int) -> int
    decreases s.len() - i,
{
    if i < 0 || i >= s.len() {
        s.len() as int
    } else if s[i] == ':' {
        i
    } else {
        first_colon(s, i + 1)
    }
}

/// A header line splits at its first colon into a trimmed name and a
/// trimmed value; a line without a colon yields nothing — validation
/// rejects such a line before the run starts.
pub open spec fn spec_parse_header(s: Seq<char>) -> Option<(Seq<char>, Seq<char>)> {
    let i = first_colon(s, 0);
    if i >= s.len() {
        None
    } else {
        Some((trim_of(s.take(i)), trim_of(s.skip(i + 1))))
    }
}

proof fn lemma_first_colon_skip(s: Seq<char>, i: int)
    requires
        0 <= i <= s.len(),
        forall|k: int| 0 <= k < i ==> s[k] != ':',
    ensures
        first_colon(s, 0) == first_colon(s, i),
    decreases i,
{
    if i > 0 {
        lemma_first_colon_skip(s, i - 1);
    }
}

fn ws_char(c: char) -> (b: bool)
    ensures
        b == is_ws(c),
{
    c == '\u{0009}' || c == '\u{000A}' || c == '\u{000B}' || c == '\u{000C}' || c == '\u{000D}'
        || c == '\u{0020}' || c == '\u{0085}' || c == '\u{00A0}' || c == '\u{1680}'
        || c == '\u{2000}' || c == '\u{2001}' || c == '\u{2002}' || c == '\u{2003}'
        || c == '\u{2004}' || c == '\u{2005}' || c == '\u{2006}' || c == '\u{2007}'
        || c == '\u{2008}' || c == '\u{2009}' || c == '\u{200A}' || c == '\u{2028}'
        || c == '\u{2029}' || c == '\u{202F}' || c == '\u{205F}' || c == '\u{3000}'
}

/// A copy of `s` without leading and trailing whitespace.
pub fn trim_str(s: &str) -> (r: String)
    ensures
        r@ == trim_of(s@),
{
    let n = s.unicode_len();
    let mut end: usize = n;
    proof {
        assert(s@.take(n as int) =~= s@);
    }
    while end > 0 && ws_char(s.get_char(end - 1))
        invariant
            end <= n == s@.len(),
            trim_end_of(s@.take(end as int)) == trim_end_of(s@),
        decreases end,
    {
        proof {
            assert(s@.take(end as int).drop_last() =~= s@.take(end as int - 1));
        }
        end = end - 1;
    }
    proof {
        if end == 0 {
            assert(s@.take(0) =~= Seq::<char>::empty());
        }
        assert(s@.take(end as int) == trim_end_of(s@));
    }
    let mut start: usize = 0;
    while start < end && ws_char(s.get_char(start))
        invariant
            start <= end <= s@.len(),
            s@.take(end as int) == trim_end_of(s@),
            trim_start_of(s@.subrange(start as int, end as int)) == trim_start_of(
                trim_end_of(s@),
            ),
        decreases end - start,
    {
        proof {
            assert(s@.subrange(start as int, end as int).drop_first() =~= s@.subrange(
                start as int + 1,
                end as int,
            ));
        }
        start = start + 1;
    }
    proof {
        if start == end {
            assert(s@.subrange(start as int, end as int) =~= Seq::<char>::empty());
        }
        assert(s@.subrange(start as int, end as int) == trim_of(s@));
    }
    let part = s.substring_char(start, end);
    part.to_owned()
}

/// Split a custom header line `"Name: Value"` at its first colon and
/// trim both parts; a line without a colon yields nothing — `validate`
/// has already rejected any configuration that holds one.
pub fn parse_header(line: &str) -> (r: Option<(String, String)>)
    ensures
        (match spec_parse_header(line@) {
            Option::Some(kv) => r is Some && (r->0).0@ == kv.0 && (r->0).1@ == kv.1,
            Option::None => r is None,
        }),
{
    let n = line.unicode_len();
    let mut i: usize = 0;
    while i < n && line.get_char(i) != ':'
        invariant
            i <= n == line@.len(),
            forall|k: int| 0 <= k < i ==> line@[k] != ':',
        decreases n - i,
    {
        i = i + 1;
    }
    proof {
        lemma_first_colon_skip(line@, i as int);
    }
    if i == n {
        return None;
    }
    let key_part = line.substring_char(0, i);
    let value_part = line.substring_char(i + 1, n);
    proof {
        assert(line@.subrange(0, i as int) =~= line@.take(i as int));
        assert(line@.subrange(i as int + 1, n as int) =~= line@.skip(i as int + 1));
    }
    let key = trim_str(key_part);
    let value = trim_str(value_part);
    Some((key, value))
}

/// The export format of the report file.
#[derive(PartialEq, Eq, Structural, Clone, Copy, Debug)]
pub enum ExportFormat {
    Json,
    Csv,
}

/// The word `json`, letter for letter, in either ASCII case.
pub open spec fn is_json_word(s: Seq<char>) -> bool {
    s.len() == 4 && (s[0] == 'j' || s[0] == 'J') && (s[1] == 's' || s[1] == 'S') && (s[2] == 'o'
        || s[2] == 'O') && (s[3] == 'n' || s[3] == 'N')
}

/// The word `csv`, letter for letter, in either ASCII case.
pub open spec fn is_csv_word(s: Seq<char>) -> bool {
    s.len() == 3 && (s[0] == 'c' || s[0] == 'C') && (s[1] == 's' || s[1] == 'S') && (s[2] == 'v'
        || s[2] == 'V')
}

/// Recognize the export format word, ASCII-case-insensitively; any other
/// word is rejected.
pub fn parse_export_format(s: &str) -> (r: Option<ExportFormat>)
    ensures
        r == (if is_json_word(s@) {
            Some(ExportFormat::Json)
        } else if is_csv_word(s@) {
            Some(ExportFormat::Csv)
        } else {
            None::<ExportFormat>
        }),
{
    let n = s.unicode_len();
    if n == 4 {
        let c0 = s.get_char(0);
        let c1 = s.get_char(1);
        let c2 = s.get_char(2);
        let c3 = s.get_char(3);
        if (c0 == 'j' || c0 == 'J') && (c1 == 's' || c1 == 'S') && (c2 == 'o' || c2 == 'O') && (c3
            == 'n' || c3 == 'N') {
            return Some(ExportFormat::Json);
        }
        None
    } else if n == 3 {
        let c0 = s.get_char(0);
        let c1 = s.get_char(1);
        let c2 = s.get_char(2);
        if (c0 == 'c' || c0 == 'C') && (c1 == 's' || c1 == 'S') && (c2 == 'v' || c2 == 'V') {
            return Some(ExportFormat::Csv);
        }
        None
    } else {
        None
    }
}

/// Connection-pool settings of the HTTP client: with keep-alive, one idle
/// slot per concurrent request and a 90-second idle timeout; without it,
/// no idle pooling at all.
pub fn pool_settings(keepalive: bool, concurrency: u64) -> (r: (u64, Option<u64>))
    ensures
        keepalive ==> r == (concurrency, Some(90u64)),
        !keepalive ==> r == (0u64, None::<u64>),
{
    if keepalive {
        (concurrency, Some(90))
    } else {
        (0, None)
    }
}

} // verus!
