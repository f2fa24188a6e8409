//! Line-oriented HTTP parsing: stateless scans over a delivered byte chunk.
//!
//! Every function here is restartable: it keeps no state between calls and
//! reports a parse error whenever a full line is not contained in the chunk.

use vstd::prelude::*;

verus! {

use crate::Error;

/// A byte the parser may scan across: 7-bit ASCII.
pub open spec fn is_ascii_byte(b: u8) -> bool {
    b < 128
}

/// Index of the first occurrence of `target` at or after `from`, provided
/// only 7-bit ASCII bytes stand before it; `None` when a non-ASCII byte is
/// met first or when `target` does not occur.
pub open spec fn find_ascii_byte(data: Seq<u8>, target: u8, from: int) -> Option<int>
    decreases data.len() - from,
{
    if from < 0 || from >= data.len() {
        None
    } else if !is_ascii_byte(data[from]) {
        None
    } else if data[from] == target {
        Some(from)
    } else {
        find_ascii_byte(data, target, from + 1)
    }
}

/// The characters spelled by a sequence of ASCII bytes.
pub open spec fn ascii_chars_of(s: Seq<u8>) -> Seq<char> {
    s.map_values(|b: u8| b as char)
}

/// Relies on core::str::from_utf8: bytes that are all 7-bit ASCII are valid
/// UTF-8 and decode to exactly those characters.
#[verifier::external_body]
fn ascii_str<'a>(bytes: &'a [u8]) -> (r: &'a str)
    requires
        forall|i: int| 0 <= i < bytes@.len() ==> is_ascii_byte(bytes@[i]),
    ensures
        r@ == ascii_chars_of(bytes@),
        r.is_ascii(),
{
    core::str::from_utf8(bytes).unwrap_or("")
}

/// Scans `data` for `target`, accepting only ASCII bytes on the way, and
/// splits it into the line before the hit and the remainder after it.
fn read_ascii_until<'a>(data: &'a [u8], target: u8) -> (r: Option<(&'a str, &'a [u8])>)
    ensures
        match find_ascii_byte(data@, target, 0) {
            Some(i) => {
                &&& r matches Some(p)
                &&& p.0@ == ascii_chars_of(data@.subrange(0, i))
                &&& p.0.is_ascii()
                &&& p.1@ == data@.subrange(i + 1, data@.len() as int)
                &&& p.1@.len() < data@.len()
            },
            None => r is None,
        },
{
    let mut i: usize = 0;
    while i < data.len()
        invariant
            0 <= i <= data@.len(),
            find_ascii_byte(data@, target, 0) == find_ascii_byte(data@, target, i as int),
            forall|j: int| 0 <= j < i ==> is_ascii_byte(data@[j]),
        decreases data@.len() - i,
    {
        let b = data[i];
        if b >= 128 {
            return None;
        }
        if b == target {
            let line = ascii_str(&data[0..i]);
            let remaining = &data[i + 1..data.len()];
            return Some((line, remaining));
        }
        i = i + 1;
    }
    None
}

/// The nine request methods of HTTP/1.1.
#[derive(Copy, Clone, PartialEq, Eq, Structural, PartialOrd, Ord, Debug, Hash)]
pub enum HttpMethod {
    Get,
    Head,
    Post,
    Put,
    Delete,
    Connect,
    Options,
    Trace,
    Patch,
}

/// The method a token names, if it is one of the recognized spellings:
/// for each method its lower-case, capitalized and upper-case name.
pub open spec fn spec_method_of(s: Seq<char>) -> Option<HttpMethod> {
    if s == "get"@ || s == "Get"@ || s == "GET"@ {
        Some(HttpMethod::Get)
    } else if s == "head"@ || s == "Head"@ || s == "HEAD"@ {
        Some(HttpMethod::Head)
    } else if s == "post"@ || s == "Post"@ || s == "POST"@ {
        Some(HttpMethod::Post)
    } else if s == "put"@ || s == "Put"@ || s == "PUT"@ {
        Some(HttpMethod::Put)
    } else if s == "delete"@ || s == "Delete"@ || s == "DELETE"@ {
        Some(HttpMethod::Delete)
    } else if s == "connect"@ || s == "Connect"@ || s == "CONNECT"@ {
        Some(HttpMethod::Connect)
    } else if s == "options"@ || s == "Options"@ || s == "OPTIONS"@ {
        Some(HttpMethod::Options)
    } else if s == "trace"@ || s == "Trace"@ || s == "TRACE"@ {
        Some(HttpMethod::Trace)
    } else if s == "patch"@ || s == "Patch"@ || s == "PATCH"@ {
        Some(HttpMethod::Patch)
    } else {
        None
    }
}

/// Character-for-character equality of two string slices.
fn str_chars_eq(a: &str, b: &str) -> (r: bool)
    ensures
        r == (a@ == b@),
{
    let n = a.unicode_len();
    let m = b.unicode_len();
    if n != m {
        return false;
    }
    let mut i: usize = 0;
    while i < n
        invariant
            0 <= i <= n,
            n as nat == a@.len(),
            n as nat == b@.len(),
            forall|j: int| 0 <= j < i ==> a@[j] == b@[j],
        decreases n - i,
    {
        if a.get_char(i) != b.get_char(i) {
            return false;
        }
        i = i + 1;
    }
    proof {
        assert(a@ =~= b@);
    }
    true
}

impl HttpMethod {
    /// Parses a method token; only the spellings `spec_method_of` lists
    /// are accepted.
    pub fn from_str(s: &str) -> (r: Result<HttpMethod, Error>)
        ensures
            match spec_method_of(s@) {
                Some(m) => r == Ok::<HttpMethod, Error>(m),
                None => r == Err::<HttpMethod, Error>(Error::InvalidHttpMethod),
            },
    {
        if str_chars_eq(s, "get") || str_chars_eq(s, "Get") || str_chars_eq(s, "GET") {
            Ok(HttpMethod::Get)
        } else if str_chars_eq(s, "head") || str_chars_eq(s, "Head") || str_chars_eq(s, "HEAD") {
            Ok(HttpMethod::Head)
        } else if str_chars_eq(s, "post") || str_chars_eq(s, "Post") || str_chars_eq(s, "POST") {
            Ok(HttpMethod::Post)
        } else if str_chars_eq(s, "put") || str_chars_eq(s, "Put") || str_chars_eq(s, "PUT") {
            Ok(HttpMethod::Put)
        } else if str_chars_eq(s, "delete") || str_chars_eq(s, "Delete") || str_chars_eq(s, "DELETE") {
            Ok(HttpMethod::Delete)
        } else if str_chars_eq(s, "connect") || str_chars_eq(s, "Connect") || str_chars_eq(s, "CONNECT") {
            Ok(HttpMethod::Connect)
        } else if str_chars_eq(s, "options") || str_chars_eq(s, "Options") || str_chars_eq(s, "OPTIONS") {
            Ok(HttpMethod::Options)
        } else if str_chars_eq(s, "trace") || str_chars_eq(s, "Trace") || str_chars_eq(s, "TRACE") {
            Ok(HttpMethod::Trace)
        } else if str_chars_eq(s, "patch") || str_chars_eq(s, "Patch") || str_chars_eq(s, "PATCH") {
            Ok(HttpMethod::Patch)
        } else {
            Err(Error::InvalidHttpMethod)
        }
    }
}

/// Index of the first occurrence of `c` in `s` at or after `from`.
pub open spec fn find_char(s: Seq<char>, c: char, from: int) -> Option<int>
    decreases s.len() - from,
{
    if from < 0 || from >= s.len() {
        None
    } else if s[from] == c {
        Some(from)
    } else {
        find_char(s, c, from + 1)
    }
}

/// Index of the last occurrence of `c` in `s` at or before `from`.
pub open spec fn rfind_char(s: Seq<char>, c: char, from: int) -> Option<int>
    decreases from + 1,
{
    if from < 0 || from >= s.len() {
        None
    } else if s[from] == c {
        Some(from)
    } else {
        rfind_char(s, c, from - 1)
    }
}

/// Splits `s` around the first occurrence of `c`.
fn split_first_char<'a>(s: &'a str, c: char) -> (r: Option<(&'a str, &'a str)>)
    requires
        s.is_ascii(),
    ensures
        match find_char(s@, c, 0) {
            Some(i) => {
                &&& r matches Some(p)
                &&& p.0@ == s@.subrange(0, i)
                &&& p.0.is_ascii()
                &&& p.1@ == s@.subrange(i + 1, s@.len() as int)
                &&& p.1.is_ascii()
            },
            None => r is None,
        },
{
    let n = s.unicode_len();
    let mut i: usize = 0;
    while i < n
        invariant
            0 <= i <= n,
            n as nat == s@.len(),
            s.is_ascii(),
            find_char(s@, c, 0) == find_char(s@, c, i as int),
        decreases n - i,
    {
        if s.get_char(i) == c {
            let head = s.substring_ascii(0, i);
            let tail = s.substring_ascii(i + 1, n);
            return Some((head, tail));
        }
        i = i + 1;
    }
    None
}

/// Splits `s` around the last occurrence of `c`.
fn split_last_char<'a>(s: &'a str, c: char) -> (r: Option<(&'a str, &'a str)>)
    requires
        s.is_ascii(),
    ensures
        match rfind_char(s@, c, s@.len() - 1) {
            Some(i) => {
                &&& r matches Some(p)
                &&& p.0@ == s@.subrange(0, i)
                &&& p.0.is_ascii()
                &&& p.1@ == s@.subrange(i + 1, s@.len() as int)
                &&& p.1.is_ascii()
            },
            None => r is None,
        },
{
    let n = s.unicode_len();
    let mut i: usize = n;
    while i > 0
        invariant
            0 <= i <= n,
            n as nat == s@.len(),
            s.is_ascii(),
            rfind_char(s@, c, s@.len() - 1) == rfind_char(s@, c, i - 1),
        decreases i,
    {
        if s.get_char(i - 1) == c {
            let head = s.substring_ascii(0, i - 1);
            let tail = s.substring_ascii(i, n);
            return Some((head, tail));
        }
        i = i - 1;
    }
    None
}

/// What parsing a request line from `data` yields: the method, the path
/// (the rest of the line up to its last space; it may itself hold spaces),
/// and the bytes after the line-feed.  The trailing token after the last
/// space — meant to be the protocol version — is discarded unvalidated.
pub open spec fn spec_request_line(data: Seq<u8>) -> Result<(HttpMethod, Seq<char>, Seq<u8>), Error> {
    match find_ascii_byte(data, 10u8, 0) {
        None => Err(Error::InvalidRequestLine),
        Some(lf) => {
            let line = ascii_chars_of(data.subrange(0, lf));
            let remaining = data.subrange(lf + 1, data.len() as int);
            match find_char(line, ' ', 0) {
                None => Err(Error::InvalidRequestLine),
                Some(sp) => {
                    let token = line.subrange(0, sp);
                    let rest = line.subrange(sp + 1, line.len() as int);
                    match spec_method_of(token) {
                        None => Err(Error::InvalidHttpMethod),
                        Some(m) => match rfind_char(rest, ' ', rest.len() - 1) {
                            None => Err(Error::InvalidRequestLine),
                            Some(rsp) => Ok((m, rest.subrange(0, rsp), remaining)),
                        },
                    }
                },
            }
        },
    }
}

/// Parses one full request line `"<METHOD> <PATH> <VERSION>\n"` out of
/// `data` and returns the method, the path and the unconsumed bytes after
/// the line-feed.
pub fn read_http_request_line<'a>(data: &'a [u8]) -> (r: Result<(HttpMethod, &'a str, &'a [u8]), Error>)
    ensures
        match spec_request_line(data@) {
            Ok(t) => {
                &&& r matches Ok(p)
                &&& p.0 == t.0
                &&& p.1@ == t.1
                &&& p.1.is_ascii()
                &&& p.2@ == t.2
                &&& p.2@.len() < data@.len()
            },
            Err(e) => r == Err::<(HttpMethod, &'a str, &'a [u8]), Error>(e),
        },
{
    let (line, remaining) = match read_ascii_until(data, 10) {
        Some(t) => t,
        None => {
            return Err(Error::InvalidRequestLine);
        },
    };
    let (token, rest) = match split_first_char(line, ' ') {
        Some(t) => t,
        None => {
            return Err(Error::InvalidRequestLine);
        },
    };
    let method = match HttpMethod::from_str(token) {
        Ok(m) => m,
        Err(e) => {
            return Err(e);
        },
    };
    let (url, _http_version) = match split_last_char(rest, ' ') {
        Some(t) => t,
        None => {
            return Err(Error::InvalidRequestLine);
        },
    };
    Ok((method, url, remaining))
}

/// The ASCII characters that count as surrounding whitespace of a header
/// key or value.
pub open spec fn spec_is_ws(c: char) -> bool {
    c == ' ' || c == '\t' || c == '\n' || c == '\u{b}' || c == '\u{c}' || c == '\r'
}

/// Index of the first non-whitespace character at or after `from`
/// (`s.len()` when none is left).
pub open spec fn first_non_ws(s: Seq<char>, from: int) -> int
    decreases s.len() - from,
{
    if from < 0 || from >= s.len() {
        s.len() as int
    } else if spec_is_ws(s[from]) {
        first_non_ws(s, from + 1)
    } else {
        from
    }
}

/// Index of the last non-whitespace character at or before `from`
/// (`-1` when there is none).
pub open spec fn last_non_ws(s: Seq<char>, from: int) -> int
    decreases from + 1,
{
    if from < 0 || from >= s.len() {
        -1
    } else if spec_is_ws(s[from]) {
        last_non_ws(s, from - 1)
    } else {
        from
    }
}

/// `s` with surrounding whitespace removed.
pub open spec fn spec_trim(s: Seq<char>) -> Seq<char> {
    let a = first_non_ws(s, 0);
    let b = last_non_ws(s, s.len() - 1);
    if b < a {
        Seq::empty()
    } else {
        s.subrange(a, b + 1)
    }
}

fn is_ws_char(c: char) -> (r: bool)
    ensures
        r == spec_is_ws(c),
{
    c == ' ' || c == '\t' || c == '\n' || c == '\u{b}' || c == '\u{c}' || c == '\r'
}

/// Removes surrounding whitespace from an ASCII string slice.
fn trim_ascii<'a>(s: &'a str) -> (r: &'a str)
    requires
        s.is_ascii(),
    ensures
        r@ == spec_trim(s@),
        r.is_ascii(),
{
    let n = s.unicode_len();
    let mut a: usize = 0;
    while a < n && is_ws_char(s.get_char(a))
        invariant
            0 <= a <= n,
            n as nat == s@.len(),
            first_non_ws(s@, 0) == first_non_ws(s@, a as int),
        decreases n - a,
    {
        a = a + 1;
    }
    let mut b: usize = n;
    while b > a && is_ws_char(s.get_char(b - 1))
        invariant
            a <= b <= n,
            n as nat == s@.len(),
            first_non_ws(s@, 0) == a || (a == n && first_non_ws(s@, 0) == n),
            last_non_ws(s@, s@.len() - 1) == last_non_ws(s@, b - 1),
        decreases b,
    {
        b = b - 1;
    }
    proof {
        if b == a {
            lemma_last_non_ws_before_first(s@, a as int, b - 1);
        }
    }
    s.substring_ascii(a, b)
}

/// Below the first non-whitespace character, a backward scan finds no
/// non-whitespace character either.
proof fn lemma_last_non_ws_before_first(s: Seq<char>, a: int, k: int)
    requires
        first_non_ws(s, 0) >= a,
        k < a,
    ensures
        last_non_ws(s, k) == -1,
    decreases k + 1,
{
    if k >= 0 && k < s.len() {
        lemma_first_non_ws_ws_prefix(s, 0, k);
        lemma_last_non_ws_before_first(s, a, k - 1);
    }
}

/// Every character strictly before the first non-whitespace index is
/// whitespace.
proof fn lemma_first_non_ws_ws_prefix(s: Seq<char>, from: int, k: int)
    requires
        0 <= from <= k < s.len(),
        k < first_non_ws(s, from),
    ensures
        spec_is_ws(s[k]),
    decreases k - from,
{
    if from < k {
        lemma_first_non_ws_ws_prefix(s, from + 1, k);
    }
}

/// One parsed header line: either the blank `"\r\n"` line that ends the
/// header section, a key/value pair, or a parse failure.
pub enum HeaderLine<'a> {
    Error(Error),
    Whiteline { remaining: &'a [u8] },
    Header { key: &'a str, value: &'a str, remaining: &'a [u8] },
}

/// Whether `data` starts with the blank `"\r\n"` line.
pub open spec fn spec_is_blank_line(data: Seq<u8>) -> bool {
    data.len() >= 2 && data[0] == 13u8 && data[1] == 10u8
}

/// What parsing a non-blank header line from `data` yields: the trimmed
/// key before the first colon, the trimmed value between the colon and the
/// line-feed, and the bytes after the line-feed; `None` when either scan
/// fails.
pub open spec fn spec_header_split(data: Seq<u8>) -> Option<(Seq<char>, Seq<char>, Seq<u8>)> {
    match find_ascii_byte(data, 58u8, 0) {
        None => None,
        Some(i) => {
            let rest = data.subrange(i + 1, data.len() as int);
            match find_ascii_byte(rest, 10u8, 0) {
                None => None,
                Some(j) => Some(
                    (
                        spec_trim(ascii_chars_of(data.subrange(0, i))),
                        spec_trim(ascii_chars_of(rest.subrange(0, j))),
                        rest.subrange(j + 1, rest.len() as int),
                    ),
                ),
            }
        },
    }
}

/// Parses one header line out of `data`: the blank `"\r\n"` line signals
/// the end of the headers; otherwise the line must hold a colon and a
/// line-feed, and key and value are returned trimmed.
pub fn read_header_line<'a>(data: &'a [u8]) -> (r: HeaderLine<'a>)
    ensures
        spec_is_blank_line(data@) ==> (r matches HeaderLine::Whiteline { remaining }
            && remaining@ == data@.subrange(2, data@.len() as int)),
        !spec_is_blank_line(data@) && spec_header_split(data@) is None ==> (r matches HeaderLine::Error(e) && e == Error::InvalidHttpHeader),
        !spec_is_blank_line(data@) ==> (spec_header_split(data@) matches Some(t) ==> r matches HeaderLine::Header { key, value, remaining }
            && key@ == t.0
            && value@ == t.1
            && remaining@ == t.2
            && remaining@.len() + 2 <= data@.len()),
{
    if data.len() >= 2 && data[0] == 13 && data[1] == 10 {
        return HeaderLine::Whiteline { remaining: &data[2..data.len()] };
    }
    let (key, rest) = match read_ascii_until(data, 58) {
        Some(t) => t,
        None => {
            return HeaderLine::Error(Error::InvalidHttpHeader);
        },
    };
    let (value, remaining) = match read_ascii_until(rest, 10) {
        Some(t) => t,
        None => {
            return HeaderLine::Error(Error::InvalidHttpHeader);
        },
    };
    HeaderLine::Header { key: trim_ascii(key), value: trim_ascii(value), remaining }
}

/// A character the parser's scanned regions may hold: 7-bit ASCII.
pub open spec fn is_ascii_char(c: char) -> bool {
    '\0' <= c <= '\u{7f}'
}

/// The bytes spelling a sequence of ASCII characters.
pub open spec fn ascii_bytes_of(s: Seq<char>) -> Seq<u8> {
    s.map_values(|c: char| c as u8)
}

/// A scan whose prefix is ASCII and free of the target finds the target
/// exactly where it first stands.
proof fn lemma_find_ascii_byte_hit(data: Seq<u8>, target: u8, from: int, k: int)
    requires
        0 <= from <= k < data.len(),
        data[k] == target,
        is_ascii_byte(target),
        forall|j: int| from <= j < k ==> is_ascii_byte(#[trigger] data[j]) && data[j] != target,
    ensures
        find_ascii_byte(data, target, from) == Some(k),
    decreases k - from,
{
    if from < k {
        lemma_find_ascii_byte_hit(data, target, from + 1, k);
    }
}

/// A scan that meets a non-ASCII byte before any target finds nothing.
proof fn lemma_find_ascii_byte_blocked(data: Seq<u8>, target: u8, from: int, k: int)
    requires
        0 <= from <= k < data.len(),
        !is_ascii_byte(data[k]),
        forall|j: int| from <= j < k ==> #[trigger] data[j] != target,
    ensures
        find_ascii_byte(data, target, from) is None,
    decreases k - from,
{
    if from < k && is_ascii_byte(data[from]) {
        lemma_find_ascii_byte_blocked(data, target, from + 1, k);
    }
}

/// A scan over data free of the target finds nothing.
proof fn lemma_find_ascii_byte_absent(data: Seq<u8>, target: u8, from: int)
    requires
        forall|j: int| from <= j < data.len() ==> #[trigger] data[j] != target,
    ensures
        find_ascii_byte(data, target, from) is None,
    decreases data.len() - from,
{
    if 0 <= from < data.len() && is_ascii_byte(data[from]) {
        lemma_find_ascii_byte_absent(data, target, from + 1);
    }
}

/// A forward character scan finds the first occurrence.
proof fn lemma_find_char_hit(s: Seq<char>, c: char, from: int, k: int)
    requires
        0 <= from <= k < s.len(),
        s[k] == c,
        forall|j: int| from <= j < k ==> #[trigger] s[j] != c,
    ensures
        find_char(s, c, from) == Some(k),
    decreases k - from,
{
    if from < k {
        lemma_find_char_hit(s, c, from + 1, k);
    }
}

/// A backward character scan finds the last occurrence.
proof fn lemma_rfind_char_hit(s: Seq<char>, c: char, from: int, k: int)
    requires
        0 <= k <= from < s.len(),
        s[k] == c,
        forall|j: int| k < j <= from ==> #[trigger] s[j] != c,
    ensures
        rfind_char(s, c, from) == Some(k),
    decreases from - k,
{
    if k < from {
        lemma_rfind_char_hit(s, c, from - 1, k);
    }
}

/// Every recognized method token is ASCII and free of spaces and
/// line-feeds.
proof fn lemma_method_token_shape(token: Seq<char>)
    requires
        spec_method_of(token) is Some,
    ensures
        forall|i: int|
            0 <= i < token.len() ==> is_ascii_char(#[trigger] token[i]) && token[i] != ' '
                && token[i] != '\n',
{
    reveal_strlit("get");
    reveal_strlit("Get");
    reveal_strlit("GET");
    reveal_strlit("head");
    reveal_strlit("Head");
    reveal_strlit("HEAD");
    reveal_strlit("post");
    reveal_strlit("Post");
    reveal_strlit("POST");
    reveal_strlit("put");
    reveal_strlit("Put");
    reveal_strlit("PUT");
    reveal_strlit("delete");
    reveal_strlit("Delete");
    reveal_strlit("DELETE");
    reveal_strlit("connect");
    reveal_strlit("Connect");
    reveal_strlit("CONNECT");
    reveal_strlit("options");
    reveal_strlit("Options");
    reveal_strlit("OPTIONS");
    reveal_strlit("trace");
    reveal_strlit("Trace");
    reveal_strlit("TRACE");
    reveal_strlit("patch");
    reveal_strlit("Patch");
    reveal_strlit("PATCH");
}

/// Law: every complete, well-formed request line parses to exactly its
/// parts.  For a token spelling a method, a path of ASCII characters free
/// of line-feeds, and a version token of ASCII characters free of
/// line-feeds and spaces, parsing `"<token> <path> <version>\n"` followed
/// by any tail yields the method, the path, and the tail.
pub proof fn lemma_request_line_exact(
    token: Seq<char>,
    m: HttpMethod,
    path: Seq<char>,
    version: Seq<char>,
    tail: Seq<u8>,
)
    requires
        spec_method_of(token) == Some(m),
        forall|i: int|
            0 <= i < path.len() ==> is_ascii_char(#[trigger] path[i]) && path[i] != '\n',
        forall|i: int|
            0 <= i < version.len() ==> is_ascii_char(#[trigger] version[i]) && version[i] != '\n'
                && version[i] != ' ',
    ensures
        spec_request_line(
            ascii_bytes_of(token + seq![' '] + path + seq![' '] + version) + seq![10u8] + tail,
        ) == Ok::<(HttpMethod, Seq<char>, Seq<u8>), Error>((m, path, tail)),
{
    lemma_method_token_shape(token);
    let line_chars = token + seq![' '] + path + seq![' '] + version;
    let data = ascii_bytes_of(line_chars) + seq![10u8] + tail;
    let ll = line_chars.len() as int;
    assert forall|j: int| 0 <= j < ll implies #[trigger] data[j] == (line_chars[j] as u8)
        && is_ascii_char(line_chars[j]) && line_chars[j] != '\n' by {
        assert(data[j] == ascii_bytes_of(line_chars)[j]);
    }
    assert(data[ll] == 10u8);
    assert forall|j: int| 0 <= j < ll implies is_ascii_byte(#[trigger] data[j]) && data[j]
        != 10u8 by {
        let c = line_chars[j];
        let cv = c as u32;
        assert(data[j] == (c as u8));
        assert('\0' <= c <= '\u{7f}');
        assert(cv < 128);
        assert(cv < 128 ==> cv as u8 == cv) by (bit_vector);
        assert(c as u8 == cv as u8);
        assert(cv != 10) by {
            if cv == 10 {
                assert(c == '\n');
            }
        }
    }
    lemma_find_ascii_byte_hit(data, 10u8, 0, ll);
    let line = ascii_chars_of(data.subrange(0, ll));
    assert forall|j: int| 0 <= j < ll implies #[trigger] line[j] == line_chars[j] by {
        let c = line_chars[j];
        let cv = c as u32;
        assert(data.subrange(0, ll)[j] == data[j]);
        assert(line[j] == (data[j] as char));
        assert('\0' <= c <= '\u{7f}');
        assert(cv < 128);
        assert(cv < 128 ==> cv as u8 == cv) by (bit_vector);
        assert(data[j] == c as u8 && c as u8 == cv as u8);
        assert(data[j] as u32 == cv);
        assert((data[j] as char) as u32 == cv);
    }
    assert(line =~= line_chars);
    assert(data.subrange(ll + 1, data.len() as int) =~= tail);
    let tl = token.len() as int;
    assert(line[tl] == ' ');
    lemma_find_char_hit(line, ' ', 0, tl);
    assert(line.subrange(0, tl) =~= token);
    let rest = line.subrange(tl + 1, line.len() as int);
    assert(rest =~= path + seq![' '] + version);
    let pl = path.len() as int;
    assert(rest[pl] == ' ');
    lemma_rfind_char_hit(rest, ' ', rest.len() - 1, pl);
    assert(rest.subrange(0, pl) =~= path);
}

/// Law: empty input, and input holding a non-ASCII byte before any
/// line-feed, are rejected as an invalid request line.  `i` names the
/// offending byte (it is ignored for empty input).
pub proof fn lemma_request_line_rejects(data: Seq<u8>, i: int)
    requires
        data.len() == 0 || (0 <= i < data.len() && !is_ascii_byte(data[i]) && forall|j: int|
            0 <= j < i ==> #[trigger] data[j] != 10u8),
    ensures
        spec_request_line(data) == Err::<(HttpMethod, Seq<char>, Seq<u8>), Error>(
            Error::InvalidRequestLine,
        ),
{
    if data.len() > 0 {
        lemma_find_ascii_byte_blocked(data, 10u8, 0, i);
    }
}

/// Law: a non-blank line without any colon, or without any line-feed,
/// is rejected as an invalid header.
pub proof fn lemma_header_line_rejects(data: Seq<u8>)
    requires
        !spec_is_blank_line(data),
        (forall|j: int| 0 <= j < data.len() ==> #[trigger] data[j] != 58u8) || (forall|j: int|
            0 <= j < data.len() ==> #[trigger] data[j] != 10u8),
    ensures
        spec_header_split(data) is None,
{
    if forall|j: int| 0 <= j < data.len() ==> #[trigger] data[j] != 58u8 {
        lemma_find_ascii_byte_absent(data, 58u8, 0);
    } else {
        match find_ascii_byte(data, 58u8, 0) {
            None => {},
            Some(k) => {
                lemma_find_ascii_byte_in_range(data, 58u8, 0);
                let rest = data.subrange(k + 1, data.len() as int);
                assert forall|j: int| 0 <= j < rest.len() implies #[trigger] rest[j] != 10u8 by {
                    assert(rest[j] == data[k + 1 + j]);
                }
                lemma_find_ascii_byte_absent(rest, 10u8, 0);
            },
        }
    }
}

/// A successful scan lands inside the data, on the target.
proof fn lemma_find_ascii_byte_in_range(data: Seq<u8>, target: u8, from: int)
    requires
        find_ascii_byte(data, target, from) is Some,
    ensures
        from <= find_ascii_byte(data, target, from)->0 < data.len(),
        data[find_ascii_byte(data, target, from)->0] == target,
    decreases data.len() - from,
{
    if 0 <= from < data.len() && is_ascii_byte(data[from]) && data[from] != target {
        lemma_find_ascii_byte_in_range(data, target, from + 1);
    }
}

} // verus!
