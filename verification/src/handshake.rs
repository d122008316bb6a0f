//! The opening handshake: finding the client's `Sec-WebSocket-Key` in its
//! request header, and answering with the derived accept key.
use vstd::prelude::*;
use vstd::string::{StrSliceExecFns, StringExecFns};
use vstd::utf8::encode_utf8;

verus! {

broadcast use vstd::string::group_string_axioms;

/// The characters of a string slice.
fn chars_of(s: &str) -> (r: Vec<char>)
    ensures
        r@ == s@,
{
    let mut r: Vec<char> = Vec::new();
    for c in it: s.chars()
        invariant
            r@ == it.seq().take(it.index()),
    {
        r.push(c);
        assert(r@ =~= it.seq().take(it.index() + 1));
    }
    assert(r@ =~= s@);
    r
}

/// Unicode lowercase mapping of a string, as `str::to_lowercase` computes it.
pub uninterp spec fn unicode_lowercase(s: Seq<char>) -> Seq<char>;

/// The Unicode `White_Space` property, which `char::is_whitespace` tests:
/// TAB to CR, SPACE, NEL, NO-BREAK SPACE, OGHAM SPACE MARK, EN QUAD to HAIR
/// SPACE, LINE and PARAGRAPH SEPARATOR, NARROW NO-BREAK SPACE, MEDIUM
/// MATHEMATICAL SPACE and IDEOGRAPHIC SPACE.
pub open spec fn unicode_white_space(c: char) -> bool {
    let u = c as u32;
    ||| 0x09 <= u <= 0x0D
    ||| u == 0x20
    ||| u == 0x85
    ||| u == 0xA0
    ||| u == 0x1680
    ||| 0x2000 <= u <= 0x200A
    ||| u == 0x2028
    ||| u == 0x2029
    ||| u == 0x202F
    ||| u == 0x205F
    ||| u == 0x3000
}

/// Calls `str::to_lowercase`; its result is the lowercase mapping of the
/// argument, named and not spelled out here.
#[verifier::external_body]
fn to_lowercase(s: &str) -> (r: String)
    ensures
        r@ == unicode_lowercase(s@),
{
    s.to_lowercase()
}

/// Whether a character has the Unicode `White_Space` property.
fn is_whitespace(c: char) -> (r: bool)
    ensures
        r == unicode_white_space(c),
{
    let u = c as u32;
    (0x09 <= u && u <= 0x0D) || u == 0x20 || u == 0x85 || u == 0xA0 || u == 0x1680 || (0x2000
        <= u && u <= 0x200A) || u == 0x2028 || u == 0x2029 || u == 0x202F || u == 0x205F || u
        == 0x3000
}

/// Where the line that starts at `from` ends: the first CR LF at or after
/// `from`, or the end of `s`.
pub open spec fn line_end(s: Seq<char>, from: int) -> int
    decreases s.len() - from,
{
    if from + 1 >= s.len() {
        s.len() as int
    } else if s[from] == '\r' && s[from + 1] == '\n' {
        from
    } else {
        line_end(s, from + 1)
    }
}

/// The first position of `c` in `s[from..to]`, or `to`.
pub open spec fn find_char(s: Seq<char>, c: char, from: int, to: int) -> int
    decreases to - from,
{
    if from >= to {
        to
    } else if s[from] == c {
        from
    } else {
        find_char(s, c, from + 1, to)
    }
}

/// The first position in `s[from..to]` that is not white space, or `to`.
pub open spec fn skip_white(s: Seq<char>, from: int, to: int) -> int
    decreases to - from,
{
    if from < to && unicode_white_space(s[from]) {
        skip_white(s, from + 1, to)
    } else {
        from
    }
}

/// The end of `s[from..to]` once trailing white space is left out.
pub open spec fn back_white(s: Seq<char>, from: int, to: int) -> int
    decreases to - from,
{
    if from < to && unicode_white_space(s[to - 1]) {
        back_white(s, from, to - 1)
    } else {
        to
    }
}

/// `s[from..to]` without leading and trailing white space.
pub open spec fn trimmed(s: Seq<char>, from: int, to: int) -> Seq<char> {
    let a = skip_white(s, from, to);
    s.subrange(a, back_white(s, a, to))
}

/// Trimming leaves out exactly the white space at both ends: what it keeps
/// is empty or starts and ends with a character that is not white space, and
/// all that it leaves out is white space.
pub proof fn law_trim_drops_only_outer_white_space(s: Seq<char>, from: int, to: int)
    requires
        0 <= from <= to <= s.len(),
    ensures
        ({
            let a = skip_white(s, from, to);
            let b = back_white(s, a, to);
            &&& from <= a <= b <= to
            &&& trimmed(s, from, to) == s.subrange(a, b)
            &&& a < b ==> !unicode_white_space(s[a]) && !unicode_white_space(s[b - 1])
            &&& forall|k: int| from <= k < a ==> unicode_white_space(#[trigger] s[k])
            &&& forall|k: int| b <= k < to ==> unicode_white_space(#[trigger] s[k])
        }),
{
    lemma_skip_white(s, from, to);
    let a = skip_white(s, from, to);
    lemma_back_white(s, a, to);
}

proof fn lemma_skip_white(s: Seq<char>, from: int, to: int)
    requires
        0 <= from <= to <= s.len(),
    ensures
        from <= skip_white(s, from, to) <= to,
        skip_white(s, from, to) < to ==> !unicode_white_space(s[skip_white(s, from, to)]),
        forall|k: int| from <= k < skip_white(s, from, to) ==> unicode_white_space(#[trigger] s[k]),
    decreases to - from,
{
    if from < to && unicode_white_space(s[from]) {
        lemma_skip_white(s, from + 1, to);
    }
}

proof fn lemma_back_white(s: Seq<char>, from: int, to: int)
    requires
        0 <= from <= to <= s.len(),
    ensures
        from <= back_white(s, from, to) <= to,
        from < back_white(s, from, to) ==> !unicode_white_space(s[back_white(s, from, to) - 1]),
        forall|k: int| back_white(s, from, to) <= k < to ==> unicode_white_space(#[trigger] s[k]),
    decreases to - from,
{
    if from < to && unicode_white_space(s[to - 1]) {
        lemma_back_white(s, from, to - 1);
    }
}

/// The header name that carries the client's key, in lowercase.
pub open spec fn key_header_name() -> Seq<char> {
    "sec-websocket-key"@
}

/// The line `s[from..to]` is the key's: what comes before its first colon
/// (all of it when it has none) lowercases to the header name.
pub open spec fn is_key_line(s: Seq<char>, from: int, to: int) -> bool {
    unicode_lowercase(s.subrange(from, find_char(s, ':', from, to))) == key_header_name()
}

/// The value of the line `s[from..to]`: what stands between its first and
/// second colon (or its end), trimmed; `None` when it has no colon.
pub open spec fn line_value(s: Seq<char>, from: int, to: int) -> Option<Seq<char>> {
    let c = find_char(s, ':', from, to);
    if c >= to {
        None
    } else {
        Some(trimmed(s, c + 1, find_char(s, ':', c + 1, to)))
    }
}

pub proof fn lemma_line_end(s: Seq<char>, from: int)
    requires
        0 <= from <= s.len(),
    ensures
        from <= line_end(s, from) <= s.len(),
        line_end(s, from) < s.len() ==> line_end(s, from) + 1 < s.len()
            && s[line_end(s, from)] == '\r' && s[line_end(s, from) + 1] == '\n',
    decreases s.len() - from,
{
    if from + 1 < s.len() && !(s[from] == '\r' && s[from + 1] == '\n') {
        lemma_line_end(s, from + 1);
    }
}

/// The key line among the lines of `s` from position `from` on (lines end at
/// CR LF): `None` when there is none, `Some(None)` when the first one has no
/// colon, else `Some(Some(value))` of the first one.
pub open spec fn key_search(s: Seq<char>, from: int) -> Option<Option<Seq<char>>>
    decreases s.len() - from,
{
    if from < 0 || from > s.len() {
        None
    } else {
        let e = line_end(s, from);
        if is_key_line(s, from, e) {
            Some(line_value(s, from, e))
        } else if e >= s.len() {
            None
        } else {
            proof {
                lemma_line_end(s, from);
            }
            key_search(s, e + 2)
        }
    }
}

/// A line ends at the first CR LF at or after its start, or at the end of
/// the request when none follows.
pub proof fn law_line_end_is_first_crlf(s: Seq<char>, from: int)
    requires
        0 <= from <= s.len(),
    ensures
        from <= line_end(s, from) <= s.len(),
        line_end(s, from) < s.len() ==> line_end(s, from) + 1 < s.len()
            && s[line_end(s, from)] == '\r' && s[line_end(s, from) + 1] == '\n',
        forall|k: int|
            from <= k < line_end(s, from) ==> !(k + 1 < s.len() && #[trigger] s[k] == '\r' && s[k
                + 1] == '\n'),
    decreases s.len() - from,
{
    if from + 1 < s.len() && !(s[from] == '\r' && s[from + 1] == '\n') {
        law_line_end_is_first_crlf(s, from + 1);
    }
}

/// The key line decides: where the line at `from` is a key line, the search
/// gives its value (or `Some(None)` when it has no colon), whatever follows.
pub proof fn law_key_line_decides(s: Seq<char>, from: int)
    requires
        0 <= from <= s.len(),
        is_key_line(s, from, line_end(s, from)),
    ensures
        key_search(s, from) == Some(line_value(s, from, line_end(s, from))),
{
}

/// A line that is not a key line changes nothing: the search goes on with
/// the next line, and ends with `None` after the last one.
pub proof fn law_other_lines_are_skipped(s: Seq<char>, from: int)
    requires
        0 <= from <= s.len(),
        !is_key_line(s, from, line_end(s, from)),
    ensures
        line_end(s, from) < s.len() ==> key_search(s, from) == key_search(
            s,
            line_end(s, from) + 2,
        ),
        line_end(s, from) >= s.len() ==> key_search(s, from) is None,
{
}

/// The value of a key line with a colon is the trimmed text between its
/// first colon and the next colon or its end; a key line without a colon
/// has no value.
pub proof fn law_line_value(s: Seq<char>, from: int, to: int)
    requires
        0 <= from <= to <= s.len(),
    ensures
        (forall|k: int| from <= k < to ==> #[trigger] s[k] != ':') ==> line_value(s, from, to)
            is None,
        forall|c: int|
            from <= c < to && s[c] == ':' && (forall|k: int| from <= k < c ==> #[trigger] s[k]
                != ':') ==> line_value(s, from, to) == Some(
                trimmed(s, c + 1, find_char(s, ':', c + 1, to)),
            ),
{
    lemma_find_char(s, ':', from, to);
}

proof fn lemma_find_char(s: Seq<char>, c: char, from: int, to: int)
    requires
        0 <= from <= to <= s.len(),
    ensures
        from <= find_char(s, c, from, to) <= to,
        find_char(s, c, from, to) < to ==> s[find_char(s, c, from, to)] == c,
        forall|k: int| from <= k < find_char(s, c, from, to) ==> #[trigger] s[k] != c,
    decreases to - from,
{
    if from < to && s[from] != c {
        lemma_find_char(s, c, from + 1, to);
    }
}

/// `line_end` over a vector of characters.
fn line_end_in(s: &Vec<char>, from: usize) -> (r: usize)
    requires
        from <= s@.len(),
    ensures
        r == line_end(s@, from as int),
{
    let n = s.len();
    let mut i = from;
    while n - i >= 2 && !(s[i] == '\r' && s[i + 1] == '\n')
        invariant
            from <= i <= n,
            n == s@.len(),
            line_end(s@, i as int) == line_end(s@, from as int),
        decreases n - i,
    {
        i = i + 1;
    }
    if n - i < 2 {
        n
    } else {
        i
    }
}

/// `find_char` over a vector of characters.
fn find_char_in(s: &Vec<char>, c: char, from: usize, to: usize) -> (r: usize)
    requires
        from <= to <= s@.len(),
    ensures
        r == find_char(s@, c, from as int, to as int),
        from <= r <= to,
{
    let mut i = from;
    while i < to && s[i] != c
        invariant
            from <= i <= to <= s@.len(),
            find_char(s@, c, i as int, to as int) == find_char(s@, c, from as int, to as int),
        decreases to - i,
    {
        i = i + 1;
    }
    i
}

/// The range of `s[from..to]` without leading and trailing white space.
fn trim_in(s: &Vec<char>, from: usize, to: usize) -> (r: (usize, usize))
    requires
        from <= to <= s@.len(),
    ensures
        from <= r.0 <= r.1 <= to,
        s@.subrange(r.0 as int, r.1 as int) == trimmed(s@, from as int, to as int),
{
    let mut a = from;
    while a < to && is_whitespace(s[a])
        invariant
            from <= a <= to <= s@.len(),
            skip_white(s@, a as int, to as int) == skip_white(s@, from as int, to as int),
        decreases to - a,
    {
        a = a + 1;
    }
    let mut b = to;
    while a < b && is_whitespace(s[b - 1])
        invariant
            a <= b <= to <= s@.len(),
            back_white(s@, a as int, b as int) == back_white(s@, a as int, to as int),
        decreases b - a,
    {
        b = b - 1;
    }
    (a, b)
}

/// Looks for the key line of a request: `None` when there is none,
/// `Some(None)` when it has no colon, else the range of its value.
fn scan_key(request: &str) -> (r: Option<Option<(usize, usize)>>)
    ensures
        match key_search(request@, 0) {
            None => r is None,
            Some(None) => r == Some(None::<(usize, usize)>),
            Some(Some(v)) => r matches Some(Some((x, y))) && x <= y <= request@.len()
                && request@.subrange(x as int, y as int) == v,
        },
{
    let chars = chars_of(request);
    let n = chars.len();
    let name = String::from_str("sec-websocket-key");
    let mut from: usize = 0;
    loop
        invariant
            from <= n,
            n == chars@.len(),
            chars@ == request@,
            name@ == key_header_name(),
            key_search(request@, from as int) == key_search(request@, 0),
        decreases n - from,
    {
        let e = line_end_in(&chars, from);
        proof {
            lemma_line_end(chars@, from as int);
        }
        let colon = find_char_in(&chars, ':', from, e);
        let key = request.substring_char(from, colon);
        let lower = to_lowercase(key);
        if lower == name {
            if colon == e {
                return Some(None);
            }
            let f = find_char_in(&chars, ':', colon + 1, e);
            let (x, y) = trim_in(&chars, colon + 1, f);
            return Some(Some((x, y)));
        }
        if e >= n {
            return None;
        }
        from = e + 2;
    }
}

/// The value of the `Sec-WebSocket-Key` header of a request: of the lines
/// (separated by CR LF), the first whose part before its first colon
/// lowercases to `sec-websocket-key` gives its value, which is what lies
/// between its first and second colon, trimmed; `Err` when there is no
/// such line.
pub fn find_sec_key(request: &str) -> (r: Result<String, ()>)
    requires
        key_search(request@, 0) != Some(None::<Seq<char>>),
    ensures
        match key_search(request@, 0) {
            Some(Some(v)) => r matches Ok(k) && k@ == v,
            _ => r is Err,
        },
{
    match scan_key(request) {
        Some(Some((x, y))) => {
            let value = request.substring_char(x, y);
            Ok(String::from_str(value))
        },
        _ => Err(()),
    }
}

/// `find_sec_key` for every request: `None` when the key line has no colon
/// (and so no value), else what `find_sec_key` gives.
pub fn lookup_sec_key(request: &str) -> (r: Option<Result<String, ()>>)
    ensures
        match key_search(request@, 0) {
            Some(None) => r is None,
            Some(Some(v)) => r matches Some(Ok(k)) && k@ == v,
            None => r matches Some(e) && e is Err,
        },
{
    match scan_key(request) {
        Some(None) => None,
        _ => Some(find_sec_key(request)),
    }
}

/// The SHA-1 digest of a byte string.
pub uninterp spec fn sha1_digest(data: Seq<u8>) -> Seq<u8>;

/// The standard base64 encoding (with padding) of a byte string.
pub uninterp spec fn base64_standard(data: Seq<u8>) -> Seq<char>;

/// A character of the standard base64 alphabet.
pub open spec fn is_base64_char(c: char) -> bool {
    ||| 'A' <= c <= 'Z'
    ||| 'a' <= c <= 'z'
    ||| '0' <= c <= '9'
    ||| c == '+'
    ||| c == '/'
}

/// How many `=` end the padded base64 encoding of `n` bytes.
pub open spec fn base64_padding(n: nat) -> nat {
    ((3 - n % 3) % 3) as nat
}

/// The shape of a padded standard base64 encoding of `n` bytes: four
/// characters for each started group of three bytes, the last
/// `base64_padding(n)` of them `=` and the others from the alphabet.
pub open spec fn is_padded_base64_of_len(e: Seq<char>, n: nat) -> bool {
    &&& e.len() == 4 * ((n + 2) / 3)
    &&& forall|i: int| 0 <= i < e.len() - base64_padding(n) ==> is_base64_char(#[trigger] e[i])
    &&& forall|i: int| e.len() - base64_padding(n) <= i < e.len() ==> #[trigger] e[i] == '='
}

/// Runs `sha1_smol::Sha1` (`new`, `update`, `digest`, `Digest::bytes`) over
/// `data`; its result is the SHA-1 digest of `data`, named and not spelled
/// out here.
#[verifier::external_body]
fn sha1(data: &[u8]) -> (r: [u8; 20])
    ensures
        r@ == sha1_digest(data@),
{
    let mut hasher = sha1_smol::Sha1::new();
    hasher.update(data);
    hasher.digest().bytes()
}

/// Calls `base64::encode`, which encodes with the standard alphabet and
/// padding. Its result is named; of it, the source (`encoded_size`,
/// `encode_to_slice`, `add_padding`) fixes the length, which characters are
/// `=` and that the others come from the alphabet; which alphabet character
/// stands where is not spelled out here. It panics only where the encoded
/// size overflows `usize`, which the bound rules out.
#[verifier::external_body]
fn base64_encode(data: &[u8]) -> (r: String)
    requires
        data@.len() <= usize::MAX / 2,
    ensures
        r@ == base64_standard(data@),
        is_padded_base64_of_len(r@, data@.len()),
{
    base64::encode(data)
}

/// The GUID that RFC 6455 appends to the client's key.
pub open spec fn websocket_guid() -> Seq<char> {
    "258EAFA5-E914-47DA-95CA-C5AB0DC85B11"@
}

/// The `Sec-WebSocket-Accept` value for a client key: the base64 encoding of
/// the SHA-1 digest of the UTF-8 bytes of the key followed by the GUID.
pub fn generate_server_accept_key(client_key: &str) -> (r: String)
    ensures
        r@ == base64_standard(sha1_digest(encode_utf8(client_key@ + websocket_guid()))),
        r@.len() == 28,
        forall|i: int| 0 <= i < 27 ==> is_base64_char(#[trigger] r@[i]),
        r@[27] == '=',
{
    let mut source = String::from_str(client_key);
    source.append("258EAFA5-E914-47DA-95CA-C5AB0DC85B11");
    let digest = sha1(source.as_str().as_bytes());
    base64_encode(&digest)
}

/// The response that switches the connection to the WebSocket protocol.
pub open spec fn upgrade_response_text(accept_key: Seq<char>) -> Seq<char> {
    "HTTP/1.1 101 Switching Protocols\r\nConnection: Upgrade\r\nUpgrade: websocket\r\nSec-WebSocket-Accept: "@
        + accept_key + "\r\n\r\n"@
}

/// The response that switches the connection to the WebSocket protocol: the
/// status line and three headers, the last of them carrying the accept key,
/// each ended by CR LF, and then a blank line.
pub fn upgrade_response(server_accept_key: &str) -> (r: String)
    ensures
        r@ == upgrade_response_text(server_accept_key@),
{
    let mut response = String::from_str(
        "HTTP/1.1 101 Switching Protocols\r\nConnection: Upgrade\r\nUpgrade: websocket\r\nSec-WebSocket-Accept: ",
    );
    response.append(server_accept_key);
    response.append("\r\n\r\n");
    response
}

} // verus!
