//! Requests for files over a stream, in the smallest useful part of HTTP/1.1.

use crate::text::{
    char_is_whitespace, chars_of, decimal, index_of, is_white_space, push_decimal, push_text,
    string_from_utf8, string_of, until, utf8_fault, Utf8Fault,
};
use vstd::prelude::*;
use vstd::utf8::{decode_utf8, encode_utf8, valid_utf8};

verus! {

/// Most bytes that a request may have.
pub const MAX_REQUEST_SIZE: usize = 16_384;

/// Why a request is turned down.
#[derive(Debug, Clone, Copy, PartialEq, Eq, Structural)]
pub enum HttpError {
    TooLarge,
    Empty,
    InvalidUtf8(Utf8Fault),
    MalformedRequestLine,
    InvalidPath,
}

impl HttpError {
    /// The error in words.
    pub open spec fn text(self) -> Seq<char> {
        match self {
            HttpError::TooLarge => "HTTP request exceeds maximum size of 16384 bytes"@,
            HttpError::Empty => "Received empty HTTP request"@,
            HttpError::InvalidUtf8(fault) => fault.text(),
            HttpError::MalformedRequestLine => "malformed request line"@,
            HttpError::InvalidPath => "invalid path contains '..'"@,
        }
    }

    /// The error in words.
    pub fn message(&self) -> (s: String)
        ensures
            s@ == self.text(),
    {
        let text = match self {
            HttpError::TooLarge => "HTTP request exceeds maximum size of 16384 bytes",
            HttpError::Empty => "Received empty HTTP request",
            HttpError::InvalidUtf8(fault) => return fault.message(),
            HttpError::MalformedRequestLine => "malformed request line",
            HttpError::InvalidPath => "invalid path contains '..'",
        };
        text.to_string()
    }
}

/// A request while it is being received.
#[derive(Debug)]
pub struct HttpRequest {
    bytes: Vec<u8>,
}

impl View for HttpRequest {
    type V = Seq<u8>;

    closed spec fn view(&self) -> Seq<u8> {
        self.bytes@
    }
}

/// Whether taking a chunk behind the bytes received comes out as `r` and leaves `after`.
pub open spec fn is_taken(
    received: Seq<u8>,
    chunk: Seq<u8>,
    r: Result<(), HttpError>,
    after: Seq<u8>,
) -> bool {
    match r {
        Ok(_) => after == received + chunk && after.len() <= MAX_REQUEST_SIZE,
        Err(e) => e == HttpError::TooLarge && received.len() + chunk.len() > MAX_REQUEST_SIZE
            && after == received,
    }
}

impl HttpRequest {
    /// Nothing has been received.
    pub fn new() -> (r: Self)
        ensures
            r@ == Seq::<u8>::empty(),
    {
        HttpRequest { bytes: Vec::new() }
    }

    /// Takes a chunk, unless the request would become too large with it.
    pub fn push_chunk(&mut self, chunk: &[u8]) -> (r: Result<(), HttpError>)
        requires
            old(self)@.len() <= MAX_REQUEST_SIZE,
        ensures
            final(self)@.len() <= MAX_REQUEST_SIZE,
            is_taken(old(self)@, chunk@, r, final(self)@),
            match r {
                Ok(_) => final(self)@ == old(self)@ + chunk@,
                Err(e) => e == HttpError::TooLarge && old(self)@.len() + chunk@.len()
                    > MAX_REQUEST_SIZE && final(self)@ == old(self)@,
            },
    {
        if chunk.len() > MAX_REQUEST_SIZE - self.bytes.len() {
            return Err(HttpError::TooLarge);
        }
        self.bytes.extend_from_slice(chunk);
        assert(self.bytes@ =~= old(self).bytes@ + chunk@);
        Ok(())
    }

    /// The bytes received.
    pub fn into_bytes(self) -> (bytes: Vec<u8>)
        ensures
            bytes@ == self@,
    {
        self.bytes
    }
}

/// The first place from `i` on that holds no white space, or the end.
pub open spec fn word_start(s: Seq<char>, i: int) -> int
    decreases s.len() - i,
{
    if i < 0 || i >= s.len() || !is_white_space(s[i]) {
        i
    } else {
        word_start(s, i + 1)
    }
}

/// The first place from `i` on that holds white space, or the end.
pub open spec fn word_end(s: Seq<char>, i: int) -> int
    decreases s.len() - i,
{
    if i < 0 || i >= s.len() || is_white_space(s[i]) {
        i
    } else {
        word_end(s, i + 1)
    }
}

/// The second of the words that white space separates.
pub open spec fn second_word(s: Seq<char>) -> Option<Seq<char>> {
    let start = word_start(s, word_end(s, word_start(s, 0)));
    if start < s.len() {
        Some(s.subrange(start, word_end(s, start)))
    } else {
        None
    }
}

/// A path without the slashes at its start.
pub open spec fn without_root(s: Seq<char>) -> Seq<char>
    decreases s.len(),
{
    if s.len() > 0 && s[0] == '/' {
        without_root(s.skip(1))
    } else {
        s
    }
}

/// Whether two dots stand next to each other.
pub open spec fn has_double_dot(s: Seq<char>) -> bool {
    exists|i: int| 0 <= i < s.len() - 1 && #[trigger] s[i] == '.' && s[i + 1] == '.'
}

/// The file that a request asks for: the second word of its first line, below `www`. A path
/// with two dots in a row is turned down, so that no request leaves that directory.
pub open spec fn file_of(request: Seq<u8>) -> Result<Seq<char>, HttpError> {
    let line = until(decode_utf8(request), '\n');
    if request.len() == 0 {
        Err(HttpError::Empty)
    } else if !valid_utf8(request) {
        Err(HttpError::InvalidUtf8(utf8_fault(request)))
    } else {
        match second_word(line) {
            None => Err(HttpError::MalformedRequestLine),
            Some(path) => if has_double_dot(without_root(path)) {
                Err(HttpError::InvalidPath)
            } else {
                Ok("www/"@ + without_root(path))
            },
        }
    }
}

fn find_word_start(v: &Vec<char>, end: usize, from: usize) -> (i: usize)
    requires
        from <= end <= v@.len(),
    ensures
        from <= i <= end,
        i == word_start(v@.take(end as int), from as int),
{
    let mut i: usize = from;
    while i < end && char_is_whitespace(v[i])
        invariant
            from <= i <= end <= v@.len(),
            word_start(v@.take(end as int), from as int) == word_start(
                v@.take(end as int),
                i as int,
            ),
        decreases end - i,
    {
        i = i + 1;
    }
    i
}

fn find_word_end(v: &Vec<char>, end: usize, from: usize) -> (i: usize)
    requires
        from <= end <= v@.len(),
    ensures
        from <= i <= end,
        i == word_end(v@.take(end as int), from as int),
{
    let mut i: usize = from;
    while i < end && !char_is_whitespace(v[i])
        invariant
            from <= i <= end <= v@.len(),
            word_end(v@.take(end as int), from as int) == word_end(v@.take(end as int), i as int),
        decreases end - i,
    {
        i = i + 1;
    }
    i
}

/// The file that a request asks for.
pub fn requested_file(request: Vec<u8>) -> (r: Result<String, HttpError>)
    ensures
        match (r, file_of(request@)) {
            (Ok(path), Ok(p)) => path@ == p,
            (Err(e), Err(f)) => e == f,
            _ => false,
        },
{
    if request.len() == 0 {
        return Err(HttpError::Empty);
    }
    let text = match string_from_utf8(request) {
        Ok(text) => text,
        Err(fault) => return Err(HttpError::InvalidUtf8(fault)),
    };
    let chars = chars_of(text.as_str());
    let line_end = index_of(&chars, '\n');
    let ghost line = chars@.take(line_end as int);
    let first = find_word_start(&chars, line_end, 0);
    let first_end = find_word_end(&chars, line_end, first);
    let start = find_word_start(&chars, line_end, first_end);
    if start == line_end {
        return Err(HttpError::MalformedRequestLine);
    }
    let end = find_word_end(&chars, line_end, start);
    let ghost path = line.subrange(start as int, end as int);
    let mut i: usize = start;
    assert(chars@.subrange(start as int, end as int) =~= path);
    while i < end && chars[i] == '/'
        invariant
            start <= i <= end <= chars@.len(),
            without_root(path) == without_root(chars@.subrange(i as int, end as int)),
        decreases end - i,
    {
        assert(chars@.subrange(i as int, end as int).skip(1) =~= chars@.subrange(
            i + 1,
            end as int,
        ));
        i = i + 1;
    }
    let ghost p = chars@.subrange(i as int, end as int);
    let mut k: usize = i;
    while k < end
        invariant
            i <= k <= end <= chars@.len(),
            p == chars@.subrange(i as int, end as int),
            without_root(path) == p,
            file_of(request@) == if has_double_dot(p) {
                Err::<Seq<char>, HttpError>(HttpError::InvalidPath)
            } else {
                Ok::<Seq<char>, HttpError>("www/"@ + p)
            },
            forall|j: int|
                0 <= j < k - i && j < p.len() - 1 ==> !(#[trigger] p[j] == '.' && p[j + 1] == '.'),
        decreases end - k,
    {
        if chars[k] == '.' && end - k >= 2 && chars[k + 1] == '.' {
            assert(p[k - i] == '.' && p[k - i + 1] == '.');
            return Err(HttpError::InvalidPath);
        }
        k = k + 1;
    }
    let mut file = "www/".to_string();
    let rest = string_of(&chars, i, end);
    push_text(&mut file, rest.as_str());
    Ok(file)
}

/// The head of a response with a body of `n` bytes.
pub open spec fn response_header(status: Seq<char>, n: nat) -> Seq<char> {
    "HTTP/1.1 "@ + status + "\r\nContent-Length: "@ + decimal(n) + "\r\nConnection: close\r\n\r\n"@
}

fn make_header(status: &str, n: usize) -> (header: String)
    ensures
        header@ == response_header(status@, n as nat),
{
    let mut header = "HTTP/1.1 ".to_string();
    push_text(&mut header, status);
    push_text(&mut header, "\r\nContent-Length: ");
    push_decimal(&mut header, n as u64);
    push_text(&mut header, "\r\nConnection: close\r\n\r\n");
    header
}

/// The head of the response that carries a file.
pub fn ok_response_header(body_len: usize) -> (header: String)
    ensures
        header@ == response_header("200 OK"@, body_len as nat),
{
    make_header("200 OK", body_len)
}

/// A response without a file.
#[derive(Debug)]
pub struct HttpResponse {
    pub header: String,
    pub body: String,
}

/// The response where the file could not be read, because it is not there or for another
/// reason. The length in its head is that of its body in bytes.
pub fn error_response(not_found: bool) -> (r: HttpResponse)
    ensures
        r.body@ == if not_found {
            "File not found."@
        } else {
            "Failed to read file."@
        },
        r.header@ == response_header(
            if not_found {
                "404 Not Found"@
            } else {
                "500 Internal Server Error"@
            },
            encode_utf8(r.body@).len(),
        ),
{
    let (status, message) = if not_found {
        ("404 Not Found", "File not found.")
    } else {
        ("500 Internal Server Error", "Failed to read file.")
    };
    let header = make_header(status, message.as_bytes().len());
    HttpResponse { header, body: message.to_string() }
}

/// Law: no file outside `www` is ever asked for. Every accepted path starts there, has no
/// further slash right behind, and no two dots in a row.
pub proof fn law_files_stay_below_www(request: Seq<u8>)
    ensures
        file_of(request) matches Ok(p) ==> {
            &&& p.len() >= 4
            &&& p.take(4) == "www/"@
            &&& !has_double_dot(p.skip(4))
            &&& p.len() > 4 ==> p[4] != '/'
        },
{
    reveal_strlit("www/");
    if file_of(request) is Ok {
        let path = second_word(until(decode_utf8(request), '\n'))->0;
        let p = file_of(request)->Ok_0;
        lemma_without_root(path);
        assert(p.take(4) =~= "www/"@);
        assert(p.skip(4) =~= without_root(path));
    }
}

proof fn lemma_without_root(s: Seq<char>)
    ensures
        without_root(s).len() > 0 ==> without_root(s)[0] != '/',
    decreases s.len(),
{
    if s.len() > 0 && s[0] == '/' {
        lemma_without_root(s.skip(1));
    }
}

/// Law: a word starts at the first place that holds no white space, and ends at the first that
/// does.
pub proof fn law_words_have_bounds(s: Seq<char>, i: int)
    requires
        0 <= i <= s.len(),
    ensures
        i <= word_start(s, i) <= s.len(),
        forall|j: int| i <= j < word_start(s, i) ==> is_white_space(#[trigger] s[j]),
        word_start(s, i) == s.len() || !is_white_space(s[word_start(s, i)]),
        i <= word_end(s, i) <= s.len(),
        forall|j: int| i <= j < word_end(s, i) ==> !is_white_space(#[trigger] s[j]),
        word_end(s, i) == s.len() || is_white_space(s[word_end(s, i)]),
    decreases s.len() - i,
{
    if i < s.len() {
        law_words_have_bounds(s, i + 1);
    }
}

proof fn lemma_bounds_are_unique(s: Seq<char>, i: int, e: int)
    requires
        0 <= i <= e <= s.len(),
    ensures
        (forall|j: int| i <= j < e ==> is_white_space(#[trigger] s[j])) && (e == s.len()
            || !is_white_space(s[e])) ==> word_start(s, i) == e,
        (forall|j: int| i <= j < e ==> !is_white_space(#[trigger] s[j])) && (e == s.len()
            || is_white_space(s[e])) ==> word_end(s, i) == e,
{
    law_words_have_bounds(s, i);
    let a = word_start(s, i);
    let b = word_end(s, i);
    if (forall|j: int| i <= j < e ==> is_white_space(#[trigger] s[j])) && (e == s.len()
        || !is_white_space(s[e])) {
        if a < e {
            assert(is_white_space(s[a]));
        } else if e < a {
            assert(is_white_space(s[e]));
        }
    }
    if (forall|j: int| i <= j < e ==> !is_white_space(#[trigger] s[j])) && (e == s.len()
        || is_white_space(s[e])) {
        if b < e {
            assert(!is_white_space(s[b]));
        } else if e < b {
            assert(!is_white_space(s[e]));
        }
    }
}

/// Law: the second word. Where white space, a word, white space and another word follow each other
/// from the start, that other word is the second.
pub proof fn law_second_word_is_the_second(s: Seq<char>, i: int, j: int, k: int, l: int)
    requires
        0 <= i < j < k < l <= s.len(),
        forall|a: int| 0 <= a < i ==> is_white_space(#[trigger] s[a]),
        forall|a: int| i <= a < j ==> !is_white_space(#[trigger] s[a]),
        forall|a: int| j <= a < k ==> is_white_space(#[trigger] s[a]),
        forall|a: int| k <= a < l ==> !is_white_space(#[trigger] s[a]),
        l == s.len() || is_white_space(s[l]),
    ensures
        second_word(s) == Some(s.subrange(k, l)),
{
    lemma_bounds_are_unique(s, 0, i);
    lemma_bounds_are_unique(s, i, j);
    lemma_bounds_are_unique(s, j, k);
    lemma_bounds_are_unique(s, k, l);
}

/// Law: a line has a second word if and only if something stands behind white space that stands
/// behind something.
pub proof fn law_when_there_is_a_second_word(s: Seq<char>)
    ensures
        second_word(s) is Some <==> exists|a: int, b: int, c: int|
            {
                &&& 0 <= a < b < c < s.len()
                &&& !is_white_space(#[trigger] s[a])
                &&& is_white_space(#[trigger] s[b])
                &&& !is_white_space(#[trigger] s[c])
            },
{
    law_words_have_bounds(s, 0);
    let i = word_start(s, 0);
    law_words_have_bounds(s, i);
    let j = word_end(s, i);
    law_words_have_bounds(s, j);
    let k = word_start(s, j);
    if second_word(s) is Some {
        assert(!is_white_space(s[i]) && is_white_space(s[j]) && !is_white_space(s[k]));
    }
    if exists|a: int, b: int, c: int|
        {
            &&& 0 <= a < b < c < s.len()
            &&& !is_white_space(#[trigger] s[a])
            &&& is_white_space(#[trigger] s[b])
            &&& !is_white_space(#[trigger] s[c])
        } {
        let (a, b, c) = choose|a: int, b: int, c: int|
            {
                &&& 0 <= a < b < c < s.len()
                &&& !is_white_space(#[trigger] s[a])
                &&& is_white_space(#[trigger] s[b])
                &&& !is_white_space(#[trigger] s[c])
            };
        if a < i {
            assert(is_white_space(s[a]));
        }
        if b < j {
            assert(!is_white_space(s[b]));
        }
        if c < k {
            assert(is_white_space(s[c]));
        }
    }
}

proof fn lemma_root_is_taken_off(s: Seq<char>, r: int)
    requires
        0 <= r <= s.len(),
        forall|a: int| 0 <= a < r ==> #[trigger] s[a] == '/',
        r == s.len() || s[r] != '/',
    ensures
        without_root(s) == s.skip(r),
    decreases s.len(),
{
    if r > 0 {
        let t = s.skip(1);
        assert(s[0] == '/');
        assert forall|a: int| 0 <= a < r - 1 implies #[trigger] t[a] == '/' by {
            assert(t[a] == s[a + 1]);
        }
        lemma_root_is_taken_off(t, r - 1);
        assert(t.skip(r - 1) =~= s.skip(r));
    } else {
        assert(s.skip(0) =~= s);
    }
}

/// Law: the file that a request asks for, in terms of its text. Where its first line is white
/// space, a word, white space, a path and then the end or white space, the file is `www/` and the
/// path behind its leading slashes, unless two dots stand next to each other in that, in which
/// case the request is turned down.
pub proof fn law_file_that_is_asked_for(
    request: Seq<u8>,
    i: int,
    j: int,
    k: int,
    r: int,
    l: int,
)
    requires
        request.len() > 0,
        valid_utf8(request),
        ({
            let t = decode_utf8(request);
            &&& 0 <= i < j < k <= r <= l <= t.len()
            &&& k < l
            &&& forall|a: int| 0 <= a < i ==> is_white_space(#[trigger] t[a]) && t[a] != '\n'
            &&& forall|a: int| i <= a < j ==> !is_white_space(#[trigger] t[a])
            &&& forall|a: int| j <= a < k ==> is_white_space(#[trigger] t[a]) && t[a] != '\n'
            &&& forall|a: int| k <= a < l ==> !is_white_space(#[trigger] t[a])
            &&& l == t.len() || is_white_space(t[l])
            &&& forall|a: int| k <= a < r ==> #[trigger] t[a] == '/'
            &&& r == l || t[r] != '/'
        }),
    ensures
        ({
            let t = decode_utf8(request);
            let climbs = exists|a: int| r <= a < l - 1 && #[trigger] t[a] == '.' && t[a + 1] == '.';
            file_of(request) == if climbs {
                Err::<Seq<char>, HttpError>(HttpError::InvalidPath)
            } else {
                Ok::<Seq<char>, HttpError>("www/"@ + t.subrange(r, l))
            }
        }),
{
    let t = decode_utf8(request);
    let line = until(t, '\n');
    crate::text::law_until_is_up_to_the_first(t, '\n');
    assert(is_white_space('\n'));
    assert(line.len() >= l) by {
        if line.len() < l {
            let e = line.len() as int;
            assert(t[e] == '\n');
            assert(i <= e < j || k <= e < l || e < i || j <= e < k);
        }
    }
    assert forall|a: int| 0 <= a < line.len() implies #[trigger] line[a] == t[a] by {
        assert(t.take(line.len() as int)[a] == t[a]);
    }
    law_second_word_is_the_second(line, i, j, k, l);
    let path = line.subrange(k, l);
    assert forall|a: int| 0 <= a < r - k implies #[trigger] path[a] == '/' by {
        assert(path[a] == t[k + a]);
    }
    if r < l {
        assert(path[r - k] == t[r]);
    }
    lemma_root_is_taken_off(path, r - k);
    let p = path.skip(r - k);
    assert(p =~= t.subrange(r, l));
    let climbs = exists|a: int| r <= a < l - 1 && #[trigger] t[a] == '.' && t[a + 1] == '.';
    if climbs {
        let a = choose|a: int| r <= a < l - 1 && #[trigger] t[a] == '.' && t[a + 1] == '.';
        assert(p[a - r] == '.' && p[a - r + 1] == '.');
    }
    if has_double_dot(p) {
        let a = choose|a: int| 0 <= a < p.len() - 1 && #[trigger] p[a] == '.' && p[a + 1] == '.';
        assert(t[a + r] == '.' && t[a + r + 1] == '.');
    }
}

/// Law: the other ways a request ends. One without bytes is turned down for that, one that is no
/// text for that, and one whose first line has no second word as malformed.
pub proof fn law_requests_that_name_no_file(request: Seq<u8>)
    ensures
        request.len() == 0 ==> file_of(request) == Err::<Seq<char>, HttpError>(HttpError::Empty),
        request.len() > 0 && !valid_utf8(request) ==> file_of(request) == Err::<
            Seq<char>,
            HttpError,
        >(HttpError::InvalidUtf8(utf8_fault(request))),
        request.len() > 0 && valid_utf8(request) ==> (file_of(request) == Err::<
            Seq<char>,
            HttpError,
        >(HttpError::MalformedRequestLine) <==> second_word(until(decode_utf8(request), '\n'))
            is None),
{
}

/// Law: the head of a response names its status and the length of its body in decimal, and ends
/// with an empty line.
pub proof fn law_response_header_in_full(status: Seq<char>, n: nat)
    ensures
        response_header(status, n) == "HTTP/1.1 "@ + status + "\r\nContent-Length: "@ + decimal(n)
            + "\r\nConnection: close\r\n\r\n"@,
        crate::text::decimal_value(decimal(n)) == n,
{
    crate::text::law_decimal_spells_the_number(n);
}

/// Law: a chunk is taken, behind what was received, if and only if the request then has at most
/// 16384 bytes. Else it is too large and stays as it was.
pub proof fn law_requests_have_a_limit(
    received: Seq<u8>,
    chunk: Seq<u8>,
    r: Result<(), HttpError>,
    after: Seq<u8>,
)
    requires
        is_taken(received, chunk, r, after),
    ensures
        r is Ok <==> received.len() + chunk.len() <= 16_384,
        r is Ok ==> after == received + chunk,
        r is Err ==> r == Err::<(), HttpError>(HttpError::TooLarge) && after == received,
{
}

/// Law: the words of each error.
pub proof fn law_words_of_each_error(fault: Utf8Fault)
    ensures
        HttpError::InvalidUtf8(fault).text() == fault.text(),
        HttpError::TooLarge.text() == "HTTP request exceeds maximum size of 16384 bytes"@,
        HttpError::Empty.text() == "Received empty HTTP request"@,
        HttpError::MalformedRequestLine.text() == "malformed request line"@,
        HttpError::InvalidPath.text() == "invalid path contains '..'"@,
{
}

} // verus!
