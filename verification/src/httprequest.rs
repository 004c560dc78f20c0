//! The request side of the protocol: the structured request and the parser
//! that reads it from the text of one inbound message.

use crate::headers::{header_lines, put, Field, Headers};
use crate::text::{
    chars_of, chomp, contains_text, find_char, has_text, index_of, is_text, lines, skip_whitespace,
    skip_word, substring, word,
};
use vstd::prelude::*;
use vstd::slice::slice_subrange;
use vstd::string::StrSliceExecFns;
use vstd::string::StringExecFns;

verus! {

/// The request method. A method token other than `GET` and `POST` reads as
/// `Uninitialized`.
#[derive(Debug, PartialEq, Eq, Structural, Clone, Copy)]
pub enum Method {
    Get,
    Post,
    Uninitialized,
}

/// The protocol version. A version token other than `HTTP/1.1` reads as
/// `Uninitialized`.
#[derive(Debug, PartialEq, Eq, Structural, Clone, Copy)]
pub enum Version {
    V1_1,
    V2_0,
    Uninitialized,
}

/// The target of a request.
#[derive(Debug, PartialEq)]
pub enum Resource {
    Path(String),
}

/// The method that a token of the request line names.
pub open spec fn method_of(token: Seq<char>) -> Method {
    if token == "GET"@ {
        Method::Get
    } else if token == "POST"@ {
        Method::Post
    } else {
        Method::Uninitialized
    }
}

/// The version that a token of the request line names.
pub open spec fn version_of(token: Seq<char>) -> Version {
    if token == "HTTP/1.1"@ {
        Version::V1_1
    } else {
        Version::Uninitialized
    }
}

/// The name of a header line: the text before its first colon.
pub open spec fn header_name(line: Seq<char>) -> Seq<char> {
    line.take(index_of(line, ':') as int)
}

/// The value of a header line: the text after its first colon, as it
/// stands; empty when the line has no colon.
pub open spec fn header_value(line: Seq<char>) -> Seq<char> {
    if index_of(line, ':') < line.len() {
        line.skip(index_of(line, ':') as int + 1)
    } else {
        Seq::empty()
    }
}

impl Resource {
    /// The path as text.
    pub open spec fn path(&self) -> Seq<char> {
        match *self {
            Resource::Path(p) => p@,
        }
    }
}

impl From<&str> for Method {
    /// The method that the token `s` names: see [`method_of`].
    fn from(s: &str) -> (r: Method) {
        let chars = chars_of(s);
        if is_text(chars.as_slice(), "GET") {
            Method::Get
        } else if is_text(chars.as_slice(), "POST") {
            Method::Post
        } else {
            Method::Uninitialized
        }
    }
}

impl vstd::std_specs::convert::FromSpecImpl<&str> for Method {
    open spec fn obeys_from_spec() -> bool {
        true
    }

    open spec fn from_spec(s: &str) -> Method {
        method_of(s@)
    }
}

impl From<&str> for Version {
    /// The version that the token `s` names: see [`version_of`].
    fn from(s: &str) -> (r: Version) {
        let chars = chars_of(s);
        if is_text(chars.as_slice(), "HTTP/1.1") {
            Version::V1_1
        } else {
            Version::Uninitialized
        }
    }
}

impl vstd::std_specs::convert::FromSpecImpl<&str> for Version {
    open spec fn obeys_from_spec() -> bool {
        true
    }

    open spec fn from_spec(s: &str) -> Version {
        version_of(s@)
    }
}

/// The `k`-th whitespace-separated word of `s`, where `chars` holds the
/// characters of `s`.
fn word_at(s: &str, chars: &Vec<char>, k: usize) -> (r: String)
    requires
        chars@ == s@,
    ensures
        r@ == word(s@, k as nat),
{
    let n: usize = chars.len();
    let mut rest: usize = 0;
    let mut left: usize = k;
    assert(s@.skip(0) =~= s@);
    loop
        invariant
            chars@ == s@,
            n == chars@.len(),
            rest <= n,
            left <= k,
            word(s@, k as nat) == word(s@.skip(rest as int), left as nat),
        decreases left,
    {
        let ghost t = s@.skip(rest as int);
        let blank = skip_whitespace(slice_subrange(chars.as_slice(), rest, n));
        let start: usize = rest + blank;
        let len = skip_word(slice_subrange(chars.as_slice(), start, n));
        let end: usize = start + len;
        proof {
            assert(t.skip(blank as int) =~= s@.skip(start as int));
            assert(s@.skip(start as int).take(len as int) =~= s@.subrange(start as int, end as int));
            assert(s@.skip(start as int).skip(len as int) =~= s@.skip(end as int));
        }
        if left == 0 {
            return substring(s, start, end);
        }
        left = left - 1;
        rest = end;
    }
}

/// Reads a request line: its first three whitespace-separated words are the
/// method, the path and the version. A word that is missing reads as the
/// empty word.
pub fn process_req_line(s: &str) -> (r: (Method, Resource, Version))
    ensures
        r.0 == method_of(word(s@, 0)),
        r.1.path() == word(s@, 1),
        r.2 == version_of(word(s@, 2)),
{
    let chars = chars_of(s);
    let method = word_at(s, &chars, 0);
    let resource = word_at(s, &chars, 1);
    let version = word_at(s, &chars, 2);
    (Method::from(method.as_str()), Resource::Path(resource), Version::from(version.as_str()))
}

/// Reads a header line: the name is the text before the first colon, the
/// value is everything after it, untrimmed.
pub fn process_header_line(s: &str) -> (r: (String, String))
    ensures
        r.0@ == header_name(s@),
        r.1@ == header_value(s@),
{
    let chars = chars_of(s);
    let n: usize = chars.len();
    let colon = find_char(chars.as_slice(), ':');
    let name = substring(s, 0, colon);
    let value = if colon < n {
        substring(s, colon + 1, n)
    } else {
        String::new()
    };
    (name, value)
}

/// A request, as parsed from one inbound message.
#[derive(Debug)]
pub struct HttpRequst {
    pub method: Method,
    pub version: Version,
    pub resource: Resource,
    pub headers: Headers,
    pub msg_body: String,
}

/// A request as plain text: what the contracts of this module speak of.
pub struct RequestModel {
    pub method: Method,
    pub version: Version,
    pub resource: Seq<char>,
    pub headers: Seq<Field>,
    pub body: Seq<char>,
}

impl View for HttpRequst {
    type V = RequestModel;

    open spec fn view(&self) -> RequestModel {
        RequestModel {
            method: self.method,
            version: self.version,
            resource: self.resource.path(),
            headers: self.headers.fields(),
            body: self.msg_body@,
        }
    }
}

/// Where the parser stands in a message. It only ever moves forward.
#[derive(Debug, PartialEq, Eq, Structural, Clone, Copy)]
pub enum Phase {
    /// No request line has been seen yet.
    AwaitingRequestLine,
    /// The request line has been read; header lines may follow.
    AwaitingHeaders,
    /// A blank line has ended the headers; what follows is body.
    ReadingBody,
}

/// The parser between two lines: its phase and the request read so far.
pub struct ParseState {
    pub phase: Phase,
    pub request: RequestModel,
}

/// The parser before the first line: no method, version 1.1, an empty path,
/// no headers and an empty body.
pub open spec fn initial() -> ParseState {
    ParseState {
        phase: Phase::AwaitingRequestLine,
        request: RequestModel {
            method: Method::Uninitialized,
            version: Version::V1_1,
            resource: Seq::empty(),
            headers: Seq::empty(),
            body: Seq::empty(),
        },
    }
}

/// Whether `line` holds a colon.
pub open spec fn has_colon(line: Seq<char>) -> bool {
    index_of(line, ':') < line.len()
}

/// What one line does to the parser.
///
/// Before the request line, the first line that holds `HTTP` is the request
/// line and every other line is ignored. After it, a line with a colon is a
/// header, an empty line ends the headers, and any other line is ignored.
/// After the headers, every line that is not empty replaces the body.
pub open spec fn step(st: ParseState, line: Seq<char>) -> ParseState {
    match st.phase {
        Phase::AwaitingRequestLine => if contains_text(line, "HTTP"@) {
            ParseState {
                phase: Phase::AwaitingHeaders,
                request: RequestModel {
                    method: method_of(word(line, 0)),
                    resource: word(line, 1),
                    version: version_of(word(line, 2)),
                    ..st.request
                },
            }
        } else {
            st
        },
        Phase::AwaitingHeaders => if line.len() == 0 {
            ParseState { phase: Phase::ReadingBody, ..st }
        } else if has_colon(line) {
            ParseState {
                request: RequestModel {
                    headers: put(st.request.headers, header_name(line), header_value(line)),
                    ..st.request
                },
                ..st
            }
        } else {
            st
        },
        Phase::ReadingBody => if line.len() == 0 {
            st
        } else {
            ParseState { request: RequestModel { body: line, ..st.request }, ..st }
        },
    }
}

/// The parser after the lines `ls`, taken in order, starting from `st`.
pub open spec fn feed(st: ParseState, ls: Seq<Seq<char>>) -> ParseState
    decreases ls.len(),
{
    if ls.len() == 0 {
        st
    } else {
        step(feed(st, ls.drop_last()), ls.last())
    }
}

/// The request that the message `text` holds.
pub open spec fn parse(text: Seq<char>) -> RequestModel {
    feed(initial(), lines(text)).request
}

/// Takes one line into `request` and returns the phase that follows.
fn advance(phase: Phase, request: &mut HttpRequst, line: &str) -> (next: Phase)
    ensures
        (ParseState { phase: next, request: final(request)@ }) == step(
            ParseState { phase, request: old(request)@ },
            line@,
        ),
{
    let chars = chars_of(line);
    match phase {
        Phase::AwaitingRequestLine => {
            if has_text(chars.as_slice(), "HTTP") {
                let (method, resource, version) = process_req_line(line);
                request.method = method;
                request.resource = resource;
                request.version = version;
                Phase::AwaitingHeaders
            } else {
                phase
            }
        },
        Phase::AwaitingHeaders => {
            if chars.len() == 0 {
                Phase::ReadingBody
            } else if find_char(chars.as_slice(), ':') < chars.len() {
                let (name, value) = process_header_line(line);
                request.headers.insert(name, value);
                phase
            } else {
                phase
            }
        },
        Phase::ReadingBody => {
            if chars.len() != 0 {
                request.msg_body = substring(line, 0, chars.len());
                assert(line@.subrange(0, line@.len() as int) =~= line@);
            }
            phase
        },
    }
}

impl From<String> for HttpRequst {
    /// Parses the text of one inbound message.
    fn from(req: String) -> (r: HttpRequst)
        ensures
            r@ == parse(req@),
    {
        let text = req.as_str();
        let chars = chars_of(text);
        let n: usize = chars.len();
        let mut request = HttpRequst {
            method: Method::Uninitialized,
            version: Version::V1_1,
            resource: Resource::Path(String::new()),
            headers: Headers::new(),
            msg_body: String::new(),
        };
        let mut phase = Phase::AwaitingRequestLine;
        let mut pos: usize = 0;
        let ghost mut seen: Seq<Seq<char>> = Seq::empty();
        proof {
            assert(req@.skip(0) =~= req@);
            assert(seen + lines(req@) =~= lines(req@));
        }
        while pos < n
            invariant
                chars@ == req@,
                text@ == req@,
                n == chars@.len(),
                pos <= n,
                lines(req@) == seen + lines(req@.skip(pos as int)),
                (ParseState { phase, request: request@ }) == feed(initial(), seen),
            decreases n - pos,
        {
            let ghost tail = req@.skip(pos as int);
            let k = find_char(slice_subrange(chars.as_slice(), pos, n), '\n');
            let stop: usize = pos + k;
            let end: usize = if stop < n && stop > pos && chars[stop - 1] == '\r' {
                stop - 1
            } else {
                stop
            };
            let next: usize = if stop < n {
                stop + 1
            } else {
                n
            };
            let line = text.substring_char(pos, end);
            proof {
                assert(tail.take(k as int) =~= req@.subrange(pos as int, stop as int));
                if stop < n {
                    assert(tail.skip(k as int + 1) =~= req@.skip(next as int));
                    assert(line@ =~= chomp(tail.take(k as int)));
                } else {
                    assert(line@ =~= tail);
                    assert(lines(req@.skip(n as int)) =~= Seq::<Seq<char>>::empty());
                }
                assert(lines(tail) =~= seq![line@] + lines(req@.skip(next as int)));
                assert(seen + lines(tail) =~= seen.push(line@) + lines(req@.skip(next as int)));
                assert(seen.push(line@).drop_last() =~= seen);
            }
            phase = advance(phase, &mut request, line);
            proof {
                seen = seen.push(line@);
            }
            pos = next;
        }
        proof {
            assert(lines(req@.skip(n as int)) =~= Seq::<Seq<char>>::empty());
            assert(seen + Seq::<Seq<char>>::empty() =~= seen);
        }
        request
    }
}

impl vstd::std_specs::convert::FromSpecImpl<String> for HttpRequst {
    /// Two requests with the same view need not be the same value, so the
    /// result of `from` is not pinned to one value here; `from` states it
    /// through `parse` in its own contract.
    open spec fn obeys_from_spec() -> bool {
        false
    }

    open spec fn from_spec(req: String) -> HttpRequst {
        choose|r: HttpRequst| r@ == parse(req@)
    }
}

/// The token that names a method on the request line; a request without a
/// method has an empty one.
pub open spec fn method_token(method: Method) -> Seq<char> {
    match method {
        Method::Get => "GET"@,
        Method::Post => "POST"@,
        Method::Uninitialized => Seq::empty(),
    }
}

/// The token that names a version on the request line; a request without a
/// version has an empty one.
pub open spec fn version_token(version: Version) -> Seq<char> {
    match version {
        Version::V1_1 => "HTTP/1.1"@,
        Version::V2_0 => "HTTP/2.0"@,
        Version::Uninitialized => Seq::empty(),
    }
}

/// The request line of a request: method, path and version, one space
/// apart.
pub open spec fn request_line(m: RequestModel) -> Seq<char> {
    method_token(m.method) + " "@ + m.resource + " "@ + version_token(m.version)
}

/// A request as the text of a message: the request line, the headers, a
/// blank line and the body, with `\r\n` as the line break.
pub open spec fn request_text(m: RequestModel) -> Seq<char> {
    request_line(m) + "\r\n"@ + header_lines(m.headers) + "\r\n"@ + m.body
}

impl HttpRequst {
    /// Writes the request out as the text of a message.
    pub fn serialize(&self) -> (r: String)
        ensures
            r@ == request_text(self@),
    {
        let mut text = String::from_str(
            match self.method {
                Method::Get => "GET",
                Method::Post => "POST",
                Method::Uninitialized => "",
            },
        );
        proof {
            reveal_strlit("");
            assert(text@ =~= method_token(self.method));
        }
        text.append(" ");
        let Resource::Path(path) = &self.resource;
        text.append(path.as_str());
        text.append(" ");
        text.append(
            match self.version {
                Version::V1_1 => "HTTP/1.1",
                Version::V2_0 => "HTTP/2.0",
                Version::Uninitialized => "",
            },
        );
        assert(text@ =~= request_line(self@));
        text.append("\r\n");
        text.append(self.headers.to_text().as_str());
        text.append("\r\n");
        text.append(self.msg_body.as_str());
        assert(text@ =~= request_text(self@));
        text
    }
}

} // verus!
