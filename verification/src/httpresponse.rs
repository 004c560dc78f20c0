//! The response side of the protocol: the structured response and its
//! serialization to the bytes that go out on the wire.

use crate::headers::{header_lines, Field, Headers};
use crate::text::{chars_of, decimal, decimal_text, is_text, lemma_decimal, number_of};
use vstd::prelude::*;
use vstd::string::StringExecFns;
use vstd::utf8::encode_utf8;

verus! {

/// The payload of a response: text, or raw bytes for what text would
/// damage, such as images.
#[derive(Debug, PartialEq)]
pub enum ResponseBody {
    Binary(Vec<u8>),
    Text(String),
}

/// A payload as plain values.
pub enum BodyModel {
    Binary(Seq<u8>),
    Text(Seq<char>),
}

impl BodyModel {
    /// The payload as the bytes that are sent: binary data as it is, text
    /// in its UTF-8 encoding.
    pub open spec fn bytes(self) -> Seq<u8> {
        match self {
            BodyModel::Binary(data) => data,
            BodyModel::Text(txt) => encode_utf8(txt),
        }
    }
}

impl View for ResponseBody {
    type V = BodyModel;

    open spec fn view(&self) -> BodyModel {
        match self {
            ResponseBody::Binary(data) => BodyModel::Binary(data@),
            ResponseBody::Text(txt) => BodyModel::Text(txt@),
        }
    }
}

impl Clone for ResponseBody {
    fn clone(&self) -> (r: ResponseBody)
        ensures
            r@ == self@,
    {
        match self {
            ResponseBody::Binary(data) => ResponseBody::Binary(data.clone()),
            ResponseBody::Text(txt) => ResponseBody::Text(txt.clone()),
        }
    }
}

impl ResponseBody {
    /// The payload as bytes, ready to be written out.
    pub fn to_bytes(&self) -> (r: Option<&[u8]>)
        ensures
            r is Some,
            r->0@ == self@.bytes(),
    {
        match &self {
            ResponseBody::Text(txt) => Some(txt.as_str().as_bytes()),
            ResponseBody::Binary(data) => Some(data.as_slice()),
        }
    }
}

/// The plain values of an optional body.
pub open spec fn body_model(body: Option<ResponseBody>) -> Option<BodyModel> {
    match body {
        Some(b) => Some(b@),
        None => None,
    }
}

/// The plain text of optional headers.
pub open spec fn fields_of(headers: Option<Headers>) -> Option<Seq<Field>> {
    match headers {
        Some(h) => Some(h.fields()),
        None => None,
    }
}

/// The status text that belongs to a status code. A code outside the table
/// gets the text of 404.
pub open spec fn status_text_of(code: Seq<char>) -> Seq<char> {
    if code == "200"@ {
        "OK"@
    } else if code == "400"@ {
        "Bad Request"@
    } else if code == "404"@ {
        "Not Found"@
    } else if code == "500"@ {
        "Internal Server Error"@
    } else {
        "Not Found"@
    }
}

/// The headers that a response gets when none are supplied: a single
/// `Content-Type: text/html`.
pub open spec fn default_fields() -> Seq<Field> {
    seq![("Content-Type"@, "text/html"@)]
}

/// The bytes of a body; an absent body has none.
pub open spec fn body_bytes(body: Option<BodyModel>) -> Seq<u8> {
    match body {
        Some(b) => b.bytes(),
        None => Seq::empty(),
    }
}

/// The header block of a response; absent headers give an empty block.
pub open spec fn header_block(headers: Option<Seq<Field>>) -> Seq<char> {
    match headers {
        Some(fields) => header_lines(fields),
        None => Seq::empty(),
    }
}

/// A response as plain values: what the contracts of this module speak of.
pub struct ResponseModel {
    pub version: Seq<char>,
    pub status_code: Seq<char>,
    pub status_text: Seq<char>,
    pub headers: Option<Seq<Field>>,
    pub body: Option<BodyModel>,
}

/// The response that is built from a status code, optional headers and an
/// optional body: version `HTTP/1.1`, the status text that belongs to the
/// code, the default header where none are given, the body as it is.
pub open spec fn built(
    status_code: Seq<char>,
    headers: Option<Seq<Field>>,
    body: Option<BodyModel>,
) -> ResponseModel {
    ResponseModel {
        version: "HTTP/1.1"@,
        status_code,
        status_text: status_text_of(status_code),
        headers: Some(
            match headers {
                Some(fields) => fields,
                None => default_fields(),
            },
        ),
        body,
    }
}

/// The status line and the header block, before `Content-Length`.
pub open spec fn preamble(m: ResponseModel) -> Seq<char> {
    m.version + " "@ + m.status_code + " "@ + m.status_text + "\r\n"@ + header_block(m.headers)
}

/// Everything that precedes the body: the status line, the headers, a
/// `Content-Length` header that gives the byte length of the body, and a
/// blank line.
pub open spec fn head(m: ResponseModel) -> Seq<char> {
    preamble(m) + "Content-Length: "@ + decimal(body_bytes(m.body).len()) + "\r\n\r\n"@
}

/// The bytes of a response on the wire: the head in UTF-8, then the body.
pub open spec fn wire(m: ResponseModel) -> Seq<u8> {
    encode_utf8(head(m)) + body_bytes(m.body)
}

/// The declared `Content-Length` is the byte length of the body: the
/// numeral in the head reads back as that length, and the bytes that follow
/// the head are the body and nothing else.
pub proof fn lemma_content_length(m: ResponseModel)
    ensures
        wire(m) == encode_utf8(
            preamble(m) + "Content-Length: "@ + decimal(body_bytes(m.body).len()) + "\r\n\r\n"@,
        ) + body_bytes(m.body),
        number_of(decimal(body_bytes(m.body).len())) == body_bytes(m.body).len(),
        wire(m).len() == encode_utf8(head(m)).len() + body_bytes(m.body).len(),
        wire(m).skip(encode_utf8(head(m)).len() as int) == body_bytes(m.body),
{
    lemma_decimal(body_bytes(m.body).len());
    assert(wire(m).skip(encode_utf8(head(m)).len() as int) =~= body_bytes(m.body));
}

/// A response: a status line, headers and an optional body.
#[derive(Debug, PartialEq)]
pub struct HttpResponse<'a> {
    version: &'a str,
    status_code: &'a str,
    status_text: &'a str,
    headers: Option<Headers>,
    body: Option<ResponseBody>,
}

impl<'a> View for HttpResponse<'a> {
    type V = ResponseModel;

    closed spec fn view(&self) -> ResponseModel {
        ResponseModel {
            version: self.version@,
            status_code: self.status_code@,
            status_text: self.status_text@,
            headers: fields_of(self.headers),
            body: body_model(self.body),
        }
    }
}

impl<'a> Clone for HttpResponse<'a> {
    fn clone(&self) -> (r: HttpResponse<'a>)
        ensures
            r@ == self@,
    {
        proof {
            use_type_invariant(self);
        }
        HttpResponse {
            version: self.version,
            status_code: self.status_code,
            status_text: self.status_text,
            headers: match &self.headers {
                Some(h) => Some(h.clone()),
                None => None,
            },
            body: match &self.body {
                Some(b) => Some(b.clone()),
                None => None,
            },
        }
    }
}

impl<'a> Default for HttpResponse<'a> {
    /// An empty 200 response: no headers and no body.
    fn default() -> (r: Self)
        ensures
            r@ == (ResponseModel {
                version: "HTTP/1.1"@,
                status_code: "200"@,
                status_text: "OK"@,
                headers: None,
                body: None,
            }),
    {
        Self { version: "HTTP/1.1", status_code: "200", status_text: "OK", headers: None, body: None }
    }
}

impl<'a> HttpResponse<'a> {
    #[verifier::type_invariant]
    spec fn status_line_is_consistent(&self) -> bool {
        &&& self.version@ == "HTTP/1.1"@
        &&& self.status_text@ == status_text_of(self.status_code@)
    }

    /// Builds a response. The version is `HTTP/1.1`, the status text is the
    /// one that belongs to `status_code`, absent headers become the single
    /// default header, and the body is stored as given.
    pub fn new(
        status_code: &'a str,
        headers: Option<Headers>,
        body: Option<ResponseBody>,
    ) -> (r: HttpResponse<'a>)
        ensures
            r@ == built(status_code@, fields_of(headers), body_model(body)),
    {
        let code = chars_of(status_code);
        let status_text: &'static str = if is_text(code.as_slice(), "200") {
            "OK"
        } else if is_text(code.as_slice(), "400") {
            "Bad Request"
        } else if is_text(code.as_slice(), "404") {
            "Not Found"
        } else if is_text(code.as_slice(), "500") {
            "Internal Server Error"
        } else {
            "Not Found"
        };
        let headers = match headers {
            Some(h) => h,
            None => {
                let mut h = Headers::new();
                h.insert(String::from_str("Content-Type"), String::from_str("text/html"));
                assert(h.fields() =~= default_fields());
                h
            },
        };
        HttpResponse { version: "HTTP/1.1", status_code, status_text, headers: Some(headers), body }
    }

    /// Appends the bytes of this response to `write_stream`.
    pub fn send_response(&self, write_stream: &mut Vec<u8>)
        ensures
            final(write_stream)@ == old(write_stream)@ + wire(self@),
    {
        let bytes = self.to_bytes();
        append_bytes(write_stream, bytes.as_slice());
    }

    /// The protocol version, always `HTTP/1.1`.
    pub fn version(&self) -> (r: &str)
        ensures
            r@ == self@.version,
            r@ == "HTTP/1.1"@,
    {
        proof {
            use_type_invariant(self);
        }
        self.version
    }

    /// The status code.
    pub fn status_code(&self) -> (r: &str)
        ensures
            r@ == self@.status_code,
    {
        self.status_code
    }

    /// The status text, which is the one that belongs to the status code.
    pub fn status_text(&self) -> (r: &str)
        ensures
            r@ == self@.status_text,
            r@ == status_text_of(self@.status_code),
    {
        proof {
            use_type_invariant(self);
        }
        self.status_text
    }

    /// The header block as text: one `name:value` line per header.
    pub fn headers(&self) -> (r: String)
        ensures
            r@ == header_block(self@.headers),
    {
        match &self.headers {
            None => String::new(),
            Some(h) => h.to_text(),
        }
    }

    /// The byte length of the body; zero when there is none.
    pub fn bodylen(&self) -> (r: usize)
        ensures
            r == body_bytes(self@.body).len(),
    {
        match &self.body {
            Some(ResponseBody::Text(txt)) => txt.as_str().as_bytes().len(),
            Some(ResponseBody::Binary(data)) => data.len(),
            None => 0,
        }
    }

    /// The headers, if the response has any.
    pub fn header_fields(&self) -> (r: Option<&Headers>)
        ensures
            match r {
                Some(h) => self@.headers == Some(h.fields()),
                None => self@.headers is None,
            },
    {
        self.headers.as_ref()
    }

    /// The body, if the response has one.
    pub fn body(&self) -> (r: Option<&ResponseBody>)
        ensures
            match r {
                Some(b) => self@.body == Some(b@),
                None => self@.body is None,
            },
    {
        self.body.as_ref()
    }

    /// The bytes of this response on the wire.
    pub fn to_bytes(&self) -> (r: Vec<u8>)
        ensures
            r@ == wire(self@),
    {
        let mut text = String::from_str(self.version());
        text.append(" ");
        text.append(self.status_code());
        text.append(" ");
        text.append(self.status_text());
        text.append("\r\n");
        text.append(self.headers().as_str());
        assert(text@ =~= preamble(self@));
        text.append("Content-Length: ");
        text.append(decimal_text(self.bodylen()).as_str());
        text.append("\r\n\r\n");
        assert(text@ =~= head(self@));
        let mut buffer: Vec<u8> = Vec::new();
        append_bytes(&mut buffer, text.as_str().as_bytes());
        match &self.body {
            Some(body) => match body.to_bytes() {
                Some(bytes) => append_bytes(&mut buffer, bytes),
                None => {},
            },
            None => {},
        }
        assert(buffer@ =~= wire(self@));
        buffer
    }
}

/// Appends `bytes` to `buffer`.
fn append_bytes(buffer: &mut Vec<u8>, bytes: &[u8])
    ensures
        final(buffer)@ == old(buffer)@ + bytes@,
{
    buffer.extend_from_slice(bytes);
    assert(buffer@ =~= old(buffer)@ + bytes@);
}

} // verus!
