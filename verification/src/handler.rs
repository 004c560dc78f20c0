//! The handlers: what each of them asks to have loaded for a request, and
//! the response it gives once it knows what the load brought.
//!
//! A handler never reads a file itself. It names what it needs in an
//! [`Action`]; whoever drives the exchange performs the load and hands the
//! outcome to [`Pending::resume`], which answers with the next action.

use crate::headers::{Field, Headers};
use crate::httprequest::{HttpRequst, RequestModel};
use crate::httpresponse::{
    body_model, built, BodyModel, HttpResponse, ResponseBody, ResponseModel,
};
use crate::text::{
    after_first, chars_of, extension, extension_start, find_char, is_text, last_component,
    lemma_extension_of_join, lemma_prefix_len, lemma_prefix_len_is, lemma_suffix_len_is, lemma_suffix_len_join,
    other_than, segment, segment_bounds, substring, suffix_len,
};
use vstd::prelude::*;
use vstd::slice::slice_subrange;
use vstd::string::StringExecFns;

verus! {

/// How a file is read: as text, or as raw bytes.
#[derive(Debug, PartialEq, Eq, Structural, Clone, Copy)]
pub enum FileKind {
    Text,
    Binary,
}

/// Whether files with the extension `ext` are read as text.
pub open spec fn reads_as_text(ext: Seq<char>) -> bool {
    ||| ext == "html"@
    ||| ext == "css"@
    ||| ext == "js"@
    ||| ext == "xml"@
    ||| ext == "json"@
    ||| ext == "txt"@
}

/// How the file named `name` is read; a name without an extension names no
/// file that is served.
pub open spec fn kind_of(name: Seq<char>) -> Option<FileKind> {
    match extension(name) {
        None => None,
        Some(ext) => if reads_as_text(ext) {
            Some(FileKind::Text)
        } else {
            Some(FileKind::Binary)
        },
    }
}

/// The content type of files with the extension `ext`, which is matched in
/// lower case; `None` for an extension outside the table. The types of
/// `mp3` and `mp4` are names of this server's own, not registered ones.
pub open spec fn content_type_of(ext: Seq<char>) -> Option<Seq<char>> {
    if ext == "html"@ {
        Some("text/html"@)
    } else if ext == "css"@ {
        Some("text/css"@)
    } else if ext == "js"@ {
        Some("text/javascript"@)
    } else if ext == "xml"@ {
        Some("text/xml"@)
    } else if ext == "json"@ {
        Some("text/json"@)
    } else if ext == "txt"@ {
        Some("text/plain"@)
    } else if ext == "gif"@ {
        Some("image/gif"@)
    } else if ext == "png"@ {
        Some("image/png"@)
    } else if ext == "jpg"@ || ext == "jpeg"@ {
        Some("image/jpeg"@)
    } else if ext == "zip"@ {
        Some("application/zip"@)
    } else if ext == "mp3"@ {
        Some("application/map3"@)
    } else if ext == "mp4"@ {
        Some("application/map4"@)
    } else {
        None
    }
}

/// The page that a path asks for. The first segment after the leading
/// slash decides first: an empty one asks for `index`, and `health` asks
/// for `health`. With any other first segment the page is the whole of the
/// path after its leading slash, directories included.
pub open spec fn page_name(path: Seq<char>) -> Seq<char> {
    if segment(path, 1).len() == 0 {
        "index"@
    } else if segment(path, 1) == "health"@ {
        "health"@
    } else {
        after_first(path, '/')
    }
}

/// The static file that answers a path, as a name relative to the
/// static-asset root: the page itself when the extension of its last
/// component is in the content-type table, the page with `.html` added when
/// that component has no extension, and the fixed page `nosupport.html`
/// otherwise.
pub open spec fn static_file(path: Seq<char>) -> Seq<char> {
    match extension(page_name(path)) {
        None => page_name(path) + ".html"@,
        Some(ext) => if content_type_of(ext) is Some {
            page_name(path)
        } else {
            "nosupport.html"@
        },
    }
}

/// The content type of the static file that answers a path.
pub open spec fn static_content_type(path: Seq<char>) -> Seq<char> {
    match extension(page_name(path)) {
        None => "text/html"@,
        Some(ext) => match content_type_of(ext) {
            Some(content_type) => content_type,
            None => "text/html"@,
        },
    }
}

/// Whether a path under `/api` names the dataset endpoint,
/// `/api/shipping/characters`.
pub open spec fn names_dataset(path: Seq<char>) -> bool {
    segment(path, 2) == "shipping"@ && segment(path, 3) == "characters"@
}

/// What is to be loaded.
#[derive(Debug)]
pub enum Source {
    /// The file of this name, which is relative to the static-asset root
    /// and may name directories. It is taken from the request as it stands:
    /// whoever loads it must read nothing that lies outside the root.
    File(String),
    /// The dataset, as pretty-printed JSON text.
    Dataset,
}

/// What an exchange is waiting for.
#[derive(Debug)]
pub enum Pending {
    /// The requested static file, to be sent with this content type.
    Page(String),
    /// The fixed page that is sent with a 404.
    NotFoundPage,
    /// The dataset.
    Dataset,
}

/// The next thing to do for a request.
#[derive(Debug)]
pub enum Action {
    /// Load the source and call [`Pending::resume`] with the outcome.
    Load(Source, Pending),
    /// Send this response; the exchange is over.
    Respond(HttpResponse<'static>),
}

/// A source as plain text.
pub enum SourceModel {
    File(Seq<char>),
    Dataset,
}

/// A pending state as plain text.
pub enum PendingModel {
    Page(Seq<char>),
    NotFoundPage,
    Dataset,
}

/// An action as plain values.
pub enum ActionModel {
    Load(SourceModel, PendingModel),
    Respond(ResponseModel),
}

impl View for Source {
    type V = SourceModel;

    open spec fn view(&self) -> SourceModel {
        match self {
            Source::File(name) => SourceModel::File(name@),
            Source::Dataset => SourceModel::Dataset,
        }
    }
}

impl View for Pending {
    type V = PendingModel;

    open spec fn view(&self) -> PendingModel {
        match self {
            Pending::Page(content_type) => PendingModel::Page(content_type@),
            Pending::NotFoundPage => PendingModel::NotFoundPage,
            Pending::Dataset => PendingModel::Dataset,
        }
    }
}

impl View for Action {
    type V = ActionModel;

    open spec fn view(&self) -> ActionModel {
        match self {
            Action::Load(source, pending) => ActionModel::Load(source@, pending@),
            Action::Respond(response) => ActionModel::Respond(response@),
        }
    }
}

/// The action that starts every 404: load the fixed page `404.html`.
pub open spec fn not_found_action() -> ActionModel {
    ActionModel::Load(SourceModel::File("404.html"@), PendingModel::NotFoundPage)
}

/// The headers of a response that carries one content type.
pub open spec fn content_type_fields(content_type: Seq<char>) -> Seq<Field> {
    seq![("Content-Type"@, content_type)]
}

/// What follows a load. `loaded` is what the load brought, `None` when it
/// failed.
///
/// A page that was loaded is sent with 200 and its content type; a page
/// that was not leads to the 404 page. The 404 page is sent with 404. The
/// dataset is sent with 200 as `application/json`. Where the 404 page or
/// the dataset itself cannot be loaded, the answer is a 500 without a body.
pub open spec fn resumed(pending: PendingModel, loaded: Option<BodyModel>) -> ActionModel {
    match pending {
        PendingModel::Page(content_type) => match loaded {
            Some(body) => ActionModel::Respond(
                built("200"@, Some(content_type_fields(content_type)), Some(body)),
            ),
            None => not_found_action(),
        },
        PendingModel::NotFoundPage => match loaded {
            Some(body) => ActionModel::Respond(built("404"@, None, Some(body))),
            None => ActionModel::Respond(built("500"@, None, None)),
        },
        PendingModel::Dataset => match loaded {
            Some(body) => ActionModel::Respond(
                built("200"@, Some(content_type_fields("application/json"@)), Some(body)),
            ),
            None => ActionModel::Respond(built("500"@, None, None)),
        },
    }
}

impl FileKind {
    /// How the file named `file_name` is to be read, if it is served at
    /// all.
    pub fn of(file_name: &str) -> (r: Option<FileKind>)
        ensures
            r == kind_of(file_name@),
    {
        let chars = chars_of(file_name);
        match extension_start(chars.as_slice()) {
            None => None,
            Some(at) => {
                let ext = slice_subrange(chars.as_slice(), at, chars.len());
                if is_text(ext, "html") || is_text(ext, "css") || is_text(ext, "js") || is_text(
                    ext,
                    "xml",
                ) || is_text(ext, "json") || is_text(ext, "txt") {
                    Some(FileKind::Text)
                } else {
                    Some(FileKind::Binary)
                }
            },
        }
    }
}

/// The content type for the extension `ext`, if the table has it.
pub fn content_type(ext: &[char]) -> (r: Option<&'static str>)
    ensures
        match r {
            Some(content_type) => content_type_of(ext@) == Some(content_type@),
            None => content_type_of(ext@) is None,
        },
{
    if is_text(ext, "html") {
        Some("text/html")
    } else if is_text(ext, "css") {
        Some("text/css")
    } else if is_text(ext, "js") {
        Some("text/javascript")
    } else if is_text(ext, "xml") {
        Some("text/xml")
    } else if is_text(ext, "json") {
        Some("text/json")
    } else if is_text(ext, "txt") {
        Some("text/plain")
    } else if is_text(ext, "gif") {
        Some("image/gif")
    } else if is_text(ext, "png") {
        Some("image/png")
    } else if is_text(ext, "jpg") || is_text(ext, "jpeg") {
        Some("image/jpeg")
    } else if is_text(ext, "zip") {
        Some("application/zip")
    } else if is_text(ext, "mp3") {
        Some("application/map3")
    } else if is_text(ext, "mp4") {
        Some("application/map4")
    } else {
        None
    }
}

/// A response with a single `Content-Type` header.
fn typed_response(
    status_code: &'static str,
    content_type: &str,
    body: ResponseBody,
) -> (r: HttpResponse<'static>)
    ensures
        r@ == built(status_code@, Some(content_type_fields(content_type@)), Some(body@)),
{
    let mut headers = Headers::new();
    headers.insert(String::from_str("Content-Type"), String::from_str(content_type));
    assert(headers.fields() =~= content_type_fields(content_type@));
    HttpResponse::new(status_code, Some(headers), Some(body))
}

impl Pending {
    /// The action that follows a load: see [`resumed`].
    pub fn resume(self, loaded: Option<ResponseBody>) -> (r: Action)
        ensures
            r@ == resumed(self@, body_model(loaded)),
    {
        match self {
            Pending::Page(content_type) => match loaded {
                Some(body) => Action::Respond(typed_response("200", content_type.as_str(), body)),
                None => PageNotFoundHandler::handle_any(),
            },
            Pending::NotFoundPage => match loaded {
                Some(body) => Action::Respond(HttpResponse::new("404", None, Some(body))),
                None => Action::Respond(HttpResponse::new("500", None, None)),
            },
            Pending::Dataset => match loaded {
                Some(body) => Action::Respond(typed_response("200", "application/json", body)),
                None => Action::Respond(HttpResponse::new("500", None, None)),
            },
        }
    }
}

/// What every handler offers: the first action for a request.
pub trait Handler {
    /// The first action for a request, over plain values.
    spec fn plan(req: RequestModel) -> ActionModel;

    /// The first action for `req`.
    fn handle(req: &HttpRequst) -> (r: Action)
        ensures
            r@ == Self::plan(req@),
    ;
}

/// Serves files from the static-asset root.
pub struct StaticPageHandler;

/// Answers with the fixed 404 page.
pub struct PageNotFoundHandler;

/// Serves the dataset endpoint under `/api`.
pub struct WebServiceHandler;

impl PageNotFoundHandler {
    /// The first action of a 404, whatever the request.
    pub fn handle_any() -> (r: Action)
        ensures
            r@ == not_found_action(),
    {
        Action::Load(Source::File(String::from_str("404.html")), Pending::NotFoundPage)
    }
}

impl Handler for PageNotFoundHandler {
    open spec fn plan(req: RequestModel) -> ActionModel {
        not_found_action()
    }

    fn handle(req: &HttpRequst) -> (r: Action) {
        PageNotFoundHandler::handle_any()
    }
}

impl Handler for StaticPageHandler {
    open spec fn plan(req: RequestModel) -> ActionModel {
        ActionModel::Load(
            SourceModel::File(static_file(req.resource)),
            PendingModel::Page(static_content_type(req.resource)),
        )
    }

    fn handle(req: &HttpRequst) -> (r: Action) {
        let crate::httprequest::Resource::Path(path) = &req.resource;
        let chars = chars_of(path.as_str());
        let slash = find_char(chars.as_slice(), '/');
        let (from, to) = segment_bounds(chars.as_slice(), 1);
        let page = if from == to {
            String::from_str("index")
        } else if is_text(slice_subrange(chars.as_slice(), from, to), "health") {
            String::from_str("health")
        } else {
            assert(path@.subrange(slash as int + 1, path@.len() as int) =~= after_first(path@, '/'));
            substring(path.as_str(), slash + 1, chars.len())
        };
        let name = chars_of(page.as_str());
        match extension_start(name.as_slice()) {
            None => Action::Load(
                Source::File(page.concat(".html")),
                Pending::Page(String::from_str("text/html")),
            ),
            Some(at) => match content_type(slice_subrange(name.as_slice(), at, name.len())) {
                Some(content_type) => Action::Load(
                    Source::File(page),
                    Pending::Page(String::from_str(content_type)),
                ),
                None => Action::Load(
                    Source::File(String::from_str("nosupport.html")),
                    Pending::Page(String::from_str("text/html")),
                ),
            },
        }
    }
}

impl Handler for WebServiceHandler {
    open spec fn plan(req: RequestModel) -> ActionModel {
        if names_dataset(req.resource) {
            ActionModel::Load(SourceModel::Dataset, PendingModel::Dataset)
        } else {
            not_found_action()
        }
    }

    fn handle(req: &HttpRequst) -> (r: Action) {
        let crate::httprequest::Resource::Path(path) = &req.resource;
        let chars = chars_of(path.as_str());
        let (from2, to2) = segment_bounds(chars.as_slice(), 2);
        let (from3, to3) = segment_bounds(chars.as_slice(), 3);
        if is_text(slice_subrange(chars.as_slice(), from2, to2), "shipping") && is_text(
            slice_subrange(chars.as_slice(), from3, to3),
            "characters",
        ) {
            Action::Load(Source::Dataset, Pending::Dataset)
        } else {
            PageNotFoundHandler::handle_any()
        }
    }
}

/// A page whose extension is outside the content-type table is answered
/// with the fixed page `nosupport.html`, sent as `text/html`.
pub proof fn lemma_unrecognized_extension(path: Seq<char>)
    requires
        extension(page_name(path)) matches Some(ext) && content_type_of(ext) is None,
    ensures
        static_file(path) == "nosupport.html"@,
        static_content_type(path) == "text/html"@,
{
}

/// A path whose first segment is not empty and not `health` asks for all
/// that follows its leading slash: a file in a directory is named with its
/// directory, and served with the type of its own extension.
pub proof fn lemma_remaining_path_names_the_file(name: Seq<char>)
    requires
        segment(name, 0).len() > 0,
        segment(name, 0) != "health"@,
    ensures
        page_name(seq!['/'] + name) == name,
        extension(name) is Some && content_type_of(extension(name)->0) is Some ==> static_file(
            seq!['/'] + name,
        ) == name && Some(static_content_type(seq!['/'] + name)) == content_type_of(
            extension(name)->0,
        ),
{
    let path = seq!['/'] + name;
    lemma_prefix_len_is(path, other_than('/'), 0);
    assert(path.skip(1) =~= name);
    assert(segment(path, 1) == segment(name, 0));
    assert(after_first(path, '/') == name);
    assert(page_name(path) == name);
}

/// The static file that answers a path has an extension, so it is a file
/// that is read, and the content type that goes with it is the one of that
/// extension; where the page had no extension, or one outside the table,
/// the file is read as text. The one exception is a page that ends in a
/// slash: it names no file, and nothing is read for it. The 404 page is
/// read as text too.
pub proof fn lemma_static_file_is_read(path: Seq<char>)
    ensures
        page_name(path).last() != '/' ==> kind_of(static_file(path)) is Some && content_type_of(
            extension(static_file(path))->0,
        ) == Some(static_content_type(path)),
        page_name(path).last() != '/' && extension(page_name(path)) is None ==> kind_of(
            static_file(path),
        ) == Some(FileKind::Text),
        page_name(path).last() == '/' ==> kind_of(static_file(path)) is None,
        kind_of("nosupport.html"@) == Some(FileKind::Text),
        kind_of("404.html"@) == Some(FileKind::Text),
{
    reveal_strlit("html");
    reveal_strlit(".html");
    reveal_strlit("index");
    reveal_strlit("health");
    reveal_strlit("nosupport");
    reveal_strlit("nosupport.html");
    reveal_strlit("404");
    reveal_strlit("404.html");
    let html = "html"@;
    assert(!html.contains('.') && !html.contains('/')) by {
        if html.contains('.') {
            let i = choose|i: int| 0 <= i < html.len() && html[i] == '.';
        }
        if html.contains('/') {
            let i = choose|i: int| 0 <= i < html.len() && html[i] == '/';
        }
    }
    assert(".html"@ =~= seq!['.'] + html);
    assert("nosupport"@.last() == 't');
    lemma_extension_of_join("nosupport"@, html);
    assert("nosupport.html"@ =~= "nosupport"@ + seq!['.'] + html);
    assert("404"@.last() == '4');
    lemma_extension_of_join("404"@, html);
    assert("404.html"@ =~= "404"@ + seq!['.'] + html);
    let page = page_name(path);
    assert(page.len() > 0) by {
        let rest = after_first(path, '/');
        lemma_prefix_len(rest, other_than('/'));
        if segment(path, 1).len() > 0 {
            assert(segment(path, 1) == segment(rest, 0));
        }
    }
    if page.last() != '/' {
        if extension(page) is None {
            lemma_extension_of_join(page, html);
            assert(page + ".html"@ =~= page + seq!['.'] + html);
        }
    } else {
        let tail = ".html"@;
        assert(suffix_len(page, other_than('/')) == 0);
        assert(last_component(page) =~= Seq::<char>::empty());
        assert(extension(page) is None);
        assert forall|j: int| 0 <= j < tail.len() implies other_than('/')(#[trigger] tail[j]) by {}
        lemma_suffix_len_join(page, tail, other_than('/'));
        assert(last_component(page + tail) =~= tail);
        lemma_suffix_len_is(tail, other_than('.'), 4);
    }
}

} // verus!
