//! The router: which handler answers a request.

use crate::handler::{
    not_found_action, resumed, Action, ActionModel, Handler, PageNotFoundHandler, PendingModel,
    SourceModel, StaticPageHandler, WebServiceHandler,
};
use crate::httprequest::{HttpRequst, Method, RequestModel, Resource};
use crate::httpresponse::{body_bytes, built, BodyModel};
use crate::text::{chars_of, is_text, segment, segment_bounds};
use vstd::prelude::*;
use vstd::slice::slice_subrange;

verus! {

/// Selects the handler for a request.
pub struct Router;

/// The first action for a request. A request that is not a `GET` goes to
/// the 404 handler. A `GET` whose first path segment is `api` goes to the
/// web service. Every other `GET` goes to the static pages: a path that has
/// no first segment, such as `/`, asks for the index page there, `/health`
/// for the health page, and any other path for the file that the path
/// after its leading slash names.
pub open spec fn routed(req: RequestModel) -> ActionModel {
    if req.method != Method::Get {
        PageNotFoundHandler::plan(req)
    } else if segment(req.resource, 1) == "api"@ {
        WebServiceHandler::plan(req)
    } else {
        StaticPageHandler::plan(req)
    }
}

impl Router {
    /// Hands `req` to the one handler that answers it and returns that
    /// handler's first action.
    pub fn route(req: &HttpRequst) -> (r: Action)
        ensures
            r@ == routed(req@),
    {
        match req.method {
            Method::Get => {
                let Resource::Path(path) = &req.resource;
                let chars = chars_of(path.as_str());
                let (from, to) = segment_bounds(chars.as_slice(), 1);
                if is_text(slice_subrange(chars.as_slice(), from, to), "api") {
                    WebServiceHandler::handle(req)
                } else {
                    StaticPageHandler::handle(req)
                }
            },
            _ => PageNotFoundHandler::handle(req),
        }
    }
}

/// An exchange ends after at most two loads: what follows a load is a
/// response, or it is the load of the 404 page, and what follows that load
/// is a response.
pub proof fn lemma_exchange_ends(
    pending: PendingModel,
    first: Option<BodyModel>,
    second: Option<BodyModel>,
)
    ensures
        resumed(pending, first) is Respond || (resumed(pending, first) == not_found_action()
            && resumed(PendingModel::NotFoundPage, second) is Respond),
{
}

/// A request that is not a `GET` is answered with 404 and the content of
/// the 404 page.
pub proof fn lemma_other_methods_get_not_found(req: RequestModel, page: BodyModel)
    requires
        req.method != Method::Get,
    ensures
        routed(req) == ActionModel::Load(
            SourceModel::File("404.html"@),
            PendingModel::NotFoundPage,
        ),
        resumed(PendingModel::NotFoundPage, Some(page)) == ActionModel::Respond(
            built("404"@, None, Some(page)),
        ),
{
}

/// A static file that cannot be loaded is answered with 404, and the body
/// of that answer is the content of the 404 page, byte for byte.
pub proof fn lemma_missing_file_gets_not_found_page(req: RequestModel, page: BodyModel)
    requires
        req.method == Method::Get,
        segment(req.resource, 1) != "api"@,
    ensures
        routed(req) matches ActionModel::Load(SourceModel::File(_), pending) && resumed(
            pending,
            None,
        ) == ActionModel::Load(SourceModel::File("404.html"@), PendingModel::NotFoundPage),
        resumed(PendingModel::NotFoundPage, Some(page)) matches ActionModel::Respond(response)
            && response.status_code == "404"@ && body_bytes(response.body) == page.bytes(),
{
}

} // verus!
