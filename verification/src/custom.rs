//! The pages that stand in for a failed response.

use crate::responder::{Body, BodyView, Header, Response, ResponseView, header_views, CONTENT_TYPE};
use vstd::prelude::*;

verus! {

/// The content type of the pages.
pub const HTML_PAGE: &'static str = "text/html; charset=utf-8";

/// Replaces the body of a failed response by the configured page.
pub struct CustomPage;

/// Whether a status reports an error of the client.
pub open spec fn is_client_error(status: u16) -> bool {
    400 <= status < 500
}

/// Whether a status reports an error of the server.
pub open spec fn is_server_error(status: u16) -> bool {
    500 <= status < 600
}

/// The response that carries a page: the status as it was, the page as
/// HTML.
pub open spec fn page(status: u16, body: Seq<u8>) -> ResponseView {
    ResponseView {
        status,
        headers: seq![(CONTENT_TYPE@, HTML_PAGE@)],
        body: BodyView::Bytes(body),
    }
}

/// What becomes of a failed response with the given status, if it has one:
/// an error of the client gets the first page, an error of the server the
/// second, and anything else is passed on as it is, which `None` stands for.
pub open spec fn caught(status: Option<u16>, page_4xx: Seq<u8>, page_5xx: Seq<u8>) -> Option<
    ResponseView,
> {
    match status {
        Some(s) => if is_client_error(s) {
            Some(page(s, page_4xx))
        } else if is_server_error(s) {
            Some(page(s, page_5xx))
        } else {
            None
        },
        None => None,
    }
}

impl CustomPage {
    /// The response that replaces a failed one with the given status, or
    /// `None` where the failure is to be passed on as it is.
    pub fn catch(&self, status: Option<u16>, page_4xx: &Vec<u8>, page_5xx: &Vec<u8>) -> (r: Option<
        Response,
    >)
        ensures
            match r {
                Some(resp) => caught(status, page_4xx@, page_5xx@) == Some(resp@),
                None => caught(status, page_4xx@, page_5xx@) is None,
            },
    {
        match status {
            Some(s) => {
                if 400 <= s && s < 600 {
                    let body = if s < 500 {
                        page_4xx.clone()
                    } else {
                        page_5xx.clone()
                    };
                    let mut headers: Vec<Header> = Vec::new();
                    headers.push(
                        Header {
                            name: String::from_str(CONTENT_TYPE),
                            value: String::from_str(HTML_PAGE),
                        },
                    );
                    let resp = Response { status: s, headers, body: Body::Bytes(body) };
                    assert(header_views(resp.headers@) =~= seq![(CONTENT_TYPE@, HTML_PAGE@)]);
                    Some(resp)
                } else {
                    None
                }
            },
            None => None,
        }
    }
}

} // verus!
