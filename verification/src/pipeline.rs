//! The unit of work of a worker: from what a fetch gave to the result
//! message for the coordinator.

use vstd::prelude::*;

use crate::extract::{extract, links_of};
use crate::html::{html_tree, parse_html, MAX_BODY_LEN};
use crate::protocol::MasterMsg;

verus! {

/// A fetch that failed: the URL that was asked for and what the transport
/// said of the failure.
#[derive(Debug)]
pub struct FetchError {
    pub url: String,
    pub cause: String,
}

/// A body that cannot be parsed: it is longer than `MAX_BODY_LEN`, the most
/// that the parser is trusted with.
#[derive(Debug)]
pub struct ParseError {
    /// The length of the body in bytes.
    pub len: usize,
}

/// Why the pipeline gave no links for a URL.
#[derive(Debug)]
pub enum PipelineError {
    /// The page could not be fetched.
    Fetch(FetchError),
    /// The page was fetched and could not be parsed.
    Parse(ParseError),
}

/// The links of the page with the given body, in document order.
pub open spec fn page_links(body: Seq<u8>) -> Seq<Seq<char>> {
    links_of(html_tree(body))
}

/// Parses the body of a page and extracts its links. A body longer than
/// `MAX_BODY_LEN` is not for this function: `fetch_and_extract` tests the
/// length and turns such a body away.
pub fn links_of_page(body: &[u8]) -> (links: Vec<String>)
    requires
        body@.len() <= MAX_BODY_LEN,
    ensures
        links.deep_view() == page_links(body@),
{
    let tree = parse_html(body);
    extract(&tree)
}

/// The pipeline behind the fetch, for every outcome of the fetch.
///
/// A body of at most `MAX_BODY_LEN` bytes is parsed and gives its links. A
/// longer body is not parsed: that is a parse failure, which is handed back
/// as an error like a failed fetch and ends, like it, in an empty result
/// message. A failed fetch is handed on as it came.
pub fn fetch_and_extract(fetched: Result<Vec<u8>, FetchError>) -> (outcome: Result<
    Vec<String>,
    PipelineError,
>)
    ensures
        match fetched {
            Ok(body) => if body@.len() <= MAX_BODY_LEN {
                outcome matches Ok(links) && links.deep_view() == page_links(body@)
            } else {
                outcome == Err::<Vec<String>, PipelineError>(
                    PipelineError::Parse(ParseError { len: body.len() }),
                )
            },
            Err(error) => outcome == Err::<Vec<String>, PipelineError>(PipelineError::Fetch(error)),
        },
{
    match fetched {
        Ok(body) => {
            if body.len() <= MAX_BODY_LEN {
                Ok(links_of_page(body.as_slice()))
            } else {
                Err(PipelineError::Parse(ParseError { len: body.len() }))
            }
        },
        Err(error) => Err(PipelineError::Fetch(error)),
    }
}

/// The result message for the outcome of the pipeline. A failure ends here,
/// whether of the fetch or of the parse: the coordinator gets an empty
/// message and never an error.
pub fn report(outcome: Result<Vec<String>, PipelineError>) -> (msg: MasterMsg)
    ensures
        match outcome {
            Ok(links) => msg@ == links.deep_view(),
            Err(_) => msg@ == Seq::<Seq<char>>::empty(),
        },
{
    match outcome {
        Ok(links) => MasterMsg::Found(links),
        Err(_) => {
            let none: Vec<String> = Vec::new();
            assert(none.deep_view() =~= Seq::<Seq<char>>::empty());
            MasterMsg::Found(none)
        },
    }
}

} // verus!
