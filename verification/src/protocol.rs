//! The two messages that pass between the coordinator and its workers.

use vstd::prelude::*;

verus! {

/// What the coordinator hands to a worker: a URL to fetch and search for
/// links.
#[derive(Debug)]
pub enum WorkerMsg {
    Process(String),
}

/// What a worker hands back: the links found on one page, in document
/// order. An empty sequence is a valid answer.
#[derive(Debug)]
pub enum MasterMsg {
    Found(Vec<String>),
}

impl View for WorkerMsg {
    type V = Seq<char>;

    /// The URL that is to be processed.
    open spec fn view(&self) -> Seq<char> {
        match self {
            WorkerMsg::Process(url) => url@,
        }
    }
}

impl View for MasterMsg {
    type V = Seq<Seq<char>>;

    /// The links that were found, in their order.
    open spec fn view(&self) -> Seq<Seq<char>> {
        match self {
            MasterMsg::Found(links) => links.deep_view(),
        }
    }
}

impl WorkerMsg {
    /// The URL that is to be processed.
    pub fn url(&self) -> (url: &String)
        ensures
            url@ == self@,
    {
        match self {
            WorkerMsg::Process(url) => url,
        }
    }
}

impl MasterMsg {
    /// The links that were found, in their order.
    pub fn links(&self) -> (links: &Vec<String>)
        ensures
            links.deep_view() == self@,
    {
        match self {
            MasterMsg::Found(links) => links,
        }
    }
}

} // verus!
