//! Paging through a code search for repositories: what to do with each
//! answer of the search service.

use crate::text::{chars_of, holds, holds_text, replace_all, replaced};
use vstd::prelude::*;
use vstd::string::StringExecFns;

verus! {

/// Where the search service describes a repository.
pub open spec fn api_prefix() -> Seq<char> {
    "https://api.github.com/repos/"@
}

/// Where the repository itself is found.
pub open spec fn web_prefix() -> Seq<char> {
    "https://github.com/"@
}

/// The address of a repository, made from the address under which the
/// search service describes it.
pub open spec fn repository_url(api_url: Seq<char>) -> Seq<char> {
    replaced(api_url, api_prefix(), web_prefix())
}

/// What the service answers when the search is exhausted.
pub open spec fn exhausted_notice() -> Seq<char> {
    "Cannot access beyond the first 1000 results"@
}

/// How far a search has come.
#[derive(Clone, Copy, PartialEq, Eq, Structural, Debug)]
pub struct SearchState {
    /// The page with which the search began.
    pub start_page: u64,
    /// The page before which the search stops, if it is to stop early.
    pub end_page: Option<u64>,
    /// The page to ask for next.
    pub page: u64,
    /// Whether the service has nothing more to give.
    pub collected_all: bool,
}

/// What the service answered to the request for a page.
#[derive(Debug)]
pub enum SearchEvent {
    /// Too many requests; the service asks to wait for `duration`
    /// seconds.
    RateLimited { duration: u64 },
    /// The request was refused: the status code, the status as it is
    /// shown, and what the service said.
    HttpError { status: u16, shown: String, error: String },
    /// The request failed in some other way.
    Failed,
    /// A page of results: the address under which the service describes
    /// the repository of each.
    Page { repositories: Vec<String> },
}

/// What to do with an answer before the next request.
#[derive(Debug)]
pub enum SearchAction {
    /// Give the search up: the token may be invalid.
    Abort,
    /// Wait for so many seconds.
    Wait { seconds: u64 },
    /// Report a failure to the receiver.
    SendError(String),
    /// Hand the addresses of the repositories to the receiver.
    SendRepositories(Vec<String>),
    /// Nothing.
    Continue,
}

/// The mathematical side of a `SearchEvent`.
pub enum SearchEventView {
    RateLimited { duration: u64 },
    HttpError { status: u16, shown: Seq<char>, error: Seq<char> },
    Failed,
    Page { repositories: Seq<Seq<char>> },
}

/// The mathematical side of a `SearchAction`.
pub enum SearchActionView {
    Abort,
    Wait { seconds: u64 },
    SendError(Seq<char>),
    SendRepositories(Seq<Seq<char>>),
    Continue,
}

/// The views of a sequence of texts.
pub open spec fn text_views(texts: Seq<String>) -> Seq<Seq<char>> {
    Seq::new(texts.len(), |i: int| texts[i]@)
}

impl View for SearchEvent {
    type V = SearchEventView;

    open spec fn view(&self) -> SearchEventView {
        match *self {
            SearchEvent::RateLimited { duration } => SearchEventView::RateLimited { duration },
            SearchEvent::HttpError { status, shown, error } => SearchEventView::HttpError {
                status,
                shown: shown@,
                error: error@,
            },
            SearchEvent::Failed => SearchEventView::Failed,
            SearchEvent::Page { repositories } => SearchEventView::Page {
                repositories: text_views(repositories@),
            },
        }
    }
}

impl View for SearchAction {
    type V = SearchActionView;

    open spec fn view(&self) -> SearchActionView {
        match *self {
            SearchAction::Abort => SearchActionView::Abort,
            SearchAction::Wait { seconds } => SearchActionView::Wait { seconds },
            SearchAction::SendError(e) => SearchActionView::SendError(e@),
            SearchAction::SendRepositories(urls) => SearchActionView::SendRepositories(text_views(urls@)),
            SearchAction::Continue => SearchActionView::Continue,
        }
    }
}

/// The page that a search asks for next; none once the service has
/// nothing more to give or the last page wanted has been asked for.
pub open spec fn wanted_page(s: SearchState) -> Option<u64> {
    if s.collected_all {
        None
    } else {
        match s.end_page {
            Some(end) => if s.page < end {
                Some(s.page)
            } else {
                None
            },
            None => Some(s.page),
        }
    }
}

/// The seconds to wait when the service asks for `duration`: two more,
/// as far as the number goes.
pub open spec fn waiting_time(duration: u64) -> u64 {
    if duration <= u64::MAX - 2 {
        (duration + 2) as u64
    } else {
        u64::MAX
    }
}

/// The page after `page`, as far as the number goes.
pub open spec fn page_after(page: u64) -> u64 {
    if page < u64::MAX {
        (page + 1) as u64
    } else {
        page
    }
}

/// The state of a search after an answer.
///
/// Waiting and a refusal leave the search where it is.  The notice of
/// exhaustion, a failure of another kind and an empty page end it.  A
/// page with results moves it to the next page.
pub open spec fn state_after(s: SearchState, e: SearchEventView) -> SearchState {
    match e {
        SearchEventView::RateLimited { duration } => s,
        SearchEventView::HttpError { status, shown, error } => if status == 422 && holds(
            error,
            exhausted_notice(),
        ) {
            SearchState { collected_all: true, ..s }
        } else {
            s
        },
        SearchEventView::Failed => SearchState { collected_all: true, ..s },
        SearchEventView::Page { repositories } => if repositories.len() == 0 {
            SearchState { collected_all: true, ..s }
        } else {
            SearchState { page: page_after(s.page), ..s }
        },
    }
}

/// What to do with an answer.
///
/// A limit of exactly 60 seconds on the very first page gives the search
/// up; any other limit is waited out.  A refusal is reported, unless it
/// is the notice of exhaustion.  A failure of another kind is reported.
/// The repositories of a page are handed on under their own addresses.
pub open spec fn action_after(s: SearchState, e: SearchEventView) -> SearchActionView {
    match e {
        SearchEventView::RateLimited { duration } => if s.page == s.start_page && duration == 60 {
            SearchActionView::Abort
        } else {
            SearchActionView::Wait { seconds: waiting_time(duration) }
        },
        SearchEventView::HttpError { status, shown, error } => if status == 422 && holds(
            error,
            exhausted_notice(),
        ) {
            SearchActionView::Continue
        } else {
            SearchActionView::SendError("HTTP Error: "@ + shown + " "@ + error)
        },
        SearchEventView::Failed => SearchActionView::SendError("unknown error while fetching"@),
        SearchEventView::Page { repositories } => if repositories.len() == 0 {
            SearchActionView::Continue
        } else {
            SearchActionView::SendRepositories(
                Seq::new(repositories.len(), |i: int| repository_url(repositories[i])),
            )
        },
    }
}

fn repository_urls(repositories: &Vec<String>) -> (urls: Vec<String>)
    ensures
        text_views(urls@) == Seq::new(
            repositories@.len(),
            |i: int| repository_url(text_views(repositories@)[i]),
        ),
{
    let mut urls: Vec<String> = Vec::new();
    let mut i: usize = 0;
    while i < repositories.len()
        invariant
            i <= repositories@.len(),
            urls@.len() == i,
            forall|j: int| 0 <= j < i ==> (#[trigger] urls@[j])@ == repository_url(repositories@[j]@),
        decreases repositories@.len() - i,
    {
        urls.push(
            replace_all(repositories[i].as_str(), "https://api.github.com/repos/", "https://github.com/"),
        );
        i += 1;
    }
    assert(text_views(urls@) =~= Seq::new(
        repositories@.len(),
        |i: int| repository_url(text_views(repositories@)[i]),
    ));
    urls
}

impl SearchState {
    /// A search that begins at `start_page` and stops before `end_page`,
    /// if one is given.
    pub fn new(start_page: u64, end_page: Option<u64>) -> (s: SearchState)
        ensures
            s == (SearchState { start_page, end_page, page: start_page, collected_all: false }),
    {
        SearchState { start_page, end_page, page: start_page, collected_all: false }
    }

    /// The page to ask for next, if the search goes on.
    pub fn next_page(&self) -> (page: Option<u64>)
        ensures
            page == wanted_page(*self),
    {
        if self.collected_all {
            None
        } else {
            match self.end_page {
                Some(end) => if self.page < end {
                    Some(self.page)
                } else {
                    None
                },
                None => Some(self.page),
            }
        }
    }

    /// Takes the answer to the request for the current page: moves the
    /// search on and says what is to be done before the next request.
    pub fn step(&mut self, event: SearchEvent) -> (action: SearchAction)
        ensures
            *final(self) == state_after(*old(self), event@),
            action@ == action_after(*old(self), event@),
    {
        match event {
            SearchEvent::RateLimited { duration } => {
                if self.page == self.start_page && duration == 60 {
                    SearchAction::Abort
                } else if duration <= u64::MAX - 2 {
                    SearchAction::Wait { seconds: duration + 2 }
                } else {
                    SearchAction::Wait { seconds: u64::MAX }
                }
            },
            SearchEvent::HttpError { status, shown, error } => {
                let said = chars_of(error.as_str());
                let notice = chars_of("Cannot access beyond the first 1000 results");
                if status == 422 && holds_text(said.as_slice(), notice.as_slice()) {
                    self.collected_all = true;
                    SearchAction::Continue
                } else {
                    let mut message = "HTTP Error: ".to_owned();
                    message.append(shown.as_str());
                    message.append(" ");
                    message.append(error.as_str());
                    SearchAction::SendError(message)
                }
            },
            SearchEvent::Failed => {
                self.collected_all = true;
                SearchAction::SendError("unknown error while fetching".to_owned())
            },
            SearchEvent::Page { repositories } => {
                if repositories.len() == 0 {
                    self.collected_all = true;
                    SearchAction::Continue
                } else {
                    if self.page < u64::MAX {
                        self.page = self.page + 1;
                    }
                    SearchAction::SendRepositories(repository_urls(&repositories))
                }
            },
        }
    }
}

} // verus!
