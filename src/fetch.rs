use vstd::prelude::*;

use crate::parameter::Parameter;

verus! {

/// One call to the store: list the parameters under `path`, descending into
/// sub-paths and decrypting secret values, from the page that `next_token`
/// points to (the first page when it is `None`).
pub struct PageRequest {
    pub path: String,
    pub recursive: bool,
    pub with_decryption: bool,
    pub next_token: Option<String>,
}

/// One page that the store returned: its parameters, and the cursor of the
/// next page when there is one.
pub struct Page {
    pub parameters: Vec<Parameter>,
    pub next_token: Option<String>,
}

/// A failed page request, with the path that was being read.
pub struct FetchError {
    pub path: String,
    pub cause: String,
}

impl FetchError {
    /// A line for the user: what failed, on which path, and why.
    pub fn message(&self) -> (r: String)
        ensures
            r@ == "Retrieving parameters failed for path "@ + self.path@ + ": "@
                + self.cause@,
    {
        let mut r = String::from_str("Retrieving parameters failed for path ");
        r.append(self.path.as_str());
        r.append(": ");
        r.append(self.cause.as_str());
        r
    }
}

#[derive(PartialEq, Eq, Structural, Clone, Copy, Debug)]
pub enum FetchStatus {
    /// A page request is outstanding.
    Running,
    /// The last page has come in; the parameters can be taken.
    Done,
    /// A page request failed; nothing is handed out.
    Failed,
}

/// What a fetch has seen so far.
pub ghost struct FetchState {
    pub path: Seq<char>,
    pub collected: Seq<Parameter>,
    pub cursor: Option<Seq<char>>,
    pub status: FetchStatus,
}

pub open spec fn opt_view(o: Option<String>) -> Option<Seq<char>> {
    match o {
        Some(s) => Some(s@),
        None => None,
    }
}

/// The state before the first page.
pub open spec fn start_state(path: Seq<char>) -> FetchState {
    FetchState { path, collected: Seq::empty(), cursor: None, status: FetchStatus::Running }
}

/// The state after `page` came in: its parameters are added, and the fetch
/// goes on exactly when the page has a next cursor.
pub open spec fn page_state(s: FetchState, page: Page) -> FetchState {
    FetchState {
        path: s.path,
        collected: s.collected + page.parameters@,
        cursor: opt_view(page.next_token),
        status: if page.next_token is Some {
            FetchStatus::Running
        } else {
            FetchStatus::Done
        },
    }
}

/// The state after a page request failed.
pub open spec fn failed_state(s: FetchState) -> FetchState {
    FetchState { status: FetchStatus::Failed, ..s }
}

/// The state after `pages` came in, in order.
pub open spec fn after_pages(s: FetchState, pages: Seq<Page>) -> FetchState
    decreases pages.len(),
{
    if pages.len() == 0 {
        s
    } else {
        page_state(after_pages(s, pages.drop_last()), pages.last())
    }
}

/// The parameters of `pages`, one page after the other.
pub open spec fn all_parameters(pages: Seq<Page>) -> Seq<Parameter>
    decreases pages.len(),
{
    if pages.len() == 0 {
        Seq::empty()
    } else {
        all_parameters(pages.drop_last()) + pages.last().parameters@
    }
}

/// `r` asks for the next page of the fetch in state `s`.
pub open spec fn requests_next(r: PageRequest, s: FetchState) -> bool {
    &&& r.path@ == s.path
    &&& r.recursive
    &&& r.with_decryption
    &&& opt_view(r.next_token) == s.cursor
}

/// Every page but the last carries a cursor, and the last carries none.
pub open spec fn chained(pages: Seq<Page>) -> bool {
    &&& pages.len() >= 1
    &&& forall|i: int| 0 <= i < pages.len() - 1 ==> (#[trigger] pages[i]).next_token is Some
    &&& pages.last().next_token is None
}

proof fn lemma_after_prefix(path: Seq<char>, pages: Seq<Page>, k: int)
    requires
        0 <= k <= pages.len(),
        forall|i: int| 0 <= i < k ==> (#[trigger] pages[i]).next_token is Some,
    ensures
        after_pages(start_state(path), pages.take(k)).path == path,
        after_pages(start_state(path), pages.take(k)).collected == all_parameters(pages.take(k)),
        after_pages(start_state(path), pages.take(k)).status == FetchStatus::Running,
        k == 0 ==> after_pages(start_state(path), pages.take(k)).cursor is None,
        k > 0 ==> after_pages(start_state(path), pages.take(k)).cursor == opt_view(pages[k - 1].next_token),
    decreases k,
{
    if k > 0 {
        assert(pages.take(k).drop_last() =~= pages.take(k - 1));
        lemma_after_prefix(path, pages, k - 1);
    }
}

/// A fetch over pages chained by their cursors asks for exactly as many pages
/// as there are: before each page it is still running and asks with the
/// previous page's cursor, and after the last it is done. What it then holds
/// is the parameters of all pages, one page after the other.
pub proof fn lemma_pagination_complete(path: Seq<char>, pages: Seq<Page>)
    requires
        chained(pages),
    ensures
        forall|k: int| 0 <= k < pages.len() ==> (#[trigger] after_pages(start_state(path), pages.take(k))).status
            == FetchStatus::Running,
        after_pages(start_state(path), pages.take(0)).cursor is None,
        forall|k: int| 0 < k < pages.len() ==> (#[trigger] after_pages(start_state(path), pages.take(k))).cursor
            == opt_view(pages[k - 1].next_token),
        after_pages(start_state(path), pages).status == FetchStatus::Done,
        after_pages(start_state(path), pages).collected == all_parameters(pages),
        after_pages(start_state(path), pages).path == path,
{
    let n = pages.len() as int;
    assert forall|k: int| 0 <= k < n implies (#[trigger] after_pages(start_state(path), pages.take(k))).status
        == FetchStatus::Running && (k > 0 ==> after_pages(start_state(path), pages.take(k)).cursor
        == opt_view(pages[k - 1].next_token)) by {
        lemma_after_prefix(path, pages, k);
    }
    lemma_after_prefix(path, pages, 0);
    lemma_after_prefix(path, pages, n - 1);
    assert(pages.drop_last() =~= pages.take(n - 1));
    assert(all_parameters(pages.take(n - 1)) == all_parameters(pages.drop_last()));
}

/// A page request that fails, after any number of pages that each pointed to
/// a next one, ends the fetch as failed: it is then neither running (no
/// further request) nor done (no parameters are handed out).
pub proof fn lemma_failure_propagates(path: Seq<char>, pages: Seq<Page>)
    requires
        forall|i: int| 0 <= i < pages.len() ==> (#[trigger] pages[i]).next_token is Some,
    ensures
        after_pages(start_state(path), pages).status == FetchStatus::Running,
        failed_state(after_pages(start_state(path), pages)).status == FetchStatus::Failed,
{
    lemma_after_prefix(path, pages, pages.len() as int);
    assert(pages.take(pages.len() as int) =~= pages);
}

/// The fetch of all parameters under one path, one page at a time.
///
/// The caller sends each request that this hands out and passes back what the
/// store answered, until the fetch is done or has failed.
pub struct ParameterFetch {
    path: String,
    collected: Vec<Parameter>,
    cursor: Option<String>,
    status: FetchStatus,
}

impl View for ParameterFetch {
    type V = FetchState;

    closed spec fn view(&self) -> FetchState {
        FetchState {
            path: self.path@,
            collected: self.collected@,
            cursor: opt_view(self.cursor),
            status: self.status,
        }
    }
}

fn clone_opt(o: &Option<String>) -> (r: Option<String>)
    ensures
        r == *o,
{
    match o {
        Some(s) => Some(s.clone()),
        None => None,
    }
}

impl ParameterFetch {
    pub fn new(path: &str) -> (r: ParameterFetch)
        ensures
            r@ == start_state(path@),
    {
        ParameterFetch {
            path: String::from_str(path),
            collected: Vec::new(),
            cursor: None,
            status: FetchStatus::Running,
        }
    }

    pub fn status(&self) -> (r: FetchStatus)
        ensures
            r == self@.status,
    {
        self.status
    }

    /// The request for the next page.
    pub fn request(&self) -> (r: PageRequest)
        requires
            self@.status == FetchStatus::Running,
        ensures
            requests_next(r, self@),
    {
        PageRequest {
            path: self.path.clone(),
            recursive: true,
            with_decryption: true,
            next_token: clone_opt(&self.cursor),
        }
    }

    /// Takes in a page; returns the request for the next one, or `None` when
    /// this was the last.
    pub fn on_page(&mut self, page: Page) -> (r: Option<PageRequest>)
        requires
            old(self)@.status == FetchStatus::Running,
        ensures
            final(self)@ == page_state(old(self)@, page),
            r is Some <==> final(self)@.status == FetchStatus::Running,
            r matches Some(req) ==> requests_next(req, final(self)@),
    {
        let mut page = page;
        self.collected.append(&mut page.parameters);
        self.cursor = page.next_token;
        if self.cursor.is_some() {
            self.status = FetchStatus::Running;
            Some(self.request())
        } else {
            self.status = FetchStatus::Done;
            None
        }
    }

    /// Takes in the failure of a page request. The fetch ends, and what was
    /// collected is never handed out.
    pub fn on_failure(&mut self, cause: String) -> (r: FetchError)
        requires
            old(self)@.status == FetchStatus::Running,
        ensures
            final(self)@ == failed_state(old(self)@),
            r.path@ == old(self)@.path,
            r.cause == cause,
    {
        self.status = FetchStatus::Failed;
        FetchError { path: self.path.clone(), cause }
    }

    /// The parameters of all pages, in the order they came.
    pub fn into_parameters(self) -> (r: Vec<Parameter>)
        requires
            self@.status == FetchStatus::Done,
        ensures
            r@ == self@.collected,
    {
        self.collected
    }
}

} // verus!
