//! Which pages of the log to request.
//!
//! The server answers a request for the log from an index with one page: some
//! batches and the length of the whole log. A [`Fetch`] keeps what has come so
//! far and says after each page whether another request is due. The caller
//! sends the requests, one at a time, and hands each page back.
//!
//! Another page is requested while the batches received, counted from the
//! start index, stay below the log length that the latest page reports. A page
//! without batches ends the fetch whatever it reports: asking again from the
//! same index would make no progress. The log length handed out at the end
//! is that of the first page. A request that fails, or an answer that cannot
//! be decoded, ends the fetch with that error and nothing else.

use crate::tasks::{log_events, snapshots, Error, HistoryApiResponse, HistoryItem};
use vstd::prelude::*;

verus! {

/// The character that writes a number below ten.
pub open spec fn digit(d: nat) -> char {
    if d == 0 {
        '0'
    } else if d == 1 {
        '1'
    } else if d == 2 {
        '2'
    } else if d == 3 {
        '3'
    } else if d == 4 {
        '4'
    } else if d == 5 {
        '5'
    } else if d == 6 {
        '6'
    } else if d == 7 {
        '7'
    } else if d == 8 {
        '8'
    } else {
        '9'
    }
}

/// A number written in decimal digits, without leading zeros.
pub open spec fn decimal(n: nat) -> Seq<char>
    decreases n,
{
    if n < 10 {
        seq![digit(n)]
    } else {
        decimal(n / 10).push(digit(n % 10))
    }
}

/// `ToString::to_string` of `usize`: the number in decimal digits.
#[verifier::external_body]
pub(crate) fn decimal_string(n: usize) -> (text: String)
    ensures
        text@ == decimal(n as nat),
{
    n.to_string()
}

/// The address from which the server answers the log of the history `key`
/// from `index`.
pub open spec fn history_url(key: Seq<char>, index: nat) -> Seq<char> {
    "https://cloud.culturedcode.com/version/1/history/"@ + key + "/items?start-index="@ + decimal(
        index,
    )
}

/// The address to request for the page of the history `key` that starts at `index`.
pub fn request_url(key: &str, index: usize) -> (url: String)
    ensures
        url@ == history_url(key@, index as nat),
{
    let number = decimal_string(index);
    String::from_str("https://cloud.culturedcode.com/version/1/history/").concat(key).concat(
        "/items?start-index=",
    ).concat(number.as_str())
}

/// A page as the fetch sees it.
pub struct Page {
    pub last_index: usize,
    pub items: Seq<Vec<(String, HistoryItem)>>,
}

impl View for HistoryApiResponse {
    type V = Page;

    open spec fn view(&self) -> Page {
        Page { last_index: self.last_index, items: self.items@ }
    }
}

/// A fetch under way: where the next page starts, the log length that the
/// first page reported, and the batches of the pages so far.
#[derive(Debug)]
pub struct Fetch {
    pub next_index: usize,
    pub first_total: Option<usize>,
    pub items: Vec<Vec<(String, HistoryItem)>>,
}

pub struct FetchState {
    pub next_index: int,
    pub first_total: Option<usize>,
    pub items: Seq<Vec<(String, HistoryItem)>>,
}

impl View for Fetch {
    type V = FetchState;

    open spec fn view(&self) -> FetchState {
        FetchState {
            next_index: self.next_index as int,
            first_total: self.first_total,
            items: self.items@,
        }
    }
}

/// What is due after an answer: a request from `next_index` of the fetch, or
/// nothing more, the log being complete or the fetch having failed.
#[derive(Debug)]
pub enum FetchStep {
    Request(Fetch),
    Done(HistoryApiResponse),
    Failed(Error),
}

pub enum Progress {
    Request(FetchState),
    Done(Page),
    Failed(Error),
}

impl View for FetchStep {
    type V = Progress;

    open spec fn view(&self) -> Progress {
        match self {
            FetchStep::Request(fetch) => Progress::Request(fetch@),
            FetchStep::Done(history) => Progress::Done(history@),
            FetchStep::Failed(error) => Progress::Failed(*error),
        }
    }
}

/// The fetch from `index` before its first page.
pub open spec fn begun(index: int) -> FetchState {
    FetchState { next_index: index, first_total: None, items: Seq::empty() }
}

/// Whether the log goes on after a page that was requested from `index`.
pub open spec fn wants_more(index: int, page: Page) -> bool {
    page.items.len() > 0 && index + page.items.len() < page.last_index
}

/// The log length that a fetch hands out once `page` has come.
pub open spec fn total_with(state: FetchState, page: Page) -> usize {
    match state.first_total {
        Some(total) => total,
        None => page.last_index,
    }
}

/// What is due after `page` has come to a fetch in `state`.
pub open spec fn step(state: FetchState, page: Page) -> Progress {
    if wants_more(state.next_index, page) {
        Progress::Request(
            FetchState {
                next_index: state.next_index + page.items.len(),
                first_total: Some(total_with(state, page)),
                items: state.items + page.items,
            },
        )
    } else {
        Progress::Done(
            Page { last_index: total_with(state, page), items: state.items + page.items },
        )
    }
}

/// What is due after the pages have come, one after the other, to a fetch
/// from `start`. Pages that come after the log is complete change nothing.
pub open spec fn feed(start: int, pages: Seq<Page>) -> Progress
    decreases pages.len(),
{
    if pages.len() == 0 {
        Progress::Request(begun(start))
    } else {
        match feed(start, pages.drop_last()) {
            Progress::Request(state) => step(state, pages.last()),
            Progress::Done(page) => Progress::Done(page),
            Progress::Failed(error) => Progress::Failed(error),
        }
    }
}

/// The pages as the fetch sees them.
pub open spec fn page_views(pages: Seq<HistoryApiResponse>) -> Seq<Page> {
    Seq::new(pages.len(), |i: int| pages[i]@)
}

/// The batches of the pages, page after page.
pub open spec fn all_items(pages: Seq<Page>) -> Seq<Vec<(String, HistoryItem)>>
    decreases pages.len(),
{
    if pages.len() == 0 {
        Seq::empty()
    } else {
        all_items(pages.drop_last()) + pages.last().items
    }
}

impl Fetch {
    /// A fetch of the log from `index`. Its first request is due from `index`.
    pub fn begin(index: usize) -> (fetch: Fetch)
        ensures
            fetch@ == begun(index as int),
    {
        Fetch { next_index: index, first_total: None, items: Vec::new() }
    }

    /// Takes the page that answers the request from `next_index`.
    pub fn on_page(self, page: HistoryApiResponse) -> (next: FetchStep)
        ensures
            next@ == step(self@, page@),
    {
        let HistoryApiResponse { last_index, items: mut batches } = page;
        let Fetch { next_index, first_total, mut items } = self;
        let count: usize = batches.len();
        let more = count > 0 && last_index > next_index && last_index - next_index > count;
        let total = match first_total {
            Some(total) => total,
            None => last_index,
        };
        items.append(&mut batches);
        if more {
            FetchStep::Request(
                Fetch { next_index: next_index + count, first_total: Some(total), items },
            )
        } else {
            FetchStep::Done(HistoryApiResponse { last_index: total, items })
        }
    }

    /// Takes the answer to the request from `next_index`: a page, or the
    /// error that stands in its place. An error ends the fetch at once, and
    /// nothing of the pages before it is handed out.
    pub fn on_answer(self, answer: Result<HistoryApiResponse, Error>) -> (next: FetchStep)
        ensures
            match answer {
                Ok(page) => next@ == step(self@, page@),
                Err(error) => next == FetchStep::Failed(error),
            },
    {
        match answer {
            Ok(page) => self.on_page(page),
            Err(error) => FetchStep::Failed(error),
        }
    }

    /// Runs a fetch from `start` on pages that are already at hand, in the
    /// order in which the server gave them. Pages beyond the one that
    /// completes the log are left aside.
    pub fn replay(start: usize, pages: Vec<HistoryApiResponse>) -> (next: FetchStep)
        ensures
            next@ == feed(start as int, page_views(pages@)),
    {
        let mut current = FetchStep::Request(Fetch::begin(start));
        assert(page_views(pages@).take(0) =~= Seq::empty());
        for page in iter: pages
            invariant
                iter.seq() == pages@,
                current@ == feed(start as int, page_views(pages@).take(iter.index() as int)),
        {
            proof {
                let k = iter.index() as int;
                assert(page_views(pages@).take(k + 1).drop_last() =~= page_views(pages@).take(k));
                assert(page_views(pages@).take(k + 1).last() == page@);
            }
            current =
            match current {
                FetchStep::Request(fetch) => fetch.on_page(page),
                other => other,
            };
        }
        assert(page_views(pages@).take(pages@.len() as int) =~= page_views(pages@));
        current
    }
}

/// While a fetch goes on it holds the batches of all its pages in order,
/// stands behind the last of them, and remembers the log length of the first.
pub proof fn lemma_fetch_keeps_pages(start: int, pages: Seq<Page>)
    ensures
        match feed(start, pages) {
            Progress::Request(state) => {
                &&& state.items == all_items(pages)
                &&& state.next_index == start + all_items(pages).len()
                &&& state.first_total == if pages.len() == 0 {
                    None
                } else {
                    Some(pages[0].last_index)
                }
            },
            Progress::Done(_) => pages.len() > 0,
            Progress::Failed(_) => false,
        },
    decreases pages.len(),
{
    if pages.len() > 0 {
        lemma_fetch_keeps_pages(start, pages.drop_last());
        if pages.len() > 1 {
            assert(pages.drop_last()[0] == pages[0]);
        }
    }
}

/// Paging does not show in the result. If a fetch from `start` ends with the
/// last of `pages`, it hands out the batches of all the pages in order, with
/// the log length of the first page. However the batches were split into
/// pages, the log folds into the snapshots of the batches put together.
pub proof fn lemma_paging_is_invisible(start: int, pages: Seq<Page>)
    requires
        pages.len() > 0,
        feed(start, pages.drop_last()) is Request,
        feed(start, pages) is Done,
    ensures
        feed(start, pages)->Done_0.items == all_items(pages),
        feed(start, pages)->Done_0.last_index == pages[0].last_index,
        snapshots(log_events(feed(start, pages)->Done_0.items)) == snapshots(
            log_events(all_items(pages)),
        ),
{
    lemma_fetch_keeps_pages(start, pages.drop_last());
    if pages.len() > 1 {
        assert(pages.drop_last()[0] == pages[0]);
    }
}

/// A fetch ends only where the pages reach the log length that the last of
/// them reports, or where the last page holds no batch.
pub proof fn lemma_fetch_ends_complete(start: int, pages: Seq<Page>)
    requires
        pages.len() > 0,
        feed(start, pages.drop_last()) is Request,
        feed(start, pages) is Done,
    ensures
        pages.last().items.len() == 0 || start + all_items(pages).len()
            >= pages.last().last_index,
{
    lemma_fetch_keeps_pages(start, pages.drop_last());
}

/// A fetch that goes on has moved forward, and stays below the log length
/// that the page reported.
pub proof fn lemma_fetch_advances(state: FetchState, page: Page)
    requires
        step(state, page) is Request,
    ensures
        state.next_index < step(state, page)->Request_0.next_index < page.last_index,
{
}

/// A page without batches ends the fetch; so does one that reports no log.
pub proof fn lemma_empty_page_ends(state: FetchState, page: Page)
    requires
        state.next_index >= 0,
        page.items.len() == 0 || page.last_index == 0,
    ensures
        step(state, page) == Progress::Done(
            Page { last_index: total_with(state, page), items: state.items + page.items },
        ),
{
}

/// A log that the server reports as empty, in a page without batches, is
/// complete after that one page and folds into no snapshot.
pub proof fn lemma_empty_log(start: int, page: Page)
    requires
        start >= 0,
        page.last_index == 0,
        page.items.len() == 0,
    ensures
        step(begun(start), page) == Progress::Done(page),
        snapshots(log_events(page.items)).len() == 0,
{
    assert(begun(start).items + page.items =~= page.items);
}

} // verus!
