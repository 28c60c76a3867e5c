//! Answering a request for a range: from the cache, or by a synchronization
//! whose page is kept for later.

use crate::pages::PageView;
use crate::telegraph::Page;
use vstd::prelude::*;

verus! {

/// Something to keep for later.
pub struct CacheEntry {
    pub key: String,
    pub value: String,
    pub ttl: Option<usize>,
}

/// Something to keep for later, as plain values.
pub struct EntryView {
    pub key: Seq<char>,
    pub value: Seq<char>,
    pub ttl: Option<usize>,
}

impl View for CacheEntry {
    type V = EntryView;

    open spec fn view(&self) -> EntryView {
        EntryView { key: self.key@, value: self.value@, ttl: self.ttl }
    }
}

/// What a request needs next.
pub enum SyncStep<E> {
    /// What the cache holds under the request's key.
    Lookup,
    /// The gallery.
    Fetch,
    /// The page that the range of the gallery becomes.
    Publish,
    /// Nothing: this is the answer, and what is to be kept.
    Finished { answer: Result<String, E>, entry: Option<CacheEntry> },
}

/// What a request needs next, as plain values.
pub enum SyncStepView<E> {
    Lookup,
    Fetch,
    Publish,
    Finished { answer: Result<Seq<char>, E>, entry: Option<EntryView> },
}

/// An answer as a plain value.
pub open spec fn answer_view<E>(answer: Result<String, E>) -> Result<Seq<char>, E> {
    match answer {
        Ok(url) => Ok(url@),
        Err(e) => Err(e),
    }
}

/// What is to be kept, if anything, as plain values.
pub open spec fn entry_view(entry: Option<CacheEntry>) -> Option<EntryView> {
    match entry {
        Some(e) => Some(e@),
        None => None,
    }
}

impl<E> View for SyncStep<E> {
    type V = SyncStepView<E>;

    open spec fn view(&self) -> SyncStepView<E> {
        match *self {
            SyncStep::Lookup => SyncStepView::Lookup,
            SyncStep::Fetch => SyncStepView::Fetch,
            SyncStep::Publish => SyncStepView::Publish,
            SyncStep::Finished { answer, entry } => SyncStepView::Finished {
                answer: answer_view(answer),
                entry: entry_view(entry),
            },
        }
    }
}

/// Where a request stands.
pub struct SyncState<E> {
    /// The path to fetch the gallery from.
    pub path: Seq<char>,
    /// The key of the page's address.
    pub key: Seq<char>,
    /// How long the address is kept.
    pub ttl: usize,
    pub step: SyncStepView<E>,
}

/// The state in which a request begins.
pub open spec fn sync_start<E>(path: Seq<char>, key: Seq<char>, ttl: usize) -> SyncState<E> {
    SyncState { path, key, ttl, step: SyncStepView::Lookup }
}

/// The state after the cache was asked: what it held is the answer.
pub open spec fn after_lookup<E>(s: SyncState<E>, found: Option<Seq<char>>) -> SyncState<E> {
    SyncState {
        step: match found {
            Some(url) => SyncStepView::Finished { answer: Ok(url), entry: None },
            None => SyncStepView::Fetch,
        },
        ..s
    }
}

/// The state after the gallery came, or failed to.
pub open spec fn after_gallery<E>(s: SyncState<E>, r: Result<(), E>) -> SyncState<E> {
    SyncState {
        step: match r {
            Ok(_) => SyncStepView::Publish,
            Err(e) => SyncStepView::Finished { answer: Err(e), entry: None },
        },
        ..s
    }
}

/// The state after the range became a page, or failed to: the page's address is
/// the answer, and is kept.
pub open spec fn after_publish<E>(s: SyncState<E>, r: Result<PageView, E>) -> SyncState<E> {
    SyncState {
        step: match r {
            Ok(page) => SyncStepView::Finished {
                answer: Ok(page.url),
                entry: Some(EntryView { key: s.key, value: page.url, ttl: Some(s.ttl) }),
            },
            Err(e) => SyncStepView::Finished { answer: Err(e), entry: None },
        },
        ..s
    }
}

/// What a lookup found; a cache that fails is as good as an empty one.
pub open spec fn lookup_view<L>(lookup: Result<Option<String>, L>) -> Option<Seq<char>> {
    match lookup {
        Ok(Some(url)) => Some(url@),
        _ => None,
    }
}

/// A page that may have failed, as a plain value.
pub open spec fn page_result_view<E>(r: Result<Page, E>) -> Result<PageView, E> {
    match r {
        Ok(page) => Ok(page@),
        Err(e) => Err(e),
    }
}

/// A request for a range of a gallery.
pub struct SyncRun<E> {
    path: String,
    cache_key: String,
    ttl: usize,
    step: SyncStep<E>,
}

impl<E> View for SyncRun<E> {
    type V = SyncState<E>;

    closed spec fn view(&self) -> SyncState<E> {
        SyncState {
            path: self.path@,
            key: self.cache_key@,
            ttl: self.ttl,
            step: self.step@,
        }
    }
}

impl<E> SyncRun<E> {
    /// A request for a range of the gallery at `path`, whose page's address is
    /// kept under `cache_key` for `ttl` seconds.
    pub fn new(path: String, cache_key: String, ttl: usize) -> (r: Self)
        ensures
            r@ == sync_start::<E>(path@, cache_key@, ttl),
    {
        SyncRun { path, cache_key, ttl, step: SyncStep::Lookup }
    }

    /// The path to fetch the gallery from.
    pub fn path(&self) -> (r: &str)
        ensures
            r@ == self@.path,
    {
        self.path.as_str()
    }

    /// The key of the page's address.
    pub fn cache_key(&self) -> (r: &str)
        ensures
            r@ == self@.key,
    {
        self.cache_key.as_str()
    }

    /// What is needed next.
    pub fn step(&self) -> (r: &SyncStep<E>)
        ensures
            r@ == self@.step,
    {
        &self.step
    }

    /// Takes what the cache gave.
    pub fn looked_up<L>(&mut self, lookup: Result<Option<String>, L>)
        requires
            old(self)@.step is Lookup,
        ensures
            final(self)@ == after_lookup(old(self)@, lookup_view(lookup)),
    {
        self.step = match lookup {
            Ok(Some(url)) => SyncStep::Finished { answer: Ok(url), entry: None },
            _ => SyncStep::Fetch,
        };
    }

    /// Takes note that the gallery came, or failed to.
    pub fn fetched(&mut self, r: Result<(), E>)
        requires
            old(self)@.step is Fetch,
        ensures
            final(self)@ == after_gallery(old(self)@, r),
    {
        self.step = match r {
            Ok(_) => SyncStep::Publish,
            Err(e) => SyncStep::Finished { answer: Err(e), entry: None },
        };
    }

    /// Takes the page that the range became, or that it failed to.
    pub fn published(&mut self, r: Result<Page, E>)
        requires
            old(self)@.step is Publish,
        ensures
            final(self)@ == after_publish(old(self)@, page_result_view(r)),
    {
        self.step = match r {
            Ok(page) => {
                let entry = CacheEntry {
                    key: self.cache_key.clone(),
                    value: page.url.clone(),
                    ttl: Some(self.ttl),
                };
                SyncStep::Finished { answer: Ok(page.url), entry: Some(entry) }
            },
            Err(e) => SyncStep::Finished { answer: Err(e), entry: None },
        };
    }

    /// The answer, and what is to be kept; nothing where the request is not
    /// finished.
    pub fn finish(self) -> (r: Option<(Result<String, E>, Option<CacheEntry>)>)
        ensures
            r is Some == (self@.step is Finished),
            r matches Some(done) ==> self@.step == (SyncStepView::Finished {
                answer: answer_view(done.0),
                entry: entry_view(done.1),
            }),
    {
        match self.step {
            SyncStep::Finished { answer, entry } => Some((answer, entry)),
            _ => None,
        }
    }
}

/// What the outside gives to a request.
pub struct Replies<E> {
    pub lookup: Option<Seq<char>>,
    pub gallery: Result<(), E>,
    pub page: Result<PageView, E>,
}

/// The state in which a request ends.
pub open spec fn sync_run<E>(s: SyncState<E>, replies: Replies<E>) -> SyncState<E>
    decreases
            (match s.step {
                SyncStepView::Lookup => 3nat,
                SyncStepView::Fetch => 2nat,
                SyncStepView::Publish => 1nat,
                SyncStepView::Finished { .. } => 0nat,
            }),
{
    match s.step {
        SyncStepView::Lookup => sync_run(after_lookup(s, replies.lookup), replies),
        SyncStepView::Fetch => sync_run(after_gallery(s, replies.gallery), replies),
        SyncStepView::Publish => sync_run(after_publish(s, replies.page), replies),
        SyncStepView::Finished { .. } => s,
    }
}

/// A request ends. What the cache holds is the answer and nothing is kept; else
/// the first failure is the answer and nothing is kept; else the address of the
/// page is the answer and is kept under the request's key.
pub proof fn law_answer<E>(path: Seq<char>, key: Seq<char>, ttl: usize, replies: Replies<E>)
    ensures
        sync_run(sync_start(path, key, ttl), replies).step == (match (
            replies.lookup,
            replies.gallery,
            replies.page,
        ) {
            (Some(url), _, _) => SyncStepView::Finished { answer: Ok(url), entry: None },
            (None, Err(e), _) => SyncStepView::Finished { answer: Err(e), entry: None },
            (None, Ok(_), Err(e)) => SyncStepView::Finished { answer: Err(e), entry: None },
            (None, Ok(_), Ok(page)) => SyncStepView::Finished {
                answer: Ok(page.url),
                entry: Some(EntryView { key, value: page.url, ttl: Some(ttl) }),
            },
        }),
{
    reveal_with_fuel(sync_run, 4);
}

/// What a cache holds under a key.
pub open spec fn held_under(cache: Map<Seq<char>, Seq<char>>, key: Seq<char>) -> Option<Seq<char>> {
    if cache.contains_key(key) {
        Some(cache[key])
    } else {
        None
    }
}

/// A cache after what is to be kept was put in.
pub open spec fn kept(cache: Map<Seq<char>, Seq<char>>, entry: Option<EntryView>) -> Map<
    Seq<char>,
    Seq<char>,
> {
    match entry {
        Some(e) => cache.insert(e.key, e.value),
        None => cache,
    }
}

/// A request that fails, and one that the cache answers, leave the cache as it
/// was. One that succeeds leaves its answer under its key, where the next request
/// finds it. What the cache holds under other keys stays in any event.
pub proof fn law_request_and_cache<E>(
    cache: Map<Seq<char>, Seq<char>>,
    path: Seq<char>,
    key: Seq<char>,
    ttl: usize,
    gallery: Result<(), E>,
    page: Result<PageView, E>,
    other: Seq<char>,
)
    ensures
        ({
            let replies = Replies { lookup: held_under(cache, key), gallery, page };
            let end = sync_run(sync_start(path, key, ttl), replies).step;
            let after = kept(cache, end->entry);
            &&& end is Finished
            &&& cache.contains_key(key) ==> end->answer == Ok::<Seq<char>, E>(cache[key]) && after
                == cache
            &&& end->answer is Err ==> after == cache
            &&& end->answer is Ok ==> held_under(after, key) == Some(end->answer->Ok_0)
            &&& other != key ==> held_under(after, other) == held_under(cache, other)
        }),
{
    law_answer(path, key, ttl, Replies { lookup: held_under(cache, key), gallery, page });
}

} // verus!
