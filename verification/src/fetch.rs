//! Fetching the images of a page range.

use crate::album::Image;
use vstd::prelude::*;

verus! {

/// Passing over the pages before the first wanted one.
pub struct PageSkip {
    left: usize,
}

/// How many pages precede a page, counted from one.
pub open spec fn pages_before(start: nat) -> nat {
    if start <= 1 {
        0
    } else {
        (start - 1) as nat
    }
}

/// How many pages are left to pass over once a page was asked for.
pub open spec fn skip_step(left: nat, present: bool) -> nat
    recommends
        left > 0,
{
    if present {
        (left - 1) as nat
    } else {
        0
    }
}

impl PageSkip {
    /// How many pages are left to pass over.
    pub closed spec fn left(self) -> nat {
        self.left as nat
    }

    /// Passes over the pages before page `start`.
    pub fn new(start: usize) -> (r: Self)
        ensures
            r.left() == pages_before(start as nat),
    {
        PageSkip { left: if start <= 1 { 0 } else { start - 1 } }
    }

    /// Whether another page is to be passed over.
    pub fn pending(&self) -> (r: bool)
        ensures
            r == (self.left() > 0),
    {
        self.left > 0
    }

    /// Takes note of whether there was another page to pass over; at the end
    /// of the gallery nothing is left to pass over.
    pub fn pulled(&mut self, present: bool)
        requires
            old(self).left() > 0,
        ensures
            final(self).left() == skip_step(old(self).left(), present),
    {
        if present {
            self.left = self.left - 1;
        } else {
            self.left = 0;
        }
    }
}

/// What of a gallery is left once the pages to pass over were asked for.
pub open spec fn skip_run<A>(left: nat, pages: Seq<A>) -> Seq<A>
    decreases left,
{
    if left == 0 {
        pages
    } else {
        skip_run(
            skip_step(left, pages.len() > 0),
            if pages.len() > 0 {
                pages.skip(1)
            } else {
                pages
            },
        )
    }
}

/// Passing over pages drops exactly as many, or all where there are fewer.
pub proof fn law_skip<A>(left: nat, pages: Seq<A>)
    ensures
        skip_run(left, pages) == pages.skip(
            if left <= pages.len() {
                left as int
            } else {
                pages.len() as int
            },
        ),
    decreases left,
{
    if left == 0 {
        assert(pages.skip(0) =~= pages);
    } else if pages.len() > 0 {
        law_skip((left - 1) as nat, pages.skip(1));
        let n = if left <= pages.len() {
            left as int
        } else {
            pages.len() as int
        };
        assert(pages.skip(1).skip(n - 1) =~= pages.skip(n));
    } else {
        assert(skip_run(0, pages) == pages);
        assert(pages.skip(0) =~= pages);
    }
}

/// What a range fetch needs next.
#[derive(Clone, Copy, Debug, PartialEq, Eq, Structural)]
pub enum FetchStep {
    /// The next page of the gallery, if there is one.
    Pull,
    /// The image of the page that was pulled.
    Fetch,
    /// Nothing: the range is fetched.
    Finished,
}

/// Where a range fetch stands.
pub struct FetchState {
    pub index: nat,
    pub end: nat,
    pub images: Seq<Image>,
    pub step: FetchStep,
}

/// The state after it is known whether there is another page.
pub open spec fn fetch_pulled(s: FetchState, present: bool) -> FetchState {
    if present && s.index <= s.end {
        FetchState { step: FetchStep::Fetch, ..s }
    } else {
        FetchState { step: FetchStep::Finished, ..s }
    }
}

/// The state after a page's image came, or failed to.
pub open spec fn fetch_fetched<SE>(s: FetchState, r: Result<Image, SE>) -> FetchState {
    FetchState {
        index: s.index + 1,
        images: match r {
            Ok(image) => s.images.push(image),
            Err(_) => s.images,
        },
        step: FetchStep::Pull,
        ..s
    }
}

/// A fetch of the pages of a range. Pages whose image fails are left out.
pub struct FetchRun {
    current_idx: usize,
    end_page: usize,
    images: Vec<Image>,
    step: FetchStep,
}

impl View for FetchRun {
    type V = FetchState;

    closed spec fn view(&self) -> FetchState {
        FetchState {
            index: self.current_idx as nat,
            end: self.end_page as nat,
            images: self.images@,
            step: self.step,
        }
    }
}

/// The state in which a range fetch begins.
pub open spec fn fetch_start(start: nat, end: nat) -> FetchState {
    FetchState { index: start, end, images: Seq::empty(), step: FetchStep::Pull }
}

impl FetchRun {
    /// Fetches the pages from `start_page` to `end_page`, both included.
    pub fn new(start_page: usize, end_page: usize) -> (r: Self)
        ensures
            r@ == fetch_start(start_page as nat, end_page as nat),
    {
        FetchRun { current_idx: start_page, end_page, images: Vec::new(), step: FetchStep::Pull }
    }

    /// What is needed next.
    pub fn step(&self) -> (r: FetchStep)
        ensures
            r == self@.step,
    {
        self.step
    }

    /// The number of the page that is pulled or fetched next.
    pub fn current_page(&self) -> (r: usize)
        ensures
            r == self@.index,
    {
        self.current_idx
    }

    /// Takes note of whether there is another page.
    pub fn pulled(&mut self, present: bool)
        requires
            old(self)@.step == FetchStep::Pull,
        ensures
            final(self)@ == fetch_pulled(old(self)@, present),
    {
        if present && self.current_idx <= self.end_page {
            self.step = FetchStep::Fetch;
        } else {
            self.step = FetchStep::Finished;
        }
    }

    /// Takes a page's image, or that it failed.
    pub fn fetched<SE>(&mut self, r: Result<Image, SE>)
        requires
            old(self)@.step == FetchStep::Fetch,
            old(self)@.index < usize::MAX,
        ensures
            final(self)@ == fetch_fetched(old(self)@, r),
    {
        if let Ok(image) = r {
            self.images.push(image);
        }
        self.current_idx = self.current_idx + 1;
        self.step = FetchStep::Pull;
    }

    /// The images that were fetched, in order.
    pub fn finish(self) -> (r: Vec<Image>)
        ensures
            r@ == self@.images,
    {
        self.images
    }
}

/// The images among what a gallery's pages gave.
pub open spec fn fetched_images<SE>(pages: Seq<Result<Image, SE>>) -> Seq<Image>
    decreases pages.len(),
{
    if pages.len() == 0 {
        Seq::empty()
    } else {
        let before = fetched_images(pages.drop_last());
        match pages.last() {
            Ok(image) => before.push(image),
            Err(_) => before,
        }
    }
}

/// The state in which a range fetch ends, on a gallery whose remaining pages
/// give the results `pages`.
pub open spec fn fetch_run<SE>(s: FetchState, pages: Seq<Result<Image, SE>>) -> FetchState
    decreases
            pages.len(),
            (if s.step == FetchStep::Pull {
                2nat
            } else if s.step == FetchStep::Fetch {
                1nat
            } else {
                0nat
            }),
{
    match s.step {
        FetchStep::Pull => fetch_run(fetch_pulled(s, pages.len() > 0), pages),
        FetchStep::Fetch => if pages.len() > 0 {
            fetch_run(fetch_fetched(s, pages[0]), pages.skip(1))
        } else {
            s
        },
        FetchStep::Finished => s,
    }
}

proof fn lemma_fetched_images_first<SE>(pages: Seq<Result<Image, SE>>)
    requires
        pages.len() > 0,
    ensures
        fetched_images(pages) == (match pages[0] {
            Ok(image) => seq![image],
            Err(_) => Seq::<Image>::empty(),
        }) + fetched_images(pages.skip(1)),
    decreases pages.len(),
{
    let head = match pages[0] {
        Ok(image) => seq![image],
        Err(_) => Seq::<Image>::empty(),
    };
    if pages.len() == 1 {
        assert(pages.drop_last() =~= Seq::<Result<Image, SE>>::empty());
        assert(pages.skip(1) =~= Seq::<Result<Image, SE>>::empty());
        assert(fetched_images(pages) =~= head + fetched_images(pages.skip(1)));
    } else {
        lemma_fetched_images_first(pages.drop_last());
        assert(pages.drop_last().skip(1) =~= pages.skip(1).drop_last());
        assert(pages.skip(1).last() == pages.last());
        assert(fetched_images(pages) =~= head + fetched_images(pages.skip(1)));
    }
}

/// How many of `available` pages lie in a range that starts with the first of
/// them.
pub open spec fn range_len(start: nat, end: nat, available: nat) -> nat {
    if end < start {
        0
    } else if end + 1 - start <= available {
        (end + 1 - start) as nat
    } else {
        available
    }
}

/// A range fetch ends, and with exactly those images of the pages in the range
/// that could be fetched, in order.
pub proof fn law_fetch_run<SE>(s: FetchState, pages: Seq<Result<Image, SE>>)
    requires
        s.step == FetchStep::Pull,
    ensures
        fetch_run(s, pages).step == FetchStep::Finished,
        fetch_run(s, pages).images == s.images + fetched_images(
            pages.take(range_len(s.index, s.end, pages.len()) as int),
        ),
    decreases pages.len(),
{
    let n = range_len(s.index, s.end, pages.len());
    let t = fetch_pulled(s, pages.len() > 0);
    if pages.len() > 0 && s.index <= s.end {
        let u = fetch_fetched(t, pages[0]);
        law_fetch_run(u, pages.skip(1));
        let inner = range_len(u.index, u.end, pages.skip(1).len());
        assert(inner == n - 1);
        lemma_fetched_images_first(pages.take(n as int));
        assert(pages.take(n as int).skip(1) =~= pages.skip(1).take(inner as int));
        assert(fetch_run(t, pages) == fetch_run(u, pages.skip(1)));
        assert(fetch_run(s, pages) == fetch_run(t, pages));
        assert(fetch_run(s, pages).images =~= s.images + fetched_images(pages.take(n as int)));
    } else {
        assert(pages.take(n as int) =~= Seq::<Result<Image, SE>>::empty());
        assert(fetch_run(t, pages) == t);
        assert(fetch_run(s, pages).images =~= s.images + fetched_images(pages.take(n as int)));
    }
}

/// Fetching the pages `start` to `end` of a gallery, counted from one, gives
/// the images of exactly those pages that could be fetched, in order.
pub proof fn law_fetch_range<SE>(start: nat, end: nat, pages: Seq<Result<Image, SE>>)
    requires
        1 <= start <= end,
    ensures
        ({
            let rest = skip_run(pages_before(start), pages);
            let first = if start - 1 <= pages.len() {
                start - 1
            } else {
                pages.len() as int
            };
            let last = if end <= pages.len() {
                end as int
            } else {
                pages.len() as int
            };
            fetch_run(fetch_start(start, end), rest).images == fetched_images(
                pages.subrange(first, last),
            )
        }),
{
    law_skip(pages_before(start), pages);
    let rest = skip_run(pages_before(start), pages);
    law_fetch_run(fetch_start(start, end), rest);
    let first = if start - 1 <= pages.len() {
        start - 1
    } else {
        pages.len() as int
    };
    let last = if end <= pages.len() {
        end as int
    } else {
        pages.len() as int
    };
    let n = range_len(start, end, rest.len());
    assert(rest.take(n as int) =~= pages.subrange(first, last));
    assert(Seq::<Image>::empty() + fetched_images(rest.take(n as int)) =~= fetched_images(
        rest.take(n as int),
    ));
}

/// What a page gave is kept where it is an image and left out where it failed.
pub proof fn law_fetched_images<SE>(pages: Seq<Result<Image, SE>>, r: Result<Image, SE>)
    ensures
        fetched_images(Seq::<Result<Image, SE>>::empty()).len() == 0,
        r matches Ok(image) ==> fetched_images(pages.push(r)) == fetched_images(pages).push(image),
        r is Err ==> fetched_images(pages.push(r)) == fetched_images(pages),
{
    assert(pages.push(r).drop_last() =~= pages);
}

/// A page is fetched where there is one and its number is in the range; whatever
/// comes of it, the page after it is the next.
pub proof fn law_fetch_steps<SE>(s: FetchState, present: bool, r: Result<Image, SE>)
    ensures
        ({
            let p = fetch_pulled(s, present);
            let f = fetch_fetched(s, r);
            &&& p.step == (if present && s.index <= s.end {
                FetchStep::Fetch
            } else {
                FetchStep::Finished
            })
            &&& p.index == s.index && p.end == s.end && p.images == s.images
            &&& f.step == FetchStep::Pull && f.index == s.index + 1 && f.end == s.end
            &&& r matches Ok(image) ==> f.images == s.images.push(image)
            &&& r is Err ==> f.images == s.images
        }),
{
}

/// Before the first page nothing is passed over, before any other page all the
/// pages with smaller numbers.
pub proof fn law_pages_before(n: nat)
    ensures
        pages_before(0) == 0,
        pages_before(n + 1) == n,
{
}

/// A range holds as many of the available pages as there are numbers from its
/// first to its last.
pub proof fn law_range_len(start: nat, end: nat, available: nat)
    ensures
        end < start ==> range_len(start, end, available) == 0,
        range_len(start, end, available) <= available,
        start <= end ==> range_len(start, end, available) <= end - start + 1,
        start <= end && range_len(start, end, available) < available ==> range_len(
            start,
            end,
            available,
        ) == end - start + 1,
{
}

} // verus!
