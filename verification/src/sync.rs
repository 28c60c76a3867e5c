//! Synchronization of a gallery to pages.

use crate::album::{AlbumMeta, Image, ImageData};
use crate::answer::{sync_start, SyncRun};
use crate::collect::{
    accepted, collect_run, collect_start, end_view, law_clean_range, law_collect_range,
    law_range_breaks, placed, small_images, streak_ends, window_len, Accepted, CollectRun,
};
use crate::fetch::{fetch_start, law_skip, pages_before, skip_run, FetchRun, PageSkip};
use crate::node::{
    anchor_view, image_view, nodes_view, opt_text, paragraph_view, Node, NodeView, Tag,
};
use crate::pages::{
    flat, image_nodes_view, law_split_shows_all, parts_of, parts_view, publication_view,
    publish_next, shown_parts, split_items, split_nodes, Publication, PublishRun,
};
use crate::telegraph::{TelegraphError, MAX_SINGLE_FILE_SIZE};
use crate::text::{
    law_shown_option_injective, lemma_end_slash_ignored, lemma_end_slashes_once,
    lemma_replaced_absent, lemma_replaced_around, lemma_replaced_lacks, lemma_shown_option,
    lemma_split_unique, option_text, replace, replaced, shown_option, trim_end_slashes,
    without_end_slashes,
};
use vstd::prelude::*;

verus! {

/// Why a gallery could not be turned into a page.
pub enum UploadError<SE> {
    /// Too many images in a row could not be fetched; the last failure.
    Stream(SE),
    /// The page service failed.
    Reqwest(TelegraphError),
    /// The requested range holds no image.
    EmptyResult,
}

/// What an upload error is reported as, where `cause` is what the failure behind
/// it is reported as.
pub open spec fn upload_error_text<SE>(e: UploadError<SE>, cause: Seq<char>) -> Seq<char> {
    match e {
        UploadError::Stream(_) => "stream error "@ + cause,
        UploadError::Reqwest(_) => "telegraph error "@ + cause,
        UploadError::EmptyResult => "No images found in the specified range"@,
    }
}

impl<SE> UploadError<SE> {
    /// The text that reports the error, where `cause` is what the failure
    /// behind it is reported as.
    pub fn message(&self, cause: &str) -> (r: String)
        ensures
            r@ == upload_error_text(*self, cause@),
    {
        match self {
            UploadError::Stream(_) => "stream error ".to_string().concat(cause),
            UploadError::Reqwest(_) => "telegraph error ".to_string().concat(cause),
            UploadError::EmptyResult => "No images found in the specified range".to_string(),
        }
    }
}

impl<SE> From<TelegraphError> for UploadError<SE> {
    fn from(e: TelegraphError) -> (r: Self) {
        UploadError::Reqwest(e)
    }
}

impl<SE> vstd::std_specs::convert::FromSpecImpl<TelegraphError> for UploadError<SE> {
    open spec fn obeys_from_spec() -> bool {
        true
    }

    open spec fn from_spec(e: TelegraphError) -> Self {
        UploadError::Reqwest(e)
    }
}

/// The nodes below the images of a page: a link to the next page where there is
/// one, the origin of the page, and a link to the gallery.
pub open spec fn footer_view(original_link: Seq<char>, next_page: Option<Seq<char>>) -> Seq<
    NodeView,
> {
    let next = match next_page {
        Some(page) => seq![paragraph_view(seq![anchor_view(page, "Next Page"@)])],
        None => Seq::empty(),
    };
    next + seq![
        paragraph_view(
            seq![
                NodeView::Text("Generated by "@),
                anchor_view("https://github.com/qini7-sese/eh2telegraph"@, "eh2telegraph"@),
            ],
        ),
        paragraph_view(
            seq![
                NodeView::Text("Original link: "@),
                anchor_view(original_link, original_link),
            ],
        ),
    ]
}

fn pair(a: Node, b: Node) -> (r: Vec<Node>)
    ensures
        nodes_view(r@) == seq![a@, b@],
{
    let mut r: Vec<Node> = Vec::new();
    r.push(a);
    r.push(b);
    assert(nodes_view(r@) =~= seq![a@, b@]);
    r
}

/// Appends the footer to the content of a page.
pub fn write_footer(content: &mut Vec<Node>, original_link: &str, next_page: Option<&str>)
    ensures
        nodes_view(final(content)@) == nodes_view(old(content)@) + footer_view(
            original_link@,
            match next_page {
                Some(page) => Some(page@),
                None => None,
            },
        ),
        final(content)@.take(old(content)@.len() as int) == old(content)@,
{
    if let Some(page) = next_page {
        let mut children: Vec<Node> = Vec::new();
        children.push(Node::new_anchor(page, "Next Page"));
        assert(nodes_view(children@) =~= seq![anchor_view(page@, "Next Page"@)]);
        content.push(Node::new_paragraph(children));
    }
    content.push(
        Node::new_paragraph(
            pair(
                Node::new_text("Generated by "),
                Node::new_anchor("https://github.com/qini7-sese/eh2telegraph", "eh2telegraph"),
            ),
        ),
    );
    content.push(
        Node::new_paragraph(
            pair(
                Node::new_text("Original link: "),
                Node::new_anchor(original_link, original_link),
            ),
        ),
    );
}

/// How many images are fetched at the same time, unless it is configured.
pub const DEFAULT_CONCURRENT: usize = 20;

/// How many seconds a page's address is kept, unless it is configured.
pub const DEFAULT_CACHE_TTL: usize = 3600 * 24 * 45;

/// How galleries are synchronized.
pub struct Synchronizer {
    limit: Option<usize>,
    author_name: Option<String>,
    author_url: Option<String>,
    cache_ttl: Option<usize>,
}

/// How galleries are synchronized, as plain values.
pub struct SynchronizerView {
    pub limit: Option<usize>,
    pub author_name: Option<Seq<char>>,
    pub author_url: Option<Seq<char>>,
    pub cache_ttl: Option<usize>,
}

impl View for Synchronizer {
    type V = SynchronizerView;

    closed spec fn view(&self) -> SynchronizerView {
        SynchronizerView {
            limit: self.limit,
            author_name: opt_text(self.author_name),
            author_url: opt_text(self.author_url),
            cache_ttl: self.cache_ttl,
        }
    }
}

/// What tells a range from the whole gallery in a key.
pub open spec fn range_suffix(start: Option<usize>, end: Option<usize>) -> Seq<char> {
    if start is Some || end is Some {
        "|s:"@ + shown_option(start) + "|e:"@ + shown_option(end)
    } else {
        Seq::empty()
    }
}

fn with_range(base: String, start: Option<usize>, end: Option<usize>) -> (r: String)
    ensures
        r@ == base@ + range_suffix(start, end),
{
    if start.is_some() || end.is_some() {
        let r = base.concat("|s:").concat(option_text(start).as_str()).concat("|e:").concat(
            option_text(end).as_str(),
        );
        assert(r@ =~= base@ + range_suffix(start, end));
        r
    } else {
        assert(base@ =~= base@ + range_suffix(start, end));
        base
    }
}

/// A text in which the name of one of two sites that serve the same galleries
/// stands for either.
pub open spec fn mirrored(s: Seq<char>) -> Seq<char> {
    replaced(s, "exhentai"@, "e-hentai"@)
}

/// The key under which the address of a range's page is kept. The two sites
/// that serve the same galleries share their keys.
pub open spec fn cache_key_view(
    name: Seq<char>,
    path: Seq<char>,
    start: Option<usize>,
    end: Option<usize>,
) -> Seq<char> {
    mirrored(name + "|"@ + without_end_slashes(path) + range_suffix(start, end))
}

/// The key under which the address of a range's page is kept; `path` has no
/// slashes at its end.
fn cache_key(name: &str, path: &str, start: Option<usize>, end: Option<usize>) -> (r: String)
    requires
        path@ == without_end_slashes(path@),
    ensures
        r@ == cache_key_view(name@, path@, start, end),
{
    let key = with_range(name.to_string().concat("|").concat(path), start, end);
    proof {
        reveal_strlit("exhentai");
    }
    replace(key.as_str(), "exhentai", "e-hentai")
}

/// The key by which requests that overlap are joined: those for the same range
/// of the same address share one run. Separators in the address are doubled, so
/// that it cannot pass for an address with a range.
pub open spec fn flight_key_view(
    url: Seq<char>,
    start: Option<usize>,
    end: Option<usize>,
) -> Seq<char> {
    replaced(url, "|"@, "||"@) + range_suffix(start, end)
}

/// The key by which requests that overlap are joined.
pub fn flight_key(url: &str, start: Option<usize>, end: Option<usize>) -> (r: String)
    ensures
        r@ == flight_key_view(url@, start, end),
{
    proof {
        reveal_strlit("|");
    }
    with_range(replace(url, "|", "||"), start, end)
}

/// The synchronization of the images of a gallery.
pub struct StreamPlan {
    /// The number of the first image.
    pub start_idx: usize,
    /// How many images to fetch at the same time.
    pub limit: usize,
    /// The images to pass over.
    pub skip: PageSkip,
    /// The images to collect.
    pub collect: CollectRun,
}

/// The fetch of a few images.
pub struct FetchPlan {
    /// The path to fetch the gallery from.
    pub path: String,
    /// The images to pass over.
    pub skip: PageSkip,
    /// The images to fetch.
    pub fetch: FetchRun,
}

impl Synchronizer {
    /// Synchronizes with everything left to its default.
    pub fn new() -> (r: Self)
        ensures
            r@ == (SynchronizerView {
                limit: None,
                author_name: None,
                author_url: None,
                cache_ttl: None,
            }),
    {
        Synchronizer { limit: None, author_name: None, author_url: None, cache_ttl: None }
    }

    /// Fetches at most `limit` images at the same time.
    pub fn with_concurrent_limit(self, limit: usize) -> (r: Self)
        ensures
            r@ == (SynchronizerView { limit: Some(limit), ..self@ }),
    {
        let mut r = self;
        r.limit = Some(limit);
        r
    }

    /// Names the given author on every page.
    pub fn with_author(self, name: Option<String>, url: Option<String>) -> (r: Self)
        ensures
            r@ == (SynchronizerView {
                author_name: opt_text(name),
                author_url: opt_text(url),
                ..self@
            }),
    {
        let mut r = self;
        r.author_name = name;
        r.author_url = url;
        r
    }

    /// Keeps addresses for the given number of seconds.
    pub fn with_cache_ttl(self, ttl: Option<usize>) -> (r: Self)
        ensures
            r@ == (SynchronizerView { cache_ttl: ttl, ..self@ }),
    {
        let mut r = self;
        r.cache_ttl = ttl;
        r
    }

    /// Plans the fetch of the images from `start_page` to `end_page`.
    pub fn fetch_images_only(&self, path: &str, start_page: usize, end_page: usize) -> (r:
        FetchPlan)
        ensures
            r.path@ == without_end_slashes(path@),
            r.skip.left() == pages_before(start_page as nat),
            r.fetch@ == fetch_start(start_page as nat, end_page as nat),
    {
        FetchPlan {
            path: trim_end_slashes(path),
            skip: PageSkip::new(start_page),
            fetch: FetchRun::new(start_page, end_page),
        }
    }

    /// Begins a request for a range of the gallery at `path` of the site called
    /// `name`.
    pub fn sync<E>(
        &self,
        name: &str,
        path: &str,
        start_page: Option<usize>,
        end_page: Option<usize>,
    ) -> (r: SyncRun<E>)
        ensures
            r@ == sync_start::<E>(
                without_end_slashes(path@),
                cache_key_view(name@, path@, start_page, end_page),
                match self@.cache_ttl {
                    Some(ttl) => ttl,
                    None => DEFAULT_CACHE_TTL,
                },
            ),
    {
        proof {
            lemma_end_slashes_once(path@);
        }
        let path = trim_end_slashes(path);
        let key = cache_key(name, path.as_str(), start_page, end_page);
        let ttl = match self.cache_ttl {
            Some(ttl) => ttl,
            None => DEFAULT_CACHE_TTL,
        };
        SyncRun::new(path, key, ttl)
    }

    /// Plans the synchronization of a range of images.
    pub fn sync_stream(&self, start_page: Option<usize>, end_page: Option<usize>) -> (r: StreamPlan)
        ensures
            r.start_idx == (match start_page {
                Some(start) => start,
                None => 1,
            }),
            r.limit == (match self@.limit {
                Some(limit) => limit,
                None => DEFAULT_CONCURRENT,
            }),
            r.skip.left() == pages_before(r.start_idx as nat),
            r.collect.wf(),
            r.collect@ == collect_start(r.start_idx as nat, end_view(end_page)),
    {
        let start_idx = match start_page {
            Some(start) => start,
            None => 1,
        };
        StreamPlan {
            start_idx,
            limit: match self.limit {
                Some(limit) => limit,
                None => DEFAULT_CONCURRENT,
            },
            skip: PageSkip::new(start_idx),
            collect: CollectRun::new(start_idx, end_page),
        }
    }

    /// Starts publishing nodes of the given estimated sizes as the pages of a
    /// gallery.
    pub fn publish(
        &self,
        meta: &AlbumMeta,
        start_idx: usize,
        end_idx: Option<usize>,
        nodes: Vec<Node>,
        sizes: &Vec<usize>,
    ) -> (r: PublishRun)
        requires
            nodes@.len() == sizes@.len(),
        ensures
            r@ == publish_next(
                publication_view(
                    *meta,
                    start_idx as nat,
                    end_view(end_idx),
                    self@.author_name,
                    self@.author_url,
                ),
                shown_parts(split_items(nodes@, sizes@).parts),
                None,
            ),
    {
        let chunks = split_nodes(nodes, sizes);
        let about = Publication::new(meta, start_idx, end_idx, &self.author_name, &self.author_url);
        assert(parts_view(chunks@) =~= shown_parts(split_items(nodes@, sizes@).parts)) by {
            assert(forall|k: int|
                0 <= k < chunks@.len() ==> #[trigger] parts_of(chunks@)[k] == chunks@[k]@);
        }
        PublishRun::new(about, chunks)
    }
}

spec fn range_tail(start: Option<usize>, end: Option<usize>) -> Seq<char> {
    seq!['s', ':'] + shown_option(start) + seq!['|'] + (seq!['e', ':'] + shown_option(end))
}

proof fn lemma_field_lacks(field: Seq<char>, n: Option<usize>, c: char)
    requires
        c == '|' || c == 'x',
        field.len() == 2,
        field[0] != c,
        field[1] != c,
    ensures
        !(field + shown_option(n)).contains(c),
{
    lemma_shown_option(n, c);
    let s = field + shown_option(n);
    if s.contains(c) {
        let i = choose|i: int| 0 <= i < s.len() && s[i] == c;
        assert(i < 2 || shown_option(n)[i - 2] == c);
    }
}

proof fn lemma_key_parts(
    name: Seq<char>,
    path: Seq<char>,
    start: Option<usize>,
    end: Option<usize>,
)
    ensures
        ({
            let base = mirrored(name + "|"@ + without_end_slashes(path));
            if start is Some || end is Some {
                cache_key_view(name, path, start, end) == base + seq!['|'] + range_tail(start, end)
            } else {
                cache_key_view(name, path, start, end) == base
            }
        }),
{
    reveal_strlit("exhentai");
    reveal_strlit("|s:");
    reveal_strlit("|e:");
    let base = name + "|"@ + without_end_slashes(path);
    let pattern = "exhentai"@;
    let by = "e-hentai"@;
    if start is Some || end is Some {
        let s = seq!['s', ':'] + shown_option(start);
        let e = seq!['e', ':'] + shown_option(end);
        let tail = range_tail(start, end);
        assert(base + range_suffix(start, end) =~= base + seq!['|'] + tail);
        assert(!pattern.contains('|'));
        lemma_replaced_around(base, '|', tail, pattern, by);
        lemma_replaced_around(s, '|', e, pattern, by);
        assert(pattern[1] == 'x');
        lemma_field_lacks(seq!['s', ':'], start, 'x');
        lemma_field_lacks(seq!['e', ':'], end, 'x');
        lemma_replaced_absent(s, pattern, by, 'x');
        lemma_replaced_absent(e, pattern, by, 'x');
    } else {
        assert(base + range_suffix(start, end) =~= base);
    }
}

proof fn lemma_key_fields(
    name: Seq<char>,
    path: Seq<char>,
    start: Option<usize>,
    end: Option<usize>,
)
    requires
        !name.contains('|'),
        !without_end_slashes(path).contains('|'),
    ensures
        !mirrored(name).contains('|'),
        !mirrored(without_end_slashes(path)).contains('|'),
        cache_key_view(name, path, start, end) == mirrored(name) + seq!['|'] + (if start is Some
            || end is Some {
            mirrored(without_end_slashes(path)) + seq!['|'] + range_tail(start, end)
        } else {
            mirrored(without_end_slashes(path))
        }),
{
    reveal_strlit("exhentai");
    reveal_strlit("e-hentai");
    reveal_strlit("|");
    let trimmed = without_end_slashes(path);
    lemma_replaced_lacks(name, "exhentai"@, "e-hentai"@, '|');
    lemma_replaced_lacks(trimmed, "exhentai"@, "e-hentai"@, '|');
    lemma_key_parts(name, path, start, end);
    assert(name + "|"@ + trimmed =~= name + seq!['|'] + trimmed);
    lemma_replaced_around(name, '|', trimmed, "exhentai"@, "e-hentai"@);
    assert(cache_key_view(name, path, start, end) =~= mirrored(name) + seq!['|'] + (if start is Some
        || end is Some {
        mirrored(trimmed) + seq!['|'] + range_tail(start, end)
    } else {
        mirrored(trimmed)
    }));
}

proof fn lemma_range_tail(
    start1: Option<usize>,
    end1: Option<usize>,
    start2: Option<usize>,
    end2: Option<usize>,
)
    requires
        range_tail(start1, end1) == range_tail(start2, end2),
    ensures
        start1 == start2,
        end1 == end2,
{
    let s1 = seq!['s', ':'] + shown_option(start1);
    let s2 = seq!['s', ':'] + shown_option(start2);
    let e1 = seq!['e', ':'] + shown_option(end1);
    let e2 = seq!['e', ':'] + shown_option(end2);
    lemma_field_lacks(seq!['s', ':'], start1, '|');
    lemma_field_lacks(seq!['s', ':'], start2, '|');
    lemma_split_unique(s1, e1, s2, e2, '|');
    assert(shown_option(start1) =~= s1.skip(2));
    assert(shown_option(start2) =~= s2.skip(2));
    assert(shown_option(end1) =~= e1.skip(2));
    assert(shown_option(end2) =~= e2.skip(2));
    law_shown_option_injective(start1, start2);
    law_shown_option_injective(end1, end2);
}

/// Requests for different ranges of a gallery have different keys: none of them
/// is answered with the page of another, nor with that of the whole gallery.
pub proof fn law_ranges_have_own_keys(
    name: Seq<char>,
    path: Seq<char>,
    start1: Option<usize>,
    end1: Option<usize>,
    start2: Option<usize>,
    end2: Option<usize>,
)
    requires
        cache_key_view(name, path, start1, end1) == cache_key_view(name, path, start2, end2),
    ensures
        start1 == start2,
        end1 == end2,
{
    lemma_key_parts(name, path, start1, end1);
    lemma_key_parts(name, path, start2, end2);
    let base = mirrored(name + "|"@ + without_end_slashes(path));
    let ranged1 = start1 is Some || end1 is Some;
    let ranged2 = start2 is Some || end2 is Some;
    let t1 = range_tail(start1, end1);
    let t2 = range_tail(start2, end2);
    let k1 = base + seq!['|'] + t1;
    let k2 = base + seq!['|'] + t2;
    if ranged1 && ranged2 {
        assert(k1.len() == k2.len());
        assert(k1.skip(base.len() as int + 1) =~= t1);
        assert(k2.skip(base.len() as int + 1) =~= t2);
        lemma_range_tail(start1, end1, start2, end2);
    } else if ranged1 {
        assert(k1.len() > base.len());
    } else if ranged2 {
        assert(k2.len() > base.len());
    }
}

proof fn lemma_suffix_ends(start: Option<usize>, end: Option<usize>)
    ensures
        range_suffix(start, end).len() == 0 <==> start is None && end is None,
        range_suffix(start, end).len() > 0 ==> {
            &&& range_suffix(start, end).len() > 1
            &&& range_suffix(start, end)[0] == '|'
            &&& range_suffix(start, end)[1] == 's'
        },
        range_suffix(start, end).len() > 0 ==> range_suffix(start, end).skip(1) == range_tail(
            start,
            end,
        ),
{
    reveal_strlit("|s:");
    reveal_strlit("|e:");
    if start is Some || end is Some {
        assert(range_suffix(start, end).skip(1) =~= range_tail(start, end));
    }
}

proof fn lemma_doubled_first(url: Seq<char>, suffix: Seq<char>)
    requires
        url.len() > 0,
    ensures
        ({
            let key = replaced(url, "|"@, "||"@) + suffix;
            let rest = replaced(url.skip(1), "|"@, "||"@) + suffix;
            if url[0] == '|' {
                key == seq!['|', '|'] + rest
            } else {
                key == seq![url[0]] + rest
            }
        }),
{
    reveal_strlit("|");
    reveal_strlit("||");
    assert("|"@ =~= seq!['|']);
    assert("||"@ =~= seq!['|', '|']);
    assert(url.take(1) =~= seq![url[0]]);
    let key = replaced(url, "|"@, "||"@) + suffix;
    let rest = replaced(url.skip(1), "|"@, "||"@) + suffix;
    if url[0] == '|' {
        assert(url.take(1) =~= "|"@);
        assert(key =~= seq!['|', '|'] + rest);
    } else {
        assert(url.take(1)[0] != "|"@[0]);
        assert(key =~= seq![url[0]] + rest);
    }
}

/// Requests that overlap are joined only if they ask for the same range of the
/// same address.
pub proof fn law_flights_apart(
    url1: Seq<char>,
    start1: Option<usize>,
    end1: Option<usize>,
    url2: Seq<char>,
    start2: Option<usize>,
    end2: Option<usize>,
)
    requires
        flight_key_view(url1, start1, end1) == flight_key_view(url2, start2, end2),
    ensures
        url1 == url2,
        start1 == start2,
        end1 == end2,
    decreases url1.len(),
{
    let s1 = range_suffix(start1, end1);
    let s2 = range_suffix(start2, end2);
    let key = flight_key_view(url1, start1, end1);
    lemma_suffix_ends(start1, end1);
    lemma_suffix_ends(start2, end2);
    if url1.len() > 0 {
        lemma_doubled_first(url1, s1);
    } else {
        assert(key =~= s1);
    }
    if url2.len() > 0 {
        lemma_doubled_first(url2, s2);
    } else {
        assert(key =~= s2);
    }
    if url1.len() > 0 && url2.len() > 0 {
        assert(key[0] == url1[0]);
        assert(key[0] == url2[0]);
        let rest1 = flight_key_view(url1.skip(1), start1, end1);
        let rest2 = flight_key_view(url2.skip(1), start2, end2);
        let n: int = if url1[0] == '|' {
            2
        } else {
            1
        };
        assert(key.skip(n) =~= rest1);
        assert(key.skip(n) =~= rest2);
        law_flights_apart(url1.skip(1), start1, end1, url2.skip(1), start2, end2);
        assert(url1 =~= seq![url1[0]] + url1.skip(1));
        assert(url2 =~= seq![url2[0]] + url2.skip(1));
    } else if url1.len() > 0 {
        assert(key[0] == url1[0]);
        assert(url1[0] == '|' ==> key[1] == '|');
    } else if url2.len() > 0 {
        assert(key[0] == url2[0]);
        assert(url2[0] == '|' ==> key[1] == '|');
    } else {
        assert(url1 =~= url2);
        if s1.len() > 0 {
            lemma_range_tail(start1, end1, start2, end2);
        }
    }
}

/// Where neither the names of sites nor the paths hold the separator, requests
/// have the same key only if they ask for the same range of the same path on the
/// same site, or on sites that serve the same galleries.
pub proof fn law_keys_tell_galleries(
    name1: Seq<char>,
    path1: Seq<char>,
    start1: Option<usize>,
    end1: Option<usize>,
    name2: Seq<char>,
    path2: Seq<char>,
    start2: Option<usize>,
    end2: Option<usize>,
)
    requires
        !name1.contains('|'),
        !name2.contains('|'),
        !without_end_slashes(path1).contains('|'),
        !without_end_slashes(path2).contains('|'),
        cache_key_view(name1, path1, start1, end1) == cache_key_view(name2, path2, start2, end2),
    ensures
        mirrored(name1) == mirrored(name2),
        mirrored(without_end_slashes(path1)) == mirrored(without_end_slashes(path2)),
        start1 == start2,
        end1 == end2,
{
    let n1 = mirrored(name1);
    let n2 = mirrored(name2);
    let p1 = mirrored(without_end_slashes(path1));
    let p2 = mirrored(without_end_slashes(path2));
    let t1 = range_tail(start1, end1);
    let t2 = range_tail(start2, end2);
    let ranged1 = start1 is Some || end1 is Some;
    let ranged2 = start2 is Some || end2 is Some;
    lemma_key_fields(name1, path1, start1, end1);
    lemma_key_fields(name2, path2, start2, end2);
    let rest1 = if ranged1 {
        p1 + seq!['|'] + t1
    } else {
        p1
    };
    let rest2 = if ranged2 {
        p2 + seq!['|'] + t2
    } else {
        p2
    };
    lemma_split_unique(n1, rest1, n2, rest2, '|');
    if ranged1 && ranged2 {
        lemma_split_unique(p1, t1, p2, t2, '|');
        lemma_range_tail(start1, end1, start2, end2);
    } else if ranged1 {
        assert(rest1[p1.len() as int] == '|');
        assert(p2.contains('|'));
    } else if ranged2 {
        assert(rest2[p2.len() as int] == '|');
        assert(p1.contains('|'));
    }
}

/// Keeping the page of a range answers the next request for it, and makes no
/// difference to requests for other ranges of the gallery.
pub proof fn law_cache_isolated(
    cache: Map<Seq<char>, Seq<char>>,
    name: Seq<char>,
    path: Seq<char>,
    start: Option<usize>,
    end: Option<usize>,
    url: Seq<char>,
    other_start: Option<usize>,
    other_end: Option<usize>,
)
    ensures
        ({
            let key = cache_key_view(name, path, start, end);
            let other = cache_key_view(name, path, other_start, other_end);
            let after = cache.insert(key, url);
            &&& after[key] == url
            &&& (start, end) != (other_start, other_end) ==> {
                &&& after.contains_key(other) == cache.contains_key(other)
                &&& after[other] == cache[other]
            }
        }),
{
    let key = cache_key_view(name, path, start, end);
    let other = cache_key_view(name, path, other_start, other_end);
    if key == other {
        law_ranges_have_own_keys(name, path, start, end, other_start, other_end);
    }
}

/// The two sites that serve the same galleries share their keys.
pub proof fn law_mirrors_share_keys(path: Seq<char>, start: Option<usize>, end: Option<usize>)
    ensures
        cache_key_view("exhentai"@, path, start, end) == cache_key_view(
            "e-hentai"@,
            path,
            start,
            end,
        ),
{
    reveal_strlit("exhentai");
    reveal_strlit("e-hentai");
    reveal_strlit("|");
    let pattern = "exhentai"@;
    let by = "e-hentai"@;
    let rest = without_end_slashes(path) + range_suffix(start, end);
    assert(pattern + "|"@ + without_end_slashes(path) + range_suffix(start, end) =~= pattern
        + seq!['|'] + rest);
    assert(by + "|"@ + without_end_slashes(path) + range_suffix(start, end) =~= by + seq!['|']
        + rest);
    lemma_replaced_around(pattern, '|', rest, pattern, by);
    lemma_replaced_around(by, '|', rest, pattern, by);
    assert(pattern[1] == 'x');
    lemma_replaced_absent(by, pattern, by, 'x');
    let rest_of_pattern = pattern.skip(pattern.len() as int);
    assert(pattern.take(pattern.len() as int) =~= pattern);
    assert(rest_of_pattern =~= Seq::<char>::empty());
    assert(replaced(rest_of_pattern, pattern, by) =~= Seq::<char>::empty());
    assert(replaced(pattern, pattern, by) =~= by);
}

/// A slash at the end of a path makes no difference to the key.
pub proof fn law_end_slash_same_key(
    name: Seq<char>,
    path: Seq<char>,
    start: Option<usize>,
    end: Option<usize>,
)
    ensures
        cache_key_view(name, path.push('/'), start, end) == cache_key_view(name, path, start, end),
{
    lemma_end_slash_ignored(path);
}

/// The pages of a range show exactly its images, each once and in order: what
/// the parts of the pages show, one after the other, are the images that the
/// range amounts to, each at the address that its file got.
pub proof fn law_range_shown<SE>(
    start: nat,
    end: Option<nat>,
    stream: Seq<Result<Image, SE>>,
    place: spec_fn(ImageData) -> String,
    images: Seq<Image>,
    nodes: Seq<Node>,
    sizes: Seq<usize>,
)
    requires
        accepted(stream, start, end, 0) == Accepted::<SE>::Images(images),
        nodes_view(nodes) == image_nodes_view(
            collect_run(collect_start(start, end), stream, place).uploaded,
        ),
        nodes.len() == sizes.len(),
    ensures
        flat(shown_parts(split_items(nodes, sizes).parts)) == images.map_values(
            |i: Image| image_view(place(i.1)@),
        ),
{
    law_collect_range(start, end, stream, place);
    law_split_shows_all(nodes, sizes);
    assert(nodes_view(nodes) =~= images.map_values(|i: Image| image_view(place(i.1)@)));
}

/// The elements `start` to `end` of a row, counted from one, as far as there are
/// any; without an end up to the last.
pub open spec fn numbered<A>(row: Seq<A>, start: nat, end: Option<nat>) -> Seq<A> {
    let first = if start - 1 <= row.len() {
        start - 1
    } else {
        row.len() as int
    };
    let last = if end is Some && end->0 <= row.len() {
        end->0 as int
    } else {
        row.len() as int
    };
    row.subrange(first, last)
}

/// Whether one result too many in a row is a failure.
pub open spec fn breaks<SE>(results: Seq<Result<Image, SE>>) -> bool {
    exists|k: int| streak_ends(results, k)
}

/// The synchronization of the images `start` to `end` of a gallery, counted from
/// one, uploads exactly those of them that could be fetched and whose file is
/// not too large, in order, and no image outside the range; without an end the
/// range goes on to the last image. It fails exactly where eleven images of the
/// range in a row cannot be fetched.
pub proof fn law_gallery_range<SE>(
    stream: Seq<Result<Image, SE>>,
    start: nat,
    end: Option<nat>,
    place: spec_fn(ImageData) -> String,
)
    requires
        1 <= start,
        end is Some ==> start <= end->0,
    ensures
        ({
            let range = numbered(stream, start, end);
            let rest = skip_run(pages_before(start), stream);
            let run = collect_run(collect_start(start, end), rest, place);
            &&& run.step is Failed <==> breaks(range)
            &&& run.step is Finished <==> !breaks(range)
            &&& run.step is Finished ==> run.uploaded == placed(small_images(range), place)
        }),
{
    law_skip(pages_before(start), stream);
    let rest = skip_run(pages_before(start), stream);
    let range = numbered(stream, start, end);
    let n = window_len(start, end, rest.len()) as int;
    assert(rest.take(n) =~= range);
    law_range_breaks(rest, start, end);
    law_collect_range(start, end, rest, place);
}

/// Where every image of a gallery can be fetched and no file is too large, the
/// synchronization of the images `start` to `end`, counted from one, uploads
/// exactly these, in order; without an end it goes on to the last image.
pub proof fn law_clean_gallery<SE>(
    images: Seq<Image>,
    stream: Seq<Result<Image, SE>>,
    start: nat,
    end: Option<nat>,
    place: spec_fn(ImageData) -> String,
)
    requires
        stream.len() == images.len(),
        forall|i: int| 0 <= i < images.len() ==> stream[i] == Ok::<Image, SE>(#[trigger] images[i]),
        forall|i: int|
            0 <= i < images.len() ==> (#[trigger] images[i]).1@.len() < MAX_SINGLE_FILE_SIZE,
        1 <= start,
        end is Some ==> start <= end->0,
    ensures
        ({
            let rest = skip_run(pages_before(start), stream);
            let run = collect_run(collect_start(start, end), rest, place);
            &&& run.step is Finished
            &&& run.uploaded == placed(numbered(images, start, end), place)
        }),
{
    let first = if start - 1 <= images.len() {
        start - 1
    } else {
        images.len() as int
    };
    law_skip(pages_before(start), stream);
    let rest = skip_run(pages_before(start), stream);
    let left = images.skip(first);
    assert(rest =~= stream.skip(first));
    assert forall|i: int| 0 <= i < left.len() implies rest[i] == Ok::<Image, SE>(
        #[trigger] left[i],
    ) by {
        assert(left[i] == images[i + first]);
    }
    assert forall|i: int| 0 <= i < left.len() implies (#[trigger] left[i]).1@.len()
        < MAX_SINGLE_FILE_SIZE by {
        assert(left[i] == images[i + first]);
    }
    law_clean_range(left, rest, start, end, 0);
    law_collect_range(start, end, rest, place);
    let n = window_len(start, end, left.len()) as int;
    assert(left.take(n) =~= numbered(images, start, end));
}

/// The elements with the numbers of a range are those at the places before these
/// numbers.
pub proof fn law_numbered<A>(row: Seq<A>, start: nat, end: Option<nat>, i: int)
    requires
        1 <= start,
        end is Some ==> start <= end->0,
    ensures
        ({
            let range = numbered(row, start, end);
            let last = if end is Some && end->0 <= row.len() {
                end->0
            } else {
                row.len()
            };
            &&& start > row.len() ==> range.len() == 0
            &&& start <= row.len() ==> range.len() == last - start + 1
            &&& 0 <= i < range.len() ==> range[i] == row[start - 1 + i]
        }),
{
}

/// A footer leads to the next page where there is one, then names the program,
/// then leads to the gallery.
pub proof fn law_footer(original_link: Seq<char>, page: Seq<char>)
    ensures
        ({
            let program = NodeView::Element {
                tag: Tag::P,
                attrs: None,
                children: Some(
                    seq![
                        NodeView::Text("Generated by "@),
                        anchor_view(
                            "https://github.com/qini7-sese/eh2telegraph"@,
                            "eh2telegraph"@,
                        ),
                    ],
                ),
            };
            let gallery = NodeView::Element {
                tag: Tag::P,
                attrs: None,
                children: Some(
                    seq![
                        NodeView::Text("Original link: "@),
                        anchor_view(original_link, original_link),
                    ],
                ),
            };
            let next = NodeView::Element {
                tag: Tag::P,
                attrs: None,
                children: Some(seq![anchor_view(page, "Next Page"@)]),
            };
            &&& footer_view(original_link, None) == seq![program, gallery]
            &&& footer_view(original_link, Some(page)) == seq![next, program, gallery]
        }),
{
    assert(footer_view(original_link, None) =~= footer_view(original_link, None).take(2));
    assert(footer_view(original_link, Some(page)).len() == 3);
}

/// Twenty images are fetched at the same time and addresses are kept for 45 days,
/// unless it is configured otherwise.
pub proof fn law_defaults()
    ensures
        DEFAULT_CONCURRENT == 20,
        DEFAULT_CACHE_TTL == 45 * 24 * 60 * 60,
{
}

/// An upload error says what failed, and why.
pub proof fn law_upload_error_reported<SE>(e: SE, t: TelegraphError, cause: Seq<char>)
    ensures
        upload_error_text(UploadError::Stream(e), cause) == "stream error "@ + cause,
        upload_error_text(UploadError::<SE>::Reqwest(t), cause) == "telegraph error "@ + cause,
        upload_error_text(UploadError::<SE>::EmptyResult, cause)
            == "No images found in the specified range"@,
{
}

/// A key names the site, then the path without the slashes at its end, then the
/// range, if there is one, with the name of one site throughout in place of that
/// of its mirror.
pub proof fn law_cache_key_parts(
    name: Seq<char>,
    path: Seq<char>,
    start: Option<usize>,
    end: Option<usize>,
)
    ensures
        start is None && end is None ==> cache_key_view(name, path, start, end) == replaced(
            name + "|"@ + without_end_slashes(path),
            "exhentai"@,
            "e-hentai"@,
        ),
        start is Some || end is Some ==> cache_key_view(name, path, start, end) == replaced(
            name + "|"@ + without_end_slashes(path),
            "exhentai"@,
            "e-hentai"@,
        ) + ("|s:"@ + shown_option(start) + "|e:"@ + shown_option(end)),
{
    reveal_strlit("|s:");
    reveal_strlit("|e:");
    lemma_key_parts(name, path, start, end);
    if start is Some || end is Some {
        assert(seq!['|'] + range_tail(start, end) =~= "|s:"@ + shown_option(start) + "|e:"@
            + shown_option(end));
        let base = replaced(name + "|"@ + without_end_slashes(path), "exhentai"@, "e-hentai"@);
        assert(base + seq!['|'] + range_tail(start, end) =~= base + (seq!['|'] + range_tail(
            start,
            end,
        )));
    }
}

/// Where neither the name of the site nor the path holds an x, they stand in the
/// key as they are, the path without the slashes at its end.
pub proof fn law_cache_key(
    name: Seq<char>,
    path: Seq<char>,
    start: Option<usize>,
    end: Option<usize>,
)
    requires
        !name.contains('x'),
        !without_end_slashes(path).contains('x'),
    ensures
        start is None && end is None ==> cache_key_view(name, path, start, end) == name + "|"@
            + without_end_slashes(path),
        start is Some || end is Some ==> cache_key_view(name, path, start, end) == name + "|"@
            + without_end_slashes(path) + ("|s:"@ + shown_option(start) + "|e:"@ + shown_option(
            end,
        )),
{
    reveal_strlit("exhentai");
    reveal_strlit("|");
    reveal_strlit("|s:");
    reveal_strlit("|e:");
    let trimmed = without_end_slashes(path);
    let base = name + "|"@ + trimmed;
    assert("exhentai"@[1] == 'x');
    if base.contains('x') {
        let i = choose|i: int| 0 <= i < base.len() && base[i] == 'x';
        if i < name.len() {
            assert(name[i] == 'x');
        } else if i > name.len() {
            assert(trimmed[i - name.len() - 1] == 'x');
        }
    }
    lemma_replaced_absent(base, "exhentai"@, "e-hentai"@, 'x');
    lemma_key_parts(name, path, start, end);
    if start is Some || end is Some {
        assert(seq!['|'] + range_tail(start, end) =~= "|s:"@ + shown_option(start) + "|e:"@
            + shown_option(end));
        assert(cache_key_view(name, path, start, end) =~= base + (seq!['|'] + range_tail(
            start,
            end,
        )));
    }
}

} // verus!
