//! Turning uploaded images into pages: splitting them up and publishing the
//! pages, the last one first.

use crate::album::AlbumMeta;
use crate::collect::{end_view, UploadedImage};
use crate::node::{image_view, nodes_view, opt_text, AttrView, Node, NodeView, Tag};
use crate::sync::{footer_view, write_footer, UploadError};
use crate::telegraph::{Page, PageCreate, PageEdit, TelegraphError};
use crate::text::{
    decimal, decimal_text, join, joined, law_decimal_injective, lemma_decimal_digits, remove_char,
    same_text, texts, without_char,
};
use vstd::prelude::*;

verus! {

/// The estimated size up to which images share a page.
pub const PAGE_SIZE_LIMIT: usize = 48 * 1024;

/// What the nodes of uploaded images show.
pub open spec fn image_nodes_view(images: Seq<UploadedImage>) -> Seq<NodeView> {
    images.map_values(|i: UploadedImage| image_view(i.src@))
}

impl From<UploadedImage> for Node {
    fn from(i: UploadedImage) -> (r: Self)
        ensures
            r@ == image_view(i.src@),
    {
        Node::new_image(i.src.as_str())
    }
}

impl vstd::std_specs::convert::FromSpecImpl<UploadedImage> for Node {
    open spec fn obeys_from_spec() -> bool {
        false
    }

    open spec fn from_spec(i: UploadedImage) -> Self {
        arbitrary()
    }
}

/// The nodes that show uploaded images, in order.
pub fn image_nodes(images: Vec<UploadedImage>) -> (r: Vec<Node>)
    ensures
        nodes_view(r@) == image_nodes_view(images@),
{
    let mut r: Vec<Node> = Vec::new();
    let ghost all = images@;
    for image in it: images.into_iter()
        invariant
            it.seq() == all,
            nodes_view(r@) == image_nodes_view(all.take(it.index() as int)),
    {
        let ghost k = it.index() as int;
        let ghost before = nodes_view(r@);
        r.push(Node::from(image));
        assert(nodes_view(r@) =~= before.push(image_view(image.src@)));
        assert(image_nodes_view(all.take(k + 1)) =~= image_nodes_view(all.take(k)).push(
            image_view(image.src@),
        ));
    }
    assert(all.take(all.len() as int) =~= all);
    r
}

/// A split of items, with the size of its last part.
pub struct Split<A> {
    pub parts: Seq<Seq<A>>,
    pub last_size: nat,
}

/// A split with one more item: in the last part where it fits there, else in a
/// part of its own.
pub open spec fn split_push<A>(s: Split<A>, item: A, size: nat) -> Split<A> {
    if s.last_size + size > PAGE_SIZE_LIMIT {
        Split { parts: s.parts.push(seq![item]), last_size: size }
    } else {
        Split {
            parts: s.parts.update(s.parts.len() - 1, s.parts.last().push(item)),
            last_size: s.last_size + size,
        }
    }
}

/// The split of items by their sizes. It begins with an empty part, which
/// stays empty where the first item alone is too large.
pub open spec fn split_items<A>(items: Seq<A>, sizes: Seq<usize>) -> Split<A>
    decreases items.len(),
{
    if items.len() == 0 {
        Split { parts: seq![Seq::empty()], last_size: 0 }
    } else {
        split_push(
            split_items(items.drop_last(), sizes),
            items.last(),
            sizes[items.len() - 1] as nat,
        )
    }
}

/// What lists of nodes hold.
pub open spec fn parts_of(parts: Seq<Vec<Node>>) -> Seq<Seq<Node>> {
    parts.map_values(|p: Vec<Node>| p@)
}

/// Splits nodes by their estimated sizes, so that a part holds as many nodes as
/// fit.
pub fn split_nodes(items: Vec<Node>, sizes: &Vec<usize>) -> (r: Vec<Vec<Node>>)
    requires
        items@.len() == sizes@.len(),
    ensures
        parts_of(r@) == split_items(items@, sizes@).parts,
        r@.len() > 0,
{
    let mut chunks: Vec<Vec<Node>> = Vec::new();
    chunks.push(Vec::new());
    let mut last_chunk_size: usize = 0;
    let ghost all = items@;
    let n: usize = sizes.len();
    let mut i: usize = 0;
    assert(all.take(0) =~= Seq::<Node>::empty());
    assert(parts_of(chunks@) =~= split_items(all.take(0), sizes@).parts);
    for item in it: items.into_iter()
        invariant
            it.seq() == all,
            i == it.index(),
            n == sizes@.len(),
            all.len() == n,
            chunks@.len() > 0,
            parts_of(chunks@) == split_items(all.take(i as int), sizes@).parts,
            last_chunk_size == split_items(all.take(i as int), sizes@).last_size,
    {
        let item_size = sizes[i];
        let ghost before = split_items(all.take(i as int), sizes@);
        let ghost old_chunks = chunks@;
        assert(all.take(i + 1).drop_last() =~= all.take(i as int));
        assert(all.take(i + 1).last() == item);
        assert(split_items(all.take(i + 1), sizes@) == split_push(before, item, item_size as nat));
        if item_size > PAGE_SIZE_LIMIT || last_chunk_size > PAGE_SIZE_LIMIT - item_size {
            let mut chunk: Vec<Node> = Vec::new();
            chunk.push(item);
            chunks.push(chunk);
            last_chunk_size = item_size;
            assert(chunk@ =~= seq![item]);
            assert(parts_of(chunks@) =~= before.parts.push(seq![item]));
        } else {
            let mut chunk = chunks.pop().unwrap();
            chunk.push(item);
            assert(chunk@ =~= before.parts.last().push(item));
            chunks.push(chunk);
            last_chunk_size = last_chunk_size + item_size;
            assert(parts_of(chunks@) =~= before.parts.update(
                before.parts.len() - 1,
                before.parts.last().push(item),
            ));
        }
        i += 1;
    }
    assert(all.take(all.len() as int) =~= all);
    chunks
}

/// The items of all the parts, one after the other.
pub open spec fn flat<A>(parts: Seq<Seq<A>>) -> Seq<A>
    decreases parts.len(),
{
    if parts.len() == 0 {
        Seq::empty()
    } else {
        flat(parts.drop_last()) + parts.last()
    }
}

/// A split loses nothing and keeps the order.
pub proof fn law_split_keeps_items<A>(items: Seq<A>, sizes: Seq<usize>)
    requires
        items.len() == sizes.len(),
    ensures
        flat(split_items(items, sizes).parts) == items,
{
    lemma_split_flat(items, sizes);
}

proof fn lemma_split_flat<A>(items: Seq<A>, sizes: Seq<usize>)
    ensures
        split_items(items, sizes).parts.len() > 0,
        flat(split_items(items, sizes).parts) == items,
    decreases items.len(),
{
    if items.len() == 0 {
        let parts = split_items(items, sizes).parts;
        assert(parts.drop_last() =~= Seq::<Seq<A>>::empty());
        assert(flat(parts.drop_last()) =~= Seq::<A>::empty());
        assert(flat(parts) =~= items);
    } else {
        lemma_split_flat(items.drop_last(), sizes);
        let s = split_items(items.drop_last(), sizes);
        let size = sizes[items.len() - 1] as nat;
        let t = split_push(s, items.last(), size);
        if s.last_size + size > PAGE_SIZE_LIMIT {
            assert(t.parts.drop_last() =~= s.parts);
            assert(flat(t.parts) =~= items);
        } else {
            assert(t.parts.drop_last() =~= s.parts.drop_last());
            assert(t.parts.last() == s.parts.last().push(items.last()));
            assert(flat(s.parts) == flat(s.parts.drop_last()) + s.parts.last());
            assert(flat(t.parts) =~= flat(s.parts).push(items.last()));
            assert(flat(t.parts) =~= items);
        }
    }
}

/// What each of the parts shows.
pub open spec fn shown_parts(parts: Seq<Seq<Node>>) -> Seq<Seq<NodeView>> {
    parts.map_values(|p: Seq<Node>| nodes_view(p))
}

proof fn lemma_shown_flat(parts: Seq<Seq<Node>>)
    ensures
        flat(shown_parts(parts)) == nodes_view(flat(parts)),
    decreases parts.len(),
{
    if parts.len() == 0 {
        assert(flat(shown_parts(parts)) =~= nodes_view(flat(parts)));
    } else {
        lemma_shown_flat(parts.drop_last());
        assert(shown_parts(parts).drop_last() =~= shown_parts(parts.drop_last()));
        assert(flat(shown_parts(parts)) =~= nodes_view(flat(parts)));
    }
}

/// The parts that nodes are split into show, one after the other, what the
/// nodes show.
pub proof fn law_split_shows_all(nodes: Seq<Node>, sizes: Seq<usize>)
    requires
        nodes.len() == sizes.len(),
    ensures
        flat(shown_parts(split_items(nodes, sizes).parts)) == nodes_view(nodes),
{
    law_split_keeps_items(nodes, sizes);
    lemma_shown_flat(split_items(nodes, sizes).parts);
}

/// The sum of sizes.
pub open spec fn sum(sizes: Seq<usize>) -> nat
    decreases sizes.len(),
{
    if sizes.len() == 0 {
        0
    } else {
        sum(sizes.drop_last()) + sizes.last() as nat
    }
}

/// Items are split as their sizes are.
pub proof fn law_split_by_size<A>(items: Seq<A>, sizes: Seq<usize>)
    requires
        items.len() == sizes.len(),
    ensures
        split_items(items, sizes).parts.len() == split_items(sizes, sizes).parts.len(),
        forall|k: int|
            0 <= k < split_items(items, sizes).parts.len() ==> (#[trigger] split_items(
                items,
                sizes,
            ).parts[k]).len() == split_items(sizes, sizes).parts[k].len(),
{
    lemma_split_shape(items, sizes, sizes);
}

proof fn lemma_split_shape<A, B>(items: Seq<A>, others: Seq<B>, sizes: Seq<usize>)
    requires
        items.len() == others.len(),
    ensures
        split_items(items, sizes).last_size == split_items(others, sizes).last_size,
        split_items(items, sizes).parts.len() == split_items(others, sizes).parts.len(),
        split_items(items, sizes).parts.len() > 0,
        forall|k: int|
            0 <= k < split_items(items, sizes).parts.len() ==> (#[trigger] split_items(
                items,
                sizes,
            ).parts[k]).len() == split_items(others, sizes).parts[k].len(),
    decreases items.len(),
{
    if items.len() > 0 {
        lemma_split_shape(items.drop_last(), others.drop_last(), sizes);
        let s = split_items(items.drop_last(), sizes);
        let t = split_items(items, sizes);
        let u = split_items(others, sizes);
        assert forall|k: int| 0 <= k < t.parts.len() implies (#[trigger] t.parts[k]).len()
            == u.parts[k].len() by {
            if k < s.parts.len() {
                assert(s.parts[k].len() == split_items(others.drop_last(), sizes).parts[k].len());
            }
        }
    }
}

/// What holds of a part of sizes: it stays within the limit unless it is a
/// single size.
pub open spec fn part_fits(part: Seq<usize>) -> bool {
    sum(part) <= PAGE_SIZE_LIMIT || part.len() == 1
}

/// Every part stays within the limit, unless a single item is too large by
/// itself. No part but the first is empty. No part could have taken the first
/// item of the next.
pub proof fn law_split_fits(sizes: Seq<usize>)
    ensures
        ({
            let parts = split_items(sizes, sizes).parts;
            &&& forall|k: int| 0 <= k < parts.len() ==> part_fits(#[trigger] parts[k])
            &&& forall|k: int| 1 <= k < parts.len() ==> (#[trigger] parts[k]).len() > 0
            &&& forall|k: int|
                1 <= k < parts.len() ==> sum(parts[k - 1]) + (#[trigger] parts[k])[0]
                    > PAGE_SIZE_LIMIT
        }),
{
    lemma_split_fits(sizes, sizes.len() as int);
    assert(sizes.take(sizes.len() as int) =~= sizes);
}

proof fn lemma_split_fits(sizes: Seq<usize>, n: int)
    requires
        0 <= n <= sizes.len(),
    ensures
        ({
            let s = split_items(sizes.take(n), sizes);
            &&& s.parts.len() > 0
            &&& s.last_size == sum(s.parts.last())
            &&& forall|k: int| 0 <= k < s.parts.len() ==> part_fits(#[trigger] s.parts[k])
            &&& forall|k: int| 1 <= k < s.parts.len() ==> (#[trigger] s.parts[k]).len() > 0
            &&& forall|k: int|
                1 <= k < s.parts.len() ==> sum(s.parts[k - 1]) + (#[trigger] s.parts[k])[0]
                    > PAGE_SIZE_LIMIT
        }),
    decreases n,
{
    let s = split_items(sizes.take(n), sizes);
    if n == 0 {
        assert(sizes.take(0) =~= Seq::<usize>::empty());
    } else {
        lemma_split_fits(sizes, n - 1);
        assert(sizes.take(n).drop_last() =~= sizes.take(n - 1));
        let p = split_items(sizes.take(n - 1), sizes);
        let size = sizes[n - 1];
        assert(s == split_push(p, size, size as nat));
        if p.last_size + size > PAGE_SIZE_LIMIT {
            let part = seq![size];
            assert(part.drop_last() =~= Seq::<usize>::empty());
            assert(sum(part.drop_last()) == 0);
            assert(sum(part) == size);
            assert forall|k: int| 1 <= k < s.parts.len() implies sum(s.parts[k - 1]) + (
            #[trigger] s.parts[k])[0] > PAGE_SIZE_LIMIT by {
                if k < p.parts.len() {
                    assert(p.parts[k] == s.parts[k]);
                }
            }
        } else {
            let part = p.parts.last().push(size);
            assert(part.drop_last() =~= p.parts.last());
            assert(sum(part) == p.last_size + size);
            assert forall|k: int| 1 <= k < s.parts.len() implies sum(s.parts[k - 1]) + (
            #[trigger] s.parts[k])[0] > PAGE_SIZE_LIMIT by {
                assert(p.parts[k].len() > 0);
                assert(p.parts[k][0] == s.parts[k][0]);
            }
            assert forall|k: int| 1 <= k < s.parts.len() implies (#[trigger] s.parts[k]).len()
                > 0 by {
                assert(p.parts[k].len() > 0);
            }
        }
    }
}

/// What all the pages of a gallery have in common.
pub struct Publication {
    /// The title that the pages are to have.
    title: String,
    /// The title that the pages are created with, from which their addresses
    /// are made.
    creation_title: String,
    /// The address of the gallery.
    link: String,
    author_name: Option<String>,
    author_url: Option<String>,
}

/// What all the pages of a gallery have in common, as plain values.
pub struct PublicationView {
    pub title: Seq<char>,
    pub creation_title: Seq<char>,
    pub link: Seq<char>,
    pub author_name: Option<Seq<char>>,
    pub author_url: Option<Seq<char>>,
}

impl View for Publication {
    type V = PublicationView;

    closed spec fn view(&self) -> PublicationView {
        PublicationView {
            title: self.title@,
            creation_title: self.creation_title@,
            link: self.link@,
            author_name: opt_text(self.author_name),
            author_url: opt_text(self.author_url),
        }
    }
}

/// The title of a gallery's pages.
pub open spec fn clean_title(name: Seq<char>) -> Seq<char> {
    without_char(name, '|')
}

/// Whether the title that pages are created with names the range.
pub open spec fn names_range(start: nat, end: Option<nat>) -> bool {
    end is Some && (start > 1 || end->0 > 1)
}

/// The title that pages are created with: where the last page of the range is
/// given, it names the range, unless that ends with the first page.
pub open spec fn creation_title(title: Seq<char>, start: nat, end: Option<nat>) -> Seq<char> {
    if names_range(start, end) {
        title + " "@ + decimal(start) + "-"@ + decimal(end->0)
    } else {
        title
    }
}

/// The title of page number `k`, counted from zero.
pub open spec fn page_title(base: Seq<char>, k: nat) -> Seq<char> {
    if k == 0 {
        base
    } else {
        base + "-Page"@ + decimal(k + 1)
    }
}

/// The author to name: the configured one, else the authors of the gallery.
pub open spec fn author_view(
    configured: Option<Seq<char>>,
    authors: Option<Seq<Seq<char>>>,
) -> Option<Seq<char>> {
    match configured {
        Some(name) => Some(name),
        None => match authors {
            Some(names) => Some(joined(names, ", "@)),
            None => None,
        },
    }
}

/// The authors of a gallery as plain values.
pub open spec fn authors_of(meta: AlbumMeta) -> Option<Seq<Seq<char>>> {
    match meta.authors {
        Some(names) => Some(texts(names@)),
        None => None,
    }
}

/// What the pages of a gallery have in common.
pub open spec fn publication_view(
    meta: AlbumMeta,
    start: nat,
    end: Option<nat>,
    author_name: Option<Seq<char>>,
    author_url: Option<Seq<char>>,
) -> PublicationView {
    PublicationView {
        title: clean_title(meta.name@),
        creation_title: creation_title(clean_title(meta.name@), start, end),
        link: meta.link@,
        author_name: author_view(author_name, authors_of(meta)),
        author_url,
    }
}

fn titled(base: &str, k: usize) -> (r: String)
    ensures
        r@ == page_title(base@, k as nat),
{
    if k == 0 {
        base.to_string()
    } else {
        base.to_string().concat("-Page").concat(decimal_text(k as u128 + 1).as_str())
    }
}

impl Publication {
    /// What the pages of a gallery have in common.
    pub fn new(
        meta: &AlbumMeta,
        start_idx: usize,
        end_idx: Option<usize>,
        author_name: &Option<String>,
        author_url: &Option<String>,
    ) -> (r: Self)
        ensures
            r@ == publication_view(
                *meta,
                start_idx as nat,
                end_view(end_idx),
                opt_text(*author_name),
                opt_text(*author_url),
            ),
    {
        let title = remove_char(meta.name.as_str(), '|');
        let creation_title = match end_idx {
            Some(e) => if start_idx > 1 || e > 1 {
                title.clone().concat(" ").concat(decimal_text(start_idx as u128).as_str()).concat(
                    "-",
                ).concat(decimal_text(e as u128).as_str())
            } else {
                title.clone()
            },
            None => title.clone(),
        };
        let author = match author_name {
            Some(name) => Some(name.clone()),
            None => match &meta.authors {
                Some(names) => Some(join(names, ", ")),
                None => None,
            },
        };
        Publication {
            title,
            creation_title,
            link: meta.link.clone(),
            author_name: author,
            author_url: clone_option(author_url),
        }
    }
}

fn clone_option(s: &Option<String>) -> (r: Option<String>)
    ensures
        opt_text(r) == opt_text(*s),
{
    match s {
        Some(t) => Some(t.clone()),
        None => None,
    }
}

/// A page to create, as a plain value.
pub struct PageCreateView {
    pub title: Seq<char>,
    pub content: Seq<NodeView>,
    pub author_name: Option<Seq<char>>,
    pub author_url: Option<Seq<char>>,
}

impl View for PageCreate {
    type V = PageCreateView;

    open spec fn view(&self) -> PageCreateView {
        PageCreateView {
            title: self.title@,
            content: nodes_view(self.content@),
            author_name: opt_text(self.author_name),
            author_url: opt_text(self.author_url),
        }
    }
}

/// A page to edit, as a plain value.
pub struct PageEditView {
    pub title: Seq<char>,
    pub path: Seq<char>,
    pub content: Seq<NodeView>,
    pub author_name: Option<Seq<char>>,
    pub author_url: Option<Seq<char>>,
}

impl View for PageEdit {
    type V = PageEditView;

    open spec fn view(&self) -> PageEditView {
        PageEditView {
            title: self.title@,
            path: self.path@,
            content: nodes_view(self.content@),
            author_name: opt_text(self.author_name),
            author_url: opt_text(self.author_url),
        }
    }
}

/// A page, as a plain value.
pub struct PageView {
    pub path: Seq<char>,
    pub url: Seq<char>,
}

impl View for Page {
    type V = PageView;

    open spec fn view(&self) -> PageView {
        PageView { path: self.path@, url: self.url@ }
    }
}

/// What a publication needs next.
pub enum PublishStep {
    /// The creation of a page.
    Create(PageCreate),
    /// The editing of the page just created.
    Edit(PageEdit),
    /// Nothing: this is the first page.
    Done(Page),
    /// Nothing: the service failed.
    Failed,
}

/// What a publication needs next, as a plain value.
pub enum PublishStepView {
    Create(PageCreateView),
    Edit(PageEditView),
    Done(PageView),
    Failed,
}

impl View for PublishStep {
    type V = PublishStepView;

    open spec fn view(&self) -> PublishStepView {
        match *self {
            PublishStep::Create(page) => PublishStepView::Create(page@),
            PublishStep::Edit(page) => PublishStepView::Edit(page@),
            PublishStep::Done(page) => PublishStepView::Done(page@),
            PublishStep::Failed => PublishStepView::Failed,
        }
    }
}

/// Where a publication stands.
pub struct PublishState {
    pub about: PublicationView,
    /// The content of the pages that precede the one in work.
    pub parts: Seq<Seq<NodeView>>,
    pub step: PublishStepView,
}

/// The request that creates page number `k`: its part of the content, with a
/// footer that leads to the page after it.
pub open spec fn create_request(
    about: PublicationView,
    k: nat,
    part: Seq<NodeView>,
    next_page: Option<Seq<char>>,
) -> PageCreateView {
    PageCreateView {
        title: page_title(about.creation_title, k),
        content: part + footer_view(about.link, next_page),
        author_name: about.author_name,
        author_url: about.author_url,
    }
}

/// The request that gives page number `k`, just created, its title.
pub open spec fn edit_request(
    about: PublicationView,
    k: nat,
    page: PageView,
    content: Seq<NodeView>,
) -> PageEditView {
    PageEditView {
        title: page_title(about.title, k),
        path: page.path,
        content,
        author_name: about.author_name,
        author_url: about.author_url,
    }
}

/// The state in which the last of the given parts is about to become a page.
pub open spec fn publish_next(
    about: PublicationView,
    parts: Seq<Seq<NodeView>>,
    next_page: Option<Seq<char>>,
) -> PublishState {
    PublishState {
        about,
        parts: parts.drop_last(),
        step: PublishStepView::Create(
            create_request(about, (parts.len() - 1) as nat, parts.last(), next_page),
        ),
    }
}

/// The state after a page has its final form.
pub open spec fn published(s: PublishState, page: PageView) -> PublishState {
    if s.parts.len() == 0 {
        PublishState { step: PublishStepView::Done(page), ..s }
    } else {
        publish_next(s.about, s.parts, Some(page.url))
    }
}

/// Whether pages are created under another title than they are to have.
pub open spec fn needs_edit(about: PublicationView) -> bool {
    about.creation_title != about.title
}

/// The state after a page was created.
pub open spec fn after_create(s: PublishState, page: PageView) -> PublishState {
    if needs_edit(s.about) {
        PublishState {
            step: PublishStepView::Edit(
                edit_request(s.about, s.parts.len(), page, s.step->Create_0.content),
            ),
            ..s
        }
    } else {
        published(s, page)
    }
}

/// What lists of nodes show.
pub open spec fn parts_view(parts: Seq<Vec<Node>>) -> Seq<Seq<NodeView>> {
    parts.map_values(|p: Vec<Node>| nodes_view(p@))
}

/// The publication of a gallery's pages, from the last to the first.
pub struct PublishRun {
    about: Publication,
    chunks: Vec<Vec<Node>>,
    step: PublishStep,
}

impl View for PublishRun {
    type V = PublishState;

    closed spec fn view(&self) -> PublishState {
        PublishState { about: self.about@, parts: parts_view(self.chunks@), step: self.step@ }
    }
}

impl PublishRun {
    /// Publishes the given parts as pages.
    pub fn new(about: Publication, chunks: Vec<Vec<Node>>) -> (r: Self)
        requires
            chunks@.len() > 0,
        ensures
            r@ == publish_next(about@, parts_view(chunks@), None),
    {
        let mut r = PublishRun { about, chunks, step: PublishStep::Failed };
        r.create_next(None);
        r
    }

    /// What is needed next.
    pub fn step(&self) -> (r: &PublishStep)
        ensures
            r@ == self@.step,
    {
        &self.step
    }

    fn create_next(&mut self, next_page: Option<&str>)
        requires
            old(self)@.parts.len() > 0,
        ensures
            final(self)@ == publish_next(
                old(self)@.about,
                old(self)@.parts,
                match next_page {
                    Some(page) => Some(page@),
                    None => None,
                },
            ),
    {
        let mut content = self.chunks.pop().unwrap();
        assert(parts_view(self.chunks@) =~= old(self)@.parts.drop_last());
        assert(nodes_view(content@) =~= old(self)@.parts.last());
        write_footer(&mut content, self.about.link.as_str(), next_page);
        let title = titled(self.about.creation_title.as_str(), self.chunks.len());
        self.step = PublishStep::Create(
            PageCreate {
                title,
                content,
                author_name: clone_option(&self.about.author_name),
                author_url: clone_option(&self.about.author_url),
            },
        );
    }

    fn finish_page(&mut self, page: Page)
        ensures
            final(self)@ == published(old(self)@, page@),
    {
        if self.chunks.len() == 0 {
            self.step = PublishStep::Done(page);
        } else {
            self.create_next(Some(page.url.as_str()));
        }
    }

    /// Takes the page that was created, or that the service failed, which ends
    /// the publication.
    pub fn created<SE>(&mut self, r: Result<Page, TelegraphError>) -> (result: Result<
        (),
        UploadError<SE>,
    >)
        requires
            old(self)@.step is Create,
        ensures
            match r {
                Ok(page) => result is Ok && final(self)@ == after_create(old(self)@, page@),
                Err(e) => {
                    &&& result == Err::<(), UploadError<SE>>(UploadError::Reqwest(e))
                    &&& final(self)@ == (PublishState {
                        step: PublishStepView::Failed,
                        ..old(self)@
                    })
                },
            },
    {
        let mut step = PublishStep::Failed;
        std::mem::swap(&mut self.step, &mut step);
        match r {
            Err(e) => Err(UploadError::Reqwest(e)),
            Ok(page) => {
                if !same_text(self.about.creation_title.as_str(), self.about.title.as_str()) {
                    if let PublishStep::Create(request) = step {
                        let title = titled(self.about.title.as_str(), self.chunks.len());
                        self.step = PublishStep::Edit(
                            PageEdit {
                                title,
                                path: page.path,
                                content: request.content,
                                author_name: clone_option(&self.about.author_name),
                                author_url: clone_option(&self.about.author_url),
                            },
                        );
                    }
                } else {
                    self.finish_page(page);
                }
                Ok(())
            },
        }
    }

    /// Takes the page that was edited, or that the service failed, which ends
    /// the publication.
    pub fn edited<SE>(&mut self, r: Result<Page, TelegraphError>) -> (result: Result<
        (),
        UploadError<SE>,
    >)
        requires
            old(self)@.step is Edit,
        ensures
            match r {
                Ok(page) => result is Ok && final(self)@ == published(old(self)@, page@),
                Err(e) => {
                    &&& result == Err::<(), UploadError<SE>>(UploadError::Reqwest(e))
                    &&& final(self)@ == (PublishState {
                        step: PublishStepView::Failed,
                        ..old(self)@
                    })
                },
            },
    {
        match r {
            Err(e) => {
                self.step = PublishStep::Failed;
                Err(UploadError::Reqwest(e))
            },
            Ok(page) => {
                self.finish_page(page);
                Ok(())
            },
        }
    }
}

/// A page service that does what it is asked: the pages it answers with.
pub struct Service {
    pub create: spec_fn(PageCreateView) -> PageView,
    pub edit: spec_fn(PageEditView) -> PageView,
}

/// The page that a part becomes, created and, where its title is not the one
/// it is to have, edited.
pub open spec fn page_of(
    about: PublicationView,
    k: nat,
    part: Seq<NodeView>,
    next_page: Option<Seq<char>>,
    service: Service,
) -> PageView {
    let request = create_request(about, k, part, next_page);
    let page = (service.create)(request);
    if needs_edit(about) {
        (service.edit)(edit_request(about, k, page, request.content))
    } else {
        page
    }
}

/// Page number `k` of a gallery: it leads to page number `k + 1`, and the last
/// page leads nowhere.
pub open spec fn page_number(
    about: PublicationView,
    parts: Seq<Seq<NodeView>>,
    k: nat,
    service: Service,
) -> PageView
    decreases parts.len() - k,
{
    page_of(
        about,
        k,
        parts[k as int],
        if k + 1 < parts.len() {
            Some(page_number(about, parts, k + 1, service).url)
        } else {
            None
        },
        service,
    )
}

/// The state in which a publication ends with a service that does what it is
/// asked.
pub open spec fn publish_run(s: PublishState, service: Service) -> PublishState
    decreases
            s.parts.len(),
            (match s.step {
                PublishStepView::Create(_) => 2nat,
                PublishStepView::Edit(_) => 1nat,
                _ => 0nat,
            }),
{
    match s.step {
        PublishStepView::Create(request) => publish_run(
            after_create(s, (service.create)(request)),
            service,
        ),
        PublishStepView::Edit(request) => publish_run(
            published(s, (service.edit)(request)),
            service,
        ),
        _ => s,
    }
}

/// A publication ends with the first page, in which every page leads to the one
/// after it.
pub proof fn law_publish(about: PublicationView, parts: Seq<Seq<NodeView>>, service: Service)
    requires
        parts.len() > 0,
    ensures
        publish_run(publish_next(about, parts, None), service).step == PublishStepView::Done(
            page_number(about, parts, 0, service),
        ),
{
    assert(parts.take(parts.len() as int) =~= parts);
    lemma_publish(about, parts, parts.len(), service);
}

proof fn lemma_publish(
    about: PublicationView,
    parts: Seq<Seq<NodeView>>,
    m: nat,
    service: Service,
)
    requires
        1 <= m <= parts.len(),
    ensures
        publish_run(
            publish_next(
                about,
                parts.take(m as int),
                if m < parts.len() {
                    Some(page_number(about, parts, m, service).url)
                } else {
                    None
                },
            ),
            service,
        ).step == PublishStepView::Done(page_number(about, parts, 0, service)),
    decreases m,
{
    let next = if m < parts.len() {
        Some(page_number(about, parts, m, service).url)
    } else {
        None
    };
    let k = (m - 1) as nat;
    let s = publish_next(about, parts.take(m as int), next);
    let request = create_request(about, k, parts[k as int], next);
    assert(parts.take(m as int).last() == parts[k as int]);
    assert(parts.take(m as int).drop_last() =~= parts.take(k as int));
    assert(s.step == PublishStepView::Create(request));
    let page = (service.create)(request);
    let t = after_create(s, page);
    assert(publish_run(s, service) == publish_run(t, service));
    let done = page_number(about, parts, k, service);
    assert(done == page_of(about, k, parts[k as int], next, service));
    if needs_edit(about) {
        assert(publish_run(t, service) == publish_run(published(t, done), service));
    }
    if k > 0 {
        lemma_publish(about, parts, k, service);
    }
}

/// Pages are created under another title than they are to have exactly where
/// that title names the range.
pub proof fn law_edit_iff_range_named(
    meta: AlbumMeta,
    start: nat,
    end: Option<nat>,
    author_name: Option<Seq<char>>,
    author_url: Option<Seq<char>>,
)
    ensures
        needs_edit(publication_view(meta, start, end, author_name, author_url)) == (end is Some && (
        start > 1 || end->0 > 1)),
{
    let title = clean_title(meta.name@);
    if names_range(start, end) {
        lemma_decimal_digits(start);
        assert(creation_title(title, start, end).len() > title.len());
    }
}

/// Whatever title pages are created with, the last request for each page gives
/// it the title that it is to have, and the content that it was created with.
pub proof fn law_final_form(
    about: PublicationView,
    k: nat,
    part: Seq<NodeView>,
    next_page: Option<Seq<char>>,
    created: PageView,
)
    ensures
        ({
            let create = create_request(about, k, part, next_page);
            let edit = edit_request(about, k, created, create.content);
            &&& edit.title == page_title(about.title, k)
            &&& edit.path == created.path
            &&& edit.content == create.content
            &&& create.content == part + footer_view(about.link, next_page)
            &&& !needs_edit(about) ==> create.title == page_title(about.title, k)
        }),
{
}

/// Where an author is configured, pages name exactly that author, whatever authors
/// the gallery has. Else they name the authors of the gallery, with a comma and a
/// space between each two, or nobody where the gallery names none.
pub proof fn law_author_named(
    meta: AlbumMeta,
    start: nat,
    end: Option<nat>,
    author_name: Option<Seq<char>>,
    author_url: Option<Seq<char>>,
)
    ensures
        ({
            let about = publication_view(meta, start, end, author_name, author_url);
            &&& author_name is Some ==> about.author_name == author_name
            &&& author_name is None && meta.authors is None ==> about.author_name is None
            &&& author_name is None && meta.authors is Some ==> about.author_name == Some(
                joined(texts(meta.authors->0@), ", "@),
            )
            &&& about.author_url == author_url
        }),
{
}

/// Every request of a publication names its author, in whatever state the
/// publication is.
pub proof fn law_requests_name_author(
    about: PublicationView,
    parts: Seq<Seq<NodeView>>,
    next_page: Option<Seq<char>>,
    s: PublishState,
    page: PageView,
)
    requires
        parts.len() > 0,
        s.about == about,
    ensures
        ({
            let start = publish_next(about, parts, next_page);
            let edit = after_create(s, page);
            let more = published(s, page);
            &&& start.about == about && edit.about == about && more.about == about
            &&& start.step matches PublishStepView::Create(request) && request.author_name
                == about.author_name && request.author_url == about.author_url
            &&& edit.step matches PublishStepView::Create(request) ==> request.author_name
                == about.author_name && request.author_url == about.author_url
            &&& edit.step matches PublishStepView::Edit(request) ==> request.author_name
                == about.author_name && request.author_url == about.author_url
            &&& more.step matches PublishStepView::Create(request) ==> request.author_name
                == about.author_name && request.author_url == about.author_url
        }),
{
}

/// The title of the pages is the name of the gallery without vertical bars; the
/// pages of a range whose last page is given and that does not end with the first
/// are created under a title that also names the range; other pages under the
/// title that they are to have.
pub proof fn law_titles(
    meta: AlbumMeta,
    start: nat,
    end: Option<nat>,
    author_name: Option<Seq<char>>,
    author_url: Option<Seq<char>>,
)
    ensures
        ({
            let about = publication_view(meta, start, end, author_name, author_url);
            let title = without_char(meta.name@, '|');
            &&& about.title == title
            &&& about.link == meta.link@
            &&& end is None ==> about.creation_title == title
            &&& end matches Some(e) ==> (start > 1 || e > 1 ==> about.creation_title == title
                + " "@ + decimal(start) + "-"@ + decimal(e))
            &&& end matches Some(e) ==> (start <= 1 && e <= 1 ==> about.creation_title == title)
        }),
{
}

/// The first page has the title itself; the number of every other page is added
/// to it, counted from one. No two pages of a gallery have the same title.
pub proof fn law_page_titles(base: Seq<char>, j: nat, k: nat)
    ensures
        page_title(base, 0) == base,
        k > 0 ==> page_title(base, k) == base + "-Page"@ + decimal((k + 1) as nat),
        page_title(base, j) == page_title(base, k) ==> j == k,
{
    if page_title(base, j) == page_title(base, k) {
        lemma_decimal_digits((j + 1) as nat);
        lemma_decimal_digits((k + 1) as nat);
        let m = (base + "-Page"@).len() as int;
        if j > 0 && k > 0 {
            assert(page_title(base, j).skip(m) =~= decimal((j + 1) as nat));
            assert(page_title(base, k).skip(m) =~= decimal((k + 1) as nat));
            law_decimal_injective((j + 1) as nat, (k + 1) as nat);
        } else if j > 0 {
            assert(page_title(base, j).len() > base.len());
        } else if k > 0 {
            assert(page_title(base, k).len() > base.len());
        }
    }
}

/// A publication begins with the last part. Once a page has its final form, the
/// last of the parts that are left becomes the next page, which shows that part
/// above a footer that leads to the page just finished; the page of the first part
/// is the result.
pub proof fn law_pages_in_turn(
    about: PublicationView,
    parts: Seq<Seq<NodeView>>,
    next_page: Option<Seq<char>>,
    page: PageView,
)
    requires
        parts.len() > 0,
    ensures
        ({
            let s = publish_next(about, parts, next_page);
            let done = published(s, page);
            &&& s.parts == parts.drop_last()
            &&& s.step matches PublishStepView::Create(request) && request.content == parts.last()
                + footer_view(about.link, next_page) && request.title == page_title(
                about.creation_title,
                (parts.len() - 1) as nat,
            )
            &&& parts.len() == 1 ==> done.step == PublishStepView::Done(page)
            &&& parts.len() > 1 ==> {
                &&& done.parts == parts.drop_last().drop_last()
                &&& done.step matches PublishStepView::Create(request) && request.content
                    == parts[parts.len() - 2] + footer_view(about.link, Some(page.url))
                    && request.title == page_title(about.creation_title, (parts.len() - 2) as nat)
            }
        }),
{
}

/// A page just created under another title than it is to have is edited at its
/// path, to that title and with the content that it was created with; any other
/// has its final form.
pub proof fn law_created_page_edited(
    about: PublicationView,
    parts: Seq<Seq<NodeView>>,
    next_page: Option<Seq<char>>,
    page: PageView,
)
    requires
        parts.len() > 0,
    ensures
        ({
            let s = publish_next(about, parts, next_page);
            let t = after_create(s, page);
            &&& about.creation_title == about.title ==> t == published(s, page)
            &&& about.creation_title != about.title ==> t.parts == s.parts && (
            t.step matches PublishStepView::Edit(request) && {
                &&& request.path == page.path
                &&& request.title == page_title(about.title, (parts.len() - 1) as nat)
                &&& request.content == parts.last() + footer_view(about.link, next_page)
            })
        }),
{
}

/// Each uploaded image is shown by a node of its own, in its place.
pub proof fn law_images_shown(images: Seq<UploadedImage>, i: int)
    requires
        0 <= i < images.len(),
    ensures
        image_nodes_view(images).len() == images.len(),
        image_nodes_view(images)[i] == (NodeView::Element {
            tag: Tag::Img,
            attrs: Some(AttrView { src: Some(images[i].src@), href: None }),
            children: None,
        }),
{
}

/// With a configured author, every request of a publication names that author and
/// no other, in whatever state the publication is.
pub proof fn law_configured_author_in_requests(
    meta: AlbumMeta,
    start: nat,
    end: Option<nat>,
    name: Seq<char>,
    author_url: Option<Seq<char>>,
    parts: Seq<Seq<NodeView>>,
    s: PublishState,
    page: PageView,
)
    requires
        parts.len() > 0,
        s.about == publication_view(meta, start, end, Some(name), author_url),
    ensures
        publish_next(s.about, parts, None).step matches PublishStepView::Create(request)
            && request.author_name == Some(name),
        published(s, page).step matches PublishStepView::Create(request) ==> request.author_name
            == Some(name),
        after_create(s, page).step matches PublishStepView::Create(request)
            ==> request.author_name == Some(name),
        after_create(s, page).step matches PublishStepView::Edit(request) ==> request.author_name
            == Some(name),
{
    law_author_named(meta, start, end, Some(name), author_url);
    law_requests_name_author(s.about, parts, None, s, page);
}

} // verus!
