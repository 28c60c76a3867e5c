//! Collecting the images of a gallery and uploading them in batches.

use crate::album::{Image, ImageData, ImageMeta};
use crate::buffer::{total_size, ImageBuffer};
use crate::fetch::range_len;
use crate::sync::UploadError;
use crate::telegraph::{MediaInfo, TelegraphError, MAX_SINGLE_FILE_SIZE};
use vstd::prelude::*;

verus! {

/// How many images in a row may fail to be fetched.
pub const ERR_THRESHOLD: usize = 10;

/// A batch with more images than this is uploaded.
pub const BATCH_LEN_THRESHOLD: usize = 20;

/// A batch with more bytes than this is uploaded.
pub const BATCH_SIZE_THRESHOLD: usize = 5 * 1024 * 1024;

/// An image and where it was uploaded to.
pub struct UploadedImage {
    pub meta: ImageMeta,
    pub src: String,
}

/// What a collection needs next.
pub enum CollectStep {
    /// The next image of the gallery, if there is one.
    Pull,
    /// The image that was pulled, fetched.
    Fetch,
    /// The upload of the files.
    Upload { metas: Vec<ImageMeta>, files: Vec<ImageData> },
    /// Nothing: everything is uploaded.
    Finished,
    /// Nothing: the collection failed.
    Failed,
}

/// What a collection needs next, as a plain value.
pub enum StepView {
    Pull,
    Fetch,
    Upload { metas: Seq<ImageMeta>, files: Seq<ImageData> },
    Finished,
    Failed,
}

impl View for CollectStep {
    type V = StepView;

    open spec fn view(&self) -> StepView {
        match *self {
            CollectStep::Pull => StepView::Pull,
            CollectStep::Fetch => StepView::Fetch,
            CollectStep::Upload { metas, files } => StepView::Upload {
                metas: metas@,
                files: files@,
            },
            CollectStep::Finished => StepView::Finished,
            CollectStep::Failed => StepView::Failed,
        }
    }
}

/// Where a collection stands.
pub struct CollectState {
    /// How many images failed in a row.
    pub errors: nat,
    /// What was uploaded, in order.
    pub uploaded: Seq<UploadedImage>,
    /// What was fetched and is not uploaded yet.
    pub buffer: Seq<Image>,
    /// The number of the image that is pulled or fetched next.
    pub index: nat,
    /// The number of the last wanted image.
    pub end: Option<nat>,
    /// Whether the end of the range was passed.
    pub cut: bool,
    pub step: StepView,
}

pub open spec fn metas_of(images: Seq<Image>) -> Seq<ImageMeta> {
    images.map_values(|i: Image| i.0)
}

pub open spec fn files_of(images: Seq<Image>) -> Seq<ImageData> {
    images.map_values(|i: Image| i.1)
}

/// Each image with the address its file got, as far as there are addresses.
pub open spec fn zipped(metas: Seq<ImageMeta>, media: Seq<MediaInfo>) -> Seq<UploadedImage> {
    Seq::new(
        if metas.len() <= media.len() {
            metas.len()
        } else {
            media.len()
        },
        |i: int| UploadedImage { meta: metas[i], src: media[i].src },
    )
}

/// Whether a batch is large enough to be uploaded.
pub open spec fn batch_full(images: Seq<Image>) -> bool {
    images.len() > BATCH_LEN_THRESHOLD || total_size(images) > BATCH_SIZE_THRESHOLD
}

/// The state once nothing more is fetched for now: what is held is uploaded;
/// where nothing is held, everything is done.
pub open spec fn settled(s: CollectState) -> CollectState {
    if s.buffer.len() == 0 {
        CollectState { step: StepView::Finished, ..s }
    } else {
        CollectState {
            buffer: Seq::empty(),
            step: StepView::Upload { metas: metas_of(s.buffer), files: files_of(s.buffer) },
            ..s
        }
    }
}

/// Whether the range ends before the next image.
pub open spec fn past_end(s: CollectState) -> bool {
    s.end is Some && s.index > s.end->0
}

/// The state after it is known whether there is another image.
pub open spec fn after_pull(s: CollectState, present: bool) -> CollectState {
    if !present {
        settled(s)
    } else if past_end(s) {
        settled(CollectState { cut: true, ..s })
    } else {
        CollectState { step: StepView::Fetch, ..s }
    }
}

/// The state after an image came, or failed to. Either way it counts as an image
/// of the range; one that failed and one whose file is too large are left out.
pub open spec fn after_fetch<SE>(s: CollectState, r: Result<Image, SE>) -> CollectState {
    match r {
        Err(_) => CollectState {
            errors: s.errors + 1,
            index: s.index + 1,
            step: if s.errors + 1 > ERR_THRESHOLD {
                StepView::Failed
            } else {
                StepView::Pull
            },
            ..s
        },
        Ok(image) => {
            let t = CollectState { errors: 0, index: s.index + 1, step: StepView::Pull, ..s };
            if image.1@.len() >= MAX_SINGLE_FILE_SIZE {
                t
            } else {
                let u = CollectState { buffer: s.buffer.push(image), ..t };
                if batch_full(u.buffer) {
                    settled(u)
                } else {
                    u
                }
            }
        },
    }
}

/// The state after a batch was uploaded, or failed to be.
pub open spec fn after_upload(s: CollectState, media: Option<Seq<MediaInfo>>) -> CollectState {
    match media {
        Some(m) => CollectState {
            errors: 0,
            uploaded: s.uploaded + zipped(s.step->metas, m),
            step: if s.cut {
                StepView::Finished
            } else {
                StepView::Pull
            },
            ..s
        },
        None => CollectState { step: StepView::Failed, ..s },
    }
}

impl CollectState {
    /// What holds of every state of a collection.
    pub open spec fn wf(self) -> bool {
        match self.step {
            StepView::Pull | StepView::Fetch => {
                &&& self.errors <= ERR_THRESHOLD
                &&& !self.cut
                &&& !batch_full(self.buffer)
            },
            StepView::Upload { metas, files } => {
                &&& self.errors <= ERR_THRESHOLD
                &&& self.buffer.len() == 0
                &&& metas.len() == files.len()
                &&& 1 <= files.len() <= BATCH_LEN_THRESHOLD + 1
                &&& files_size(files) < BATCH_SIZE_THRESHOLD + MAX_SINGLE_FILE_SIZE
                &&& self.cut ==> past_end(self)
            },
            StepView::Finished => self.buffer.len() == 0,
            StepView::Failed => true,
        }
    }
}

/// The size of all the files of a batch.
pub open spec fn files_size(files: Seq<ImageData>) -> nat
    decreases files.len(),
{
    if files.len() == 0 {
        0
    } else {
        files_size(files.drop_last()) + files.last()@.len()
    }
}

proof fn lemma_files_size(images: Seq<Image>)
    ensures
        files_size(files_of(images)) == total_size(images),
    decreases images.len(),
{
    if images.len() > 0 {
        assert(files_of(images).drop_last() =~= files_of(images.drop_last()));
        lemma_files_size(images.drop_last());
    }
}

/// Every step of a collection keeps what holds of its states: no batch has more
/// than 21 images or 10 MiB of files.
pub proof fn law_collect_invariant<SE>(
    s: CollectState,
    present: bool,
    r: Result<Image, SE>,
    media: Option<Seq<MediaInfo>>,
)
    requires
        s.wf(),
    ensures
        s.step == StepView::Pull ==> after_pull(s, present).wf(),
        s.step == StepView::Fetch ==> after_fetch(s, r).wf(),
        s.step is Upload ==> after_upload(s, media).wf(),
{
    if s.step == StepView::Pull {
        lemma_files_size(s.buffer);
    }
    if s.step == StepView::Fetch {
        if let Ok(image) = r {
            let b = s.buffer.push(image);
            assert(b.drop_last() =~= s.buffer);
            lemma_files_size(b);
        }
    }
    if s.step is Upload {
        assert(total_size(s.buffer) == 0);
    }
}

/// A collection of the images of a range. Images are fetched one after the
/// other and uploaded in batches.
pub struct CollectRun {
    err_count: usize,
    uploaded: Vec<UploadedImage>,
    buffer: ImageBuffer<Image>,
    current_idx: usize,
    end_idx: Option<usize>,
    finished_fetching: bool,
    step: CollectStep,
}

/// The last number of a range as a plain value.
pub open spec fn end_view(end: Option<usize>) -> Option<nat> {
    match end {
        Some(e) => Some(e as nat),
        None => None,
    }
}

/// The state in which a collection begins.
pub open spec fn collect_start(start: nat, end: Option<nat>) -> CollectState {
    CollectState {
        errors: 0,
        uploaded: Seq::empty(),
        buffer: Seq::empty(),
        index: start,
        end,
        cut: false,
        step: StepView::Pull,
    }
}

impl View for CollectRun {
    type V = CollectState;

    closed spec fn view(&self) -> CollectState {
        CollectState {
            errors: self.err_count as nat,
            uploaded: self.uploaded@,
            buffer: self.buffer@,
            index: self.current_idx as nat,
            end: end_view(self.end_idx),
            cut: self.finished_fetching,
            step: self.step@,
        }
    }
}

/// What an upload gave, if it succeeded.
pub open spec fn uploaded_media(r: Result<Vec<MediaInfo>, TelegraphError>) -> Option<
    Seq<MediaInfo>,
> {
    match r {
        Ok(media) => Some(media@),
        Err(_) => None,
    }
}

fn unzip(images: Vec<Image>) -> (r: (Vec<ImageMeta>, Vec<ImageData>))
    ensures
        r.0@ == metas_of(images@),
        r.1@ == files_of(images@),
{
    let mut metas: Vec<ImageMeta> = Vec::new();
    let mut files: Vec<ImageData> = Vec::new();
    let ghost all = images@;
    for image in it: images.into_iter()
        invariant
            it.seq() == all,
            metas@ == metas_of(all.take(it.index() as int)),
            files@ == files_of(all.take(it.index() as int)),
    {
        let ghost k = it.index() as int;
        assert(all.take(k + 1) =~= all.take(k).push(all[k]));
        let (meta, data) = image;
        metas.push(meta);
        files.push(data);
        assert(metas@ =~= metas_of(all.take(k + 1)));
        assert(files@ =~= files_of(all.take(k + 1)));
    }
    assert(all.take(all.len() as int) =~= all);
    (metas, files)
}

fn zip(metas: Vec<ImageMeta>, media: Vec<MediaInfo>) -> (r: Vec<UploadedImage>)
    ensures
        r@ == zipped(metas@, media@),
{
    let mut r: Vec<UploadedImage> = Vec::new();
    let mut media = media;
    let ghost all_media = media@;
    let ghost all_metas = metas@;
    for meta in it: metas.into_iter()
        invariant
            it.seq() == all_metas,
            media@ == all_media.skip(r@.len() as int),
            r@.len() <= all_media.len(),
            r@ == zipped(all_metas.take(it.index() as int), all_media),
    {
        let ghost k = it.index() as int;
        let ghost before = r@;
        if media.len() > 0 {
            let m = media.remove(0);
            r.push(UploadedImage { meta, src: m.src });
            assert(media@ =~= all_media.skip(r@.len() as int));
        }
        assert(r@ =~= zipped(all_metas.take(k + 1), all_media));
    }
    assert(all_metas.take(all_metas.len() as int) =~= all_metas);
    r
}

impl CollectRun {
    /// The kept sizes are right and the state is one of a collection's.
    pub closed spec fn wf(self) -> bool {
        self.buffer.wf() && self@.wf()
    }

    /// What holds of every state of a collection holds of a run in hand: a batch
    /// to upload has 1 to 21 files and less than 10 MiB of them.
    pub proof fn law_run_state(self)
        requires
            self.wf(),
        ensures
            self@.wf(),
            self@.step matches StepView::Upload { metas, files } ==> {
                &&& metas.len() == files.len()
                &&& 1 <= files.len() <= 21
                &&& files_size(files) < 10 * 1024 * 1024
            },
    {
    }

    /// Collects the images from number `start_idx` on, up to `end_idx` where it
    /// is given.
    pub fn new(start_idx: usize, end_idx: Option<usize>) -> (r: Self)
        ensures
            r.wf(),
            r@ == collect_start(start_idx as nat, end_view(end_idx)),
    {
        CollectRun {
            err_count: 0,
            uploaded: Vec::new(),
            buffer: ImageBuffer::new(),
            current_idx: start_idx,
            end_idx,
            finished_fetching: false,
            step: CollectStep::Pull,
        }
    }

    /// What is needed next.
    pub fn step(&self) -> (r: &CollectStep)
        ensures
            r@ == self@.step,
    {
        &self.step
    }

    /// The number of the image that is pulled or fetched next.
    pub fn current_index(&self) -> (r: usize)
        ensures
            r == self@.index,
    {
        self.current_idx
    }

    fn settle(&mut self)
        requires
            old(self).buffer.wf(),
        ensures
            final(self).buffer.wf(),
            final(self)@ == settled(old(self)@),
    {
        if self.buffer.is_empty() {
            self.step = CollectStep::Finished;
        } else {
            let (full_data, _size) = self.buffer.swap();
            let (metas, files) = unzip(full_data);
            self.step = CollectStep::Upload { metas, files };
        }
    }

    /// Takes note of whether there is another image.
    pub fn pulled(&mut self, present: bool)
        requires
            old(self).wf(),
            old(self)@.step == StepView::Pull,
        ensures
            final(self).wf(),
            final(self)@ == after_pull(old(self)@, present),
    {
        proof {
            law_collect_invariant(self@, present, Err::<Image, ()>(()), None);
        }
        if !present {
            self.settle();
        } else {
            let past = match self.end_idx {
                Some(e) => self.current_idx > e,
                None => false,
            };
            if past {
                self.finished_fetching = true;
                self.settle();
            } else {
                self.step = CollectStep::Fetch;
            }
        }
    }

    /// Takes an image, or that it failed. One failure too many in a row ends
    /// the collection with it.
    pub fn fetched<SE>(&mut self, r: Result<Image, SE>) -> (result: Result<(), UploadError<SE>>)
        requires
            old(self).wf(),
            old(self)@.step == StepView::Fetch,
            old(self)@.index < usize::MAX,
        ensures
            final(self).wf(),
            final(self)@ == after_fetch(old(self)@, r),
            result is Err == (final(self)@.step is Failed),
            result is Err ==> r is Err && result == Err::<(), UploadError<SE>>(
                UploadError::Stream(r->Err_0),
            ),
    {
        proof {
            law_collect_invariant(self@, true, r, None);
        }
        match r {
            Err(e) => {
                self.current_idx = self.current_idx + 1;
                self.err_count = self.err_count + 1;
                if self.err_count > ERR_THRESHOLD {
                    self.step = CollectStep::Failed;
                    return Err(UploadError::Stream(e));
                }
                self.step = CollectStep::Pull;
            },
            Ok(image) => {
                self.err_count = 0;
                if image.1.len() >= MAX_SINGLE_FILE_SIZE {
                    self.current_idx = self.current_idx + 1;
                    self.step = CollectStep::Pull;
                } else {
                    self.buffer.push(image);
                    self.current_idx = self.current_idx + 1;
                    self.step = CollectStep::Pull;
                    if self.buffer.len() > BATCH_LEN_THRESHOLD || self.buffer.size()
                        > BATCH_SIZE_THRESHOLD {
                        self.settle();
                    }
                }
            },
        }
        Ok(())
    }

    /// Takes the addresses that the files of a batch got, or that the upload
    /// failed, which ends the collection.
    pub fn uploaded<SE>(&mut self, r: Result<Vec<MediaInfo>, TelegraphError>) -> (result: Result<
        (),
        UploadError<SE>,
    >)
        requires
            old(self).wf(),
            old(self)@.step is Upload,
        ensures
            final(self).wf(),
            final(self)@ == after_upload(old(self)@, uploaded_media(r)),
            r is Ok ==> result is Ok,
            r is Err ==> result == Err::<(), UploadError<SE>>(UploadError::Reqwest(r->Err_0)),
    {
        proof {
            law_collect_invariant(self@, true, Err::<Image, ()>(()), uploaded_media(r));
        }
        let mut step = CollectStep::Failed;
        std::mem::swap(&mut self.step, &mut step);
        match r {
            Err(e) => Err(UploadError::Reqwest(e)),
            Ok(media) => {
                self.err_count = 0;
                if let CollectStep::Upload { metas, .. } = step {
                    let mut images = zip(metas, media);
                    self.uploaded.append(&mut images);
                }
                self.step = if self.finished_fetching {
                    CollectStep::Finished
                } else {
                    CollectStep::Pull
                };
                Ok(())
            },
        }
    }

    /// What was uploaded; a collection without a single image is an error.
    pub fn finish<SE>(self) -> (r: Result<Vec<UploadedImage>, UploadError<SE>>)
        requires
            self@.step is Finished,
        ensures
            self@.uploaded.len() == 0 ==> r == Err::<Vec<UploadedImage>, UploadError<SE>>(
                UploadError::EmptyResult,
            ),
            self@.uploaded.len() > 0 ==> r is Ok && r->Ok_0@ == self@.uploaded,
    {
        if self.uploaded.len() == 0 {
            Err(UploadError::EmptyResult)
        } else {
            Ok(self.uploaded)
        }
    }
}

/// What a range of a gallery amounts to.
pub enum Accepted<SE> {
    /// The images to upload, in order.
    Images(Seq<Image>),
    /// One failure too many in a row.
    Broken(SE),
}

/// The given image, then what follows it.
pub open spec fn accepted_after<SE>(image: Image, rest: Accepted<SE>) -> Accepted<SE> {
    match rest {
        Accepted::Images(images) => Accepted::Images(seq![image] + images),
        Accepted::Broken(e) => Accepted::Broken(e),
    }
}

/// What a range amounts to, on a gallery whose remaining images are fetched
/// with the results `stream`: the images up to the end of the range, without
/// those that failed and those whose file is too large.
pub open spec fn accepted<SE>(
    stream: Seq<Result<Image, SE>>,
    index: nat,
    end: Option<nat>,
    errors: nat,
) -> Accepted<SE>
    decreases stream.len(),
{
    if stream.len() == 0 || (end is Some && index > end->0) {
        Accepted::Images(Seq::empty())
    } else {
        match stream[0] {
            Err(e) => if errors + 1 > ERR_THRESHOLD {
                Accepted::Broken(e)
            } else {
                accepted(stream.skip(1), index + 1, end, errors + 1)
            },
            Ok(image) => if image.1@.len() >= MAX_SINGLE_FILE_SIZE {
                accepted(stream.skip(1), index + 1, end, 0)
            } else {
                accepted_after(image, accepted(stream.skip(1), index + 1, end, 0))
            },
        }
    }
}

/// The addresses that files get from an image host that keeps them at `place`.
pub open spec fn placed_media(files: Seq<ImageData>, place: spec_fn(ImageData) -> String) -> Seq<
    MediaInfo,
> {
    files.map_values(|d: ImageData| MediaInfo { src: place(d) })
}

/// The images with the addresses of their files.
pub open spec fn placed(images: Seq<Image>, place: spec_fn(ImageData) -> String) -> Seq<
    UploadedImage,
> {
    images.map_values(|i: Image| UploadedImage { meta: i.0, src: place(i.1) })
}

/// How far a step is from the next fetched image.
pub open spec fn step_rank(s: CollectState) -> nat {
    match s.step {
        StepView::Pull => if s.buffer.len() > 0 {
            4
        } else {
            2
        },
        StepView::Upload { .. } => 3,
        StepView::Fetch => 1,
        StepView::Finished => 0,
        StepView::Failed => 0,
    }
}

/// The state in which a collection ends, on a gallery whose remaining images
/// are fetched with the results `stream`, with an image host that takes every
/// file.
pub open spec fn collect_run<SE>(
    s: CollectState,
    stream: Seq<Result<Image, SE>>,
    place: spec_fn(ImageData) -> String,
) -> CollectState
    decreases stream.len(), step_rank(s),
    when s.wf()
{
    match s.step {
        StepView::Pull => collect_run(after_pull(s, stream.len() > 0), stream, place),
        StepView::Fetch => if stream.len() > 0 {
            collect_run(after_fetch(s, stream[0]), stream.skip(1), place)
        } else {
            s
        },
        StepView::Upload { files, .. } => collect_run(
            after_upload(s, Some(placed_media(files, place))),
            stream,
            place,
        ),
        StepView::Finished => s,
        StepView::Failed => s,
    }
}

/// The images of a batch.
pub open spec fn batch_images(metas: Seq<ImageMeta>, files: Seq<ImageData>) -> Seq<Image> {
    Seq::new(metas.len(), |i: int| (metas[i], files[i]))
}

/// The images that were fetched and are not uploaded yet.
pub open spec fn held(s: CollectState) -> Seq<Image> {
    match s.step {
        StepView::Upload { metas, files } => batch_images(metas, files),
        _ => s.buffer,
    }
}

/// A collection ends. It fails exactly where the range breaks; else it has
/// uploaded what it had, what it held and the images of the range, each once
/// and in order, each with the address of its file.
pub proof fn law_collect_run<SE>(
    s: CollectState,
    stream: Seq<Result<Image, SE>>,
    place: spec_fn(ImageData) -> String,
)
    requires
        s.wf(),
        s.step is Pull || s.step is Fetch || s.step is Upload,
        s.step is Fetch ==> stream.len() > 0 && !past_end(s),
        s.step is Upload ==> s.cut || s.errors == 0 || stream.len() == 0,
    ensures
        match accepted(stream, s.index, s.end, s.errors) {
            Accepted::Broken(_) => collect_run(s, stream, place).step is Failed,
            Accepted::Images(images) => {
                &&& collect_run(s, stream, place).step is Finished
                &&& collect_run(s, stream, place).uploaded == s.uploaded + placed(
                    held(s) + images,
                    place,
                )
            },
        },
    decreases stream.len(), step_rank(s),
{
    match s.step {
        StepView::Pull => {
            let t = after_pull(s, stream.len() > 0);
            law_collect_invariant(s, stream.len() > 0, Err::<Image, ()>(()), None);
            assert(collect_run(s, stream, place) == collect_run(t, stream, place));
            if t.step is Finished {
                assert(held(s) + Seq::<Image>::empty() =~= Seq::<Image>::empty());
                assert(t.uploaded =~= s.uploaded + placed(
                    held(s) + Seq::<Image>::empty(),
                    place,
                ));
            } else {
                assert(held(t) =~= held(s));
                law_collect_run(t, stream, place);
            }
        },
        StepView::Fetch => {
            let t = after_fetch(s, stream[0]);
            let rest = stream.skip(1);
            law_collect_invariant(s, true, stream[0], None);
            assert(collect_run(s, stream, place) == collect_run(t, rest, place));
            if !(t.step is Failed) {
                law_collect_run(t, rest, place);
                if let Ok(image) = stream[0] {
                    if image.1@.len() < MAX_SINGLE_FILE_SIZE {
                        assert(held(t) =~= s.buffer.push(image));
                        if let Accepted::Images(images) = accepted(rest, t.index, t.end, t.errors) {
                            assert(held(s) + (seq![image] + images) =~= held(t) + images);
                        }
                    }
                }
            }
        },
        StepView::Upload { metas, files } => {
            let media = placed_media(files, place);
            let t = after_upload(s, Some(media));
            law_collect_invariant(s, true, Err::<Image, ()>(()), Some(media));
            assert(collect_run(s, stream, place) == collect_run(t, stream, place));
            assert(zipped(metas, media) =~= placed(held(s), place));
            if t.step is Pull {
                law_collect_run(t, stream, place);
                if let Accepted::Images(images) = accepted(stream, t.index, t.end, t.errors) {
                    assert(held(t) + images =~= images);
                    assert(t.uploaded + placed(held(t) + images, place) =~= s.uploaded + placed(
                        held(s) + images,
                        place,
                    ));
                }
            } else {
                assert(held(s) + Seq::<Image>::empty() =~= held(s));
            }
        },
        _ => {},
    }
}

/// A collection from its beginning uploads exactly the images of the range, in
/// order, unless the range breaks.
pub proof fn law_collect_range<SE>(
    start: nat,
    end: Option<nat>,
    stream: Seq<Result<Image, SE>>,
    place: spec_fn(ImageData) -> String,
)
    ensures
        match accepted(stream, start, end, 0) {
            Accepted::Broken(_) => {
                collect_run(collect_start(start, end), stream, place).step is Failed
            },
            Accepted::Images(images) => {
                &&& collect_run(collect_start(start, end), stream, place).step is Finished
                &&& collect_run(collect_start(start, end), stream, place).uploaded == placed(
                    images,
                    place,
                )
            },
        },
{
    let s = collect_start(start, end);
    assert(total_size(s.buffer) == 0);
    law_collect_run(s, stream, place);
    if let Accepted::Images(images) = accepted(stream, start, end, 0) {
        assert(s.uploaded + placed(held(s) + images, place) =~= placed(images, place));
    }
}

/// How many of the available images lie in a range that starts with the first of
/// them and need not have an end.
pub open spec fn window_len(start: nat, end: Option<nat>, available: nat) -> nat {
    match end {
        Some(e) => range_len(start, e, available),
        None => available,
    }
}

/// The images that were fetched and whose file is not too large, in order.
pub open spec fn small_images<SE>(results: Seq<Result<Image, SE>>) -> Seq<Image>
    decreases results.len(),
{
    if results.len() == 0 {
        Seq::empty()
    } else {
        let rest = small_images(results.skip(1));
        match results[0] {
            Ok(image) => if image.1@.len() < MAX_SINGLE_FILE_SIZE {
                seq![image] + rest
            } else {
                rest
            },
            Err(_) => rest,
        }
    }
}

/// Whether the result at `k` is the last of one failure too many in a row.
pub open spec fn streak_ends<SE>(results: Seq<Result<Image, SE>>, k: int) -> bool {
    &&& ERR_THRESHOLD <= k < results.len()
    &&& forall|i: int| k - ERR_THRESHOLD <= i <= k ==> (#[trigger] results[i]) is Err
}

/// How many failures in a row precede the result at `k`, where `errors` precede
/// the first.
spec fn failures_before<SE>(results: Seq<Result<Image, SE>>, errors: nat, k: nat) -> nat
    decreases k,
{
    if k == 0 {
        errors
    } else if results[k - 1] is Err {
        failures_before(results, errors, (k - 1) as nat) + 1
    } else {
        0
    }
}

proof fn lemma_failures_skip<SE>(results: Seq<Result<Image, SE>>, errors: nat, k: nat)
    requires
        k < results.len(),
    ensures
        failures_before(results, errors, k + 1) == failures_before(
            results.skip(1),
            failures_before(results, errors, 1),
            k,
        ),
    decreases k,
{
    if k > 0 {
        lemma_failures_skip(results, errors, (k - 1) as nat);
        assert(results.skip(1)[k - 1] == results[k as int]);
    }
}

proof fn lemma_failures_count<SE>(results: Seq<Result<Image, SE>>, k: nat, m: nat)
    requires
        k <= results.len(),
    ensures
        failures_before(results, 0, k) >= m <==> m <= k && forall|i: int|
            k - m <= i < k ==> (#[trigger] results[i]) is Err,
    decreases k,
{
    if k > 0 && m > 0 {
        lemma_failures_count(results, (k - 1) as nat, (m - 1) as nat);
        if m <= k && forall|i: int| k - m <= i < k ==> (#[trigger] results[i]) is Err {
            assert(results[k - 1] is Err);
        }
        if results[k - 1] is Err && failures_before(results, 0, (k - 1) as nat) >= m - 1 {
            assert forall|i: int| k - m <= i < k implies (#[trigger] results[i]) is Err by {
                if i < k - 1 {
                    assert(k - 1 - (m - 1) <= i < k - 1);
                }
            }
        }
    }
}

proof fn lemma_accepted<SE>(
    stream: Seq<Result<Image, SE>>,
    index: nat,
    end: Option<nat>,
    errors: nat,
)
    ensures
        ({
            let n = window_len(index, end, stream.len());
            match accepted(stream, index, end, errors) {
                Accepted::Images(images) => {
                    &&& images == small_images(stream.take(n as int))
                    &&& forall|k: nat|
                        k < n && stream[k as int] is Err ==> #[trigger] failures_before(
                            stream,
                            errors,
                            k,
                        ) < ERR_THRESHOLD
                },
                Accepted::Broken(e) => exists|k: nat|
                    {
                        &&& k < n
                        &&& stream[k as int] == Err::<Image, SE>(e)
                        &&& #[trigger] failures_before(stream, errors, k) >= ERR_THRESHOLD
                        &&& forall|j: nat|
                            j < k && stream[j as int] is Err ==> #[trigger] failures_before(
                                stream,
                                errors,
                                j,
                            ) < ERR_THRESHOLD
                    },
            }
        }),
    decreases stream.len(),
{
    let n = window_len(index, end, stream.len());
    let window = stream.take(n as int);
    if stream.len() == 0 || (end is Some && index > end->0) {
        assert(n == 0);
        assert(small_images(window) =~= Seq::<Image>::empty());
    } else if stream[0] is Err && errors + 1 > ERR_THRESHOLD {
        assert(failures_before(stream, errors, 0) >= ERR_THRESHOLD);
    } else {
        let rest = stream.skip(1);
        let next = failures_before(stream, errors, 1);
        assert(failures_before(stream, errors, 0) == errors);
        lemma_accepted(rest, index + 1, end, next);
        assert(window_len(index + 1, end, rest.len()) == n - 1);
        assert(window.skip(1) =~= rest.take(n - 1));
        assert(window[0] == stream[0]);
        match accepted(rest, index + 1, end, next) {
            Accepted::Images(_) => {
                assert forall|k: nat|
                    k < n && stream[k as int] is Err implies #[trigger] failures_before(
                    stream,
                    errors,
                    k,
                ) < ERR_THRESHOLD by {
                    if k > 0 {
                        let j = (k - 1) as nat;
                        lemma_failures_skip(stream, errors, j);
                        assert(rest[j as int] == stream[k as int]);
                        assert(failures_before(rest, next, j) < ERR_THRESHOLD);
                    }
                }
            },
            Accepted::Broken(e) => {
                let k = choose|k: nat|
                    {
                        &&& k < n - 1
                        &&& rest[k as int] == Err::<Image, SE>(e)
                        &&& #[trigger] failures_before(rest, next, k) >= ERR_THRESHOLD
                        &&& forall|j: nat|
                            j < k && rest[j as int] is Err ==> #[trigger] failures_before(
                                rest,
                                next,
                                j,
                            ) < ERR_THRESHOLD
                    };
                lemma_failures_skip(stream, errors, k);
                assert(stream[k as int + 1] == rest[k as int]);
                assert(failures_before(stream, errors, k + 1) >= ERR_THRESHOLD);
                assert forall|j: nat|
                    j < k + 1 && stream[j as int] is Err implies #[trigger] failures_before(
                    stream,
                    errors,
                    j,
                ) < ERR_THRESHOLD by {
                    if j > 0 {
                        let i = (j - 1) as nat;
                        lemma_failures_skip(stream, errors, i);
                        assert(rest[i as int] == stream[j as int]);
                        assert(failures_before(rest, next, i) < ERR_THRESHOLD);
                    }
                }
            },
        }
    }
}

proof fn lemma_streak<SE>(stream: Seq<Result<Image, SE>>, k: nat)
    requires
        k < stream.len(),
    ensures
        streak_ends(stream, k as int) == (stream[k as int] is Err && failures_before(stream, 0, k)
            >= ERR_THRESHOLD),
{
    lemma_failures_count(stream, k, ERR_THRESHOLD as nat);
    if stream[k as int] is Err && failures_before(stream, 0, k) >= ERR_THRESHOLD {
        assert forall|i: int| k - ERR_THRESHOLD <= i <= k implies (#[trigger] stream[i]) is Err by {
            if i < k {
                assert(k - ERR_THRESHOLD as nat <= i < k);
            }
        }
    }
}

/// A range breaks exactly where eleven of its results in a row are failures, and
/// it does so with the eleventh of the first such row. Else it amounts to the
/// images with its numbers that could be fetched and whose file is not too
/// large, in order, and to no image outside it.
pub proof fn law_range_breaks<SE>(
    stream: Seq<Result<Image, SE>>,
    start: nat,
    end: Option<nat>,
)
    ensures
        ({
            let range = stream.take(window_len(start, end, stream.len()) as int);
            match accepted(stream, start, end, 0) {
                Accepted::Images(images) => {
                    &&& images == small_images(range)
                    &&& forall|k: int| !#[trigger] streak_ends(range, k)
                },
                Accepted::Broken(e) => exists|k: int|
                    {
                        &&& #[trigger] streak_ends(range, k)
                        &&& range[k] == Err::<Image, SE>(e)
                        &&& forall|j: int| j < k ==> !#[trigger] streak_ends(range, j)
                    },
            }
        }),
{
    let n = window_len(start, end, stream.len());
    let range = stream.take(n as int);
    lemma_accepted(stream, start, end, 0);
    assert forall|k: int| 0 <= k < n implies #[trigger] streak_ends(range, k) == (stream[k] is Err
        && failures_before(stream, 0, k as nat) >= ERR_THRESHOLD) by {
        lemma_streak(stream, k as nat);
        if streak_ends(range, k) {
            assert forall|i: int| k - ERR_THRESHOLD <= i <= k implies (
            #[trigger] stream[i]) is Err by {
                assert(range[i] == stream[i]);
            }
        }
        if streak_ends(stream, k) {
            assert forall|i: int| k - ERR_THRESHOLD <= i <= k implies (
            #[trigger] range[i]) is Err by {
                assert(range[i] == stream[i]);
            }
        }
    }
    match accepted(stream, start, end, 0) {
        Accepted::Images(_) => {},
        Accepted::Broken(e) => {
            let k = choose|k: nat|
                {
                    &&& k < n
                    &&& stream[k as int] == Err::<Image, SE>(e)
                    &&& #[trigger] failures_before(stream, 0, k) >= ERR_THRESHOLD
                    &&& forall|j: nat|
                        j < k && stream[j as int] is Err ==> #[trigger] failures_before(
                            stream,
                            0,
                            j,
                        ) < ERR_THRESHOLD
                };
            assert(streak_ends(range, k as int));
            assert(range[k as int] == stream[k as int]);
            assert forall|j: int| j < k implies !#[trigger] streak_ends(range, j) by {
                if 0 <= j {
                    assert(stream[j] is Err ==> failures_before(stream, 0, j as nat)
                        < ERR_THRESHOLD);
                }
            }
        },
    }
}

/// Where every image can be fetched and no file is too large, a range amounts
/// to exactly the images with its numbers.
pub proof fn law_clean_range<SE>(
    images: Seq<Image>,
    stream: Seq<Result<Image, SE>>,
    index: nat,
    end: Option<nat>,
    errors: nat,
)
    requires
        stream.len() == images.len(),
        forall|i: int| 0 <= i < images.len() ==> stream[i] == Ok::<Image, SE>(#[trigger] images[i]),
        forall|i: int|
            0 <= i < images.len() ==> (#[trigger] images[i]).1@.len() < MAX_SINGLE_FILE_SIZE,
    ensures
        accepted(stream, index, end, errors) == Accepted::<SE>::Images(
            images.take(window_len(index, end, images.len()) as int),
        ),
    decreases images.len(),
{
    let n = window_len(index, end, images.len()) as int;
    if images.len() == 0 || (end is Some && index > end->0) {
        assert(images.take(n) =~= Seq::<Image>::empty());
    } else {
        assert(stream[0] == Ok::<Image, SE>(images[0]));
        let rest = images.skip(1);
        assert forall|i: int| 0 <= i < rest.len() implies stream.skip(1)[i] == Ok::<Image, SE>(
            #[trigger] rest[i],
        ) by {
            assert(rest[i] == images[i + 1]);
        }
        assert forall|i: int| 0 <= i < rest.len() implies (#[trigger] rest[i]).1@.len()
            < MAX_SINGLE_FILE_SIZE by {
            assert(rest[i] == images[i + 1]);
        }
        law_clean_range(rest, stream.skip(1), index + 1, end, 0);
        assert(seq![images[0]] + rest.take(n - 1) =~= images.take(n));
    }
}

/// What was fetched is kept where its file is smaller than 5 MiB; a larger file
/// and a failure are left out.
pub proof fn law_small_images<SE>(results: Seq<Result<Image, SE>>, r: Result<Image, SE>)
    ensures
        small_images(Seq::<Result<Image, SE>>::empty()).len() == 0,
        r is Err ==> small_images(seq![r] + results) == small_images(results),
        r matches Ok(image) ==> (image.1@.len() >= 5 * 1024 * 1024 ==> small_images(
            seq![r] + results,
        ) == small_images(results)),
        r matches Ok(image) ==> (image.1@.len() < 5 * 1024 * 1024 ==> small_images(
            seq![r] + results,
        ) == seq![image] + small_images(results)),
{
    let s = seq![r] + results;
    assert(s[0] == r);
    assert(s.skip(1) =~= results);
}

/// One failure too many is the last of eleven in a row.
pub proof fn law_streak<SE>(results: Seq<Result<Image, SE>>, k: int)
    ensures
        streak_ends(results, k) <==> 10 <= k < results.len() && forall|i: int|
            k - 10 <= i <= k ==> (#[trigger] results[i]) is Err,
{
}

/// A failure counts as an image of the range and ends the collection where ten
/// failed in a row before it. An image ends the row of failures; one whose file
/// has 5 MiB or more is left out.
pub proof fn law_fetch_counted<SE>(s: CollectState, r: Result<Image, SE>)
    ensures
        ({
            let t = after_fetch(s, r);
            &&& t.index == s.index + 1
            &&& t.uploaded == s.uploaded && t.end == s.end && t.cut == s.cut
            &&& r is Err ==> {
                &&& t.errors == s.errors + 1
                &&& t.buffer == s.buffer
                &&& s.errors >= 10 ==> t.step == StepView::Failed
                &&& s.errors < 10 ==> t.step == StepView::Pull
            }
            &&& r is Ok ==> t.errors == 0
            &&& r matches Ok(image) ==> (image.1@.len() >= 5 * 1024 * 1024 ==> t.buffer == s.buffer
                && t.step == StepView::Pull)
        }),
{
}

/// An image whose file is smaller than 5 MiB joins the batch. The batch is
/// uploaded, whole and in order, once it has more than 20 images or more than
/// 5 MiB.
pub proof fn law_image_batched<SE>(s: CollectState, image: Image, i: int)
    requires
        image.1@.len() < 5 * 1024 * 1024,
    ensures
        ({
            let t = after_fetch(s, Ok::<Image, SE>(image));
            let full = s.buffer.len() + 1 > 20 || total_size(s.buffer) + image.1@.len() > 5 * 1024
                * 1024;
            &&& !full ==> t.step == StepView::Pull && t.buffer == s.buffer.push(image)
            &&& full ==> t.buffer.len() == 0 && (
            t.step matches StepView::Upload { metas, files } && {
                &&& metas.len() == s.buffer.len() + 1
                &&& files.len() == s.buffer.len() + 1
                &&& 0 <= i < s.buffer.len() ==> metas[i] == s.buffer[i].0 && files[i]
                    == s.buffer[i].1
                &&& metas.last() == image.0 && files.last() == image.1
            })
        }),
{
    let b = s.buffer.push(image);
    assert(b.drop_last() =~= s.buffer);
    assert(total_size(b) == total_size(s.buffer) + image.1@.len());
}

/// The next image is fetched where there is one and its number is in the range;
/// else what is held is uploaded, whole and in order, or, where nothing is held,
/// the collection is finished.
pub proof fn law_pull_decides(s: CollectState, present: bool, i: int)
    ensures
        ({
            let t = after_pull(s, present);
            let wanted = present && (s.end matches Some(e) ==> s.index <= e);
            &&& t.errors == s.errors && t.uploaded == s.uploaded && t.index == s.index && t.end
                == s.end
            &&& wanted ==> t.step == StepView::Fetch && t.buffer == s.buffer && t.cut == s.cut
            &&& !wanted && s.buffer.len() == 0 ==> t.step == StepView::Finished
            &&& !wanted && s.buffer.len() > 0 ==> t.buffer.len() == 0 && (
            t.step matches StepView::Upload { metas, files } && {
                &&& metas.len() == s.buffer.len() && files.len() == s.buffer.len()
                &&& 0 <= i < s.buffer.len() ==> metas[i] == s.buffer[i].0 && files[i]
                    == s.buffer[i].1
            })
        }),
{
}

/// The images of a batch get the addresses that came back, in order, behind what
/// was uploaded before; an upload that fails ends the collection.
pub proof fn law_upload_recorded(s: CollectState, media: Option<Seq<MediaInfo>>, i: int)
    requires
        s.step is Upload,
    ensures
        ({
            let t = after_upload(s, media);
            let n = s.uploaded.len();
            &&& media is None ==> t.step == StepView::Failed && t.uploaded == s.uploaded
            &&& media matches Some(m) ==> {
                &&& t.errors == 0
                &&& s.cut ==> t.step == StepView::Finished
                &&& !s.cut ==> t.step == StepView::Pull
                &&& m.len() <= s.step->metas.len() ==> t.uploaded.len() == n + m.len()
                &&& m.len() >= s.step->metas.len() ==> t.uploaded.len() == n + s.step->metas.len()
                &&& 0 <= i < m.len() && i < s.step->metas.len() ==> t.uploaded[n + i].src
                    == m[i].src && t.uploaded[n + i].meta == s.step->metas[i]
                &&& 0 <= i < n ==> t.uploaded[i] == s.uploaded[i]
            }
        }),
{
}

/// The number of the last wanted image is what it was given as; without one there
/// is no last wanted image, and a collection begins with nothing done.
pub proof fn law_collect_begins(start: nat, end: Option<usize>)
    ensures
        ({
            let s = collect_start(start, end_view(end));
            &&& s.index == start && s.errors == 0 && !s.cut && s.step == StepView::Pull
            &&& s.uploaded.len() == 0 && s.buffer.len() == 0
            &&& end matches Some(e) ==> s.end == Some(e as nat)
            &&& end is None ==> s.end is None
        }),
{
}

} // verus!
