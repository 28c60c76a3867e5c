use eh2telegraph::album::{AlbumMeta, Image, ImageMeta};
use eh2telegraph::buffer::{DataSized, ImageBuffer};
use eh2telegraph::collect::{CollectRun, CollectStep, UploadedImage};
use eh2telegraph::fetch::{FetchRun, FetchStep, PageSkip};
use eh2telegraph::node::Node;
use eh2telegraph::pages::{image_nodes, split_nodes, PublishStep, PAGE_SIZE_LIMIT};
use eh2telegraph::request::MEDIA_GROUP_SPAN;
use eh2telegraph::sync::{write_footer, Synchronizer, UploadError};
use eh2telegraph::telegraph::{MediaInfo, Page, TelegraphError, MAX_SINGLE_FILE_SIZE};

fn image(id: usize, size: usize) -> Image {
    let meta = ImageMeta { id: id.to_string(), url: format!("u{id}"), description: None };
    (meta, vec![0u8; size])
}

fn album(name: &str, authors: Option<Vec<&str>>) -> AlbumMeta {
    AlbumMeta {
        link: "https://e-hentai.org/g/1/a/".to_string(),
        name: name.to_string(),
        class: None,
        description: None,
        authors: authors.map(|v| v.iter().map(|s| s.to_string()).collect()),
        tags: None,
    }
}

/// Runs a collection over what fetching each image gives, with an image host
/// that names a file after its image. Returns the uploaded addresses and the
/// sizes of the batches, or the failure that ended the collection.
fn collect(
    start: usize,
    end: Option<usize>,
    stream: Vec<Result<Image, usize>>,
) -> Result<(Vec<String>, Vec<usize>), UploadError<usize>> {
    let mut stream = stream.into_iter();
    let mut run = CollectRun::new(start, end);
    let mut pulled = None;
    let mut batches = Vec::new();
    loop {
        let media: Option<Vec<MediaInfo>> = match run.step() {
            CollectStep::Upload { metas, files } => {
                assert_eq!(metas.len(), files.len());
                batches.push(files.len());
                Some(metas.iter().map(|m| MediaInfo { src: format!("at-{}", m.id) }).collect())
            }
            CollectStep::Pull => {
                pulled = stream.next();
                None
            }
            CollectStep::Fetch => None,
            CollectStep::Finished | CollectStep::Failed => break,
        };
        if let Some(media) = media {
            run.uploaded(Ok(media))?;
        } else if matches!(run.step(), CollectStep::Fetch) {
            run.fetched(pulled.take().unwrap())?;
        } else {
            run.pulled(pulled.is_some());
        }
    }
    let images = run.finish()?;
    Ok((images.into_iter().map(|i| i.src).collect(), batches))
}

fn addresses(ids: std::ops::RangeInclusive<usize>) -> Vec<String> {
    ids.map(|i| format!("at-{i}")).collect()
}

#[test]
fn buffer_counts_bytes() {
    let mut buffer = ImageBuffer::new();
    assert!(buffer.is_empty());
    buffer.push(image(1, 3));
    buffer.push(image(2, 4));
    assert_eq!((buffer.len(), buffer.size()), (2, 7));
    assert_eq!(image(1, 3).size(), 3);
    let (data, size) = buffer.swap();
    assert_eq!((data.len(), size), (2, 7));
    assert!(buffer.is_empty());
    assert_eq!((buffer.len(), buffer.size()), (0, 0));
}

#[test]
fn pages_before_the_first_are_passed_over() {
    let count = |start: usize, available: usize| {
        let mut skip = PageSkip::new(start);
        let mut asked = 0;
        let mut passed = 0;
        while skip.pending() {
            asked += 1;
            let present = passed < available;
            if present {
                passed += 1;
            }
            skip.pulled(present);
        }
        (asked, passed)
    };
    assert_eq!(count(0, 10), (0, 0));
    assert_eq!(count(1, 10), (0, 0));
    assert_eq!(count(3, 10), (2, 2));
    assert_eq!(count(30, 10), (11, 10));
}

fn fetch(start: usize, end: usize, pages: Vec<Result<Image, ()>>) -> Vec<String> {
    let mut skip = PageSkip::new(start);
    let mut pages = pages.into_iter();
    while skip.pending() {
        skip.pulled(pages.next().is_some());
    }
    let mut run = FetchRun::new(start, end);
    let mut pulled = None;
    loop {
        match run.step() {
            FetchStep::Pull => {
                pulled = pages.next();
                run.pulled(pulled.is_some());
            }
            FetchStep::Fetch => run.fetched(pulled.take().unwrap()),
            FetchStep::Finished => break,
        }
    }
    run.finish().into_iter().map(|i| i.0.id).collect()
}

#[test]
fn few_images_are_fetched_by_number() {
    let pages = || (1..=10).map(|i| Ok(image(i, 1))).collect::<Vec<_>>();
    assert_eq!(fetch(3, 5, pages()), ["3", "4", "5"]);
    assert_eq!(fetch(1, 1, pages()), ["1"]);
    assert_eq!(fetch(9, 14, pages()), ["9", "10"]);
    assert!(fetch(11, 12, pages()).is_empty());
    assert!(fetch(5, 4, pages()).is_empty());
    assert_eq!(fetch(0, 2, pages()), ["1", "2", "3"]);
}

#[test]
fn images_of_a_small_range_fit_in_a_message() {
    let pages = || (1..=20).map(|i| Ok(image(i, 1))).collect::<Vec<_>>();
    for start in 1..=10 {
        let images = fetch(start, start + MEDIA_GROUP_SPAN, pages());
        assert_eq!(images.len(), 6);
    }
}

#[test]
fn failed_images_are_left_out_and_counted() {
    let mut pages: Vec<Result<Image, ()>> = (1..=6).map(|i| Ok(image(i, 1))).collect();
    pages[2] = Err(());
    assert_eq!(fetch(2, 4, pages), ["2", "4"]);
}

#[test]
fn fetch_knows_its_page() {
    let mut run = FetchRun::new(4, 5);
    assert_eq!(run.current_page(), 4);
    run.pulled(true);
    run.fetched(Err::<Image, ()>(()));
    assert_eq!(run.current_page(), 5);
}

#[test]
fn whole_gallery_is_collected_in_batches() {
    let stream = (1..=50).map(|i| Ok(image(i, 10))).collect();
    let (uploaded, batches) = collect(1, None, stream).ok().unwrap();
    assert_eq!(uploaded, addresses(1..=50));
    assert_eq!(batches, [21, 21, 8]);
}

#[test]
fn range_ends_with_its_last_number() {
    let stream = (3..=50).map(|i| Ok(image(i, 10))).collect();
    let (uploaded, batches) = collect(3, Some(16), stream).ok().unwrap();
    assert_eq!(uploaded, addresses(3..=16));
    assert_eq!(batches, [14]);
    let stream = (1..=4).map(|i| Ok(image(i, 10))).collect();
    let (uploaded, _) = collect(1, Some(9), stream).ok().unwrap();
    assert_eq!(uploaded, addresses(1..=4));
}

#[test]
fn range_is_taken_out_of_a_whole_gallery() {
    let range = |start: usize, end: Option<usize>| {
        let mut gallery = (1..=40).map(|i| Ok(image(i, 10)));
        let mut skip = Synchronizer::new().sync_stream(Some(start), end).skip;
        while skip.pending() {
            skip.pulled(gallery.next().is_some());
        }
        collect(start, end, gallery.collect()).map(|r| r.0)
    };
    assert_eq!(range(3, Some(16)).ok(), Some(addresses(3..=16)));
    assert_eq!(range(1, Some(1)).ok(), Some(addresses(1..=1)));
    assert_eq!(range(39, Some(99)).ok(), Some(addresses(39..=40)));
    assert_eq!(range(30, None).ok(), Some(addresses(30..=40)));
    assert!(matches!(range(41, Some(50)), Err(UploadError::EmptyResult)));
    assert!(matches!(range(99, None), Err(UploadError::EmptyResult)));
}

#[test]
fn large_batches_are_uploaded_early() {
    let half = 3 * 1024 * 1024;
    let stream = (1..=5).map(|i| Ok(image(i, half))).collect();
    let (uploaded, batches) = collect(1, None, stream).ok().unwrap();
    assert_eq!(uploaded, addresses(1..=5));
    assert_eq!(batches, [2, 2, 1]);
}

#[test]
fn files_that_are_too_large_are_left_out_and_counted() {
    let stream = vec![
        Ok(image(1, 5)),
        Ok(image(2, MAX_SINGLE_FILE_SIZE)),
        Ok(image(3, MAX_SINGLE_FILE_SIZE - 1)),
        Ok(image(4, 5)),
    ];
    let (uploaded, _) = collect(1, Some(3), stream).ok().unwrap();
    assert_eq!(uploaded, ["at-1", "at-3"]);
}

#[test]
fn failures_are_left_out_and_counted() {
    let stream = || vec![Ok(image(1, 5)), Err(2), Ok(image(3, 5)), Ok(image(4, 5))];
    let (uploaded, _) = collect(1, Some(2), stream()).ok().unwrap();
    assert_eq!(uploaded, ["at-1"]);
    let (uploaded, _) = collect(1, Some(3), stream()).ok().unwrap();
    assert_eq!(uploaded, ["at-1", "at-3"]);
    let stream = vec![Err(2), Ok(image(3, 5))];
    assert!(matches!(collect(2, Some(2), stream), Err(UploadError::EmptyResult)));
}

#[test]
fn failures_behind_the_range_do_not_break_it() {
    let mut stream: Vec<Result<Image, usize>> = (1..=3).map(|i| Ok(image(i, 5))).collect();
    stream.extend((4..=20).map(Err));
    let (uploaded, _) = collect(1, Some(13), stream).ok().unwrap();
    assert_eq!(uploaded, addresses(1..=3));
}

#[test]
fn first_row_of_failures_breaks_the_range() {
    let mut stream: Vec<Result<Image, usize>> = (1..=10).map(Err).collect();
    stream.push(Ok(image(11, 5)));
    stream.extend((12..=40).map(Err));
    assert!(matches!(collect(1, None, stream), Err(UploadError::Stream(22))));
}

#[test]
fn ten_failures_in_a_row_are_tolerated() {
    let mut stream: Vec<Result<Image, usize>> = (0..10).map(Err).collect();
    stream.push(Ok(image(1, 5)));
    stream.extend((0..10).map(Err));
    let (uploaded, _) = collect(1, None, stream).ok().unwrap();
    assert_eq!(uploaded, ["at-1"]);
}

#[test]
fn eleven_failures_in_a_row_end_the_collection() {
    let mut stream: Vec<Result<Image, usize>> = vec![Ok(image(1, 5))];
    stream.extend((1..=12).map(Err));
    assert!(matches!(collect(1, None, stream), Err(UploadError::Stream(11))));
}

#[test]
fn range_without_images_is_an_error() {
    assert!(matches!(collect(1, None, Vec::new()), Err(UploadError::EmptyResult)));
    let stream = vec![Ok(image(5, 5))];
    assert!(matches!(collect(5, Some(4), stream), Err(UploadError::EmptyResult)));
    let stream = vec![Ok(image(1, MAX_SINGLE_FILE_SIZE))];
    assert!(matches!(collect(1, None, stream), Err(UploadError::EmptyResult)));
}

#[test]
fn failed_upload_ends_the_collection() {
    let mut run = CollectRun::new(1, None);
    assert_eq!(run.current_index(), 1);
    run.pulled(true);
    assert!(run.fetched(Ok::<Image, ()>(image(1, 5))).is_ok());
    assert_eq!(run.current_index(), 2);
    run.pulled(true);
    assert!(run.fetched(Err::<Image, ()>(())).is_ok());
    assert_eq!(run.current_index(), 3);
    run.pulled(false);
    assert!(matches!(run.step(), CollectStep::Upload { .. }));
    let r: Result<(), UploadError<()>> = run.uploaded(Err(TelegraphError::Server));
    assert!(matches!(r, Err(UploadError::Reqwest(TelegraphError::Server))));
    assert!(matches!(run.step(), CollectStep::Failed));
}

#[test]
fn images_without_an_address_are_dropped() {
    let mut run = CollectRun::new(1, None);
    for i in 1..=2 {
        run.pulled(true);
        assert!(run.fetched(Ok::<Image, ()>(image(i, 5))).is_ok());
    }
    run.pulled(false);
    let media = vec![MediaInfo { src: "only".to_string() }];
    let r: Result<(), UploadError<()>> = run.uploaded(Ok(media));
    assert!(r.is_ok());
    run.pulled(false);
    let images: Result<Vec<UploadedImage>, UploadError<()>> = run.finish();
    let images = images.ok().unwrap();
    assert_eq!(images.len(), 1);
    assert_eq!((images[0].meta.id.as_str(), images[0].src.as_str()), ("1", "only"));
}

fn text_of(node: &Node) -> String {
    match node {
        Node::Text(t) => t.clone(),
        Node::NodeElement(e) => {
            let href = e.attrs.as_ref().and_then(|a| a.href.clone()).unwrap_or_default();
            let src = e.attrs.as_ref().and_then(|a| a.src.clone()).unwrap_or_default();
            let inner: Vec<String> =
                e.children.iter().flat_map(|c| c.iter().map(text_of)).collect();
            format!("{}{}{}", inner.concat(), src, if href.is_empty() { href } else { format!("<{href}>") })
        }
    }
}

fn uploaded(srcs: &[&str]) -> Vec<UploadedImage> {
    srcs.iter()
        .map(|s| UploadedImage {
            meta: ImageMeta { id: String::new(), url: String::new(), description: None },
            src: s.to_string(),
        })
        .collect()
}

#[test]
fn images_become_nodes() {
    let nodes = image_nodes(uploaded(&["a", "b"]));
    let shown: Vec<String> = nodes.iter().map(text_of).collect();
    assert_eq!(shown, ["a", "b"]);
}

#[test]
fn nodes_are_split_by_size() {
    let lens = |sizes: &[usize]| -> Vec<usize> {
        let nodes = sizes.iter().map(|_| Node::new_text("x")).collect();
        split_nodes(nodes, &sizes.to_vec()).iter().map(|p| p.len()).collect()
    };
    assert_eq!(PAGE_SIZE_LIMIT, 49152);
    assert_eq!(lens(&[]), [0]);
    assert_eq!(lens(&[1, 2, 3]), [3]);
    assert_eq!(lens(&[PAGE_SIZE_LIMIT]), [1]);
    assert_eq!(lens(&[PAGE_SIZE_LIMIT - 1, 1, 1]), [2, 1]);
    assert_eq!(lens(&[PAGE_SIZE_LIMIT + 1]), [0, 1]);
    assert_eq!(lens(&[1, usize::MAX, 1]), [1, 1, 1]);
    assert_eq!(lens(&[30000, 30000, 10000, 30000]), [1, 2, 1]);
}

#[test]
fn split_keeps_the_order() {
    let nodes = (0..5).map(|i| Node::new_text(&i.to_string())).collect();
    let parts = split_nodes(nodes, &vec![20000; 5]);
    let shown: Vec<String> = parts.iter().flatten().map(text_of).collect();
    assert_eq!(shown, ["0", "1", "2", "3", "4"]);
    assert_eq!(parts.len(), 3);
}

#[test]
fn footers() {
    let mut content = vec![Node::new_image("i")];
    write_footer(&mut content, "L", Some("N"));
    let shown: Vec<String> = content.iter().map(text_of).collect();
    assert_eq!(
        shown,
        [
            "i",
            "Next Page<N>",
            "Generated by eh2telegraph<https://github.com/qini7-sese/eh2telegraph>",
            "Original link: L<L>",
        ]
    );
    let mut content = Vec::new();
    write_footer(&mut content, "L", None);
    assert_eq!(content.len(), 2);
}

/// Publishes three images, two of them on the first page, with a service whose
/// pages are numbered in the order of the requests. Returns the requests and the
/// first page.
fn publish(
    synchronizer: &Synchronizer,
    meta: &AlbumMeta,
    start: usize,
    end: Option<usize>,
) -> (Vec<String>, Page) {
    let nodes = image_nodes(uploaded(&["a", "b", "c"]));
    let mut run = synchronizer.publish(meta, start, end, nodes, &vec![20000, 20000, 20000]);
    let mut log: Vec<String> = Vec::new();
    loop {
        let n = log.len();
        let page = || Page { path: format!("p{n}"), url: format!("u{n}") };
        let creating = match run.step() {
            PublishStep::Create(request) => {
                let content: Vec<String> = request.content.iter().map(text_of).collect();
                log.push(format!(
                    "create {} [{}] by {:?} {:?}",
                    request.title,
                    content[..content.len() - 2].join(","),
                    request.author_name,
                    request.author_url
                ));
                true
            }
            PublishStep::Edit(request) => {
                let content: Vec<String> = request.content.iter().map(text_of).collect();
                log.push(format!(
                    "edit {} {} [{}]",
                    request.path,
                    request.title,
                    content[..content.len() - 2].join(",")
                ));
                false
            }
            PublishStep::Done(page) => {
                let page = Page { path: page.path.clone(), url: page.url.clone() };
                return (log, page);
            }
            PublishStep::Failed => panic!("the service never fails"),
        };
        let r: Result<(), UploadError<()>> =
            if creating { run.created(Ok(page())) } else { run.edited(Ok(page())) };
        assert!(r.is_ok());
    }
}

#[test]
fn pages_are_published_from_the_last_to_the_first() {
    let meta = album("A|B", Some(vec!["x", "y"]));
    let (log, page) = publish(&Synchronizer::new(), &meta, 1, None);
    assert_eq!(
        log,
        [
            "create AB-Page2 [c] by Some(\"x, y\") None",
            "create AB [a,b,Next Page<u0>] by Some(\"x, y\") None",
        ]
    );
    assert_eq!((page.path.as_str(), page.url.as_str()), ("p1", "u1"));
}

#[test]
fn pages_of_a_range_are_created_under_its_name_and_edited() {
    let meta = album("T", None);
    let synchronizer = Synchronizer::new()
        .with_author(Some("me".to_string()), Some("https://me".to_string()));
    let (log, page) = publish(&synchronizer, &meta, 3, Some(5));
    assert_eq!(
        log,
        [
            "create T 3-5-Page2 [c] by Some(\"me\") Some(\"https://me\")",
            "edit p0 T-Page2 [c]",
            "create T 3-5 [a,b,Next Page<u1>] by Some(\"me\") Some(\"https://me\")",
            "edit p2 T [a,b,Next Page<u1>]",
        ]
    );
    assert_eq!(page.url, "u3");
}

#[test]
fn range_that_ends_with_the_first_page_is_not_named() {
    let meta = album("T", None);
    for (start, end) in [(1, Some(1)), (0, Some(0)), (3, None)] {
        let (log, _) = publish(&Synchronizer::new(), &meta, start, end);
        assert_eq!(log.len(), 2);
        assert_eq!(log[1], "create T [a,b,Next Page<u0>] by None None");
    }
    let (log, _) = publish(&Synchronizer::new(), &meta, 1, Some(3));
    assert_eq!(log[0], "create T 1-3-Page2 [c] by None None");
}

#[test]
fn failing_service_ends_the_publication() {
    let meta = album("T", None);
    let nodes = || image_nodes(uploaded(&["a"]));
    let mut run = Synchronizer::new().publish(&meta, 1, None, nodes(), &vec![1]);
    let r: Result<(), UploadError<()>> = run.created(Err(TelegraphError::Server));
    assert!(matches!(r, Err(UploadError::Reqwest(TelegraphError::Server))));
    assert!(matches!(run.step(), PublishStep::Failed));
    let mut run = Synchronizer::new().publish(&meta, 2, Some(2), nodes(), &vec![1]);
    let page = Page { path: "p".to_string(), url: "u".to_string() };
    let r: Result<(), UploadError<()>> = run.created(Ok(page));
    assert!(r.is_ok());
    let r: Result<(), UploadError<()>> =
        run.edited(Err(TelegraphError::Reqwest("down".to_string())));
    assert!(matches!(r, Err(UploadError::Reqwest(TelegraphError::Reqwest(_)))));
    assert!(matches!(run.step(), PublishStep::Failed));
}
