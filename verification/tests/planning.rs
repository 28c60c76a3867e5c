use eh2telegraph::answer::{CacheEntry, SyncRun, SyncStep};
use eh2telegraph::collect::CollectStep;
use eh2telegraph::request::{delivery, parse_request, requested_range, Delivery};
use eh2telegraph::sync::{
    flight_key, Synchronizer, UploadError, DEFAULT_CACHE_TTL, DEFAULT_CONCURRENT,
};
use eh2telegraph::telegraph::{Page, TelegraphError};

fn request(
    synchronizer: &Synchronizer,
    name: &str,
    path: &str,
    start: Option<usize>,
    end: Option<usize>,
) -> SyncRun<String> {
    synchronizer.sync(name, path, start, end)
}

fn key(name: &str, path: &str, start: Option<usize>, end: Option<usize>) -> String {
    request(&Synchronizer::new(), name, path, start, end).cache_key().to_string()
}

#[test]
fn cache_keys() {
    assert_eq!(key("e-hentai", "/g/1/a/", None, None), "e-hentai|/g/1/a");
    assert_eq!(key("nhentai", "/g/1", Some(3), Some(16)), "nhentai|/g/1|s:Some(3)|e:Some(16)");
    assert_eq!(key("nhentai", "/g/1", Some(3), None), "nhentai|/g/1|s:Some(3)|e:None");
    assert_eq!(key("nhentai", "/g/1", None, Some(0)), "nhentai|/g/1|s:None|e:Some(0)");
    assert_eq!(key("x", "///", None, None), "x|");
}

#[test]
fn ranges_have_different_cache_keys() {
    let ends = [None, Some(0), Some(1), Some(11)];
    let mut keys: Vec<String> = Vec::new();
    for start in ends {
        for end in ends {
            keys.push(key("nhentai", "/g/1", start, end));
        }
    }
    for i in 0..keys.len() {
        for j in 0..i {
            assert_ne!(keys[i], keys[j]);
        }
    }
}

#[test]
fn overlapping_requests_are_joined_by_range() {
    let url = "https://e-hentai.org/g/1/a";
    assert_eq!(flight_key(url, None, None), url);
    assert_eq!(flight_key(url, Some(3), Some(16)), format!("{url}|s:Some(3)|e:Some(16)"));
    assert_eq!(flight_key(url, Some(3), None), flight_key(url, Some(3), None));
    assert_ne!(flight_key(url, Some(3), None), flight_key(url, None, Some(3)));
    assert_ne!(flight_key(url, Some(1), Some(11)), flight_key(url, Some(11), Some(1)));
    assert_ne!(flight_key(url, Some(1), Some(10)), flight_key(url, None, None));
}

#[test]
fn addresses_do_not_pass_for_ranges() {
    let url = "https://e-hentai.org/g/1/ab";
    let posing = format!("{url}|s:Some(3)|e:Some(16)");
    assert_ne!(flight_key(&posing, None, None), flight_key(url, Some(3), Some(16)));
    assert_eq!(flight_key(&posing, None, None), format!("{url}||s:Some(3)||e:Some(16)"));
    assert_ne!(flight_key("a|", Some(1), None), flight_key("a", Some(1), None));
    assert_ne!(flight_key("a||", None, None), flight_key("a|", None, None));
}

#[test]
fn mirrors_share_cache_keys() {
    for range in [(None, None), (Some(1), Some(2))] {
        assert_eq!(
            key("exhentai", "/g/1/a", range.0, range.1),
            key("e-hentai", "/g/1/a", range.0, range.1)
        );
    }
    assert_ne!(key("nhentai", "/g/1/a", None, None), key("e-hentai", "/g/1/a", None, None));
}

#[test]
fn slash_at_the_end_of_a_path_makes_no_difference() {
    let run = request(&Synchronizer::new(), "nhentai", "/g/1/", None, Some(4));
    assert_eq!(run.path(), "/g/1");
    assert_eq!(run.cache_key(), key("nhentai", "/g/1", None, Some(4)));
}

#[test]
fn cached_addresses_end_the_request() {
    let mut run = request(&Synchronizer::new(), "nhentai", "/g/1", None, None);
    assert!(matches!(run.step(), SyncStep::Lookup));
    run.looked_up(Ok::<_, ()>(Some("u".to_string())));
    assert!(matches!(run.step(), SyncStep::Finished { .. }));
    let (answer, entry) = run.finish().unwrap();
    assert_eq!(answer, Ok("u".to_string()));
    assert!(entry.is_none());
}

#[test]
fn caches_that_fail_are_as_good_as_empty() {
    for lookup in [Ok(None), Err(())] {
        let mut run = request(&Synchronizer::new(), "nhentai", "/g/1", None, None);
        run.looked_up(lookup);
        assert!(matches!(run.step(), SyncStep::Fetch));
        assert!(run.finish().is_none());
    }
}

fn kept_entry(synchronizer: &Synchronizer) -> CacheEntry {
    let mut run = request(synchronizer, "nhentai", "/g/1", Some(2), None);
    run.looked_up(Ok::<_, ()>(None));
    run.fetched(Ok(()));
    assert!(matches!(run.step(), SyncStep::Publish));
    run.published(Ok(Page { path: "p".to_string(), url: "u".to_string() }));
    let (answer, entry) = run.finish().unwrap();
    assert_eq!(answer, Ok("u".to_string()));
    entry.unwrap()
}

#[test]
fn finished_pages_are_kept() {
    let entry = kept_entry(&Synchronizer::new());
    assert_eq!(entry.key, "nhentai|/g/1|s:Some(2)|e:None");
    assert_eq!(entry.value, "u");
    assert_eq!(entry.ttl, Some(DEFAULT_CACHE_TTL));
    assert_eq!(DEFAULT_CACHE_TTL, 3888000);
    assert_eq!(kept_entry(&Synchronizer::new().with_cache_ttl(Some(60))).ttl, Some(60));
    let entry = kept_entry(&Synchronizer::new().with_cache_ttl(None));
    assert_eq!(entry.ttl, Some(DEFAULT_CACHE_TTL));
}

#[test]
fn failed_requests_keep_nothing() {
    let mut run = request(&Synchronizer::new(), "nhentai", "/g/1", None, None);
    run.looked_up(Ok::<_, ()>(None));
    run.fetched(Err("gone".to_string()));
    let (answer, entry) = run.finish().unwrap();
    assert_eq!(answer, Err("gone".to_string()));
    assert!(entry.is_none());
    let mut run = request(&Synchronizer::new(), "nhentai", "/g/1", None, None);
    run.looked_up(Ok::<_, ()>(None));
    run.fetched(Ok(()));
    run.published(Err("refused".to_string()));
    let (answer, entry) = run.finish().unwrap();
    assert_eq!(answer, Err("refused".to_string()));
    assert!(entry.is_none());
}

#[test]
fn streams_start_with_the_first_page() {
    let plan = Synchronizer::new().sync_stream(None, None);
    assert_eq!((plan.start_idx, plan.limit), (1, DEFAULT_CONCURRENT));
    assert!(!plan.skip.pending());
    assert_eq!(plan.collect.current_index(), 1);
    assert!(matches!(plan.collect.step(), CollectStep::Pull));
    let plan = Synchronizer::new().with_concurrent_limit(4).sync_stream(Some(3), Some(5));
    assert_eq!((plan.start_idx, plan.limit), (3, 4));
    let mut skip = plan.skip;
    assert!(skip.pending());
    skip.pulled(true);
    skip.pulled(true);
    assert!(!skip.pending());
    let mut collect = plan.collect;
    assert_eq!(collect.current_index(), 3);
    collect.pulled(true);
    assert!(matches!(collect.step(), CollectStep::Fetch));
}

#[test]
fn fetches_of_a_few_images() {
    let plan = Synchronizer::new().fetch_images_only("/g/1//", 2, 4);
    assert_eq!(plan.path, "/g/1");
    assert!(plan.skip.pending());
    assert_eq!(plan.fetch.current_page(), 2);
}

#[test]
fn upload_errors_are_reported() {
    let stream: UploadError<u8> = UploadError::Stream(1);
    assert_eq!(stream.message("timeout"), "stream error timeout");
    let service: UploadError<u8> = UploadError::from(TelegraphError::Server);
    assert!(matches!(service, UploadError::Reqwest(TelegraphError::Server)));
    assert_eq!(service.message("down"), "telegraph error down");
    let empty: UploadError<u8> = UploadError::EmptyResult;
    assert_eq!(empty.message(""), "No images found in the specified range");
}

fn parsed(input: &str) -> (String, Option<usize>, Option<usize>) {
    let r = parse_request(input);
    (r.url, r.start, r.end)
}

#[test]
fn requests_with_a_range() {
    let url = "https://e-hentai.org/g/1/a";
    let expect = |start, end| (url.to_string(), start, end);
    assert_eq!(parsed("https://e-hentai.org/g/1/a 3 16"), expect(Some(3), Some(16)));
    assert_eq!(parsed("https://e-hentai.org/g/1/a 16 3"), expect(Some(3), Some(16)));
    assert_eq!(parsed("  https://e-hentai.org/g/1/a\t3  16 99 "), expect(Some(3), Some(16)));
    assert_eq!(parsed("https://e-hentai.org/g/1/a 7"), expect(Some(7), Some(7)));
    assert_eq!(parsed("https://e-hentai.org/g/1/a"), expect(None, None));
    assert_eq!(parsed("https://e-hentai.org/g/1/a/3"), expect(Some(3), Some(3)));
    assert_eq!(parsed("https://e-hentai.org/g/1/a/3 9"), expect(Some(9), Some(9)));
    assert_eq!(parsed("https://e-hentai.org/g/1/a/3 x"), expect(Some(3), Some(3)));
    assert_eq!(parsed("https://e-hentai.org/g/1/a/3 x 5"), expect(None, Some(5)));
    assert_eq!(parsed("https://e-hentai.org/g/1/a/3 5 x"), expect(Some(5), None));
}

#[test]
fn requests_without_an_address() {
    assert_eq!(parsed("   "), (String::new(), None, None));
    assert_eq!(parsed("no-address 4"), ("no-address".to_string(), Some(4), Some(4)));
}

#[test]
fn ranges_by_words() {
    let words = |v: &[&str]| v.iter().map(|s| s.to_string()).collect::<Vec<String>>();
    assert_eq!(requested_range(&words(&[]), None), (None, None));
    assert_eq!(requested_range(&words(&["u"]), Some(4)), (Some(4), Some(4)));
    assert_eq!(requested_range(&words(&["u", "2"]), Some(4)), (Some(2), Some(2)));
    assert_eq!(requested_range(&words(&["u", "b"]), Some(4)), (Some(4), Some(4)));
    assert_eq!(requested_range(&words(&["u", "9", "2"]), Some(4)), (Some(2), Some(9)));
    assert_eq!(requested_range(&words(&["u", "b", "c"]), Some(4)), (None, None));
}

#[test]
fn small_ranges_are_sent_as_images() {
    assert_eq!(delivery(Some(3), Some(8)), Delivery::Images { start: 3, end: 8 });
    assert_eq!(delivery(Some(3), Some(3)), Delivery::Images { start: 3, end: 3 });
    assert_eq!(
        delivery(Some(3), Some(9)),
        Delivery::Pages { start: Some(3), end: Some(9) }
    );
    assert_eq!(delivery(Some(3), None), Delivery::Pages { start: Some(3), end: None });
    assert_eq!(delivery(None, Some(3)), Delivery::Pages { start: None, end: Some(3) });
    assert_eq!(delivery(None, None), Delivery::Pages { start: None, end: None });
}
