use eh2telegraph::links::{
    last_path_segment, page_suffix_of, route, route_of, site_of_host, split_page_suffix, RouteError,
    Site, UrlParts,
};
use reqwest::Url;

fn parts(host: Option<&str>, path: &str) -> UrlParts {
    UrlParts {
        text: format!("https://{}{}", host.unwrap_or(""), path),
        host: host.map(|h| h.to_string()),
        path: path.to_string(),
        query: None,
        fragment: None,
    }
}

#[test]
fn last_segments() {
    assert_eq!(last_path_segment("/g/1/a/3"), Some("3".to_string()));
    assert_eq!(last_path_segment("/g/1/a/"), Some(String::new()));
    assert_eq!(last_path_segment("/"), Some(String::new()));
    assert_eq!(last_path_segment("/3"), Some("3".to_string()));
    assert_eq!(last_path_segment("3"), None);
    assert_eq!(last_path_segment(""), None);
}

#[test]
fn page_numbers_of_addresses() {
    assert_eq!(page_suffix_of(&Some(parts(Some("e-hentai.org"), "/g/1/a/3"))), Some(3));
    assert_eq!(page_suffix_of(&Some(parts(Some("e-hentai.org"), "/g/1/a/3/"))), None);
    assert_eq!(page_suffix_of(&Some(parts(Some("e-hentai.org"), "/g/1/a"))), None);
    assert_eq!(page_suffix_of(&Some(parts(None, "3"))), None);
    assert_eq!(page_suffix_of(&None), None);
}

#[test]
fn page_suffix_is_split_off() {
    let cases = [
        ("https://e-hentai.org/g/123/abc/3", "https://e-hentai.org/g/123/abc", Some(3)),
        ("https://e-hentai.org/g/123/abc/", "https://e-hentai.org/g/123/abc/", None),
        ("https://e-hentai.org/g/123/abc", "https://e-hentai.org/g/123/abc", None),
        ("https://e-hentai.org/g/1/a/7?x=1#f", "https://e-hentai.org/g/1/a?x=1#f", Some(7)),
        ("https://e-hentai.org/g/1/a/7#f", "https://e-hentai.org/g/1/a#f", Some(7)),
        ("https://e-hentai.org/3", "https://e-hentai.org/", Some(3)),
        ("HTTPS://E-Hentai.org/g/1/2", "https://e-hentai.org/g/1", Some(2)),
        ("https://nhentai.net/g/177013/", "https://nhentai.net/g/177013/", None),
        ("https://nhentai.net/g/177013", "https://nhentai.net/g", Some(177013)),
        ("mailto:3", "mailto:3", None),
        ("g/3", "g/3", None),
        ("", "", None),
    ];
    for (raw, url, page) in cases {
        assert_eq!(split_page_suffix(raw), (url.to_string(), page), "{raw}");
    }
}

#[test]
fn segments_are_removed_as_the_address_type_removes_them() {
    let inputs = [
        "https://e-hentai.org/g/1/2",
        "https://user:pw@e-hentai.org:8443/g//7?q=/5#/6",
        "https://e-hentai.org//3",
        "https://e-hentai.org/a/../3",
        "https://e-hentai.org/%33",
        "https://e-hentai.org/+4",
        "file:///tmp/5",
        "file:///C:/6",
        "a:/8",
        "a:/.//9",
        "a:/b/10?x",
        "a:b/11",
        "https://[::1]/12",
        "https://e-hentai.org/\u{e9}/13",
        "https://e-hentai.org/99999999999999999999999",
    ];
    for raw in inputs {
        let mut expected = (raw.to_string(), None);
        if let Ok(mut url) = Url::parse(raw) {
            let last = url.path_segments().and_then(|s| s.last()).map(|s| s.to_string());
            if let Some(Ok(page)) = last.map(|s| s.parse::<usize>()) {
                url.path_segments_mut().unwrap().pop();
                expected = (url.to_string(), Some(page));
            }
        }
        assert_eq!(split_page_suffix(raw), expected, "{raw}");
    }
}

#[test]
fn hosts_and_their_sites() {
    assert_eq!(site_of_host("e-hentai.org"), Some(Site::EHentai));
    assert_eq!(site_of_host("exhentai.org"), Some(Site::ExHentai));
    assert_eq!(site_of_host("nhentai.net"), Some(Site::NHentai));
    assert_eq!(site_of_host("nhentai.to"), Some(Site::NHentai));
    assert_eq!(site_of_host("www.nhentai.net"), None);
    assert_eq!(site_of_host(""), None);
}

#[test]
fn routes() {
    let r = route("https://EXhentai.org/g/1/a/?p=1").ok().unwrap();
    assert_eq!(r.site, Site::ExHentai);
    assert_eq!(r.path, "/g/1/a/");
    let r = route("https://nhentai.to/g/1").ok().unwrap();
    assert_eq!(r.site, Site::NHentai);
    assert_eq!(r.path, "/g/1");
    assert!(matches!(route("https://example.org/g/1"), Err(RouteError::NoCollector)));
    assert!(matches!(route("mailto:a@e-hentai.org"), Err(RouteError::NoCollector)));
    assert!(matches!(route("e-hentai.org/g/1"), Err(RouteError::InvalidUrl)));
    assert!(matches!(route(""), Err(RouteError::InvalidUrl)));
}

#[test]
fn routes_of_parts() {
    let r = route_of(Some(parts(Some("e-hentai.org"), "/g/1/a"))).ok().unwrap();
    assert_eq!((r.site, r.path.as_str()), (Site::EHentai, "/g/1/a"));
    assert!(matches!(route_of(Some(parts(None, "/g"))), Err(RouteError::NoCollector)));
    assert!(matches!(route_of(None), Err(RouteError::InvalidUrl)));
}

#[test]
fn route_errors_are_reported() {
    assert_eq!(RouteError::InvalidUrl.message(), "Invalid url");
    assert_eq!(RouteError::NoCollector.message(), "no matching collector");
}
