//! Gallery addresses: taking them apart, page suffixes, and the site that
//! serves them.

use crate::node::opt_text;
use crate::text::{
    chars_of, decimal, is_digit, law_decimal_round_trip, lemma_decimal_digits, parse_usize,
    parsed_usize, same_text,
};
use vstd::prelude::*;

verus! {

/// What an address consists of.
pub struct UrlView {
    /// The whole address in its normal form.
    pub text: Seq<char>,
    pub host: Option<Seq<char>>,
    pub path: Seq<char>,
    pub query: Option<Seq<char>>,
    pub fragment: Option<Seq<char>>,
}

/// An address, taken apart.
pub struct UrlParts {
    pub text: String,
    pub host: Option<String>,
    pub path: String,
    pub query: Option<String>,
    pub fragment: Option<String>,
}

impl View for UrlParts {
    type V = UrlView;

    open spec fn view(&self) -> UrlView {
        UrlView {
            text: self.text@,
            host: opt_text(self.host),
            path: self.path@,
            query: opt_text(self.query),
            fragment: opt_text(self.fragment),
        }
    }
}

/// What `reqwest::Url::parse` makes of a text: the address's parts, or nothing
/// where the text is no address.
pub uninterp spec fn parsed_url(text: Seq<char>) -> Option<UrlView>;

/// `reqwest::Url::parse`, with the parts that the address's own accessors give.
/// The result depends on the text alone.
#[verifier::external_body]
pub(crate) fn parse_url(text: &str) -> (r: Option<UrlParts>)
    ensures
        r is Some == parsed_url(text@) is Some,
        r matches Some(u) ==> parsed_url(text@) == Some(u@),
{
    reqwest::Url::parse(text).ok().map(|u| UrlParts {
        text: u.as_str().to_string(),
        host: u.host_str().map(|h| h.to_string()),
        path: u.path().to_string(),
        query: u.query().map(|q| q.to_string()),
        fragment: u.fragment().map(|f| f.to_string()),
    })
}

/// What stands behind the last slash of a text, or all of it where there is none.
pub open spec fn after_last_slash(s: Seq<char>) -> Seq<char>
    decreases s.len(),
{
    if s.len() == 0 || s.last() == '/' {
        Seq::empty()
    } else {
        after_last_slash(s.drop_last()).push(s.last())
    }
}

/// Whether a path is a list of segments, each behind a slash.
pub open spec fn has_segments(path: Seq<char>) -> bool {
    path.len() > 0 && path[0] == '/'
}

/// The last segment of a path.
pub open spec fn last_segment(path: Seq<char>) -> Option<Seq<char>> {
    if has_segments(path) {
        Some(after_last_slash(path))
    } else {
        None
    }
}

/// A path without its last segment and the slash before it; the leading slash
/// always stays.
pub open spec fn parent_path(path: Seq<char>) -> Seq<char> {
    let slash = path.len() - after_last_slash(path).len() - 1;
    if slash <= 0 {
        path.take(1)
    } else {
        path.take(slash)
    }
}

/// What follows the path of an address.
pub open spec fn after_path(u: UrlView) -> Seq<char> {
    let query = match u.query {
        Some(q) => seq!['?'] + q,
        None => Seq::empty(),
    };
    let fragment = match u.fragment {
        Some(f) => seq!['#'] + f,
        None => Seq::empty(),
    };
    query + fragment
}

/// What precedes the path of an address.
pub open spec fn before_path(u: UrlView) -> Seq<char> {
    u.text.take(u.text.len() - u.path.len() - after_path(u).len())
}

/// An address without the last segment of its path.
pub open spec fn without_last_segment(u: UrlView) -> Seq<char> {
    before_path(u) + parent_path(u.path) + after_path(u)
}

/// `reqwest::Url::path_segments_mut`, then its `pop`: removes the last segment
/// of the path of the address that the text parses to. What precedes and what
/// follows the path stays.
#[verifier::external_body]
pub(crate) fn pop_segment(text: &str) -> (r: String)
    requires
        parsed_url(text@) is Some,
        has_segments(parsed_url(text@)->0.path),
    ensures
        r@ == without_last_segment(parsed_url(text@)->0),
{
    let mut url = reqwest::Url::parse(text).unwrap();
    url.path_segments_mut().unwrap().pop();
    url.to_string()
}

proof fn lemma_after_last_slash(s: Seq<char>, n: int)
    requires
        0 <= n <= s.len(),
        n > 0 ==> s[n - 1] == '/',
        forall|i: int| n <= i < s.len() ==> s[i] != '/',
    ensures
        after_last_slash(s) == s.skip(n),
    decreases s.len(),
{
    if s.len() > n {
        lemma_after_last_slash(s.drop_last(), n);
        assert(s.drop_last().skip(n).push(s.last()) =~= s.skip(n));
    } else {
        assert(s.skip(n) =~= Seq::<char>::empty());
    }
}

/// The last segment of a path.
pub fn last_path_segment(path: &str) -> (r: Option<String>)
    ensures
        opt_text(r) == last_segment(path@),
{
    let chars = chars_of(path);
    if chars.len() == 0 || chars[0] != '/' {
        return None;
    }
    let mut n: usize = chars.len();
    while n > 0 && chars[n - 1] != '/'
        invariant
            n <= chars@.len(),
            chars@ == path@,
            forall|i: int| n <= i < chars@.len() ==> chars@[i] != '/',
        decreases n,
    {
        n -= 1;
    }
    proof {
        lemma_after_last_slash(path@, n as int);
    }
    assert(path@.subrange(n as int, path@.len() as int) =~= path@.skip(n as int));
    Some(path.substring_char(n, chars.len()).to_string())
}

/// The page number that the last segment of an address is, if it is one.
pub open spec fn page_suffix(u: Option<UrlView>) -> Option<usize> {
    match u {
        Some(v) => match last_segment(v.path) {
            Some(segment) => parsed_usize(segment),
            None => None,
        },
        None => None,
    }
}

/// Reads the page number at the end of an address that was taken apart.
pub fn page_suffix_of(parts: &Option<UrlParts>) -> (r: Option<usize>)
    ensures
        r == page_suffix(
            match *parts {
                Some(u) => Some(u@),
                None => None,
            },
        ),
{
    match parts {
        Some(u) => match last_path_segment(u.path.as_str()) {
            Some(segment) => parse_usize(segment.as_str()),
            None => None,
        },
        None => None,
    }
}

/// An address without the page number at its end, if it has one, where `u` is
/// what the address is made of.
pub open spec fn gallery_address(raw: Seq<char>, u: Option<UrlView>) -> Seq<char> {
    if page_suffix(u) is Some {
        without_last_segment(u->0)
    } else {
        raw
    }
}

/// Splits the page number off the end of an address.
pub fn split_page_suffix(raw: &str) -> (r: (String, Option<usize>))
    ensures
        r.0@ == gallery_address(raw@, parsed_url(raw@)),
        r.1 == page_suffix(parsed_url(raw@)),
{
    let page = page_suffix_of(&parse_url(raw));
    if page.is_some() {
        (pop_segment(raw), page)
    } else {
        (raw.to_string(), None)
    }
}

/// A page number behind the path of a gallery is read as that page, and without
/// it the address is that of the gallery.
pub proof fn law_page_suffix(u: UrlView, gallery: Seq<char>, page: usize)
    requires
        has_segments(gallery),
        u.path == gallery + seq!['/'] + decimal(page as nat),
    ensures
        page_suffix(Some(u)) == Some(page),
        without_last_segment(u) == before_path(u) + gallery + after_path(u),
{
    let digits = decimal(page as nat);
    let n = gallery.len() + 1;
    lemma_decimal_digits(page as nat);
    assert forall|i: int| n <= i < u.path.len() implies u.path[i] != '/' by {
        assert(u.path[i] == digits[i - n]);
        assert(is_digit(digits[i - n]));
    }
    assert(u.path[n - 1] == '/');
    lemma_after_last_slash(u.path, n as int);
    assert(u.path.skip(n as int) =~= digits);
    assert(u.path[0] == gallery[0]);
    law_decimal_round_trip(page);
    assert(parent_path(u.path) =~= gallery);
}

/// The sites that galleries are fetched from.
#[derive(Clone, Copy, Debug, PartialEq, Eq, Structural)]
pub enum Site {
    EHentai,
    NHentai,
    ExHentai,
}

/// The site that a host serves.
pub open spec fn host_site(host: Seq<char>) -> Option<Site> {
    if host == "e-hentai.org"@ {
        Some(Site::EHentai)
    } else if host == "nhentai.to"@ || host == "nhentai.net"@ {
        Some(Site::NHentai)
    } else if host == "exhentai.org"@ {
        Some(Site::ExHentai)
    } else {
        None
    }
}

/// Finds the site that a host serves.
pub fn site_of_host(host: &str) -> (r: Option<Site>)
    ensures
        r == host_site(host@),
{
    if same_text(host, "e-hentai.org") {
        Some(Site::EHentai)
    } else if same_text(host, "nhentai.to") || same_text(host, "nhentai.net") {
        Some(Site::NHentai)
    } else if same_text(host, "exhentai.org") {
        Some(Site::ExHentai)
    } else {
        None
    }
}

/// Where to fetch a gallery.
pub struct Route {
    pub site: Site,
    pub path: String,
}

/// Why no site can be asked for an address.
#[derive(Clone, Copy, Debug, PartialEq, Eq, Structural)]
pub enum RouteError {
    InvalidUrl,
    NoCollector,
}

/// What a route error is reported as.
pub open spec fn route_error_text(e: RouteError) -> Seq<char> {
    match e {
        RouteError::InvalidUrl => "Invalid url"@,
        RouteError::NoCollector => "no matching collector"@,
    }
}

impl RouteError {
    /// The text that reports the error.
    pub fn message(&self) -> (r: String)
        ensures
            r@ == route_error_text(*self),
    {
        match self {
            RouteError::InvalidUrl => "Invalid url".to_string(),
            RouteError::NoCollector => "no matching collector".to_string(),
        }
    }
}

/// The site and path that an address leads to.
pub open spec fn routed(u: Option<UrlView>) -> Result<(Site, Seq<char>), RouteError> {
    match u {
        None => Err(RouteError::InvalidUrl),
        Some(v) => match host_site(
            match v.host {
                Some(host) => host,
                None => Seq::empty(),
            },
        ) {
            Some(site) => Ok((site, v.path)),
            None => Err(RouteError::NoCollector),
        },
    }
}

/// A route as a plain value.
pub open spec fn route_view(r: Result<Route, RouteError>) -> Result<(Site, Seq<char>), RouteError> {
    match r {
        Ok(route) => Ok((route.site, route.path@)),
        Err(e) => Err(e),
    }
}

/// Finds the route of an address that was taken apart.
pub fn route_of(parts: Option<UrlParts>) -> (r: Result<Route, RouteError>)
    ensures
        route_view(r) == routed(
            match parts {
                Some(u) => Some(u@),
                None => None,
            },
        ),
{
    match parts {
        None => Err(RouteError::InvalidUrl),
        Some(u) => {
            let host = match u.host {
                Some(host) => host,
                None => String::new(),
            };
            match site_of_host(host.as_str()) {
                Some(site) => Ok(Route { site, path: u.path }),
                None => Err(RouteError::NoCollector),
            }
        },
    }
}

/// Finds the route of an address.
pub fn route(url: &str) -> (r: Result<Route, RouteError>)
    ensures
        route_view(r) == routed(parsed_url(url@)),
{
    route_of(parse_url(url))
}

/// Each host serves one site; a host that is not among these serves none.
pub proof fn law_hosts(host: Seq<char>)
    ensures
        host_site(host) == Some(Site::EHentai) <==> host == "e-hentai.org"@,
        host_site(host) == Some(Site::ExHentai) <==> host == "exhentai.org"@,
        host_site(host) == Some(Site::NHentai) <==> host == "nhentai.net"@ || host
            == "nhentai.to"@,
{
    reveal_strlit("e-hentai.org");
    reveal_strlit("exhentai.org");
    reveal_strlit("nhentai.net");
    reveal_strlit("nhentai.to");
    assert("e-hentai.org"@.len() == 12);
    assert("exhentai.org"@.len() == 12);
    assert("e-hentai.org"@[1] == '-');
    assert("exhentai.org"@[1] == 'x');
    assert("nhentai.net"@.len() == 11);
    assert("nhentai.to"@.len() == 10);
}

/// An address leads to the site of its host, with its path as it is. A text that
/// is no address and an address of another host, or of none, lead nowhere.
pub proof fn law_routed(u: UrlView)
    ensures
        routed(None) == Err::<(Site, Seq<char>), RouteError>(RouteError::InvalidUrl),
        u.host matches Some(host) ==> (host_site(host) matches Some(site) ==> routed(Some(u))
            == Ok::<(Site, Seq<char>), RouteError>((site, u.path))),
        u.host matches Some(host) ==> (host_site(host) is None ==> routed(Some(u)) == Err::<
            (Site, Seq<char>),
            RouteError,
        >(RouteError::NoCollector)),
        u.host is None ==> routed(Some(u)) == Err::<(Site, Seq<char>), RouteError>(
            RouteError::NoCollector,
        ),
{
    reveal_strlit("e-hentai.org");
    reveal_strlit("exhentai.org");
    reveal_strlit("nhentai.net");
    reveal_strlit("nhentai.to");
    assert("e-hentai.org"@.len() > 0 && "exhentai.org"@.len() > 0);
    assert("nhentai.net"@.len() > 0 && "nhentai.to"@.len() > 0);
    assert(host_site(Seq::<char>::empty()) is None);
}

/// A page number is what stands behind the last slash of a path that begins with
/// one, where that is a number; else there is no page number.
pub proof fn law_page_number(u: UrlView, before: Seq<char>, segment: Seq<char>)
    requires
        u.path == before + seq!['/'] + segment,
        before.len() > 0 ==> before[0] == '/',
        !segment.contains('/'),
    ensures
        page_suffix(Some(u)) == parsed_usize(segment),
        page_suffix(None) is None,
{
    let n = (before.len() + 1) as int;
    assert forall|i: int| n <= i < u.path.len() implies u.path[i] != '/' by {
        assert(u.path[i] == segment[i - n]);
    }
    assert(u.path[n - 1] == '/');
    lemma_after_last_slash(u.path, n);
    assert(u.path.skip(n) =~= segment);
    if before.len() > 0 {
        assert(u.path[0] == before[0]);
    }
}

/// A path that does not begin with a slash has no page number.
pub proof fn law_no_page_number(u: UrlView)
    requires
        u.path.len() == 0 || u.path[0] != '/',
    ensures
        page_suffix(Some(u)) is None,
{
}

/// Only an address with a page number loses its last segment.
pub proof fn law_gallery_address(raw: Seq<char>, u: Option<UrlView>)
    ensures
        page_suffix(u) is None ==> gallery_address(raw, u) == raw,
        page_suffix(u) is Some && u is Some ==> gallery_address(raw, u) == without_last_segment(
            u->0,
        ),
{
}

} // verus!
