//! The page service: access tokens, requests and replies.

use crate::node::{opt_text, Node};
use crate::text::{first_chars, take_chars};
use rand::seq::SliceRandom;
use std::sync::Arc;
use vstd::prelude::*;

verus! {

/// The size from which on a single file is not uploaded.
pub const MAX_SINGLE_FILE_SIZE: usize = 5 * 1024 * 1024;

/// How many characters of a title the service takes.
pub const TITLE_LENGTH_MAX: usize = 200;

/// Why the page service could not do what it was asked for.
pub enum TelegraphError {
    /// The request failed, with what is known about it.
    Reqwest(String),
    /// The service refused the request, or its reply lacks what was asked for.
    Server,
}

/// What a service error says.
pub enum TelegraphErrorView {
    Reqwest(Seq<char>),
    Server,
}

impl View for TelegraphError {
    type V = TelegraphErrorView;

    open spec fn view(&self) -> TelegraphErrorView {
        match *self {
            TelegraphError::Reqwest(text) => TelegraphErrorView::Reqwest(text@),
            TelegraphError::Server => TelegraphErrorView::Server,
        }
    }
}

/// A source of access tokens.
pub trait AccessToken {
    /// Whether the source has a token to give.
    spec fn usable(&self) -> bool;

    /// Whether `token` is one of the tokens of the source.
    spec fn admits(&self, token: Seq<char>) -> bool;

    /// A token for creating a page.
    fn token(&self) -> (r: &str)
        requires
            self.usable(),
        ensures
            self.admits(r@),
    ;

    /// A token for editing the page at a path.
    fn select_token(&self, _path: &str) -> (r: &str)
        requires
            self.usable(),
        ensures
            self.admits(r@),
        default_ensures
            call_ensures(Self::token, (self,), r),
    {
        self.token()
    }
}

/// One token, always the same.
#[derive(Debug, Clone)]
pub struct SingleAccessToken(pub Arc<String>);

impl AccessToken for SingleAccessToken {
    open spec fn usable(&self) -> bool {
        true
    }

    open spec fn admits(&self, token: Seq<char>) -> bool {
        token == self.0@
    }

    fn token(&self) -> (r: &str) {
        self.0.as_str()
    }
}

impl From<String> for SingleAccessToken {
    fn from(s: String) -> (r: Self) {
        SingleAccessToken(Arc::new(s))
    }
}

impl vstd::std_specs::convert::FromSpecImpl<String> for SingleAccessToken {
    open spec fn obeys_from_spec() -> bool {
        true
    }

    open spec fn from_spec(s: String) -> Self {
        SingleAccessToken(Arc::new(s))
    }
}

/// Several tokens, of which each request uses one picked at random.
#[derive(Debug, Clone)]
pub struct RandomAccessToken(pub Arc<Vec<String>>);

impl AccessToken for RandomAccessToken {
    open spec fn usable(&self) -> bool {
        self.0@.len() > 0
    }

    open spec fn admits(&self, token: Seq<char>) -> bool {
        exists|i: int| 0 <= i < self.0@.len() && token == (#[trigger] self.0@[i])@
    }

    fn token(&self) -> (r: &str) {
        let picked = pick_token(&*self.0);
        picked.unwrap().as_str()
    }
}

/// `rand::seq::SliceRandom::choose` with the generator of
/// `rand::thread_rng`: one of the elements, or nothing where there is none.
/// Which of them is left to chance.
#[verifier::external_body]
pub(crate) fn pick_token(tokens: &Vec<String>) -> (r: Option<&String>)
    ensures
        r is None == (tokens@.len() == 0),
        r matches Some(t) ==> exists|i: int| 0 <= i < tokens@.len() && *t == #[trigger] tokens@[i],
{
    tokens.choose(&mut rand::thread_rng())
}

impl RandomAccessToken {
    /// The given tokens, at least one.
    pub fn from_tokens(tokens: Vec<String>) -> (r: Self)
        requires
            tokens@.len() > 0,
        ensures
            r.0@ == tokens@,
            r.usable(),
    {
        RandomAccessToken(Arc::new(tokens))
    }
}

impl From<String> for RandomAccessToken {
    fn from(s: String) -> (r: Self)
        ensures
            r.0@ == seq![s],
    {
        let mut tokens: Vec<String> = Vec::new();
        tokens.push(s);
        RandomAccessToken(Arc::new(tokens))
    }
}

impl vstd::std_specs::convert::FromSpecImpl<String> for RandomAccessToken {
    open spec fn obeys_from_spec() -> bool {
        false
    }

    open spec fn from_spec(s: String) -> Self {
        arbitrary()
    }
}

/// A token as the service hands it out.
#[derive(Debug, Clone)]
pub struct TelegraphToken(Arc<String>);

impl TelegraphToken {
    /// The characters of the token.
    pub closed spec fn text(self) -> Seq<char> {
        self.0@
    }

    pub closed spec fn wrap(s: Arc<String>) -> Self {
        TelegraphToken(s)
    }

    pub closed spec fn unwrapped(self) -> Arc<String> {
        self.0
    }
}

impl PartialEq for TelegraphToken {
    fn eq(&self, other: &Self) -> (r: bool) {
        *self.0 == *other.0
    }
}

impl vstd::std_specs::cmp::PartialEqSpecImpl for TelegraphToken {
    open spec fn obeys_eq_spec() -> bool {
        true
    }

    open spec fn eq_spec(&self, other: &Self) -> bool {
        self.text() == other.text()
    }
}

impl Eq for TelegraphToken {

}

impl From<Arc<String>> for TelegraphToken {
    fn from(s: Arc<String>) -> (r: Self) {
        TelegraphToken(s)
    }
}

impl vstd::std_specs::convert::FromSpecImpl<Arc<String>> for TelegraphToken {
    open spec fn obeys_from_spec() -> bool {
        true
    }

    open spec fn from_spec(s: Arc<String>) -> Self {
        TelegraphToken::wrap(s)
    }
}

impl From<TelegraphToken> for Arc<String> {
    fn from(t: TelegraphToken) -> (r: Self) {
        t.0
    }
}

impl vstd::std_specs::convert::FromSpecImpl<TelegraphToken> for Arc<String> {
    open spec fn obeys_from_spec() -> bool {
        true
    }

    open spec fn from_spec(t: TelegraphToken) -> Self {
        t.unwrapped()
    }
}

/// A page to create.
pub struct PageCreate {
    pub title: String,
    pub content: Vec<Node>,
    pub author_name: Option<String>,
    pub author_url: Option<String>,
}

/// A page to replace, at the path that it was created at.
pub struct PageEdit {
    pub title: String,
    pub path: String,
    pub content: Vec<Node>,
    pub author_name: Option<String>,
    pub author_url: Option<String>,
}

/// A page as the service reports it.
pub struct Page {
    pub path: String,
    pub url: String,
}

/// An uploaded file.
pub struct MediaInfo {
    pub src: String,
}

/// A form to post.
pub struct FormPost {
    pub url: String,
    pub fields: Vec<(String, String)>,
}

/// What the fields of a form hold.
pub open spec fn fields_view(fields: Seq<(String, String)>) -> Seq<(Seq<char>, Seq<char>)> {
    fields.map_values(|f: (String, String)| (f.0@, f.1@))
}

/// A field that is left out where it has no value.
pub open spec fn optional_field(name: Seq<char>, value: Option<Seq<char>>) -> Seq<
    (Seq<char>, Seq<char>),
> {
    match value {
        Some(v) => seq![(name, v)],
        None => Seq::empty(),
    }
}

/// The form that creates a page, with its content already written out.
pub open spec fn create_fields(token: Seq<char>, page: PageCreate, content: Seq<char>) -> Seq<
    (Seq<char>, Seq<char>),
> {
    seq![
        ("access_token"@, token),
        ("title"@, first_chars(page.title@, TITLE_LENGTH_MAX as nat)),
        ("content"@, content),
    ] + optional_field("author_name"@, opt_text(page.author_name)) + optional_field(
        "author_url"@,
        opt_text(page.author_url),
    )
}

/// The form that edits a page, with its content already written out.
pub open spec fn edit_fields(token: Seq<char>, page: PageEdit, content: Seq<char>) -> Seq<
    (Seq<char>, Seq<char>),
> {
    seq![
        ("access_token"@, token),
        ("title"@, first_chars(page.title@, TITLE_LENGTH_MAX as nat)),
        ("path"@, page.path@),
        ("content"@, content),
    ] + optional_field("author_name"@, opt_text(page.author_name)) + optional_field(
        "author_url"@,
        opt_text(page.author_url),
    )
}

fn push_field(fields: &mut Vec<(String, String)>, name: &str, value: &str)
    ensures
        fields_view(final(fields)@) == fields_view(old(fields)@).push((name@, value@)),
{
    fields.push((name.to_string(), value.to_string()));
    assert(fields_view(fields@) =~= fields_view(old(fields)@).push((name@, value@)));
}

fn push_optional_field(fields: &mut Vec<(String, String)>, name: &str, value: &Option<String>)
    ensures
        fields_view(final(fields)@) == fields_view(old(fields)@) + optional_field(
            name@,
            opt_text(*value),
        ),
{
    match value {
        Some(v) => {
            push_field(fields, name, v.as_str());
            assert(fields_view(fields@) =~= fields_view(old(fields)@) + optional_field(
                name@,
                opt_text(*value),
            ));
        },
        None => {
            assert(fields_view(fields@) =~= fields_view(old(fields)@) + optional_field(
                name@,
                opt_text(*value),
            ));
        },
    }
}

/// The service, reached through a client and with the tokens of a source.
pub struct Telegraph<T, C> {
    client: C,
    access_token: T,
}

impl<T, C> Telegraph<T, C> {
    /// The client that requests go through.
    pub closed spec fn spec_client(self) -> C {
        self.client
    }

    /// The source of the access tokens.
    pub closed spec fn spec_access_token(self) -> T {
        self.access_token
    }

    /// The service with the given client and token source.
    pub fn new<AT: Into<T>>(client: C, access_token: AT) -> (r: Telegraph<T, C>)
        ensures
            r.spec_client() == client,
            call_ensures(AT::into, (access_token,), r.spec_access_token()),
    {
        Telegraph { client, access_token: access_token.into() }
    }

    /// The service with the given client and a token source at hand.
    pub fn with_token(client: C, access_token: T) -> (r: Self)
        ensures
            r.spec_client() == client,
            r.spec_access_token() == access_token,
    {
        Telegraph { client, access_token }
    }

    /// The client that requests go through.
    pub fn client(&self) -> (r: &C)
        ensures
            *r == self.spec_client(),
    {
        &self.client
    }

    /// The same service through another client.
    pub fn with_proxy<P>(self, proxy: P) -> (r: Telegraph<T, P>)
        ensures
            r.spec_client() == proxy,
            r.spec_access_token() == self.spec_access_token(),
    {
        Telegraph { client: proxy, access_token: self.access_token }
    }
}

impl<T: AccessToken, C> Telegraph<T, C> {
    /// The request that creates a page, with the token that the source gives for
    /// it; `content` is the page's content in JSON.
    pub fn create_page(&self, page: &PageCreate, content: &str) -> (r: FormPost)
        requires
            self.spec_access_token().usable(),
        ensures
            r.url@ == "https://api.telegra.ph/createPage"@,
            exists|token: &str|
                #![trigger call_ensures(T::token, (&self.spec_access_token(),), token)]
                {
                    &&& call_ensures(T::token, (&self.spec_access_token(),), token)
                    &&& self.spec_access_token().admits(token@)
                    &&& fields_view(r.fields@) == create_fields(token@, *page, content@)
                },
    {
        let token = self.access_token.token();
        let title = take_chars(page.title.as_str(), TITLE_LENGTH_MAX);
        let mut fields: Vec<(String, String)> = Vec::new();
        push_field(&mut fields, "access_token", token);
        push_field(&mut fields, "title", title.as_str());
        push_field(&mut fields, "content", content);
        push_optional_field(&mut fields, "author_name", &page.author_name);
        push_optional_field(&mut fields, "author_url", &page.author_url);
        assert(fields_view(fields@) =~= create_fields(token@, *page, content@));
        assert(call_ensures(T::token, (&self.spec_access_token(),), token));
        FormPost { url: "https://api.telegra.ph/createPage".to_string(), fields }
    }

    /// The request that edits a page, with the token that the source selects for
    /// the page's path; `content` is the page's content in JSON.
    pub fn edit_page(&self, page: &PageEdit, content: &str) -> (r: FormPost)
        requires
            self.spec_access_token().usable(),
        ensures
            r.url@ == "https://api.telegra.ph/editPage"@,
            exists|path: &str, token: &str|
                #![trigger call_ensures(T::select_token, (&self.spec_access_token(), path), token)]
                {
                    &&& path@ == page.path@
                    &&& call_ensures(T::select_token, (&self.spec_access_token(), path), token)
                    &&& self.spec_access_token().admits(token@)
                    &&& fields_view(r.fields@) == edit_fields(token@, *page, content@)
                },
    {
        let path = page.path.as_str();
        let token = self.access_token.select_token(path);
        let title = take_chars(page.title.as_str(), TITLE_LENGTH_MAX);
        let mut fields: Vec<(String, String)> = Vec::new();
        push_field(&mut fields, "access_token", token);
        push_field(&mut fields, "title", title.as_str());
        push_field(&mut fields, "path", path);
        push_field(&mut fields, "content", content);
        push_optional_field(&mut fields, "author_name", &page.author_name);
        push_optional_field(&mut fields, "author_url", &page.author_url);
        assert(fields_view(fields@) =~= edit_fields(token@, *page, content@));
        assert(call_ensures(T::select_token, (&self.spec_access_token(), path), token));
        FormPost { url: "https://api.telegra.ph/editPage".to_string(), fields }
    }
}

/// The form that creates a page holds the token, the title, cut after 200
/// characters, and the content, then the author's name and address, each where
/// there is one.
pub proof fn law_create_form(token: Seq<char>, page: PageCreate, content: Seq<char>)
    ensures
        ({
            let f = create_fields(token, page, content);
            let named: int = if page.author_name is Some {
                1
            } else {
                0
            };
            let linked: int = if page.author_url is Some {
                1
            } else {
                0
            };
            &&& f.len() == 3 + named + linked
            &&& f[0] == ("access_token"@, token)
            &&& f[1].0 == "title"@
            &&& page.title@.len() <= 200 ==> f[1].1 == page.title@
            &&& page.title@.len() > 200 ==> f[1].1 == page.title@.take(200)
            &&& f[2] == ("content"@, content)
            &&& page.author_name matches Some(name) ==> f[3] == ("author_name"@, name@)
            &&& page.author_url matches Some(url) ==> f.last() == ("author_url"@, url@)
        }),
{
}

/// The form that edits a page holds the token, the title, cut after 200
/// characters, the page's path and the content, then the author's name and
/// address, each where there is one.
pub proof fn law_edit_form(token: Seq<char>, page: PageEdit, content: Seq<char>)
    ensures
        ({
            let f = edit_fields(token, page, content);
            let named: int = if page.author_name is Some {
                1
            } else {
                0
            };
            let linked: int = if page.author_url is Some {
                1
            } else {
                0
            };
            &&& f.len() == 4 + named + linked
            &&& f[0] == ("access_token"@, token)
            &&& f[1].0 == "title"@
            &&& page.title@.len() <= 200 ==> f[1].1 == page.title@
            &&& page.title@.len() > 200 ==> f[1].1 == page.title@.take(200)
            &&& f[2] == ("path"@, page.path@)
            &&& f[3] == ("content"@, content)
            &&& page.author_name matches Some(name) ==> f[4] == ("author_name"@, name@)
            &&& page.author_url matches Some(url) ==> f.last() == ("author_url"@, url@)
        }),
{
}

} // verus!
