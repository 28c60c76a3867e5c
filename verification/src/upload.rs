//! Uploading image files, one request each.

use crate::node::opt_text;
use crate::telegraph::{MediaInfo, Telegraph, TelegraphError, TelegraphErrorView};
use vstd::prelude::*;

verus! {

/// The first bytes of every GIF file.
pub open spec fn gif_signature() -> Seq<u8> {
    seq![0x47u8, 0x49u8, 0x46u8, 0x38u8]
}

/// The first bytes of every PNG file.
pub open spec fn png_signature() -> Seq<u8> {
    seq![0x89u8, 0x50u8, 0x4eu8, 0x47u8, 0x0du8, 0x0au8, 0x1au8, 0x0au8]
}

/// Whether a file begins with the given bytes.
pub open spec fn bytes_begin(data: Seq<u8>, signature: Seq<u8>) -> bool {
    signature.len() <= data.len() && data.take(signature.len() as int) == signature
}

/// The name that a file is uploaded under, by its kind.
pub open spec fn file_name_view(data: Seq<u8>) -> Seq<char> {
    if bytes_begin(data, gif_signature()) {
        "image.gif"@
    } else if bytes_begin(data, png_signature()) {
        "image.png"@
    } else {
        "image.jpg"@
    }
}

fn starts_with_bytes(data: &Vec<u8>, signature: &Vec<u8>) -> (r: bool)
    ensures
        r == bytes_begin(data@, signature@),
{
    if signature.len() > data.len() {
        return false;
    }
    let mut i: usize = 0;
    while i < signature.len()
        invariant
            i <= signature@.len() <= data@.len(),
            forall|j: int| 0 <= j < i ==> data@[j] == #[trigger] signature@[j],
        decreases signature@.len() - i,
    {
        if data[i] != signature[i] {
            assert(data@.take(signature@.len() as int)[i as int] != signature@[i as int]);
            return false;
        }
        i += 1;
    }
    assert(data@.take(signature@.len() as int) =~= signature@);
    true
}

/// The name to upload a file under: GIF and PNG files are told by their first
/// bytes, everything else passes as JPEG.
pub fn image_file_name(data: &Vec<u8>) -> (r: &'static str)
    ensures
        r@ == file_name_view(data@),
{
    let gif: Vec<u8> = vec![0x47, 0x49, 0x46, 0x38];
    let png: Vec<u8> = vec![0x89, 0x50, 0x4e, 0x47, 0x0d, 0x0a, 0x1a, 0x0a];
    assert(gif@ =~= gif_signature());
    assert(png@ =~= png_signature());
    if starts_with_bytes(data, &gif) {
        "image.gif"
    } else if starts_with_bytes(data, &png) {
        "image.png"
    } else {
        "image.jpg"
    }
}

/// What a JSON document holds under a key inside a key: the text there, if there
/// is one; where the bytes are no JSON document, what is wrong with them.
pub uninterp spec fn json_nested_text(body: Seq<u8>, outer: Seq<char>, inner: Seq<char>) -> Result<
    Option<Seq<char>>,
    Seq<char>,
>;

/// `serde_json::from_slice` into a `serde_json::Value`, then `get` for either
/// key and `as_str`; where the bytes are no JSON document, the text of the
/// `serde_json::Error`. The result depends on the bytes and the keys alone.
#[verifier::external_body]
pub(crate) fn nested_text(body: &[u8], outer: &str, inner: &str) -> (r: Result<
    Option<String>,
    String,
>)
    ensures
        nested_view(r) == json_nested_text(body@, outer@, inner@),
{
    let value: serde_json::Value = serde_json::from_slice(body).map_err(|e| e.to_string())?;
    let found = value.get(outer).and_then(|v| v.get(inner)).and_then(|v| v.as_str());
    Ok(found.map(|t| t.to_string()))
}

/// A text that may be absent in a document that may be faulty.
pub open spec fn nested_view(r: Result<Option<String>, String>) -> Result<
    Option<Seq<char>>,
    Seq<char>,
> {
    match r {
        Ok(found) => Ok(opt_text(found)),
        Err(cause) => Err(cause@),
    }
}

/// The address of an uploaded file, by what the reply holds: a reply that is no
/// JSON document fails as one that cannot be decoded, with what is wrong with it,
/// one without an address as one of the service.
pub open spec fn reply_view(found: Result<Option<Seq<char>>, Seq<char>>) -> Result<
    Seq<char>,
    TelegraphErrorView,
> {
    match found {
        Ok(Some(url)) => Ok(url),
        Ok(None) => Err(TelegraphErrorView::Server),
        Err(cause) => Err(
            TelegraphErrorView::Reqwest("error decoding response body: "@ + cause),
        ),
    }
}

/// An upload's result as a plain value.
pub open spec fn media_view(r: Result<MediaInfo, TelegraphError>) -> Result<
    Seq<char>,
    TelegraphErrorView,
> {
    match r {
        Ok(media) => Ok(media.src@),
        Err(e) => Err(e@),
    }
}

/// Judges a reply by what was found in it.
pub fn media_of(found: Result<Option<String>, String>) -> (r: Result<MediaInfo, TelegraphError>)
    ensures
        media_view(r) == reply_view(nested_view(found)),
{
    match found {
        Ok(Some(url)) => Ok(MediaInfo { src: url }),
        Ok(None) => Err(TelegraphError::Server),
        Err(cause) => Err(
            TelegraphError::Reqwest(
                "error decoding response body: ".to_string().concat(cause.as_str()),
            ),
        ),
    }
}

/// Judges a reply: the address is the text under `url` inside `data`.
pub fn parse_reply(body: &[u8]) -> (r: Result<MediaInfo, TelegraphError>)
    ensures
        media_view(r) == reply_view(json_nested_text(body@, "data"@, "url"@)),
{
    media_of(nested_text(body, "data", "url"))
}

/// The addresses that uploaded files got.
pub open spec fn media_texts(media: Seq<MediaInfo>) -> Seq<Seq<char>> {
    media.map_values(|m: MediaInfo| m.src@)
}

/// The addresses after one more reply, by what it holds, or the error that ends
/// the upload.
pub open spec fn upload_step(
    done: Seq<Seq<char>>,
    found: Result<Option<Seq<char>>, Seq<char>>,
) -> Result<Seq<Seq<char>>, TelegraphErrorView> {
    match reply_view(found) {
        Ok(url) => Ok(done.push(url)),
        Err(e) => Err(e),
    }
}

/// The addresses after a row of replies, or the error that ended the upload.
pub open spec fn upload_run(
    done: Seq<Seq<char>>,
    replies: Seq<Result<Option<Seq<char>>, Seq<char>>>,
) -> Result<Seq<Seq<char>>, TelegraphErrorView>
    decreases replies.len(),
{
    if replies.len() == 0 {
        Ok(done)
    } else {
        match upload_step(done, replies[0]) {
            Ok(more) => upload_run(more, replies.skip(1)),
            Err(e) => Err(e),
        }
    }
}

/// An upload that succeeds gives every file the address in the reply to it, in
/// order. One that fails does so with the error of the first reply that holds no
/// address.
pub proof fn law_upload_run(
    done: Seq<Seq<char>>,
    replies: Seq<Result<Option<Seq<char>>, Seq<char>>>,
)
    ensures
        match upload_run(done, replies) {
            Ok(urls) => {
                &&& urls.len() == done.len() + replies.len()
                &&& urls.take(done.len() as int) == done
                &&& forall|i: int|
                    0 <= i < replies.len() ==> reply_view(#[trigger] replies[i]) == Ok::<
                        Seq<char>,
                        TelegraphErrorView,
                    >(urls[done.len() + i])
            },
            Err(e) => exists|k: int|
                {
                    &&& 0 <= k < replies.len()
                    &&& reply_view(#[trigger] replies[k]) == Err::<Seq<char>, TelegraphErrorView>(e)
                    &&& forall|i: int| 0 <= i < k ==> reply_view(#[trigger] replies[i]) is Ok
                },
        },
    decreases replies.len(),
{
    if replies.len() == 0 {
        assert(done.take(done.len() as int) =~= done);
    } else {
        let rest = replies.skip(1);
        match upload_step(done, replies[0]) {
            Ok(more) => {
                law_upload_run(more, rest);
                match upload_run(more, rest) {
                    Ok(urls) => {
                        assert(urls.take(done.len() as int) =~= done) by {
                            assert(urls.take(more.len() as int).take(done.len() as int) =~= done);
                        }
                        let n = done.len() as int;
                        assert(urls[n] == urls.take(more.len() as int)[n]);
                        assert forall|i: int| 0 <= i < replies.len() implies reply_view(
                            #[trigger] replies[i],
                        ) == Ok::<Seq<char>, TelegraphErrorView>(urls[done.len() + i]) by {
                            if i > 0 {
                                assert(rest[i - 1] == replies[i]);
                            }
                        }
                    },
                    Err(e) => {
                        let k = choose|k: int|
                            {
                                &&& 0 <= k < rest.len()
                                &&& reply_view(#[trigger] rest[k]) == Err::<
                                    Seq<char>,
                                    TelegraphErrorView,
                                >(e)
                                &&& forall|i: int|
                                    0 <= i < k ==> reply_view(#[trigger] rest[i]) is Ok
                            };
                        assert(replies[k + 1] == rest[k]);
                        assert forall|i: int| 0 <= i < k + 1 implies reply_view(
                            #[trigger] replies[i],
                        ) is Ok by {
                            if i > 0 {
                                assert(rest[i - 1] == replies[i]);
                            }
                        }
                    },
                }
            },
            Err(e) => {
                assert(reply_view(replies[0]) == Err::<Seq<char>, TelegraphErrorView>(e));
            },
        }
    }
}

/// One file to upload.
pub struct ImageForm<'a> {
    pub url: &'static str,
    pub key: &'a str,
    pub file_name: &'static str,
    pub data: &'a Vec<u8>,
}

/// A row of files that are uploaded one after the other.
pub struct UploadRun {
    key: String,
    files: Vec<Vec<u8>>,
    results: Vec<MediaInfo>,
}

impl UploadRun {
    pub closed spec fn key(self) -> Seq<char> {
        self.key@
    }

    pub closed spec fn files(self) -> Seq<Vec<u8>> {
        self.files@
    }

    /// What the files uploaded so far became, in order.
    pub closed spec fn results(self) -> Seq<MediaInfo> {
        self.results@
    }

    /// There are no more results than files.
    pub open spec fn wf(self) -> bool {
        self.results().len() <= self.files().len()
    }

    /// The next file to upload; none where every file has its result.
    pub fn request(&self) -> (r: Option<ImageForm<'_>>)
        requires
            self.wf(),
        ensures
            r is None == (self.results().len() == self.files().len()),
            r matches Some(form) ==> {
                let data = self.files()[self.results().len() as int];
                &&& form.url@ == "https://api.imgbb.com/1/upload"@
                &&& form.key@ == self.key()
                &&& form.file_name@ == file_name_view(data@)
                &&& *form.data == data
            },
    {
        let n: usize = self.results.len();
        if n < self.files.len() {
            let data = &self.files[n];
            Some(
                ImageForm {
                    url: "https://api.imgbb.com/1/upload",
                    key: self.key.as_str(),
                    file_name: image_file_name(data),
                    data,
                },
            )
        } else {
            None
        }
    }

    /// Takes the reply to the request for the next file. A reply without an
    /// address ends the upload with its error.
    pub fn reply(&mut self, body: &[u8]) -> (r: Result<(), TelegraphError>)
        requires
            old(self).wf(),
            old(self).results().len() < old(self).files().len(),
        ensures
            final(self).wf(),
            final(self).key() == old(self).key(),
            final(self).files() == old(self).files(),
            match upload_step(
                media_texts(old(self).results()),
                json_nested_text(body@, "data"@, "url"@),
            ) {
                Ok(urls) => r is Ok && media_texts(final(self).results()) == urls,
                Err(e) => r is Err && r->Err_0@ == e && final(self).results()
                    == old(self).results(),
            },
    {
        match parse_reply(body) {
            Ok(media) => {
                self.results.push(media);
                assert(media_texts(self.results()) =~= media_texts(old(self).results()).push(
                    media.src@,
                ));
                Ok(())
            },
            Err(e) => Err(e),
        }
    }

    /// What all the files became, in order.
    pub fn finish(self) -> (r: Vec<MediaInfo>)
        requires
            self.results().len() == self.files().len(),
        ensures
            r@ == self.results(),
            r@.len() == self.files().len(),
    {
        self.results
    }
}

impl<T, C> Telegraph<T, C> {
    /// Starts uploading files; without a key for the image host nothing can be
    /// uploaded.
    pub fn upload(&self, key: Option<String>, files: Vec<Vec<u8>>) -> (r: Result<
        UploadRun,
        TelegraphError,
    >)
        ensures
            match key {
                Some(k) => {
                    &&& r is Ok
                    &&& r->Ok_0.wf()
                    &&& r->Ok_0.key() == k@
                    &&& r->Ok_0.files() == files@
                    &&& r->Ok_0.results() == Seq::<MediaInfo>::empty()
                },
                None => r is Err && r->Err_0 is Server,
            },
    {
        match key {
            Some(key) => Ok(UploadRun { key, files, results: Vec::new() }),
            None => Err(TelegraphError::Server),
        }
    }
}

/// A file is named by what it begins with, whatever follows: as GIF, as PNG, and
/// anything else as JPEG.
pub proof fn law_file_named(rest: Seq<u8>, data: Seq<u8>)
    ensures
        file_name_view(seq![0x47u8, 0x49u8, 0x46u8, 0x38u8] + rest) == "image.gif"@,
        file_name_view(
            seq![0x89u8, 0x50u8, 0x4eu8, 0x47u8, 0x0du8, 0x0au8, 0x1au8, 0x0au8] + rest,
        ) == "image.png"@,
        !seq![0x47u8, 0x49u8, 0x46u8, 0x38u8].is_prefix_of(data) && !seq![
            0x89u8,
            0x50u8,
            0x4eu8,
            0x47u8,
            0x0du8,
            0x0au8,
            0x1au8,
            0x0au8,
        ].is_prefix_of(data) ==> file_name_view(data) == "image.jpg"@,
{
    let gif = seq![0x47u8, 0x49u8, 0x46u8, 0x38u8];
    let png = seq![0x89u8, 0x50u8, 0x4eu8, 0x47u8, 0x0du8, 0x0au8, 0x1au8, 0x0au8];
    assert((gif + rest).take(4) =~= gif);
    assert((png + rest).take(8) =~= png);
    assert((png + rest).take(4)[0] != gif[0]);
    if bytes_begin(data, gif) {
        assert(data.take(4) =~= data.subrange(0, 4));
        assert(gif.is_prefix_of(data));
    }
    if bytes_begin(data, png) {
        assert(data.take(8) =~= data.subrange(0, 8));
        assert(png.is_prefix_of(data));
    }
}

/// A reply with an address gives that address; one without fails as the service's
/// failure; one that is no document fails with what is wrong with it.
pub proof fn law_reply_judged(url: Seq<char>, cause: Seq<char>)
    ensures
        reply_view(Ok(Some(url))) == Ok::<Seq<char>, TelegraphErrorView>(url),
        reply_view(Ok(None)) == Err::<Seq<char>, TelegraphErrorView>(TelegraphErrorView::Server),
        reply_view(Err(cause)) == Err::<Seq<char>, TelegraphErrorView>(
            TelegraphErrorView::Reqwest("error decoding response body: "@ + cause),
        ),
{
}

} // verus!
