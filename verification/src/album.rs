//! What is known about a gallery and its images.

use vstd::prelude::*;

verus! {

/// A gallery.
pub struct AlbumMeta {
    pub link: String,
    pub name: String,
    pub class: Option<String>,
    pub description: Option<String>,
    pub authors: Option<Vec<String>>,
    pub tags: Option<Vec<String>>,
}

/// An image of a gallery.
pub struct ImageMeta {
    pub id: String,
    pub url: String,
    pub description: Option<String>,
}

/// The bytes of an image file.
pub type ImageData = Vec<u8>;

/// An image with its file.
pub type Image = (ImageMeta, ImageData);

} // verus!
