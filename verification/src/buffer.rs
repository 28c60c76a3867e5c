//! A buffer that knows the size of what it holds.

use crate::album::{ImageData, ImageMeta};
use vstd::prelude::*;

verus! {

/// Data of a known size.
pub trait DataSized {
    /// The size in bytes.
    spec fn data_size(&self) -> nat;

    /// The size in bytes.
    fn size(&self) -> (r: usize)
        ensures
            r == self.data_size(),
    ;
}

impl DataSized for (ImageMeta, ImageData) {
    open spec fn data_size(&self) -> nat {
        self.1@.len()
    }

    fn size(&self) -> (r: usize) {
        self.1.len()
    }
}

/// The size of all the data in a row.
pub open spec fn total_size<T: DataSized>(s: Seq<T>) -> nat
    decreases s.len(),
{
    if s.len() == 0 {
        0
    } else {
        total_size(s.drop_last()) + s.last().data_size()
    }
}

/// Data in the order in which it came, with its size.
pub struct ImageBuffer<T: DataSized> {
    buf: Vec<T>,
    size: usize,
}

impl<T: DataSized> View for ImageBuffer<T> {
    type V = Seq<T>;

    closed spec fn view(&self) -> Seq<T> {
        self.buf@
    }
}

impl<T: DataSized> ImageBuffer<T> {
    /// The size kept is the size of what is held.
    pub closed spec fn wf(self) -> bool {
        self.size == total_size(self.buf@)
    }

    /// An empty buffer.
    pub fn new() -> (r: Self)
        ensures
            r.wf(),
            r@ == Seq::<T>::empty(),
    {
        ImageBuffer { buf: Vec::new(), size: 0 }
    }

    /// Adds data at the end.
    pub fn push(&mut self, data: T)
        requires
            old(self).wf(),
            total_size(old(self)@) + data.data_size() <= usize::MAX,
        ensures
            final(self).wf(),
            final(self)@ == old(self)@.push(data),
    {
        self.size = self.size + data.size();
        self.buf.push(data);
        assert(self.buf@.drop_last() =~= old(self).buf@);
    }

    /// How many pieces of data there are.
    pub fn len(&self) -> (r: usize)
        ensures
            r == self@.len(),
    {
        self.buf.len()
    }

    /// The size of all the data.
    pub fn size(&self) -> (r: usize)
        requires
            self.wf(),
        ensures
            r == total_size(self@),
    {
        self.size
    }

    /// Whether there is no data.
    pub fn is_empty(&self) -> (r: bool)
        ensures
            r == (self@.len() == 0),
    {
        self.buf.len() == 0
    }

    /// Takes everything out, with its size.
    pub fn swap(&mut self) -> (r: (Vec<T>, usize))
        requires
            old(self).wf(),
        ensures
            final(self).wf(),
            final(self)@ == Seq::<T>::empty(),
            r.0@ == old(self)@,
            r.1 == total_size(old(self)@),
    {
        let mut data: Vec<T> = Vec::new();
        data.append(&mut self.buf);
        let size = self.size;
        self.size = 0;
        assert(data@ =~= old(self).buf@);
        (data, size)
    }
}

/// The size of images is the number of bytes of all their files.
pub proof fn law_total_size(images: Seq<(ImageMeta, ImageData)>, image: (ImageMeta, ImageData))
    ensures
        total_size(Seq::<(ImageMeta, ImageData)>::empty()) == 0,
        total_size(images.push(image)) == total_size(images) + image.1@.len(),
{
    assert(images.push(image).drop_last() =~= images);
}

} // verus!
