//! Decoded images, and the cache that keeps them: it counts the bytes of
//! the images it holds, and makes room by giving up the one that came
//! first.

use vstd::prelude::*;
use crate::urls::{clone_url, same_url};
use image::{ImageError, ImageFormat};
use url::Url;

verus! {

/// `image::ImageError`, what went wrong when an image was read.
#[verifier::external_type_specification]
#[verifier::external_body]
pub struct ExImageError(ImageError);

/// `image::ImageFormat`, a file format of images.
#[verifier::external_type_specification]
#[verifier::external_body]
pub struct ExImageFormat(ImageFormat);

/// The picture that bytes are the file of, as `image::load_from_memory`
/// reads it: width, height, and the pixels as `to_rgba8` gives them, row
/// by row, four bytes each. None where the bytes are no image that the
/// crate can read.
pub uninterp spec fn decoded(bytes: Seq<u8>) -> Option<(u32, u32, Seq<u8>)>;

/// The format that the first bytes of a file show, as
/// `image::guess_format` tells it.
pub uninterp spec fn format_of(bytes: Seq<u8>) -> Option<ImageFormat>;

/// `image::load_from_memory`, and of the image read `to_rgba8`, then
/// `dimensions` and `into_raw` of that: width, height and pixels of the
/// picture, or the error of reading it.
#[verifier::external_body]
fn decode_rgba8(bytes: &[u8]) -> (picture: Result<(u32, u32, Vec<u8>), ImageError>)
    ensures
        match picture {
            Ok((width, height, data)) => decoded(bytes@) == Some((width, height, data@)),
            Err(_) => decoded(bytes@).is_none(),
        },
{
    let rgba = image::load_from_memory(bytes)?.to_rgba8();
    let (width, height) = rgba.dimensions();
    Ok((width, height, rgba.into_raw()))
}

/// `image::guess_format`: the format that the first bytes show, where
/// they show one.
#[verifier::external_body]
fn guess_format(bytes: &[u8]) -> (format: Option<ImageFormat>)
    ensures
        format == format_of(bytes@),
{
    image::guess_format(bytes).ok()
}

/// `image::ImageFormat::Png`, the format that an image is taken to have
/// where its bytes show none.
#[verifier::external_body]
fn png_format() -> ImageFormat {
    ImageFormat::Png
}

/// Decoded image data ready for GPU upload
#[derive(Debug)]
pub struct DecodedImage {
    /// Image URL
    pub url: Url,
    /// Image dimensions
    pub width: u32,
    pub height: u32,
    /// RGBA8 pixel data
    pub data: Vec<u8>,
    /// Original format
    pub format: ImageFormat,
}

impl DecodedImage {
    /// Whether the image is what the bytes of a file decode to.
    pub open spec fn is_decoded_from(&self, url: Url, bytes: Seq<u8>) -> bool {
        &&& self.url == url
        &&& decoded(bytes) == Some((self.width, self.height, self.data@))
        &&& format_of(bytes) matches Some(format) ==> self.format == format
    }

    /// Create from raw image bytes: the picture that the bytes decode to,
    /// or the error of decoding them.
    pub fn from_bytes(url: Url, bytes: &[u8]) -> (image: Result<Self, ImageError>)
        ensures
            match image {
                Ok(decoded_image) => decoded_image.is_decoded_from(url, bytes@),
                Err(_) => decoded(bytes@).is_none(),
            },
    {
        match decode_rgba8(bytes) {
            Ok((width, height, data)) => {
                let format = match guess_format(bytes) {
                    Some(format) => format,
                    None => png_format(),
                };
                Ok(DecodedImage { url, width, height, data, format })
            },
            Err(e) => Err(e),
        }
    }

    /// Get the size in bytes
    pub fn byte_size(&self) -> (size: usize)
        ensures
            size == self.data@.len(),
    {
        self.data.len()
    }
}

/// The bytes that count against the limit of a cache: those of the images
/// that are not larger than the whole cache.
pub open spec fn counted_size(images: Seq<(Url, DecodedImage)>, max_size: int) -> int
    decreases images.len(),
{
    if images.len() == 0 {
        0
    } else {
        counted_size(images.drop_last(), max_size) + counted(images.last().1, max_size)
    }
}

/// The bytes of an image that count against the limit.
pub open spec fn counted(image: DecodedImage, max_size: int) -> int {
    if image.data@.len() <= max_size {
        image.data@.len() as int
    } else {
        0
    }
}

/// The URLs of the images.
pub open spec fn image_urls(images: Seq<(Url, DecodedImage)>) -> Seq<Url> {
    Seq::new(images.len(), |i: int| images[i].0)
}

/// The first place from `from` on at which a URL stands, and the number
/// of images where it stands at none.
pub open spec fn first_url(images: Seq<(Url, DecodedImage)>, url: Url, from: int) -> int
    decreases images.len() - from,
{
    if from < 0 || from >= images.len() {
        images.len() as int
    } else if images[from].0 == url {
        from
    } else {
        first_url(images, url, from + 1)
    }
}

/// The images after those that came first were given up, one by one,
/// until `size` more bytes fit under `max_size` or nothing was left.
pub open spec fn room_for(images: Seq<(Url, DecodedImage)>, size: int, max_size: int) -> Seq<
    (Url, DecodedImage),
>
    decreases images.len(),
{
    if images.len() > 0 && counted_size(images, max_size) + size > max_size {
        room_for(images.drop_first(), size, max_size)
    } else {
        images
    }
}

/// The images after one was taken in under a URL. Where the URL has an
/// image, nothing changes; else room is made, and the image is put
/// behind the rest.
pub open spec fn taken_in(
    images: Seq<(Url, DecodedImage)>,
    url: Url,
    image: DecodedImage,
    max_size: int,
) -> Seq<(Url, DecodedImage)> {
    if first_url(images, url, 0) < images.len() {
        images
    } else {
        room_for(images, image.data@.len() as int, max_size).push((url, image))
    }
}

proof fn lemma_first_url(images: Seq<(Url, DecodedImage)>, url: Url, from: int, passed: int)
    requires
        0 <= from <= passed <= images.len(),
        forall|j: int| from <= j < passed ==> images[j].0 != url,
    ensures
        first_url(images, url, from) == first_url(images, url, passed),
        passed < images.len() && images[passed].0 == url ==> first_url(images, url, from)
            == passed,
        passed == images.len() ==> first_url(images, url, from) == images.len(),
    decreases passed - from,
{
    if from < passed {
        lemma_first_url(images, url, from + 1, passed);
    }
}

proof fn lemma_url_absent(images: Seq<(Url, DecodedImage)>, url: Url, from: int)
    requires
        0 <= from <= images.len(),
        first_url(images, url, from) == images.len(),
    ensures
        forall|j: int| from <= j < images.len() ==> images[j].0 != url,
    decreases images.len() - from,
{
    if from < images.len() {
        lemma_url_absent(images, url, from + 1);
    }
}

proof fn lemma_counted_bounds(images: Seq<(Url, DecodedImage)>, max_size: int)
    ensures
        counted_size(images, max_size) >= 0,
    decreases images.len(),
{
    if images.len() > 0 {
        lemma_counted_bounds(images.drop_last(), max_size);
    }
}

proof fn lemma_counted_push(
    images: Seq<(Url, DecodedImage)>,
    entry: (Url, DecodedImage),
    max_size: int,
)
    ensures
        counted_size(images.push(entry), max_size) == counted_size(images, max_size) + counted(
            entry.1,
            max_size,
        ),
{
    assert(images.push(entry).drop_last() =~= images);
}

proof fn lemma_counted_first(images: Seq<(Url, DecodedImage)>, max_size: int)
    requires
        images.len() > 0,
    ensures
        counted_size(images.drop_first(), max_size) == counted_size(images, max_size) - counted(
            images[0].1,
            max_size,
        ),
        counted_size(images.drop_first(), max_size) >= 0,
    decreases images.len(),
{
    lemma_counted_bounds(images.drop_first(), max_size);
    if images.len() == 1 {
        assert(images.drop_first() =~= images.drop_last());
    } else {
        lemma_counted_first(images.drop_last(), max_size);
        assert(images.drop_first().drop_last() =~= images.drop_last().drop_first());
        assert(images.drop_first().last() == images.last());
    }
}

/// Cache for decoded images
pub struct ImageCache {
    /// Cached images by URL, in the order in which they came
    images: Vec<(Url, DecodedImage)>,
    /// Maximum cache size in bytes
    max_size: usize,
    /// Current cache size in bytes
    current_size: usize,
}

/// The bytes that a cache holds unless told otherwise: 100 MB.
pub const DEFAULT_IMAGE_CACHE_SIZE: usize = 104_857_600;

impl ImageCache {
    /// The images, each under its URL, in the order in which they came.
    pub closed spec fn images(&self) -> Seq<(Url, DecodedImage)> {
        self.images@
    }

    /// The most bytes that the cache counts.
    pub closed spec fn max_size(&self) -> usize {
        self.max_size
    }

    /// The bytes that the cache counts.
    pub closed spec fn current_size(&self) -> usize {
        self.current_size
    }

    /// Whether the cache is in order: no URL occurs twice, and the size
    /// is that of the images that count, within the limit.
    pub open spec fn wf(&self) -> bool {
        &&& image_urls(self.images()).no_duplicates()
        &&& self.current_size() == counted_size(self.images(), self.max_size() as int)
        &&& self.current_size() <= self.max_size()
    }

    /// Create a new image cache with specified size limit
    pub fn new(max_size: usize) -> (cache: Self)
        ensures
            cache.wf(),
            cache.max_size() == max_size,
            cache.images().len() == 0,
    {
        ImageCache { images: Vec::new(), max_size, current_size: 0 }
    }

    /// Create with default 100MB cache
    pub fn with_default_size() -> (cache: Self)
        ensures
            cache.wf(),
            cache.max_size() == DEFAULT_IMAGE_CACHE_SIZE,
            cache.images().len() == 0,
    {
        ImageCache::new(DEFAULT_IMAGE_CACHE_SIZE)
    }

    /// The place of the image under a URL, and the number of images
    /// where there is none.
    fn position(&self, url: &Url) -> (at: usize)
        ensures
            at == first_url(self.images(), *url, 0),
            at <= self.images@.len(),
    {
        let mut i: usize = 0;
        while i < self.images.len() && !same_url(&self.images[i].0, url)
            invariant
                i <= self.images@.len(),
                forall|j: int| 0 <= j < i ==> self.images@[j].0 != *url,
            decreases self.images@.len() - i,
        {
            i = i + 1;
        }
        proof {
            lemma_first_url(self.images@, *url, 0, i as int);
        }
        i
    }

    /// Load and decode an image from bytes. Where the cache has an image
    /// under the URL, that one is given and the bytes are not read. Else
    /// the bytes are decoded, and the picture is taken in as `insert`
    /// does; bytes that are no image give the error of decoding them.
    pub fn load_from_bytes(&mut self, url: Url, bytes: &[u8]) -> (loaded: Result<
        &DecodedImage,
        ImageError,
    >)
        requires
            old(self).wf(),
        ensures
            final(self).wf(),
            final(self).max_size() == old(self).max_size(),
            ({
                let at = first_url(old(self).images(), url, 0);
                match loaded {
                    Ok(image) => if at < old(self).images().len() {
                        final(self).images() == old(self).images() && *image == old(self).images()[at].1
                    } else {
                        image.is_decoded_from(url, bytes@) && final(self).images() == taken_in(
                            old(self).images(),
                            url,
                            *image,
                            old(self).max_size() as int,
                        )
                    },
                    Err(_) => at == old(self).images().len() && decoded(bytes@).is_none() && final(self).images() == old(self).images(),
                }
            }),
    {
        let at = self.position(&url);
        if at < self.images.len() {
            return Ok(&self.images[at].1);
        }
        match DecodedImage::from_bytes(clone_url(&url), bytes) {
            Ok(decoded_image) => Ok(self.insert(url, decoded_image)),
            Err(e) => Err(e),
        }
    }

    /// Takes a decoded image in under a URL, and gives the image that
    /// the cache then has there. Where the URL has an image, that one
    /// stays. Else the images that came first are given up until the new
    /// one fits or nothing is left, and the new one is kept; one larger
    /// than the whole cache is kept too, but does not count.
    pub fn insert(&mut self, url: Url, image: DecodedImage) -> (kept: &DecodedImage)
        requires
            old(self).wf(),
        ensures
            final(self).wf(),
            final(self).max_size() == old(self).max_size(),
            final(self).images() == taken_in(
                old(self).images(),
                url,
                image,
                old(self).max_size() as int,
            ),
            *kept == if first_url(old(self).images(), url, 0) < old(self).images().len() {
                old(self).images()[first_url(old(self).images(), url, 0)].1
            } else {
                image
            },
    {
        let at = self.position(&url);
        if at < self.images.len() {
            return &self.images[at].1;
        }
        proof {
            lemma_url_absent(self.images@, url, 0);
        }
        let size = image.byte_size();
        while !self.images.is_empty() && size > self.max_size - self.current_size
            invariant
                self.wf(),
                self.max_size == old(self).max_size,
                size == image.data@.len(),
                forall|j: int| 0 <= j < self.images@.len() ==> self.images@[j].0 != url,
                room_for(self.images@, size as int, self.max_size as int) == room_for(
                    old(self).images@,
                    size as int,
                    self.max_size as int,
                ),
            decreases self.images@.len(),
        {
            self.evict_oldest();
        }
        proof {
            if self.images@.len() == 0 {
                assert(self.images@ =~= Seq::<(Url, DecodedImage)>::empty());
            }
            lemma_counted_push(self.images@, (url, image), self.max_size as int);
            let held = self.images@;
            let urls = image_urls(held.push((url, image)));
            assert forall|a: int, b: int| 0 <= a < urls.len() && 0 <= b < urls.len() && a
                != b implies urls[a] != urls[b] by {
                if a < held.len() && b < held.len() {
                    assert(image_urls(held)[a] != image_urls(held)[b]);
                }
            }
        }
        if size <= self.max_size {
            self.current_size = self.current_size + size;
        }
        self.images.push((url, image));
        let last = self.images.len() - 1;
        &self.images[last].1
    }

    /// Get a cached image
    pub fn get(&self, url: &Url) -> (found: Option<&DecodedImage>)
        ensures
            match found {
                Some(image) => first_url(self.images(), *url, 0) < self.images().len() && *image
                    == self.images()[first_url(self.images(), *url, 0)].1,
                None => first_url(self.images(), *url, 0) == self.images().len(),
            },
    {
        let at = self.position(url);
        if at < self.images.len() {
            Some(&self.images[at].1)
        } else {
            None
        }
    }

    /// Evict the oldest image: the one that came first.
    fn evict_oldest(&mut self)
        requires
            old(self).wf(),
            old(self).images@.len() > 0,
        ensures
            final(self).wf(),
            final(self).max_size == old(self).max_size,
            final(self).images@ == old(self).images@.drop_first(),
    {
        proof {
            lemma_counted_first(self.images@, self.max_size as int);
        }
        let ghost before = self.images@;
        let (_, removed) = self.images.remove(0);
        let size = removed.byte_size();
        if size <= self.max_size {
            self.current_size = self.current_size - size;
        }
        proof {
            assert(self.images@ =~= before.drop_first());
            let urls = image_urls(self.images@);
            assert forall|a: int, b: int| 0 <= a < urls.len() && 0 <= b < urls.len() && a
                != b implies urls[a] != urls[b] by {
                assert(image_urls(before)[a + 1] != image_urls(before)[b + 1]);
            }
        }
    }

    /// Clear the cache
    pub fn clear(&mut self)
        ensures
            final(self).wf(),
            final(self).max_size() == old(self).max_size(),
            final(self).images().len() == 0,
    {
        self.images.clear();
        self.current_size = 0;
    }

    /// Get current cache size in bytes
    pub fn size(&self) -> (size: usize)
        ensures
            size == self.current_size(),
    {
        self.current_size
    }

    /// Get number of cached images
    pub fn count(&self) -> (count: usize)
        ensures
            count == self.images().len(),
    {
        self.images.len()
    }
}

} // verus!
