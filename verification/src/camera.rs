//! Cameras read from still images: where the image lies and how it is
//! loaded into a frame buffer.
use vstd::prelude::*;
use image::ImageDecoder;
use crate::proj::ProjectionStyle;
use crate::frame::{
    DecoderInfo, DimError, FrameBuffer, FrameBufferMut, FrameSize, SizedFrameBuffer, decoder_mismatch,
    frame_len, frame_len_fits,
};

verus! {

/// The kind of lens a camera has; the order is the one the rendering
/// shader expects.
#[derive(Clone, Copy, Debug, PartialEq, Eq, Structural)]
pub enum LensKind {
    Rectilinear,
    Equidistant,
    Equisolid,
}

impl Default for LensKind {
    fn default() -> (k: Self)
        ensures
            k == LensKind::Rectilinear,
    {
        LensKind::Rectilinear
    }
}

/// Declares `image::ImageError` so that a decoding error can be carried.
#[verifier::external_type_specification]
#[verifier::external_body]
pub struct ExImageError(image::ImageError);

/// Why an image could not be loaded into a frame.
#[derive(Debug)]
pub enum Error {
    /// The image could not be decoded (unknown format, broken data).
    Image(image::ImageError),
    /// The image's dimensions differ from the frame's.
    Dim(DimError),
}

/// What `Path::join` gives for `base` and `path`.
pub uninterp spec fn joined_path(base: Seq<char>, path: Seq<char>) -> Seq<char>;

/// Whether `path` is absolute on Unix: it starts at the root, `/`.
pub open spec fn is_absolute(path: Seq<char>) -> bool {
    path.len() > 0 && path[0] == '/'
}

/// Calls `std::path::Path::join` on `base` and `path` and returns the
/// result as a string. Claimed, as the documentation of `Path::join` and
/// `PathBuf::push` says: the result is [`joined_path`] of the two; an
/// absolute `path` (on Unix, one starting with `/`) replaces `base`
/// outright; a relative one extends `base`, which the result then starts
/// with. Where a separator goes between them the documentation does not
/// say, so neither does this. The facts are those of Unix, the platform
/// this library is built for: elsewhere (Windows) absolute paths take
/// other forms and this contract does not hold.
#[verifier::external_body]
fn join_path(base: &str, path: &str) -> (j: String)
    ensures
        j@ == joined_path(base@, path@),
        is_absolute(path@) ==> j@ == path@,
        !is_absolute(path@) ==> base@.is_prefix_of(j@),
{
    std::path::Path::new(base).join(path).to_string_lossy().into_owned()
}

/// What `image` reads from the header of the image `file`, its format
/// taken from the extension of `path`; `None` when it cannot.
pub uninterp spec fn decoded_header(file: Seq<u8>, path: Seq<char>) -> Option<DecoderInfo>;

/// The pixels `image` decodes from `file` into a buffer of the image's
/// size, its format taken from the extension of `path`; `None` when
/// decoding them fails.
pub uninterp spec fn decoded_pixels(file: Seq<u8>, path: Seq<char>) -> Option<Seq<u8>>;

/// Calls `image::ImageFormat::from_path` on `path`, then
/// `ImageReader::with_format` and `into_decoder` on the bytes of `file`, and
/// returns the decoder's dimensions and color type. Claimed: `Ok` exactly
/// when [`decoded_header`] is `Some`, holding its value; and, from the
/// definitions of `ColorType::bytes_per_pixel` and `channel_count`, a pixel
/// has at least one byte and a color type with one byte per channel has as
/// many bytes as channels.
#[verifier::external_body]
fn decode_header(file: &[u8], path: &str) -> (r: Result<DecoderInfo, image::ImageError>)
    ensures
        match r {
            Ok(info) => decoded_header(file@, path@) == Some(info),
            Err(_) => decoded_header(file@, path@) is None,
        },
        r matches Ok(info) ==> info.bytes_per_pixel > 0 && (info.channel_count
            / info.bytes_per_pixel == 1 ==> info.bytes_per_pixel == info.channel_count),
{
    let format = image::ImageFormat::from_path(path)?;
    let dec = image::ImageReader::with_format(std::io::Cursor::new(file), format).into_decoder()?;
    let (width, height) = dec.dimensions();
    let color = dec.color_type();
    Ok(
        DecoderInfo {
            width,
            height,
            channel_count: color.channel_count(),
            bytes_per_pixel: color.bytes_per_pixel(),
        },
    )
}

/// Calls `image::ImageFormat::from_path`, `ImageReader::with_format`,
/// `into_decoder` and `ImageDecoder::read_image` to decode `file` into
/// `dest`. `read_image` panics unless `dest` holds exactly the image's
/// bytes, so that is required; the image is required to have one byte per
/// channel, so that its pixels do not depend on the machine's byte order.
/// Claimed: `dest` keeps its length; the call succeeds exactly when
/// [`decoded_pixels`] is `Some`, and then `dest` holds those pixels. What
/// `dest` holds after an error is left unsaid.
#[verifier::external_body]
fn decode_into(file: &[u8], path: &str, dest: &mut [u8]) -> (r: Result<(), image::ImageError>)
    requires
        decoded_header(file@, path@) matches Some(info) && info.bytes_per_pixel
            == info.channel_count && old(dest)@.len() == info.width * info.height
            * info.bytes_per_pixel,
    ensures
        final(dest)@.len() == old(dest)@.len(),
        match decoded_pixels(file@, path@) {
            Some(p) => r is Ok && final(dest)@ == p,
            None => r is Err,
        },
{
    let format = image::ImageFormat::from_path(path)?;
    image::ImageReader::with_format(std::io::Cursor::new(file), format).into_decoder()?.read_image(dest)
}

/// A frame of `len` bytes and size (`w`, `h`, `c`) can take the decoded
/// pixels whenever the header decodes and matches it.
pub open spec fn decode_fits(w: usize, h: usize, c: usize, len: int, header: Option<DecoderInfo>) -> bool {
    match header {
        Some(info) => decoder_mismatch(w, h, c, info) is None ==> len == info.width * info.height
            * info.bytes_per_pixel,
        None => true,
    }
}

/// The outcome of loading an image into a frame of size (`w`, `h`, `c`)
/// holding `before`, leaving `after`: an undecodable header is an image
/// error and changes nothing; a mismatched size is that dimension error and
/// changes nothing; otherwise the load succeeds and the frame holds the
/// decoded pixels, unless decoding them fails, which is an image error.
pub open spec fn load_outcome(
    w: usize,
    h: usize,
    c: usize,
    before: Seq<u8>,
    after: Seq<u8>,
    header: Option<DecoderInfo>,
    pixels: Option<Seq<u8>>,
    r: Result<(), Error>,
) -> bool {
    match header {
        None => r matches Err(Error::Image(_)) && after == before,
        Some(info) => match decoder_mismatch(w, h, c, info) {
            Some(e) => r matches Err(Error::Dim(d)) && d == e && after == before,
            None => match pixels {
                Some(p) => r is Ok && after == p,
                None => r matches Err(Error::Image(_)) && after.len() == before.len(),
            },
        },
    }
}

/// What a configured camera is: a still image, or the projection the
/// other cameras are stitched into.
#[derive(Clone, Debug)]
pub enum CameraTypeConfig {
    Image { path: String, mask_path: Option<String> },
    Projection { style: ProjectionStyle, avg_colors: bool },
}

/// `after` is `before` with its paths resolved against `base`: each is
/// [`joined_path`] of `base` and the path; an absolute path is kept as it
/// is; against an absolute base every path comes out absolute.
pub open spec fn paths_fixed(base: Seq<char>, before: ImageSpec, after: ImageSpec) -> bool {
    &&& after.path@ == joined_path(base, before.path@)
    &&& is_absolute(before.path@) ==> after.path@ == before.path@
    &&& is_absolute(base) ==> is_absolute(after.path@)
    &&& match before.mask_path {
        Some(m) => after.mask_path matches Some(n) && n@ == joined_path(base, m@) && (
        is_absolute(m@) ==> n@ == m@) && (is_absolute(base) ==> is_absolute(n@)),
        None => after.mask_path is None,
    }
}

/// Resolving the paths against an absolute base a second time changes
/// nothing: the first time made them absolute, and absolute paths are
/// kept.
pub proof fn lemma_fix_paths_twice(base: Seq<char>, s0: ImageSpec, s1: ImageSpec, s2: ImageSpec)
    requires
        is_absolute(base),
        paths_fixed(base, s0, s1),
        paths_fixed(base, s1, s2),
    ensures
        s2.path@ == s1.path@,
        s2.mask_path is None <==> s1.mask_path is None,
        s1.mask_path matches Some(m1) ==> (s2.mask_path matches Some(m2) && m2@ == m1@),
{
}

/// A camera whose frames come from a still image.
#[derive(Clone, Debug)]
pub struct ImageSpec {
    pub path: String,
    pub mask_path: Option<String>,
}

impl ImageSpec {
    /// Resolves the image and mask paths against `rel_base` (see
    /// [`paths_fixed`]).
    pub fn fix_paths(&mut self, rel_base: &str)
        ensures
            paths_fixed(rel_base@, *old(self), *final(self)),
    {
        self.path = join_path(rel_base, self.path.as_str());
        let mask = match &self.mask_path {
            Some(m) => Some(join_path(rel_base, m.as_str())),
            None => None,
        };
        self.mask_path = mask;
    }

    /// Decodes `file`, the bytes of the image at `self.path`, into `buf`
    /// after checking that the image has the frame's size (see
    /// [`load_outcome`]). Decoding aborts when the frame's bytes are not as
    /// many as the image's, so that is required.
    pub fn load_into<B: FrameBufferMut>(&self, buf: &mut B, file: &[u8]) -> (r: Result<(), Error>)
        requires
            decode_fits(
                old(buf).spec_width(),
                old(buf).spec_height(),
                old(buf).spec_chans(),
                old(buf).spec_bytes().len() as int,
                decoded_header(file@, self.path@),
            ),
        ensures
            final(buf).spec_width() == old(buf).spec_width(),
            final(buf).spec_height() == old(buf).spec_height(),
            final(buf).spec_chans() == old(buf).spec_chans(),
            load_outcome(
                old(buf).spec_width(),
                old(buf).spec_height(),
                old(buf).spec_chans(),
                old(buf).spec_bytes(),
                final(buf).spec_bytes(),
                decoded_header(file@, self.path@),
                decoded_pixels(file@, self.path@),
                r,
            ),
    {
        let info = match decode_header(file, self.path.as_str()) {
            Ok(info) => info,
            Err(e) => return Err(Error::Image(e)),
        };
        match buf.check_decoder(&info) {
            Ok(()) => {},
            Err(e) => return Err(Error::Dim(e)),
        }
        let bytes = buf.as_bytes_mut();
        match decode_into(file, self.path.as_str(), bytes) {
            Ok(()) => Ok(()),
            Err(e) => Err(Error::Image(e)),
        }
    }

    /// [`ImageSpec::load_into`], when the frame can take the image; `None`,
    /// with the frame untouched, when the image decodes to the frame's size
    /// but the frame's bytes are not as many as the image's.
    pub fn load_into_checked<B: FrameBufferMut>(&self, buf: &mut B, file: &[u8]) -> (r: Option<
        Result<(), Error>,
    >)
        ensures
            final(buf).spec_width() == old(buf).spec_width(),
            final(buf).spec_height() == old(buf).spec_height(),
            final(buf).spec_chans() == old(buf).spec_chans(),
            r is None <==> !decode_fits(
                old(buf).spec_width(),
                old(buf).spec_height(),
                old(buf).spec_chans(),
                old(buf).spec_bytes().len() as int,
                decoded_header(file@, self.path@),
            ),
            r is None ==> final(buf).spec_bytes() == old(buf).spec_bytes(),
            r matches Some(res) ==> load_outcome(
                old(buf).spec_width(),
                old(buf).spec_height(),
                old(buf).spec_chans(),
                old(buf).spec_bytes(),
                final(buf).spec_bytes(),
                decoded_header(file@, self.path@),
                decoded_pixels(file@, self.path@),
                res,
            ),
    {
        if let Ok(info) = decode_header(file, self.path.as_str()) {
            if buf.check_decoder(&info).is_ok() {
                let len = buf.as_bytes().len() as u64;
                assert((info.width as u64) * (info.height as u64) <= u64::MAX) by (nonlinear_arith)
                    requires
                        info.width <= u32::MAX,
                        info.height <= u32::MAX,
                ;
                let total = (info.width as u64) * (info.height as u64);
                let fits = match total.checked_mul(info.bytes_per_pixel as u64) {
                    Some(t) => t == len,
                    None => false,
                };
                if !fits {
                    return None;
                }
            }
        }
        Some(self.load_into(buf, file))
    }
}

/// A header whose image can be read into a frame sized after it: one byte
/// per channel, and a byte count that fits in `usize`.
pub open spec fn sized_load_fits(header: Option<DecoderInfo>) -> bool {
    match header {
        Some(info) => info.bytes_per_pixel == info.channel_count && frame_len_fits(
            info.width as int,
            info.height as int,
            info.channel_count as int,
        ),
        None => true,
    }
}

/// The outcome of loading the image `file` (at `path`) into a frame sized
/// after its header: an undecodable header or undecodable pixels are an
/// image error; otherwise the frame has the header's width, height and
/// channel count and holds the decoded pixels.
pub open spec fn sized_load_outcome(file: Seq<u8>, path: Seq<char>, r: Result<SizedFrameBuffer, Error>) -> bool {
    match decoded_header(file, path) {
        None => r matches Err(Error::Image(_)),
        Some(info) => match decoded_pixels(file, path) {
            Some(p) => r matches Ok(b) && b.width == info.width && b.height == info.height && b.chans
                == info.channel_count && b.data@ == p,
            None => r matches Err(Error::Image(_)),
        },
    }
}

/// Loads the image `file`, the bytes of the file at `path`, into a new frame
/// of the image's own size (see [`sized_load_outcome`]). Reading an image
/// with more than one byte per channel aborts, as does a frame too large to
/// count its bytes, so both are required not to arise.
pub fn load_sized(file: &[u8], path: &str) -> (r: Result<SizedFrameBuffer, Error>)
    requires
        sized_load_fits(decoded_header(file@, path@)),
    ensures
        sized_load_outcome(file@, path@, r),
{
    let info = match decode_header(file, path) {
        Ok(info) => info,
        Err(e) => return Err(Error::Image(e)),
    };
    let mut buf = SizedFrameBuffer::new(
        info.width as usize,
        info.height as usize,
        info.channel_count as usize,
    );
    match decode_into(file, path, buf.data.as_mut_slice()) {
        Ok(()) => Ok(buf),
        Err(e) => Err(Error::Image(e)),
    }
}

/// [`load_sized`], when the image can be read into a frame of its size;
/// `None` when the header decodes but the image has more than one byte per
/// channel or too many bytes to count.
pub fn load_sized_checked(file: &[u8], path: &str) -> (r: Option<Result<SizedFrameBuffer, Error>>)
    ensures
        r is None <==> !sized_load_fits(decoded_header(file@, path@)),
        r matches Some(res) ==> sized_load_outcome(file@, path@, res),
{
    if let Ok(info) = decode_header(file, path) {
        if info.bytes_per_pixel != info.channel_count {
            return None;
        }
        let w = info.width as usize;
        let h = info.height as usize;
        let c = info.channel_count as usize;
        let fits = match w.checked_mul(h) {
            Some(wh) => wh.checked_mul(c).is_some(),
            None => false,
        };
        if !fits {
            return None;
        }
    }
    Some(load_sized(file, path))
}

/// The image `image` decodes from `file`, its format taken from the
/// extension of `path`, converted to 8-bit RGBA: width, height and pixels;
/// `None` when it cannot be decoded.
pub uninterp spec fn decoded_rgba8(file: Seq<u8>, path: Seq<char>) -> Option<(u32, u32, Seq<u8>)>;

/// Calls `image::ImageFormat::from_path`, `ImageReader::with_format`,
/// `ImageReader::decode` and `DynamicImage::to_rgba8`, and returns the
/// image's width, height and raw pixels. Claimed: `Ok` exactly when
/// [`decoded_rgba8`] is `Some`, holding its value; an RGBA image buffer
/// holds four bytes for each of its pixels.
#[verifier::external_body]
fn decode_rgba8(file: &[u8], path: &str) -> (r: Result<(u32, u32, Vec<u8>), image::ImageError>)
    ensures
        match r {
            Ok((w, h, px)) => decoded_rgba8(file@, path@) == Some((w, h, px@)) && px@.len() == w * h
                * 4,
            Err(_) => decoded_rgba8(file@, path@) is None,
        },
{
    let format = image::ImageFormat::from_path(path)?;
    let img = image::ImageReader::with_format(std::io::Cursor::new(file), format).decode()?.to_rgba8();
    Ok((img.width(), img.height(), img.into_raw()))
}

/// A loader that copies one still image, read once and never reloaded,
/// into every buffer it is given.
pub struct ImageLoader {
    pub width: u32,
    pub height: u32,
    /// The image's RGBA pixels, row after row.
    pub pixels: Vec<u8>,
}

impl ImageLoader {
    /// The loader for the image `file`, the bytes of the file at `path`,
    /// converted to RGBA; an image error when it cannot be decoded.
    pub fn from_file(file: &[u8], path: &str) -> (r: Result<ImageLoader, Error>)
        ensures
            match decoded_rgba8(file@, path@) {
                Some((w, h, px)) => r matches Ok(l) && l.width == w && l.height == h && l.pixels@
                    == px && px.len() == w * h * 4,
                None => r matches Err(Error::Image(_)),
            },
    {
        match decode_rgba8(file, path) {
            Ok((width, height, pixels)) => Ok(ImageLoader { width, height, pixels }),
            Err(e) => Err(Error::Image(e)),
        }
    }

    /// Number of bytes of the image, which a buffer must have to be filled.
    pub fn num_bytes(&self) -> (n: usize)
        ensures
            n == self.pixels@.len(),
    {
        self.pixels.len()
    }

    /// Copies the image into `dest`, which must have exactly its bytes.
    pub fn fill(&self, dest: &mut [u8])
        requires
            old(dest)@.len() == self.pixels@.len(),
        ensures
            final(dest)@ == self.pixels@,
    {
        let n = dest.len();
        let mut i: usize = 0;
        while i < n
            invariant
                n == dest@.len(),
                n == self.pixels@.len(),
                i <= n,
                forall|k: int| 0 <= k < i ==> dest@[k] == self.pixels@[k],
            decreases n - i,
        {
            dest[i] = self.pixels[i];
            i = i + 1;
        }
        assert(dest@ =~= self.pixels@);
    }
}

} // verus!
