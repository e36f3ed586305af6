//! Image frames: their sizes, their bytes, and the checks that an image
//! fits a frame.
use vstd::prelude::*;
use vstd::string::StringExecFns;

verus! {

/// The smaller of two integers.
pub open spec fn min_int(a: int, b: int) -> int {
    if a <= b {
        a
    } else {
        b
    }
}

/// Number of bytes of a `width` x `height` frame with `chans` bytes per pixel.
pub open spec fn frame_len(width: int, height: int, chans: int) -> int {
    width * height * chans
}

/// The products that computing [`frame_len`] in `usize` goes through all fit.
pub open spec fn frame_len_fits(width: int, height: int, chans: int) -> bool {
    &&& width * height <= usize::MAX
    &&& width * height * chans <= usize::MAX
}

/// Byte offset of pixel (`x`, `y`) as frames address it: rows are counted
/// in steps of the frame's height.
pub open spec fn pixel_offset(x: int, y: int, height: int, chans: int) -> int {
    (x + y * height) * chans
}

/// Anything that holds (or will hold) a frame of a known size.
pub trait FrameSize {
    spec fn spec_width(&self) -> usize;

    spec fn spec_height(&self) -> usize;

    spec fn spec_chans(&self) -> usize;

    fn width(&self) -> (w: usize)
        ensures
            w == self.spec_width(),
    ;

    fn height(&self) -> (h: usize)
        ensures
            h == self.spec_height(),
    ;

    fn chans(&self) -> (c: usize)
        ensures
            c == self.spec_chans(),
    ;

    /// Returns (width, height, chans).
    fn frame_size(&self) -> (s: (usize, usize, usize))
        ensures
            s == (self.spec_width(), self.spec_height(), self.spec_chans()),
    {
        (self.width(), self.height(), self.chans())
    }

    /// Returns the frame's size in bytes.
    fn num_bytes(&self) -> (n: usize)
        requires
            frame_len_fits(
                self.spec_width() as int,
                self.spec_height() as int,
                self.spec_chans() as int,
            ),
        ensures
            n == frame_len(
                self.spec_width() as int,
                self.spec_height() as int,
                self.spec_chans() as int,
            ),
    {
        let w = self.width();
        let h = self.height();
        let c = self.chans();
        w * h * c
    }

    /// A view with `self`'s size and no bytes.
    fn as_empty_view(&self) -> (v: FrameBufferView<'static>)
        ensures
            v.size() == (self.spec_width(), self.spec_height(), self.spec_chans()),
            v.bytes() == Seq::<u8>::empty(),
    {
        let empty: &'static [u8] = &[];
        assert(empty@ =~= Seq::<u8>::empty());
        FrameBufferView::new(self.frame_size(), empty)
    }
}


/// Which dimension of a frame did not match.
#[derive(Clone, Copy, Debug, PartialEq, Eq, Structural)]
pub enum DimErrorKind {
    Width,
    Height,
    Channel,
    Bytes,
}

/// A frame dimension that differs from what was expected.
#[derive(Clone, Copy, Debug, PartialEq, Eq, Structural)]
pub struct DimError {
    pub kind: DimErrorKind,
    pub exp: usize,
    pub got: usize,
}

impl DimErrorKind {
    /// Builds the error for this kind with the expected and found values.
    pub fn err(self, exp: usize, got: usize) -> (e: DimError)
        ensures
            e == (DimError { kind: self, exp, got }),
    {
        DimError { kind: self, exp, got }
    }

    /// `Ok` when `exp == got`, otherwise the error of this kind.
    pub fn check(self, exp: usize, got: usize) -> (r: Result<(), DimError>)
        ensures
            exp == got ==> r == Ok::<(), DimError>(()),
            exp != got ==> r == Err::<(), DimError>(DimError { kind: self, exp, got }),
    {
        if exp == got {
            Ok(())
        } else {
            Err(self.err(exp, got))
        }
    }

    /// The lower-case name of the dimension, as messages print it.
    pub fn name(self) -> (s: &'static str)
        ensures
            self == DimErrorKind::Width ==> s@ == "width"@,
            self == DimErrorKind::Height ==> s@ == "height"@,
            self == DimErrorKind::Channel ==> s@ == "channel"@,
            self == DimErrorKind::Bytes ==> s@ == "bytes"@,
    {
        match self {
            DimErrorKind::Width => "width",
            DimErrorKind::Height => "height",
            DimErrorKind::Channel => "channel",
            DimErrorKind::Bytes => "bytes",
        }
    }
}

/// The lower-case name of a dimension.
pub open spec fn kind_name(kind: DimErrorKind) -> Seq<char> {
    match kind {
        DimErrorKind::Width => "width"@,
        DimErrorKind::Height => "height"@,
        DimErrorKind::Channel => "channel"@,
        DimErrorKind::Bytes => "bytes"@,
    }
}

/// The character of the decimal digit `d`.
pub open spec fn digit_char(d: nat) -> char {
    (48 + d) as char
}

/// `n` in decimal, most significant digit first, as `{}` prints an
/// unsigned integer.
pub open spec fn decimal(n: nat) -> Seq<char>
    decreases n,
{
    if n < 10 {
        seq![digit_char(n)]
    } else {
        decimal(n / 10).push(digit_char(n % 10))
    }
}

/// The message of a dimension error: "`kind` mismatch: `exp` != `got`".
pub open spec fn mismatch_text(kind: Seq<char>, exp: nat, got: nat) -> Seq<char> {
    kind + " mismatch: "@ + decimal(exp) + " != "@ + decimal(got)
}

/// Calls `ToString::to_string` on `n`. Claimed: the text is `n` in
/// decimal, as `Display` prints an unsigned integer.
#[verifier::external_body]
fn decimal_string(n: usize) -> (s: String)
    ensures
        s@ == decimal(n as nat),
{
    n.to_string()
}

impl DimError {
    /// The error's message, for example "width mismatch: 3 != 4".
    pub fn message(&self) -> (s: String)
        ensures
            s@ == mismatch_text(kind_name(self.kind), self.exp as nat, self.got as nat),
    {
        let mut s = String::from_str(self.kind.name());
        s.append(" mismatch: ");
        let exp = decimal_string(self.exp);
        s.append(exp.as_str());
        s.append(" != ");
        let got = decimal_string(self.got);
        s.append(got.as_str());
        assert(s@ =~= mismatch_text(kind_name(self.kind), self.exp as nat, self.got as nat));
        s
    }
}

/// What an image decoder reports about the image it holds.
#[derive(Clone, Copy, Debug, PartialEq, Eq, Structural)]
pub struct DecoderInfo {
    pub width: u32,
    pub height: u32,
    /// Number of channels of the color type.
    pub channel_count: u8,
    /// Number of bytes of one pixel of the color type.
    pub bytes_per_pixel: u8,
}

/// The first mismatch between a frame of size (`w`, `h`, `c`) and a decoder,
/// checked in the order bytes per channel, width, height, channels.
pub open spec fn decoder_mismatch(w: usize, h: usize, c: usize, dec: DecoderInfo) -> Option<DimError> {
    let per_chan = (dec.channel_count / dec.bytes_per_pixel) as usize;
    if per_chan != 1 {
        Some(DimError { kind: DimErrorKind::Bytes, exp: 1, got: per_chan })
    } else if w != dec.width as usize {
        Some(DimError { kind: DimErrorKind::Width, exp: w, got: dec.width as usize })
    } else if h != dec.height as usize {
        Some(DimError { kind: DimErrorKind::Height, exp: h, got: dec.height as usize })
    } else if c != dec.channel_count as usize {
        Some(DimError { kind: DimErrorKind::Channel, exp: c, got: dec.channel_count as usize })
    } else {
        None
    }
}

/// The bytes of pixel `i` when a buffer is cut into pixels of `chans`
/// bytes; the last one is short when the length is not a multiple.
pub open spec fn pixel_chunk(bytes: Seq<u8>, chans: int, i: int) -> Seq<u8> {
    let start = i * chans;
    let end = if (i + 1) * chans <= bytes.len() {
        (i + 1) * chans
    } else {
        bytes.len() as int
    };
    bytes.subrange(start, end)
}

/// Number of pixels a buffer of `len` bytes is cut into.
pub open spec fn num_chunks(len: int, chans: int) -> int {
    (len + chans - 1) / chans
}

/// A frame whose bytes can be read.
pub trait FrameBuffer: FrameSize {
    spec fn spec_bytes(&self) -> Seq<u8>;

    fn as_bytes(&self) -> (b: &[u8])
        ensures
            b@ == self.spec_bytes(),
    ;

    /// The bytes of pixel (`x`, `y`). Coordinates out of range are a
    /// caller's error, so both are required in range.
    fn pixel_at(&self, x: usize, y: usize) -> (p: &[u8])
        requires
            x < self.spec_width(),
            y < self.spec_height(),
            x + y * self.spec_height() <= usize::MAX,
            pixel_offset(x as int, y as int, self.spec_height() as int, self.spec_chans() as int)
                + self.spec_chans() <= self.spec_bytes().len(),
        ensures
            p@ == self.spec_bytes().subrange(
                pixel_offset(x as int, y as int, self.spec_height() as int, self.spec_chans() as int),
                pixel_offset(x as int, y as int, self.spec_height() as int, self.spec_chans() as int)
                    + self.spec_chans(),
            ),
    {
        let chans = self.chans();
        let h = self.height();
        let bytes = self.as_bytes();
        assert(bytes@.len() == bytes.len());
        proof {
            lemma_pixel_offset_fits(x as int, y as int, h as int, chans as int);
        }
        let start = (x + y * h) * chans;
        &bytes[start..start + chans]
    }

    /// The frame's pixels in order, `chans` bytes each (the last one short
    /// when the byte count is not a multiple of `chans`).
    fn pixel_iter(&self) -> (ps: Vec<&[u8]>)
        requires
            self.spec_chans() > 0,
        ensures
            ps.len() == num_chunks(self.spec_bytes().len() as int, self.spec_chans() as int),
            forall|i: int|
                0 <= i < ps.len() ==> #[trigger] ps[i]@ == pixel_chunk(
                    self.spec_bytes(),
                    self.spec_chans() as int,
                    i,
                ),
    {
        let chans = self.chans();
        let bytes = self.as_bytes();
        pixel_chunks(bytes, chans)
    }

    /// The frame's mask bytes, which no frame in this crate has.
    fn mask_bytes(&self) -> (m: Option<&[u8]>)
        ensures
            m is None,
    {
        None
    }

    /// Checks that an image with the decoder's dimensions fits `self`:
    /// one byte per channel, then width, height and channel count, in
    /// that order; the first mismatch is the error.
    fn check_decoder(&self, dec: &DecoderInfo) -> (r: Result<(), DimError>)
        requires
            dec.bytes_per_pixel > 0,
        ensures
            match decoder_mismatch(self.spec_width(), self.spec_height(), self.spec_chans(), *dec) {
                Some(e) => r == Err::<(), DimError>(e),
                None => r == Ok::<(), DimError>(()),
            },
    {
        let per_chan = (dec.channel_count / dec.bytes_per_pixel) as usize;
        DimErrorKind::Bytes.check(1, per_chan)?;
        DimErrorKind::Width.check(self.width(), dec.width as usize)?;
        DimErrorKind::Height.check(self.height(), dec.height as usize)?;
        DimErrorKind::Channel.check(self.chans(), dec.channel_count as usize)?;
        Ok(())
    }
}

/// The products in a pixel offset are no larger than the offset's inputs
/// allow, so they fit whenever the sum and the offset fit.
pub(crate) proof fn lemma_pixel_offset_fits(x: int, y: int, h: int, c: int)
    requires
        0 <= x,
        0 <= y,
        0 <= h,
        0 <= c,
        x + y * h <= usize::MAX,
        (x + y * h) * c + c <= usize::MAX,
    ensures
        0 <= y * h <= usize::MAX,
        0 <= (x + y * h) * c <= usize::MAX,
        pixel_offset(x, y, h, c) == (x + y * h) * c,
{
    vstd::arithmetic::mul::lemma_mul_nonnegative(y, h);
    vstd::arithmetic::mul::lemma_mul_nonnegative(x + y * h, c);
}

/// Cuts `bytes` into consecutive pixels of `chans` bytes.
pub fn pixel_chunks(bytes: &[u8], chans: usize) -> (ps: Vec<&[u8]>)
    requires
        chans > 0,
    ensures
        ps.len() == num_chunks(bytes@.len() as int, chans as int),
        forall|i: int| 0 <= i < ps.len() ==> #[trigger] ps[i]@ == pixel_chunk(bytes@, chans as int, i),
{
    let mut ps: Vec<&[u8]> = Vec::new();
    let mut start: usize = 0;
    let len = bytes.len();
    proof {
        lemma_num_chunks(len as int, chans as int, 0);
    }
    while start < len
        invariant
            chans > 0,
            len == bytes@.len(),
            start <= len,
            start < len ==> start == ps.len() * chans,
            forall|i: int| 0 <= i < ps.len() ==> #[trigger] ps[i]@ == pixel_chunk(bytes@, chans as int, i),
            start < len ==> ps.len() < num_chunks(len as int, chans as int),
            start >= len ==> ps.len() == num_chunks(len as int, chans as int),
        decreases len - start,
    {
        let end = if chans <= len - start {
            start + chans
        } else {
            len
        };
        let ghost i = ps.len() as int;
        ps.push(&bytes[start..end]);
        proof {
            vstd::arithmetic::mul::lemma_mul_is_distributive_add_other_way(chans as int, i, 1);
            assert(ps[i]@ == pixel_chunk(bytes@, chans as int, i));
            lemma_num_chunks(len as int, chans as int, i + 1);
        }
        start = end;
    }
    ps
}

/// Cutting a frame's bytes into pixels (as [`FrameBuffer::pixel_iter`]
/// does) loses and adds nothing: byte `k` of the frame is byte
/// `k % chans` of pixel `k / chans`, and that pixel is one of those cut.
pub proof fn lemma_pixels_cover_bytes(bytes: Seq<u8>, chans: int, k: int)
    requires
        chans > 0,
        0 <= k < bytes.len(),
    ensures
        k / chans < num_chunks(bytes.len() as int, chans),
        k % chans < pixel_chunk(bytes, chans, k / chans).len(),
        pixel_chunk(bytes, chans, k / chans)[k % chans] == bytes[k],
{
    let q = k / chans;
    let m = k % chans;
    vstd::arithmetic::div_mod::lemma_fundamental_div_mod(k, chans);
    assert(k == chans * q + m);
    assert(q * chans == chans * q) by (nonlinear_arith);
    assert(q >= 0) by (nonlinear_arith)
        requires
            k >= 0,
            chans > 0,
            q == k / chans,
    ;
    assert((q + 1) * chans == q * chans + chans) by (nonlinear_arith);
    lemma_num_chunks(bytes.len() as int, chans, q);
}

/// `k` pixels cover less than `len` bytes exactly when fewer than
/// `num_chunks(len, chans)` pixels have been cut.
proof fn lemma_num_chunks(len: int, chans: int, k: int)
    requires
        chans > 0,
        len >= 0,
        k >= 0,
    ensures
        k * chans < len <==> k < num_chunks(len, chans),
{
    vstd::arithmetic::div_mod::lemma_fundamental_div_mod(len + chans - 1, chans);
    let q = (len + chans - 1) / chans;
    let r = (len + chans - 1) % chans;
    assert(0 <= r < chans);
    assert(chans * q + r == len + chans - 1);
    assert(q * chans == chans * q) by (nonlinear_arith);
    if k * chans < len {
        if k >= q {
            assert(k * chans >= q * chans) by (nonlinear_arith)
                requires
                    k >= q,
                    chans > 0,
            ;
            assert(false);
        }
    } else {
        if k < q {
            assert((k + 1) * chans <= q * chans) by (nonlinear_arith)
                requires
                    k + 1 <= q,
                    chans > 0,
            ;
            assert((k + 1) * chans == k * chans + chans) by (nonlinear_arith);
            assert(false);
        }
    }
}


/// A frame whose bytes can be written.
pub trait FrameBufferMut: FrameBuffer {
    /// The frame's bytes, for writing; what is written through the returned
    /// slice is what the frame holds afterwards.
    fn as_bytes_mut(&mut self) -> (b: &mut [u8])
        ensures
            b@ == old(self).spec_bytes(),
            final(self).spec_bytes() == final(b)@,
            final(self).spec_width() == old(self).spec_width(),
            final(self).spec_height() == old(self).spec_height(),
            final(self).spec_chans() == old(self).spec_chans(),
    ;
}

/// Something that can lend a frame buffer of its current contents.
pub trait ToFrameBuffer<'a> {
    type Output: FrameBuffer + 'a;

    fn to_frame_buf(&'a self) -> Self::Output;
}

/// Something that can lend a frame buffer of its current contents once
/// an asynchronous wait (such as taking a lock) is over.
pub trait ToFrameBufferAsync<'a> {
    type Output: FrameBuffer + 'a;

    /// The wait that ends with the frame buffer.
    type Wait: std::future::Future<Output = Self::Output>;

    fn to_frame_async(&'a self) -> Self::Wait;
}

/// `len` zero bytes.
pub open spec fn zeros(len: int) -> Seq<u8> {
    Seq::new(len as nat, |i: int| 0u8)
}

/// Allocates `len` zero bytes.
fn zeroed_bytes(len: usize) -> (v: Vec<u8>)
    ensures
        v@ == zeros(len as int),
{
    let v = vec![0u8; len];
    assert(v@ =~= zeros(len as int));
    v
}

/// A frame buffer whose size is chosen at run time.
#[derive(Clone, Debug)]
pub struct SizedFrameBuffer {
    pub width: usize,
    pub height: usize,
    pub chans: usize,
    pub data: Vec<u8>,
}

impl SizedFrameBuffer {
    /// A zeroed frame of the given size.
    pub fn new(width: usize, height: usize, chans: usize) -> (f: Self)
        requires
            frame_len_fits(width as int, height as int, chans as int),
        ensures
            f.width == width,
            f.height == height,
            f.chans == chans,
            f.data@ == zeros(frame_len(width as int, height as int, chans as int)),
    {
        Self { width, height, chans, data: zeroed_bytes(width * height * chans) }
    }

    /// Takes the frame's bytes out, leaving a zeroed frame of the same size.
    pub fn take_vec(&mut self) -> (v: Vec<u8>)
        requires
            frame_len_fits(old(self).width as int, old(self).height as int, old(self).chans as int),
        ensures
            v@ == old(self).data@,
            final(self).width == old(self).width,
            final(self).height == old(self).height,
            final(self).chans == old(self).chans,
            final(self).data@ == zeros(
                frame_len(old(self).width as int, old(self).height as int, old(self).chans as int),
            ),
    {
        let mut taken = zeroed_bytes(self.width * self.height * self.chans);
        std::mem::swap(&mut self.data, &mut taken);
        taken
    }
}

impl Default for SizedFrameBuffer {
    fn default() -> (f: Self)
        ensures
            f.width == 0 && f.height == 0 && f.chans == 0 && f.data@ == Seq::<u8>::empty(),
    {
        Self { width: 0, height: 0, chans: 0, data: Vec::new() }
    }
}

impl FrameSize for SizedFrameBuffer {
    open spec fn spec_width(&self) -> usize {
        self.width
    }

    open spec fn spec_height(&self) -> usize {
        self.height
    }

    open spec fn spec_chans(&self) -> usize {
        self.chans
    }

    fn width(&self) -> (w: usize) {
        self.width
    }

    fn height(&self) -> (h: usize) {
        self.height
    }

    fn chans(&self) -> (c: usize) {
        self.chans
    }
}

impl FrameBuffer for SizedFrameBuffer {
    open spec fn spec_bytes(&self) -> Seq<u8> {
        self.data@
    }

    fn as_bytes(&self) -> (b: &[u8]) {
        self.data.as_slice()
    }
}

impl FrameBufferMut for SizedFrameBuffer {
    fn as_bytes_mut(&mut self) -> (b: &mut [u8]) {
        self.data.as_mut_slice()
    }
}

/// A frame buffer whose size is part of its type: `W` x `H` pixels of `C`
/// bytes each.
#[derive(Clone, Debug, PartialEq, Eq)]
pub struct StaticFrameBuffer<const W: usize, const H: usize, const C: usize> {
    data: Vec<u8>,
}

impl<const W: usize, const H: usize, const C: usize> Default for StaticFrameBuffer<W, H, C> {
    /// A zeroed frame. (A `W` x `H` x `C` frame whose byte count does not
    /// fit in `usize` cannot exist as an array, so that case never arises
    /// for a frame that is used.)
    fn default() -> (f: Self)
        ensures
            frame_len_fits(W as int, H as int, C as int) ==> f.spec_bytes() == zeros(
                frame_len(W as int, H as int, C as int),
            ),
    {
        let len = match W.checked_mul(H) {
            Some(wh) => match wh.checked_mul(C) {
                Some(n) => n,
                None => 0,
            },
            None => 0,
        };
        Self { data: zeroed_bytes(len) }
    }
}

impl<const W: usize, const H: usize, const C: usize> StaticFrameBuffer<W, H, C> {
    /// The frame's bytes, row after row.
    pub closed spec fn bytes(&self) -> Seq<u8> {
        self.data@
    }
}

impl<const W: usize, const H: usize, const C: usize> FrameSize for StaticFrameBuffer<W, H, C> {
    open spec fn spec_width(&self) -> usize {
        W
    }

    open spec fn spec_height(&self) -> usize {
        H
    }

    open spec fn spec_chans(&self) -> usize {
        C
    }

    fn width(&self) -> (w: usize) {
        W
    }

    fn height(&self) -> (h: usize) {
        H
    }

    fn chans(&self) -> (c: usize) {
        C
    }
}

impl<const W: usize, const H: usize, const C: usize> FrameBuffer for StaticFrameBuffer<W, H, C> {
    open spec fn spec_bytes(&self) -> Seq<u8> {
        self.bytes()
    }

    fn as_bytes(&self) -> (b: &[u8]) {
        self.data.as_slice()
    }
}

impl<const W: usize, const H: usize, const C: usize> FrameBufferMut for StaticFrameBuffer<W, H, C> {
    fn as_bytes_mut(&mut self) -> (b: &mut [u8]) {
        self.data.as_mut_slice()
    }
}

/// A borrowed view of a frame's bytes with its size.
pub struct FrameBufferView<'a> {
    data: &'a [u8],
    width: usize,
    height: usize,
    chans: usize,
}

impl<'a> FrameBufferView<'a> {
    /// A view of `data` as a frame of size `size` = (width, height, chans).
    /// The view's (width, height, chans).
    pub closed spec fn size(&self) -> (usize, usize, usize) {
        (self.width, self.height, self.chans)
    }

    /// The viewed bytes.
    pub closed spec fn bytes(&self) -> Seq<u8> {
        self.data@
    }

    /// A view of `data` as a frame of size `size` = (width, height, chans).
    pub fn new(size: (usize, usize, usize), data: &'a [u8]) -> (v: Self)
        ensures
            v.size() == size,
            v.bytes() == data@,
    {
        Self { data, width: size.0, height: size.1, chans: size.2 }
    }
}

impl<'a> FrameSize for FrameBufferView<'a> {
    open spec fn spec_width(&self) -> usize {
        self.size().0
    }

    open spec fn spec_height(&self) -> usize {
        self.size().1
    }

    open spec fn spec_chans(&self) -> usize {
        self.size().2
    }

    fn width(&self) -> (w: usize) {
        self.width
    }

    fn height(&self) -> (h: usize) {
        self.height
    }

    fn chans(&self) -> (c: usize) {
        self.chans
    }
}

impl<'a> FrameBuffer for FrameBufferView<'a> {
    open spec fn spec_bytes(&self) -> Seq<u8> {
        self.bytes()
    }

    fn as_bytes(&self) -> (b: &[u8]) {
        self.data
    }
}

/// An image (whose pixels have at least one byte, as every decoder
/// reports) passes the check against a frame exactly when it matches the
/// frame: same width, height and channel count, with one byte per channel;
/// and a reported mismatch is a real one, its expected and found values
/// differing.
pub proof fn lemma_decoder_check_is_exact(w: usize, h: usize, c: usize, dec: DecoderInfo)
    requires
        dec.bytes_per_pixel > 0,
    ensures
        decoder_mismatch(w, h, c, dec) is None <==> (w == dec.width && h == dec.height && c
            == dec.channel_count && dec.channel_count / dec.bytes_per_pixel == 1),
        decoder_mismatch(w, h, c, dec) matches Some(e) ==> e.exp != e.got,
{
}

} // verus!
