//! Camera loader settings and the decisions the loaders make before they
//! start: which adapter, which frame size, how long a frame lasts.
use vstd::prelude::*;

verus! {

/// Why a loader could not be set up or stopped answering.
#[derive(Clone, Debug, PartialEq, Eq)]
pub enum Error {
    /// The loader no longer accepts or returns buffers.
    BufferLost,
    /// The pattern's width is not a multiple of its grid size.
    InvalidGridSize { grid_size: u32, width: u32, height: u32 },
    /// The camera offers no frame size of the requested resolution.
    NoFrameSize { index: usize, resolution: [u32; 2] },
    /// The camera's frames come in a format no decoder here reads.
    UnknownFrameFormat { index: usize, fourcc: [u8; 4] },
    /// A decoded frame does not have the size of the buffer it goes into.
    BadDecodedSize { expected: usize, got: usize },
    /// A control named in the settings is not among the camera's controls.
    UnknownControl { index: usize, name: String },
}

/// Settings of a v4l camera: its device index and control values by name.
#[derive(Clone, Debug)]
pub struct V4lConfig {
    pub index: usize,
    pub controls: Vec<(String, i64)>,
}

/// Settings of a libargus camera: device index and sensor mode index.
#[derive(Clone, Copy, Debug, PartialEq, Eq, Structural)]
pub struct ArgusConfig {
    pub index: usize,
    pub mode: usize,
}

/// The kind of loader and its own settings.
#[derive(Clone, Debug)]
pub enum Mode {
    /// A chessboard of `color`; cells of `grid_size` pixels (16 when
    /// unset).
    Pattern { color: [u8; 3], grid_size: Option<u32> },
    /// A v4l camera.
    V4L(V4lConfig),
    /// A libargus camera.
    Argus(ArgusConfig),
    /// A still image read from a path.
    Image(String),
}

/// Settings shared by all loaders.
#[derive(Clone, Debug)]
pub struct Config {
    pub mode: Mode,
    /// The output resolution \[width, height\].
    pub resolution: [u32; 2],
    /// Frames per second, used by a few adapters.
    pub frame_rate: Option<u32>,
}

/// Grid size of a pattern loader whose settings give none.
pub const DEFAULT_GRID_SIZE: u32 = 16u32;

/// Frames per second of a libargus camera whose settings give none.
pub const DEFAULT_FRAME_RATE: u32 = 30u32;

/// The grid size a pattern loader uses.
pub fn pattern_grid_size(grid_size: Option<u32>) -> (g: u32)
    ensures
        g == match grid_size {
            Some(v) => v,
            None => DEFAULT_GRID_SIZE,
        },
{
    match grid_size {
        Some(v) => v,
        None => DEFAULT_GRID_SIZE,
    }
}

/// Nanoseconds per frame at the configured frame rate (30 when unset),
/// rounded down. A rate of zero would divide by zero, so it is excluded.
pub fn frame_duration_ns(frame_rate: Option<u32>) -> (d: u64)
    requires
        frame_rate != Some(0u32),
    ensures
        d == 1_000_000_000u64 / (match frame_rate {
            Some(v) => v,
            None => DEFAULT_FRAME_RATE,
        } as u64),
{
    let fps = match frame_rate {
        Some(v) => v,
        None => DEFAULT_FRAME_RATE,
    } as u64;
    1_000_000_000u64 / fps
}

/// One frame size a v4l camera offers: width, height and pixel format.
#[derive(Clone, Copy, Debug, PartialEq, Eq)]
pub struct FrameSizeEntry {
    pub width: u32,
    pub height: u32,
    pub fourcc: [u8; 4],
}

/// The first offered frame size whose width and height are the requested
/// resolution, or [`Error::NoFrameSize`] when none is.
pub fn select_frame_size(index: usize, sizes: &[FrameSizeEntry], resolution: [u32; 2]) -> (r: Result<
    FrameSizeEntry,
    Error,
>)
    ensures
        match r {
            Ok(e) => exists|i: int|
                0 <= i < sizes@.len() && sizes@[i] == e && e.width == resolution[0] && e.height
                    == resolution[1] && forall|j: int|
                    0 <= j < i ==> !(#[trigger] sizes@[j].width == resolution[0] && sizes@[j].height
                        == resolution[1]),
            Err(e) => e == Error::NoFrameSize { index, resolution } && forall|j: int|
                0 <= j < sizes@.len() ==> !(#[trigger] sizes@[j].width == resolution[0]
                    && sizes@[j].height == resolution[1]),
        },
{
    let mut i: usize = 0;
    while i < sizes.len()
        invariant
            i <= sizes@.len(),
            forall|j: int|
                0 <= j < i ==> !(#[trigger] sizes@[j].width == resolution[0] && sizes@[j].height
                    == resolution[1]),
        decreases sizes@.len() - i,
    {
        let e = sizes[i];
        if e.width == resolution[0] && e.height == resolution[1] {
            return Ok(e);
        }
        i = i + 1;
    }
    Err(Error::NoFrameSize { index, resolution })
}

/// Whether `fourcc` is the four-character code of motion-JPEG frames,
/// "MJPG".
pub open spec fn is_mjpg(fourcc: [u8; 4]) -> bool {
    fourcc[0] == 0x4d && fourcc[1] == 0x4a && fourcc[2] == 0x50 && fourcc[3] == 0x47
}

/// Accepts a v4l camera's pixel format only when it is motion-JPEG.
pub fn check_frame_format(index: usize, fourcc: [u8; 4]) -> (r: Result<(), Error>)
    ensures
        is_mjpg(fourcc) ==> r == Ok::<(), Error>(()),
        !is_mjpg(fourcc) ==> r == Err::<(), Error>(Error::UnknownFrameFormat { index, fourcc }),
{
    if fourcc[0] == 0x4d && fourcc[1] == 0x4a && fourcc[2] == 0x50 && fourcc[3] == 0x47 {
        Ok(())
    } else {
        Err(Error::UnknownFrameFormat { index, fourcc })
    }
}

/// Accepts a decoded frame only when it fills the destination exactly.
pub fn check_decoded_size(dest_len: usize, decoded_len: usize) -> (r: Result<(), Error>)
    ensures
        dest_len == decoded_len ==> r == Ok::<(), Error>(()),
        dest_len != decoded_len ==> r == Err::<(), Error>(
            Error::BadDecodedSize { expected: decoded_len, got: dest_len },
        ),
{
    if dest_len != decoded_len {
        Err(Error::BadDecodedSize { expected: decoded_len, got: dest_len })
    } else {
        Ok(())
    }
}

/// Something that owns a writable byte buffer and can lend it out.
pub trait OwnedWriteBuffer {
    /// The bytes of the buffer.
    spec fn spec_owned_bytes(&self) -> Seq<u8>;

    /// A view of the buffer's bytes; what is written through it is what
    /// the buffer holds afterwards.
    fn owned_to_view(&mut self) -> (v: &mut [u8])
        ensures
            v@ == old(self).spec_owned_bytes(),
            final(self).spec_owned_bytes() == final(v)@,
    ;
}

impl OwnedWriteBuffer for Vec<u8> {
    open spec fn spec_owned_bytes(&self) -> Seq<u8> {
        self@
    }

    fn owned_to_view(&mut self) -> (v: &mut [u8]) {
        self.as_mut_slice()
    }
}

/// Something that owns what a loader writes into and can lend it out.
pub trait OwnedWritable {
    /// What is lent.
    type Inner<'a> where Self: 'a;

    /// Lends the inner item, when there is one.
    fn owned_to_inner(&mut self) -> Option<Self::Inner<'_>>;
}

impl<B: OwnedWriteBuffer + 'static> OwnedWritable for B {
    type Inner<'a> = &'a mut [u8];

    fn owned_to_inner(&mut self) -> (r: Option<&mut [u8]>)
        ensures
            r matches Some(v) && v@ == old(self).spec_owned_bytes(),
    {
        Some(self.owned_to_view())
    }
}

/// A control of a v4l camera to set: the camera's id for it and the value.
#[derive(Clone, Copy, Debug, PartialEq, Eq, Structural)]
pub struct ControlSetting {
    pub id: u32,
    pub value: i64,
}

/// Entry `j` of the camera's controls is the last one named `name`, so
/// it is the one a lookup by name finds.
pub open spec fn is_last_named(known: Seq<(String, u32)>, name: Seq<char>, j: int) -> bool {
    &&& 0 <= j < known.len()
    &&& known[j].0@ == name
    &&& forall|k: int| j < k < known.len() ==> (#[trigger] known[k]).0@ != name
}

/// Whether the camera has a control named `name`.
pub open spec fn has_control(known: Seq<(String, u32)>, name: Seq<char>) -> bool {
    exists|j: int| 0 <= j < known.len() && (#[trigger] known[j]).0@ == name
}

/// The id of the last of the camera's controls named `name`, if any.
fn find_control(known: &[(String, u32)], name: &String) -> (r: Option<u32>)
    ensures
        match r {
            Some(id) => exists|j: int| #[trigger] is_last_named(known@, name@, j) && known@[j].1 == id,
            None => !has_control(known@, name@),
        },
{
    let mut i: usize = known.len();
    while i > 0
        invariant
            i <= known@.len(),
            forall|k: int| i <= k < known@.len() ==> (#[trigger] known@[k]).0@ != name@,
        decreases i,
    {
        i = i - 1;
        if known[i].0 == *name {
            assert(is_last_named(known@, name@, i as int));
            return Some(known[i].1);
        }
    }
    None
}

/// The settings for the requested `controls`, in their order, each with
/// the id of the last of the camera's controls of that name; refused with
/// [`Error::UnknownControl`] naming the first control the camera does not
/// have.
pub fn resolve_controls(index: usize, controls: &[(String, i64)], known: &[(String, u32)]) -> (r: Result<
    Vec<ControlSetting>,
    Error,
>)
    ensures
        match r {
            Ok(v) => v@.len() == controls@.len() && forall|i: int|
                0 <= i < controls@.len() ==> (#[trigger] v@[i]).value == controls@[i].1 && exists|
                    j: int,
                | is_last_named(known@, controls@[i].0@, j) && known@[j].1 == v@[i].id,
            Err(e) => exists|i: int|
                0 <= i < controls@.len() && e == (Error::UnknownControl {
                    index,
                    name: controls@[i].0,
                }) && !has_control(known@, (#[trigger] controls@[i]).0@) && forall|k: int|
                    0 <= k < i ==> has_control(known@, (#[trigger] controls@[k]).0@),
        },
{
    let mut out: Vec<ControlSetting> = Vec::new();
    let mut i: usize = 0;
    while i < controls.len()
        invariant
            i <= controls@.len(),
            out@.len() == i,
            forall|k: int|
                0 <= k < i ==> (#[trigger] out@[k]).value == controls@[k].1 && exists|j: int|
                    is_last_named(known@, controls@[k].0@, j) && known@[j].1 == out@[k].id,
            forall|k: int| 0 <= k < i ==> has_control(known@, (#[trigger] controls@[k]).0@),
        decreases controls@.len() - i,
    {
        match find_control(known, &controls[i].0) {
            Some(id) => {
                out.push(ControlSetting { id, value: controls[i].1 });
            },
            None => {
                return Err(Error::UnknownControl { index, name: controls[i].0.clone() });
            },
        }
        i = i + 1;
    }
    Ok(out)
}

/// The only frame format accepted is motion-JPEG: the four bytes "MJPG",
/// and no other.
pub proof fn lemma_only_mjpg_accepted(fourcc: [u8; 4])
    ensures
        is_mjpg(fourcc) <==> fourcc@ == seq![0x4du8, 0x4au8, 0x50u8, 0x47u8],
{
    if is_mjpg(fourcc) {
        assert(fourcc@ =~= seq![0x4du8, 0x4au8, 0x50u8, 0x47u8]);
    }
    if fourcc@ == seq![0x4du8, 0x4au8, 0x50u8, 0x47u8] {
        assert(fourcc@[0] == 0x4d && fourcc@[1] == 0x4a && fourcc@[2] == 0x50 && fourcc@[3] == 0x47);
    }
}

} // verus!
