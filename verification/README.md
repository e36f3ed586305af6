# stitch

The integer core of a multi-camera stitching system, written in Verus: every
function of the library states what it does in `requires`/`ensures`, and all
but a few small wrappers are proved against it. Those wrappers
(`#[verifier::external_body]`) each make one call into `std`, `image` or
`zerocopy`; their contracts are trusted, and their doc comments say what
they claim. The library targets Unix.

- `src/frame.rs`: frame buffers (sized, static, borrowed views), their sizes,
  pixel addressing and cutting into pixels, and checking a decoded image's
  dimensions against a frame.
- `src/pixel.rs`: checked pixel lookup, copying a pixel into a wider format,
  writing single pixels.
- `src/camera.rs`: still-image cameras: resolving their paths, decoding an
  image into a frame or into a frame of its own size, and the still-image
  loader (through the `image` crate).
- `src/loader.rs`: camera loader settings and the choices made before a loader
  starts (grid size, frame duration, v4l frame size, format and controls), and
  the buffers loaders write into.
- `src/pattern.rs`: the test-pattern loader's chessboard, with the proof
  that every row of the frame is a chessboard with black "off" cells.
- `src/grad.rs`: Sobel gradients and the strongest gradient of each 4x4 block.
- `src/proj.rs`: projection settings and writing the chosen source pixels into
  the output frame.
- `src/render.rs`: layout of the gpu renderer's inputs: frame ranges, mask
  words, upload offsets, mesh indices and depth lookups.

`app/` is the command line program around the library: configuration files,
image I/O, loader tasks and the floating-point parts (optics, edge lines,
blurring). `tests/` runs the library on concrete values.
