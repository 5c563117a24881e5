# Brush tools

The verified core of four tools around Gaussian splats, written in Rust and
proved with Verus.

- `src/anim`: keyframe animations. The timeline is a closed loop of keyframes;
  `config.rs` finds the segment and the place in it for every frame, `panel.rs`
  is the panel that edits and plays an animation, `export.rs` the popup that
  exports it, `video.rs` what the video encoder is given. `laws.rs` holds what
  is true of every animation.
- `src/depth`: depth maps from TIFF files and from raw files with a confidence
  map, and bilinear resizing. `directory.rs` decides which TIFF files the decoder
  can be given.
- `src/dino`: feature extraction. Image selection and sizes, bicubic resampling,
  the layout of the vision transformer and its checkpoint, the principal basis
  of the features, and the `.npy` format.
- `src/cli`: the command line. Arguments, rendering jobs, and what is shown of a
  running process.
- `src/bits.rs`, `names.rs`, `sort.rs`, `text.rs`: floating-point numbers by
  their bit patterns, file names, stable sorting, and text.

The library does no rounding arithmetic. Where a computation is in floating
point, the caller hands in the operations, and the contracts say which values
they are applied to and in which order.

Outside crates are called from the library in four places, each with a stated
contract: `tiff` (`src/depth/load.rs`), `rand` (`src/dino/pca.rs`), `humantime`
(`src/cli/ui.rs`), and the standard library's UTF-8 check
(`src/depth/paths.rs`).

`app` is the program around the library: the feature extractor itself, and the
parts that touch files, devices, the screen and other processes.
