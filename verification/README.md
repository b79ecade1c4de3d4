# warpview

The logic of a small image viewer, verified with Verus.

- `src/natural.rs`: natural ordering of file names (digit runs by value, letters
  without regard to ASCII case), with its laws: reflexive, antisymmetric,
  transitive, case-blind.
- `src/dirscan.rs`: which files are images, file names, the sorted listing of a
  directory and stepping through it with wrap-around.
- `src/decode.rs` and `src/imaging.rs`: choosing a decoder, turning decoded
  frames into displayable ones (delays clamped, at least one frame), EXIF
  orientation, packing HEIF rows; `imaging.rs` holds the calls into the `image`
  and `kamadak-exif` crates.
- `src/viewer.rs`: the viewer's state machine: navigation, the decoded-image
  cache and its eviction, background prefetching, animation frames, the title.
- `src/config.rs`: the remembered window size and window placement.
- `app/`: the program around the library: the window and event loop (winit),
  GPU rendering (wgpu), reading files and directories, the config file, HEIF
  decoding (libheif).
