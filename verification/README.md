# trainbot

A detector for passing trains: it watches a crop of a camera picture,
follows the motion between frames, stitches the frames of a passing train
into one panorama, and keeps the picture, an animation and a video of it.

The library in `src/` is verified with Verus. It holds the data and the
decisions of the detector:

- `fourcc`, `convert`, `raster`: pixel formats, YCbCr to RGBA conversion and
  the RGBA image type;
- `jpeg_scan`, `multipart`, `served`, `http`: framing JPEG images in a byte
  stream, the MJPEG-over-HTTP protocol (what the helper serves and what the
  reader understands), and the helper's request routing;
- `stats`, `motion`, `sequence`, `stitch`, `gif`, `mkv`: the integer kernels
  of brightness and patch similarity, the motion search window, the recorded
  sequence, stitching the panorama, the animation palette and the Matroska
  pieces of the video stream;
- `ts`, `queries`, `datastore`, `imageio`, `text`: timestamps and file names,
  the data directory and picture formats;
- `stitcher`: what the automatic stitcher does with each frame (skip,
  record, start a sequence, stitch and start over), from the measurements
  taken of it;
- `config`, `detect`, `picam`, `probe`, `sources`: settings and the decisions
  of the commands and frame sources.

`app/` is the program around it: command-line parsing, logging and metrics,
the frame sources (ffmpeg, HTTP, cameras), the floating-point measurements
and motion fit, and the database. `tests/` exercises the library.
