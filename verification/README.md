# prysm

Edge-colour extraction for ambient lighting, verified with Verus.

A capture device delivers raw frames (YUYV, RGB24, BGR24 or MJPEG). The
library decodes only the pixels it needs, detects black bands (letterbox and
pillarbox) from brightness projections, skips frames whose content did not
change, and averages the colours of regions along the four edges.

Layout:

- `src/capture`: frames, pixel formats, device buffer layout, YUYV to RGB
  conversion (single pixels verified; whole frames through the `yuv` crate).
- `src/common`: colours with saturating arithmetic, sample density, edges.
- `src/processor`: frames with viewports, pixel readers, region averaging,
  order statistics, and the pipeline nodes (pixel decoder, band detector,
  change detector, edge geometry).
- `src/render`: the colour spectra handed to renderers.
- `app/`: the program around the library: V4L2 capture, the egui preview
  window, stream plumbing, and the linear-light colour math, which works on
  floating point.
- `tests/`: scenario tests run against the compiled library.
