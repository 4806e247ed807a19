# rl_matting

Core of an image subject-extraction tool that combines a reinforcement-learning
localisation agent, a salient-object segmentation model and a classical image
pipeline. The library is written in Verus: each public function carries a
contract, and the properties that span functions are stated as proof
functions.

## Layout

- `src/geometry.rs` – bounding boxes and the seven agent actions; crop and
  patch rectangles.
- `src/policy.rs` – the action chosen at each step (model proposal guarded
  against early triggers, or the scripted fallback) and the episode state.
- `src/pipeline.rs` – which processing path a request takes and the stage
  records reported to the interface.
- `src/classical.rs` – morphology, adaptive-threshold merging, connected
  components and foreground selection, edge trimming (image operators from
  `imageproc` behind trusted wrappers).
- `src/background.rs` – background colour as the median of a border band.
- `src/compose.rs` – decoding image files, cropping, the cut-out image and its
  refinement by a segmentation mask, encoded as base64 PNG (`image` behind
  trusted wrappers).
- `src/encoding.rs` – base64 (`base64` behind trusted wrappers), media types
  and data URLs.
- `src/models.rs` – the segmentation model catalogue, model directory choice
  and model input/output shapes.
- `src/training_log.rs` – the summary of a training log, read byte by byte.
- `src/text.rs` – string comparison and decimal rendering.
- `tests/` – tests on concrete values.
- `app/` – the desktop shell: Tauri commands, the agent's event loop, ONNX
  Runtime sessions, file I/O and the floating-point scoring stages.
