# beholder_core

A process and GPU-memory monitor whose core is verified with Verus.

- `src/` is the verified library: the sample model (`model`), the
  downsampling ring buffers with their window and point cap (`buffer`),
  target bookkeeping and PID-reuse detection (`targets`), the `/proc` text
  parsers (`procfs`), process matching (`matching`), per-process GPU memory
  lookup (`gpu`), sampling rounds (`sampling`), exports (`export`), the tool
  protocol's names, codes and argument rules (`tools`), the headless server
  state (`server`) and the dashboard state machine (`dashboard`). `laws` and
  `laws_more` hold the properties that span several functions.
- `app/` is the program around it: command line, `/proc` and sysinfo reads,
  NVML, the JSON-RPC loop on stdio, the sampling thread and the egui window.
  It hands the library plain values and performs the effects the library
  asks for.
- `tests/` runs the library on concrete values.
