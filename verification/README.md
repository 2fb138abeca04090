# rust_kernel_game_engine_kit

The verified core of a microkernel-style game-engine foundation, written in
Verus. Verus proves every function under `src/` against its
`requires`/`ensures` contract. The portable clock's readings depend on when
they are taken, so its constructor and `now_ns` promise nothing. The few
calls into std that vstd does not specify sit behind small trusted wrappers
whose doc comments say what they assume.

## Layout

- `src/platform/` — backend-independent platform policy: CPU lists and NUMA
  lookup, monotonic clock arithmetic, thread-pool admission, Vulkan device,
  queue-family and memory-type selection, swapchain and present
  configuration, io_uring ring layout and read bookkeeping, IOCP and Win32
  argument checks, and the decoding of X11 and Win32 window messages.
- `src/subsystems/` — the engine subsystems: renderer lifecycle state
  machines, render-world extraction, the CPU manifest and GPU frame
  encoding; deterministic input, window, audio, physics and scripting; the
  retained UI tree, command queue, focus routing, resources, glyph atlas,
  paint batching, the upload stream's byte layout and dirty upload ranges.
- `src/permutation.rs` — facts about rearranging sequences that the sorting
  loops rely on.
- `tests/` — executable tests of the library.
- `app/` — ordinary Rust around the library: system calls, files, threads,
  and everything in the UI and renderer that computes with floating point
  (styles, layout, hit testing, painting, transforms).
