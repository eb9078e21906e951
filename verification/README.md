# binbased_tracing

Dynamic function tracing for Go programs on Linux/aarch64: the tracer stops the
program with ptrace, maps a trampoline next to each traced function entry and
`ret`, patches the code to branch there, and reads the events the trampolines
append to a shared ring buffer.

The library in `src/` holds the logic, verified with Verus:

- `instruction`: AArch64 encodings, the trampoline blob and the patching of its
  placeholders, branch strategies and epilogues, with proofs that the patch
  reaches the trampoline, the epilogue returns after it, and the trampoline
  stores its event in the ring-buffer slot the reader takes it from before it
  publishes the new count.
- `instrument`: planning trampoline regions, the system calls made in the
  tracee, and the instrumentation as a state machine driven by the tracer.
- `ptrace`: the tracee's typestates, `waitpid` handling, and instruction writes
  word by word, with the proof that writing back what was saved restores
  memory.
- `maps`, `elf`, `symbol_analyzer`, `dwarf`: reading `/proc/<pid>/maps`, symbol
  tables, `ret` instructions, and the Go runtime's structure offsets from the
  image's DWARF units, walked entry by entry through gimli.
- `event`, `event_buffer`, `trace_collector`: the event format, the ring
  buffer's slots, and matching entries with returns.
- `config`, `pipe`, `monitor`, `text`, `error`: configuration entries, pipe
  paths, exit detection, string helpers and error types.

`app/` is the command-line program around it: process setup, ptrace and
memory-mapping system calls, threads, and reading files.
