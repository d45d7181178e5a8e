# holospaces

A verified x86-64 machine: it boots an uncompressed 64-bit Linux kernel in long mode, runs it one
instruction at a time, and freezes the whole machine into snapshots that are known by content.

* `src/` is the library. Every executable function is proved equal to a function on the mathematical
  state of the machine; memory safety, absence of overflow and termination of each step come with it.
* `app/` is the host around the library: floating-point arithmetic, device models, the engine for
  compiled code, and the stores that snapshots live in.
* `tests/` runs instructions, programs, snapshots and the trust protocol on concrete values.

The layers of `src/`, from the bottom:

| Modules | Contents |
|---|---|
| `bits`, `flags`, `snap` | widths and words, the flags, the bytes of snapshots |
| `pic`, `pit`, `lapic`, `uart`, `msr`, `virtio`, `sys` | the platform: interrupts, time, console, device windows |
| `profile`, `cpu`, `mmu`, `operand` | counters, the machine, translation and memory, operands |
| `arith`, `interrupt`, `decode` | shifts and products, delivery through the descriptor table, prefixes |
| `int_ops`, `group_ops`, `string_ops`, `system_ops` | the integer instructions |
| `simd`, `sse_ops`, `fpu_ops` | the vector and x87 instructions |
| `step`, `jit`, `run` | one instruction, compiled code and its trust, the run loop |
| `digest`, `snapshot`, `kappa`, `resume`, `fetch` | snapshots, flat and by content, and their pages over a transport |
| `boot`, `machine` | booting, and the machine from outside |
| `*_laws` | what relates these functions |

Two items are trusted: `digest::blake3_hash`, which calls the `blake3` crate, and the name
`digest::blake3_digest` for the bytes that the call gives, a function of its input alone.
