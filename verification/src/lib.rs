//! An x86-64 long-mode machine: the integer, vector and x87 instruction set, four-level paging with
//! its caches, the legacy and local interrupt controllers, timers and serial console, booting of a
//! Linux image, and snapshots whose pages are known by the digest of their bytes.
//!
//! Each executable function equals a function on the mathematical state of the machine,
//! [`cpu::CpuState`]. What the core cannot do by itself it asks of its host: floating-point
//! arithmetic ([`decode::FpAsk`]), device models ([`virtio::MmioWrite`]), and compiled code
//! ([`run::Event`]). The modules whose names end in `laws` relate these functions to one another.
pub mod bits;
pub mod flags;
pub mod snap;
pub mod pic;
pub mod pit;
pub mod lapic;
pub mod uart;
pub mod msr;
pub mod virtio;
pub mod sys;
pub mod profile;
pub mod cpu;
pub mod mmu;
pub mod operand;
pub mod arith;
pub mod interrupt;
pub mod decode;
pub mod int_ops;
pub mod group_ops;
pub mod string_ops;
pub mod system_ops;
pub mod simd;
pub mod sse_ops;
pub mod fpu_ops;
pub mod step;
pub mod digest;
pub mod jit;
pub mod run;
pub mod snapshot;
pub mod kappa;
pub mod resume;
pub mod fetch;
pub mod kappa_laws;
pub mod boot;
pub mod machine;
pub mod memory_laws;
pub mod area_laws;
pub mod string_laws;
pub mod control_laws;
pub mod interrupt_laws;
pub mod time_laws;
pub mod boot_laws;
pub mod jit_laws;
pub mod save_laws;
pub mod profile_laws;
pub mod frame_laws;
pub mod run_laws;
pub mod walk_laws;
pub mod repeat_laws;
pub mod bit_facts;
pub mod word_laws;
pub mod translation_laws;
pub mod gate_laws;
pub mod startup_laws;
pub mod operand_laws;
pub mod arithmetic_laws;
pub mod product_laws;
pub mod shift_laws;
pub mod move_laws;
pub mod system_laws;
pub mod device_laws;
pub mod vector_laws;
pub mod lane_laws;
