//! Laws of the devices as programs see them through ports, and of prefixes and indirect control.
use vstd::prelude::*;
#[allow(unused_imports)]
use crate::bit_facts::lemma_short_words;
#[allow(unused_imports)]
use crate::bits::{lemma_mask, mask_of, modulus};
#[allow(unused_imports)]
use crate::cpu::{runnable, CpuState};
#[allow(unused_imports)]
use crate::decode::{operand_size, prefix_seen, Prefix, RepKind};
#[allow(unused_imports)]
use crate::flags::{with_bit, ZF};
#[allow(unused_imports)]
use crate::group_ops::exchange_pair;
#[allow(unused_imports)]
use crate::int_ops::do_group5;
#[allow(unused_imports)]
use crate::memory_laws::{law_load_keeps, law_store_keeps};
#[allow(unused_imports)]
use crate::mmu::{mem_read, mem_write};
#[allow(unused_imports)]
use crate::operand::{decode_rm, load_operand, stack_pop, stack_push, with_rip, Rm};
#[allow(unused_imports)]
use crate::operand_laws::{bit_at, lemma_bits_of, lemma_decoded};
#[allow(unused_imports)]
use crate::pic::pic_raise;
#[allow(unused_imports)]
use crate::pit::{ch2_tick, pit_status, Pit};
#[allow(unused_imports)]
use crate::step::{executed, map_c_d, map_e_f};
#[allow(unused_imports)]
use crate::sys::{sys_count, sys_port_in, sys_port_out, sys_step, SysState};
#[allow(unused_imports)]
use crate::uart::dlab;

verus! {

// ----- the serial port -----

/// A byte written to the data port goes to the console, after those written before; looped back, it is
/// received instead, after those received before.
pub proof fn law_console_output(s: SysState, v: u8)
    requires
        !dlab(s.uart),
    ensures
        ({
            let t = sys_port_out(s, 0x3f8, v);
            let looped = s.uart.mcr & 0x10 != 0;
            &&& !looped ==> t.uart.output == s.uart.output.push(v) && t.uart.input == s.uart.input
            &&& looped ==> t.uart.input == s.uart.input.push(v) && t.uart.output == s.uart.output
            &&& !looped && s.uart.ier & 0x02 != 0 ==> t.pic == pic_raise(s.pic, 4)
            &&& looped || s.uart.ier & 0x02 == 0 ==> t.pic == s.pic
        }),
{
}

/// The line status says that the transmitter is empty, and whether a received byte waits; the data port
/// gives the bytes in the order in which they came.
pub proof fn law_console_input(s: SysState)
    requires
        !dlab(s.uart),
        s.uart.in_cursor < u64::MAX,
    ensures
        sys_port_in(s, 0x3fd).1 == if s.uart.in_cursor < s.uart.input.len() { 0x61u8 } else { 0x60u8 },
        s.uart.in_cursor < s.uart.input.len() ==> sys_port_in(s, 0x3f8).1
            == s.uart.input[s.uart.in_cursor as int] && sys_port_in(s, 0x3f8).0.uart.in_cursor
            == s.uart.in_cursor + 1,
        s.uart.in_cursor >= s.uart.input.len() ==> sys_port_in(s, 0x3f8) == (s, 0u8),
{
    lemma_short_words(0, 0, 0);
}

/// The line control, modem control and scratch registers read as they were written.
pub proof fn law_serial_registers(s: SysState, v: u8)
    ensures
        sys_port_in(sys_port_out(s, 0x3fb, v), 0x3fb).1 == v,
        sys_port_in(sys_port_out(s, 0x3fc, v), 0x3fc).1 == v,
        sys_port_in(sys_port_out(s, 0x3ff, v), 0x3ff).1 == v,
        !dlab(s.uart) ==> sys_port_in(sys_port_out(s, 0x3f9, v), 0x3f9).1 == v,
{
}

// ----- the interval timer -----

/// A mode word and two bytes, the low one first, give channel 0 its count and start it.
pub proof fn law_timer_program(s: SysState, mode: u8, a: u8, b: u8)
    requires
        mode >> 6 == 0,
    ensures
        ({
            let t = sys_port_out(sys_port_out(sys_port_out(s, 0x43, mode), 0x40, a), 0x40, b);
            &&& t.pit.reload == a + 0x100 * b
            &&& t.pit.counter == a + 0x100 * b
            &&& t.pit.enabled
            &&& t.pit.ch2_counter == s.pit.ch2_counter
        }),
{
    lemma_short_words(s.pit.reload, a, b as u16);
}

/// The same for channel 2, which bit 0 of port `61` starts from its count anew, and whose end that port
/// shows.
pub proof fn law_second_timer(s: SysState, mode: u8, a: u8, b: u8)
    requires
        mode >> 6 == 2,
        !s.pit.ch2_gate,
    ensures
        ({
            let t = sys_port_out(sys_port_out(sys_port_out(s, 0x43, mode), 0x42, a), 0x42, b);
            let u = sys_port_out(t, 0x61, 1);
            &&& t.pit.ch2_counter == a + 0x100 * b
            &&& u.pit.ch2_counter == a + 0x100 * b
            &&& u.pit.ch2_gate && !u.pit.ch2_out
            &&& sys_port_in(u, 0x61).1 == 1
            &&& t.pit.reload == s.pit.reload
        }),
{
    lemma_short_words(s.pit.ch2_reload, a, b as u16);
}

/// Counting down: channel 2 ends after as many counts as it was given, and not before.
pub proof fn law_second_timer_ends(p: Pit)
    requires
        p.ch2_gate,
        !p.ch2_out,
        p.ch2_counter > 0,
    ensures
        p.ch2_counter == 1 ==> ch2_tick(p).ch2_out && pit_status(ch2_tick(p)) == 0x21,
        p.ch2_counter > 1 ==> !ch2_tick(p).ch2_out && ch2_tick(p).ch2_counter == p.ch2_counter - 1,
{
    lemma_short_words(0, 0, 0);
}

// ----- the passing of time -----

/// So many steps of time.
pub open spec fn steps_of_time(s: SysState, n: nat) -> SysState
    decreases n,
{
    if n == 0 {
        s
    } else {
        sys_step(steps_of_time(s, (n - 1) as nat))
    }
}

/// Each step moves the timestamp counter on alike, and the timers count at every sixteenth.
pub proof fn law_time_passes(s: SysState, n: nat)
    requires
        s.tdiv + n < u64::MAX,
        s.tsc + 128 * n < u64::MAX,
    ensures
        steps_of_time(s, n).tsc == s.tsc + 128 * n,
        steps_of_time(s, n).tdiv == s.tdiv + n,
        s.tdiv as int % 16 + n < 16 ==> steps_of_time(s, n) == (SysState {
            tsc: (s.tsc + 128 * n) as u64,
            tdiv: (s.tdiv + n) as u64,
            ..s
        }),
        s.tdiv as int % 16 + n == 16 ==> steps_of_time(s, n) == sys_count(
            SysState { tsc: (s.tsc + 128 * n) as u64, tdiv: (s.tdiv + n) as u64, ..s },
        ),
    decreases n,
{
    if n > 0 {
        law_time_passes(s, (n - 1) as nat);
        let t = steps_of_time(s, (n - 1) as nat);
        assert(t.tdiv.wrapping_add(1) == s.tdiv + n);
        if s.tdiv as int % 16 + n < 16 {
            assert((s.tdiv + n) % 16 == s.tdiv as int % 16 + n);
        } else if s.tdiv as int % 16 + n == 16 {
            assert((s.tdiv + n) % 16 == 0);
        }
    }
}

// ----- prefixes -----

/// The operand size: eight bytes where the third bit of `REX` is set, else two under `66`, else four.
pub proof fn law_operand_sizes(p: Prefix)
    ensures
        operand_size(p) == if (p.rex / 8) % 2 == 1 { 8u8 } else if p.opsz { 2u8 } else { 4u8 },
{
    crate::bit_facts::lemma_bits_of_words(p.rex as u64, 0, 0, false, false);
    lemma_rex_bit(p.rex);
}

proof fn lemma_rex_bit(b: u8)
    ensures
        (b & 8 != 0) == ((b / 8) % 2 == 1),
{
    let w = b as u64;
    crate::bit_facts::lemma_bits_of_words(w, 0, 0, false, false);
    assert((w & 8) == (b & 8) as u64);
}

/// What each prefix byte says.
pub proof fn law_prefix_bytes(p: Prefix, b: u8)
    ensures
        prefix_seen(p, b).opsz == (p.opsz || b == 0x66),
        prefix_seen(p, b).rep == if b == 0xf3 {
            RepKind::Rep
        } else if b == 0xf2 {
            RepKind::Repne
        } else {
            p.rep
        },
        prefix_seen(p, b).rex == if 0x40 <= b <= 0x4f { b } else { p.rex },
        prefix_seen(p, b).start == p.start,
{
}

// ----- indirect control -----

/// Opcode `FF` on a register: calls go where it says with the next address on the stack, jumps go where
/// it says, and pushes store it.
pub proof fn law_indirect(s: CpuState, p: Prefix)
    requires
        s.r.len() == 16,
        decode_rm(s, p.rex).1.1 is Reg,
    ensures
        ({
            let (s1, (reg, rm)) = decode_rm(s, p.rex);
            let v = s.r[rm->Reg_0 as int];
            let t = executed(s, p, 0xff).0;
            &&& reg % 8 == 2 ==> t.rip == v && t == with_rip(stack_push(s1, s1.rip), v)
            &&& reg % 8 == 4 ==> t.rip == v && t.r == s.r
            &&& reg % 8 == 6 ==> t == stack_push(s1, v)
        }),
{
    lemma_decoded(s, p.rex);
    let (s1, (reg, rm)) = decode_rm(s, p.rex);
    let i = rm->Reg_0 as int;
    assert(executed(s, p, 0xff) == do_group5(s, p)) by {
        reveal(executed);
        reveal(map_e_f);
    }
    reveal(load_operand);
    lemma_bits_of(s.r[i], 0, 0);
}

/// `IRETQ` takes from the stack, in this order, the instruction pointer, the code segment with the
/// privilege in its two low bits, the flags, the stack pointer and the stack segment.
pub proof fn law_return_frame(s: CpuState, p: Prefix)
    requires
        s.r.len() == 16,
        s.seg.len() == 6,
        runnable(s),
    ensures
        ({
            let (s1, rip) = stack_pop(s, 8);
            let (s2, cs) = stack_pop(s1, 8);
            let (s3, flags) = stack_pop(s2, 8);
            let (s4, rsp) = stack_pop(s3, 8);
            let (s5, ss) = stack_pop(s4, 8);
            let t = executed(s, p, 0xcf).0;
            &&& t.rip == rip
            &&& t.cpl == cs as int % 4
            &&& t.r[4] == rsp
            &&& forall|i: u64|
                #![trigger bit_at(t.rflags, i)]
                i < 64 && i != 1 && bit_at(t.rflags, i) ==> bit_at(flags, i)
        }),
{
    reveal(executed);
    reveal(map_c_d);
    let (s1, rip) = stack_pop(s, 8);
    let (s2, cs) = stack_pop(s1, 8);
    let (s3, flags) = stack_pop(s2, 8);
    let (s4, rsp) = stack_pop(s3, 8);
    let (s5, ss) = stack_pop(s4, 8);
    assert(s5.r.len() == 16) by {
        lemma_pop_keeps(s);
        lemma_pop_keeps(s1);
        lemma_pop_keeps(s2);
        lemma_pop_keeps(s3);
        lemma_pop_keeps(s4);
    }
    crate::bit_facts::lemma_bits_of_words(cs, 0, 0, false, false);
    let t = executed(s, p, 0xcf).0;
    assert forall|i: u64| #![trigger bit_at(t.rflags, i)] i < 64 && i != 1 && bit_at(t.rflags, i) implies bit_at(
        flags,
        i,
    ) by {
        crate::bit_facts::lemma_settable(flags, i);
    }
}

proof fn lemma_pop_keeps(s: CpuState)
    requires
        s.r.len() == 16,
        runnable(s),
    ensures
        stack_pop(s, 8).0.r.len() == 16,
        runnable(stack_pop(s, 8).0),
{
    reveal(stack_pop);
    law_load_keeps(s, s.r[4], 8);
}

/// `CMPXCHG8B` and `CMPXCHG16B`: where the two words in memory are those in `RDX` and `RAX` they are
/// replaced by those in `RCX` and `RBX` and the zero flag is set; else they are loaded, and it is clear.
pub proof fn law_exchange_pair(s: CpuState, a: u64, size: u8)
    requires
        size == 4 || size == 8,
        s.r.len() == 16,
        runnable(s),
    ensures
        ({
            let m = modulus(size);
            let (s1, lo) = mem_read(s, a, size);
            let (s2, hi) = mem_read(s1, a.wrapping_add(size as u64), size);
            let same = lo == s.r[0] as int % m && hi == s.r[2] as int % m;
            let t = exchange_pair(s, Rm::Mem(a), size);
            &&& bit_at(t.rflags, 6) == same
            &&& same ==> t.ram == mem_write(
                mem_write(s2, a, size, (s.r[3] as int % m) as u64),
                a.wrapping_add(size as u64),
                size,
                (s.r[1] as int % m) as u64,
            ).ram
            &&& !same ==> t.r[0] == lo && t.r[2] == hi && t.ram == s2.ram
        }),
{
    let (s1, lo) = mem_read(s, a, size);
    law_load_keeps(s, a, size);
    let (s2, hi) = mem_read(s1, a.wrapping_add(size as u64), size);
    law_load_keeps(s1, a.wrapping_add(size as u64), size);
    lemma_mask(s.r[0], size);
    lemma_mask(s.r[1], size);
    lemma_mask(s.r[2], size);
    lemma_mask(s.r[3], size);
    let s3 = mem_write(s2, a, size, s2.r[3] & mask_of(size));
    law_store_keeps(s2, a, size, s2.r[3] & mask_of(size));
    law_store_keeps(s3, a.wrapping_add(size as u64), size, s3.r[1] & mask_of(size));
    lemma_zero_flag(s.rflags, true);
    lemma_zero_flag(s.rflags, false);
}

/// The zero flag set or cleared.
proof fn lemma_zero_flag(f: u64, on: bool)
    ensures
        bit_at(with_bit(f, ZF, on), 6) == on,
{
    lemma_bits_of(f, 0x40, 6);
    lemma_bits_of(f, !0x40u64, 6);
    lemma_bits_of(0x40, 0, 6);
    crate::bit_facts::lemma_bits_of_words(6, 6, 0, false, false);
}

} // verus!
