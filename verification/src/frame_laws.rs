//! What every instruction leaves alone: the switches, the presence of a platform, the count of
//! retired instructions, the size of the translation cache, a fault that is latched, and, but for
//! `LIDT`, the descriptor table register.
use vstd::prelude::*;
#[allow(unused_imports)]
use crate::bits::mask_of;
#[allow(unused_imports)]
use crate::control_laws::{faulting, law_step_rolls_back};
#[allow(unused_imports)]
use crate::cpu::{CpuState, TLB_SETS};
#[allow(unused_imports)]
use crate::decode::{
    operand_size, prefix_seen, prefix_taken, prefixes, Form, FpAskState, Prefix, RepKind,
};
#[allow(unused_imports)]
use crate::fpu_ops::{
    do_state, do_x87, fp_done, popped, popped_n, pushed, read_numbers, read_xmm, state_read,
    state_written, with_st, write_head, write_number, write_numbers, write_xmm, x87_d9, x87_load,
    x87_memory, x87_memory_arith, x87_other, x87_register,
};
#[allow(unused_imports)]
use crate::group_ops::{
    bit_tested, do_bit_imm, do_bit_reg, do_bit_scan, do_bswap, do_cmov, do_double_shift,
    do_exchange, do_extend, do_group3, do_imul2, do_setcc, do_xadd, double_shifted, exchange_pair,
    g3_div, g3_idiv, g3_imul, g3_mul, g3_neg, g3_not, g3_test, wide_stored,
};
#[allow(unused_imports)]
use crate::int_ops::{
    alu_applied, alu_stored, code_loaded, do_alu, do_alu_imm, do_call, do_extend_acc, do_far_ret,
    do_flag, do_group5, do_hlt, do_imul_imm, do_iret, do_lea, do_leave, do_mov, do_mov_from_seg,
    do_mov_imm, do_mov_reg_imm, do_mov_to_seg, do_movsxd, do_pop_rm, do_port, do_push_imm,
    do_push_pop, do_ret, do_shift, do_spread_sign, do_test, do_test_imm, do_xchg, do_xchg_acc,
    imul_stored, jumped, port_of, shifted, stepped, tested,
};
#[allow(unused_imports)]
use crate::interrupt::{delivered, idled, raised, switched, traced};
#[allow(unused_imports)]
use crate::mmu::{
    byte_at, cr_write, fetch_byte, fetch_bytes, fetch_imm, flushed, flushed_pcid, ifetch_fill,
    lemma_set_bounds, mem_read, mem_write, read_bytes, tlb_fill, touched, translate_access,
    write_bytes,
};
#[allow(unused_imports)]
use crate::operand::{
    decode_rm, displacement, load128, load32, load64, load_operand, reg_write, sib_base, stack_pop,
    stack_push, store128, store_operand, with_flags, with_reg, with_rip, with_xmm, Rm,
};
#[allow(unused_imports)]
use crate::sse_ops::{
    do_arith, do_convert, do_convert_int2, do_convert_int4, do_extract_word, do_flag_compare,
    do_from_int, do_insert_word, do_mask_compare, do_mov_half_load, do_mov_half_store, do_mov_load,
    do_mov_store, do_mov_whole, do_movd_load, do_movd_store, do_move_mask, do_movq_store, do_packed,
    do_shift_imm, do_shuffle, do_shuffle_pair, do_to_int, form_load, Packed,
};
#[allow(unused_imports)]
use crate::step::{
    completed, do_group4, executed, fault_taken, map_0f, map_0f_8_b, map_0f_c_f, map_0f_low,
    map_0f_mid, map_5_7, map_8_9, map_a_b, map_c_d, map_e_f, one_step, opcode_fetched, plainly,
    saved_of, undefined, SavedState,
};
#[allow(unused_imports)]
use crate::string_ops::{
    bulk_movs, bulk_stos, copied, do_string, filled, index_moved, string_element, string_repeated,
    string_stepped, StringOp,
};
#[allow(unused_imports)]
use crate::sys::{sys_port_in_bytes, sys_port_out_bytes, SysState};
#[allow(unused_imports)]
use crate::system_ops::{
    do_cpuid, do_group6, do_group7, do_group9, do_mov_cr, do_msr, do_syscall, do_sysret, do_ud2,
    group7_mem, group7_reg, gs_swapped, msr_written, random_stored, split_stored, table_read,
    table_written, task_loaded, with_base, with_msr,
};

verus! {

/// The switches, the platform's presence, the count of retired instructions, a latched fault and the
/// size of the translation cache are as they were.
pub open spec fn kept_but_table(s: CpuState, t: CpuState) -> bool {
    &&& t.cfg == s.cfg
    &&& t.insns == s.insns
    &&& t.platform == s.platform
    &&& s.fault is Some ==> t.fault == s.fault
    &&& s.tlb.len() == TLB_SETS ==> t.tlb.len() == TLB_SETS
}

/// And so is the descriptor table register.
pub open spec fn kept(s: CpuState, t: CpuState) -> bool {
    kept_but_table(s, t) && t.sys.idtr == s.sys.idtr
}

// ----- one function at a time -----

pub broadcast proof fn frame_tlb_fill(s: CpuState, vaddr: u64, pa: u64, write: bool)
    ensures
        kept(s, #[trigger] tlb_fill(s, vaddr, pa, write)),
{
    lemma_set_bounds(vaddr);
}

pub broadcast proof fn frame_translate_access(s: CpuState, vaddr: u64, write: bool, user: bool)
    ensures
        kept(s, (#[trigger] translate_access(s, vaddr, write, user)).0),
{
    broadcast use frame_tlb_fill;

    reveal(translate_access);
}

pub broadcast proof fn frame_flushed(s: CpuState)
    ensures
        kept(s, #[trigger] flushed(s)),
{
}

pub broadcast proof fn frame_flushed_pcid(s: CpuState, pcid: int)
    ensures
        kept(s, #[trigger] flushed_pcid(s, pcid)),
{
}

pub broadcast proof fn frame_cr_write(s: CpuState, idx: int, val: u64)
    ensures
        kept(s, #[trigger] cr_write(s, idx, val)),
{
    broadcast use {frame_flushed, frame_flushed_pcid};

}

pub broadcast proof fn frame_touched(s: CpuState, pa: u64)
    ensures
        kept(s, #[trigger] touched(s, pa)),
{
}

pub broadcast proof fn frame_read_bytes(s: CpuState, addr: u64, n: nat, user: bool)
    ensures
        kept(s, (#[trigger] read_bytes(s, addr, n, user)).0),
    decreases n,
{
    broadcast use frame_translate_access;

    if n > 0 {
        frame_read_bytes(s, addr, (n - 1) as nat, user);
    }
}

pub broadcast proof fn frame_write_bytes(s: CpuState, addr: u64, n: nat, val: u64, user: bool)
    ensures
        kept(s, #[trigger] write_bytes(s, addr, n, val, user)),
    decreases n,
{
    broadcast use frame_translate_access;

    if n > 0 {
        frame_write_bytes(s, addr, (n - 1) as nat, val, user);
    }
}

pub broadcast proof fn frame_mem_read(s: CpuState, addr: u64, size: u8)
    ensures
        kept(s, (#[trigger] mem_read(s, addr, size)).0),
{
    broadcast use {frame_translate_access, frame_touched, frame_read_bytes};

    reveal(mem_read);
}

pub broadcast proof fn frame_mem_write(s: CpuState, addr: u64, size: u8, val: u64)
    ensures
        kept(s, #[trigger] mem_write(s, addr, size, val)),
{
    broadcast use {frame_translate_access, frame_touched, frame_write_bytes};

    reveal(mem_write);
}

pub broadcast proof fn frame_ifetch_fill(s: CpuState, vaddr: u64, pa: u64)
    ensures
        kept(s, #[trigger] ifetch_fill(s, vaddr, pa)),
{
}

pub broadcast proof fn frame_fetch_byte(s: CpuState)
    ensures
        kept(s, (#[trigger] fetch_byte(s)).0),
{
    broadcast use {frame_translate_access, frame_ifetch_fill};

    reveal(fetch_byte);
}

pub broadcast proof fn frame_fetch_bytes(s: CpuState, n: nat)
    ensures
        kept(s, (#[trigger] fetch_bytes(s, n)).0),
    decreases n,
{
    broadcast use frame_fetch_byte;

    if n > 0 {
        frame_fetch_bytes(s, (n - 1) as nat);
    }
}

pub broadcast proof fn frame_fetch_imm(s: CpuState, size: u8)
    ensures
        kept(s, (#[trigger] fetch_imm(s, size)).0),
{
    broadcast use frame_fetch_bytes;

}

pub broadcast proof fn frame_sib_base(s: CpuState, sib: u8, md: u8, rex: u8)
    ensures
        kept(s, (#[trigger] sib_base(s, sib, md, rex)).0),
{
    broadcast use frame_fetch_bytes;

}

pub broadcast proof fn frame_displacement(s: CpuState, md: u8)
    ensures
        kept(s, (#[trigger] displacement(s, md)).0),
{
    broadcast use frame_fetch_bytes;

}

pub broadcast proof fn frame_decode_rm(s: CpuState, rex: u8)
    ensures
        kept(s, (#[trigger] decode_rm(s, rex)).0),
{
    broadcast use {frame_fetch_byte, frame_fetch_bytes, frame_sib_base, frame_displacement};

    reveal(decode_rm);
}

pub broadcast proof fn frame_reg_write(s: CpuState, reg: int, size: u8, val: u64)
    ensures
        kept(s, #[trigger] reg_write(s, reg, size, val)),
{
}

pub broadcast proof fn frame_load_operand(s: CpuState, rm: Rm, size: u8)
    ensures
        kept(s, (#[trigger] load_operand(s, rm, size)).0),
{
    broadcast use frame_mem_read;

    reveal(load_operand);
}

pub broadcast proof fn frame_store_operand(s: CpuState, rm: Rm, size: u8, val: u64)
    ensures
        kept(s, #[trigger] store_operand(s, rm, size, val)),
{
    broadcast use {frame_mem_write, frame_reg_write};

    reveal(store_operand);
}

pub broadcast proof fn frame_load128(s: CpuState, rm: Rm)
    ensures
        kept(s, (#[trigger] load128(s, rm)).0),
{
    broadcast use frame_mem_read;

    reveal(load128);
}

pub broadcast proof fn frame_store128(s: CpuState, rm: Rm, v: u128)
    ensures
        kept(s, #[trigger] store128(s, rm, v)),
{
    broadcast use frame_mem_write;

    reveal(store128);
}

pub broadcast proof fn frame_load64(s: CpuState, rm: Rm)
    ensures
        kept(s, (#[trigger] load64(s, rm)).0),
{
    broadcast use frame_mem_read;

    reveal(load64);
}

pub broadcast proof fn frame_load32(s: CpuState, rm: Rm)
    ensures
        kept(s, (#[trigger] load32(s, rm)).0),
{
    broadcast use frame_mem_read;

    reveal(load32);
}

pub broadcast proof fn frame_with_reg(s: CpuState, i: int, v: u64)
    ensures
        kept(s, #[trigger] with_reg(s, i, v)),
{
}

pub broadcast proof fn frame_with_xmm(s: CpuState, i: int, v: u128)
    ensures
        kept(s, #[trigger] with_xmm(s, i, v)),
{
}

pub broadcast proof fn frame_with_rip(s: CpuState, v: u64)
    ensures
        kept(s, #[trigger] with_rip(s, v)),
{
}

pub broadcast proof fn frame_with_flags(s: CpuState, v: u64)
    ensures
        kept(s, #[trigger] with_flags(s, v)),
{
}

pub broadcast proof fn frame_stack_push(s: CpuState, val: u64)
    ensures
        kept(s, #[trigger] stack_push(s, val)),
{
    broadcast use {frame_mem_write, frame_with_reg};

    reveal(stack_push);
}

pub broadcast proof fn frame_stack_pop(s: CpuState, size: u8)
    ensures
        kept(s, (#[trigger] stack_pop(s, size)).0),
{
    broadcast use {frame_mem_read, frame_with_reg};

    reveal(stack_pop);
}

pub broadcast proof fn frame_traced(s: CpuState, vector: u8, error: u64, handler: u64)
    ensures
        kept(s, #[trigger] traced(s, vector, error, handler)),
{
    reveal(traced);
}

pub broadcast proof fn frame_switched(s: CpuState, ist: u64)
    ensures
        kept(s, #[trigger] switched(s, ist)),
{
    reveal(switched);
}

pub broadcast proof fn frame_delivered(s: CpuState, vector: u8, error: u64, has_error: bool)
    ensures
        kept(s, #[trigger] delivered(s, vector, error, has_error)),
{
    broadcast use {frame_stack_push, frame_traced, frame_switched};

    reveal(delivered);
}

pub broadcast proof fn frame_raised(s: CpuState, vector: u8, error: u64, has_error: bool)
    ensures
        kept(s, #[trigger] raised(s, vector, error, has_error)),
{
    broadcast use frame_delivered;

}

pub broadcast proof fn frame_idled(s: CpuState)
    ensures
        kept(s, #[trigger] idled(s)),
{
}

pub broadcast proof fn frame_prefix_taken(s: CpuState, b: u8)
    ensures
        kept(s, #[trigger] prefix_taken(s, b)),
{
}

pub broadcast proof fn frame_prefixes(s: CpuState, p: Prefix, n: nat)
    ensures
        kept(s, (#[trigger] prefixes(s, p, n)).0),
    decreases n,
{
    broadcast use {frame_translate_access, frame_prefix_taken};

    if n > 0 {
        let (t, pa) = translate_access(s, s.rip, false, s.cpl == 3);
        let b = byte_at(t.ram, pa as int);
        frame_prefixes(prefix_taken(t, b), prefix_seen(p, b), (n - 1) as nat);
    }
}

pub broadcast proof fn frame_alu_applied(s: CpuState, k: u8, a: u64, b: u64, size: u8)
    ensures
        kept(s, (#[trigger] alu_applied(s, k, a, b, size)).0),
{
    broadcast use frame_with_flags;

}

pub broadcast proof fn frame_alu_stored(s: CpuState, k: u8, a: u64, b: u64, rm: Rm, size: u8)
    ensures
        kept(s, #[trigger] alu_stored(s, k, a, b, rm, size)),
{
    broadcast use {frame_store_operand, frame_alu_applied};

}

pub broadcast proof fn frame_do_alu(s: CpuState, p: Prefix, op: u8)
    ensures
        kept(s, #[trigger] do_alu(s, p, op)),
{
    broadcast use {
        frame_fetch_bytes, frame_fetch_imm, frame_decode_rm, frame_load_operand,
        frame_alu_stored,
    };

}

pub broadcast proof fn frame_do_alu_imm(s: CpuState, p: Prefix, op: u8)
    ensures
        kept(s, #[trigger] do_alu_imm(s, p, op)),
{
    broadcast use {
        frame_fetch_bytes, frame_fetch_imm, frame_decode_rm, frame_load_operand,
        frame_alu_stored,
    };

}

pub broadcast proof fn frame_tested(s: CpuState, a: u64, b: u64, size: u8)
    ensures
        kept(s, #[trigger] tested(s, a, b, size)),
{
    broadcast use frame_with_flags;

}

pub broadcast proof fn frame_do_test(s: CpuState, p: Prefix, op: u8)
    ensures
        kept(s, #[trigger] do_test(s, p, op)),
{
    broadcast use {frame_decode_rm, frame_load_operand, frame_tested};

}

pub broadcast proof fn frame_do_test_imm(s: CpuState, p: Prefix, op: u8)
    ensures
        kept(s, #[trigger] do_test_imm(s, p, op)),
{
    broadcast use {frame_fetch_bytes, frame_fetch_imm, frame_tested};

}

pub broadcast proof fn frame_stepped(s: CpuState, rm: Rm, size: u8, down: bool)
    ensures
        kept(s, #[trigger] stepped(s, rm, size, down)),
{
    broadcast use {frame_load_operand, frame_store_operand, frame_with_flags};

}

pub broadcast proof fn frame_imul_stored(s: CpuState, reg: int, a: u64, b: u64, size: u8)
    ensures
        kept(s, #[trigger] imul_stored(s, reg, a, b, size)),
{
    broadcast use {frame_store_operand, frame_with_flags};

}

pub broadcast proof fn frame_do_imul_imm(s: CpuState, p: Prefix, op: u8)
    ensures
        kept(s, #[trigger] do_imul_imm(s, p, op)),
{
    broadcast use {frame_fetch_bytes, frame_decode_rm, frame_load_operand, frame_imul_stored};

}

pub broadcast proof fn frame_shifted(s: CpuState, ext: u8, rm: Rm, size: u8, cnt: u8)
    ensures
        kept(s, #[trigger] shifted(s, ext, rm, size, cnt)),
{
    broadcast use {frame_load_operand, frame_store_operand, frame_with_flags};

}

pub broadcast proof fn frame_do_shift(s: CpuState, p: Prefix, op: u8)
    ensures
        kept(s, #[trigger] do_shift(s, p, op)),
{
    broadcast use {frame_fetch_bytes, frame_decode_rm, frame_shifted};

}

pub broadcast proof fn frame_do_mov(s: CpuState, p: Prefix, op: u8)
    ensures
        kept(s, #[trigger] do_mov(s, p, op)),
{
    broadcast use {frame_decode_rm, frame_load_operand, frame_store_operand};

}

pub broadcast proof fn frame_do_mov_imm(s: CpuState, p: Prefix, op: u8)
    ensures
        kept(s, #[trigger] do_mov_imm(s, p, op)),
{
    broadcast use {frame_fetch_bytes, frame_fetch_imm, frame_decode_rm, frame_store_operand};

}

pub broadcast proof fn frame_do_mov_reg_imm(s: CpuState, p: Prefix, op: u8)
    ensures
        kept(s, #[trigger] do_mov_reg_imm(s, p, op)),
{
    broadcast use {frame_fetch_bytes, frame_store_operand};

}

pub broadcast proof fn frame_do_xchg(s: CpuState, p: Prefix, op: u8)
    ensures
        kept(s, #[trigger] do_xchg(s, p, op)),
{
    broadcast use {frame_decode_rm, frame_load_operand, frame_store_operand};

}

pub broadcast proof fn frame_do_xchg_acc(s: CpuState, p: Prefix, op: u8)
    ensures
        kept(s, #[trigger] do_xchg_acc(s, p, op)),
{
    broadcast use frame_store_operand;

}

pub broadcast proof fn frame_do_mov_from_seg(s: CpuState, p: Prefix)
    ensures
        kept(s, #[trigger] do_mov_from_seg(s, p)),
{
    broadcast use {frame_decode_rm, frame_store_operand};

}

pub broadcast proof fn frame_do_mov_to_seg(s: CpuState, p: Prefix)
    ensures
        kept(s, #[trigger] do_mov_to_seg(s, p)),
{
    broadcast use {frame_decode_rm, frame_load_operand};

}

pub broadcast proof fn frame_do_lea(s: CpuState, p: Prefix)
    ensures
        kept(s, #[trigger] do_lea(s, p)),
{
    broadcast use {frame_decode_rm, frame_store_operand};

}

pub broadcast proof fn frame_do_movsxd(s: CpuState, p: Prefix)
    ensures
        kept(s, #[trigger] do_movsxd(s, p)),
{
    broadcast use {frame_decode_rm, frame_load_operand, frame_store_operand};

}

pub broadcast proof fn frame_do_extend_acc(s: CpuState, p: Prefix)
    ensures
        kept(s, #[trigger] do_extend_acc(s, p)),
{
    broadcast use frame_store_operand;

}

pub broadcast proof fn frame_do_spread_sign(s: CpuState, p: Prefix)
    ensures
        kept(s, #[trigger] do_spread_sign(s, p)),
{
    broadcast use frame_store_operand;

}

pub broadcast proof fn frame_do_push_pop(s: CpuState, p: Prefix, op: u8)
    ensures
        kept(s, #[trigger] do_push_pop(s, p, op)),
{
    broadcast use {frame_with_reg, frame_stack_push, frame_stack_pop};

}

pub broadcast proof fn frame_do_push_imm(s: CpuState, op: u8)
    ensures
        kept(s, #[trigger] do_push_imm(s, op)),
{
    broadcast use {frame_fetch_bytes, frame_stack_push};

}

pub broadcast proof fn frame_do_pop_rm(s: CpuState, p: Prefix)
    ensures
        kept(s, #[trigger] do_pop_rm(s, p)),
{
    broadcast use {frame_decode_rm, frame_store_operand, frame_stack_pop};

}

pub broadcast proof fn frame_jumped(s: CpuState, n: u8, taken: bool)
    ensures
        kept(s, #[trigger] jumped(s, n, taken)),
{
    broadcast use {frame_fetch_bytes, frame_with_rip};

}

pub broadcast proof fn frame_do_call(s: CpuState)
    ensures
        kept(s, #[trigger] do_call(s)),
{
    broadcast use {frame_fetch_bytes, frame_with_rip, frame_stack_push};

}

pub broadcast proof fn frame_do_ret(s: CpuState, free: bool)
    ensures
        kept(s, #[trigger] do_ret(s, free)),
{
    broadcast use {frame_fetch_bytes, frame_with_reg, frame_with_rip, frame_stack_pop};

}

pub broadcast proof fn frame_do_leave(s: CpuState)
    ensures
        kept(s, #[trigger] do_leave(s)),
{
    broadcast use {frame_with_reg, frame_stack_pop};

}

pub broadcast proof fn frame_code_loaded(s: CpuState, cs: u64)
    ensures
        kept(s, #[trigger] code_loaded(s, cs)),
{
}

pub broadcast proof fn frame_do_far_ret(s: CpuState, p: Prefix, free: bool)
    ensures
        kept(s, #[trigger] do_far_ret(s, p, free)),
{
    broadcast use {
        frame_fetch_bytes, frame_with_reg, frame_with_rip, frame_stack_pop,
        frame_code_loaded,
    };

}

pub broadcast proof fn frame_do_iret(s: CpuState)
    ensures
        kept(s, #[trigger] do_iret(s)),
{
    broadcast use {frame_with_rip, frame_stack_pop, frame_code_loaded};

}

pub broadcast proof fn frame_do_group5(s: CpuState, p: Prefix)
    ensures
        kept(s, (#[trigger] do_group5(s, p)).0),
{
    broadcast use {
        frame_decode_rm, frame_load_operand, frame_with_rip, frame_stack_push,
        frame_stepped,
    };

}

pub broadcast proof fn frame_port_of(s: CpuState, op: u8)
    ensures
        kept(s, (#[trigger] port_of(s, op)).0),
{
    broadcast use frame_fetch_bytes;

}

proof fn lemma_ports_keep_table(s: SysState, port: u16, n: nat, val: u64)
    ensures
        sys_port_in_bytes(s, port, n).0.idtr == s.idtr,
        sys_port_out_bytes(s, port, n, val).idtr == s.idtr,
    decreases n,
{
    if n > 0 {
        lemma_ports_keep_table(s, port, (n - 1) as nat, val);
    }
}

pub broadcast proof fn frame_do_port(s: CpuState, p: Prefix, op: u8)
    ensures
        kept(s, #[trigger] do_port(s, p, op)),
{
    broadcast use {frame_store_operand, frame_port_of};

    let size = operand_size(p);
    let (s1, port) = port_of(s, op);
    lemma_ports_keep_table(s1.sys, port, size as nat, s1.r[0] & mask_of(size));
}

pub broadcast proof fn frame_do_hlt(s: CpuState)
    ensures
        kept(s, (#[trigger] do_hlt(s)).0),
{
    broadcast use frame_idled;

}

pub broadcast proof fn frame_do_flag(s: CpuState, op: u8)
    ensures
        kept(s, #[trigger] do_flag(s, op)),
{
    broadcast use frame_with_flags;

}

pub broadcast proof fn frame_wide_stored(s: CpuState, lo: u64, hi: u64, size: u8)
    ensures
        kept(s, #[trigger] wide_stored(s, lo, hi, size)),
{
    broadcast use {frame_store_operand, frame_with_reg};

}

pub broadcast proof fn frame_g3_test(s: CpuState, rm: Rm, size: u8)
    ensures
        kept(s, #[trigger] g3_test(s, rm, size)),
{
    broadcast use {frame_fetch_bytes, frame_fetch_imm, frame_load_operand, frame_tested};

}

pub broadcast proof fn frame_g3_not(s: CpuState, rm: Rm, size: u8)
    ensures
        kept(s, #[trigger] g3_not(s, rm, size)),
{
    broadcast use {frame_load_operand, frame_store_operand};

}

pub broadcast proof fn frame_g3_neg(s: CpuState, rm: Rm, size: u8)
    ensures
        kept(s, #[trigger] g3_neg(s, rm, size)),
{
    broadcast use {frame_load_operand, frame_store_operand, frame_with_flags};

}

pub broadcast proof fn frame_g3_mul(s: CpuState, rm: Rm, size: u8)
    ensures
        kept(s, #[trigger] g3_mul(s, rm, size)),
{
    broadcast use {frame_load_operand, frame_with_flags, frame_wide_stored};

}

pub broadcast proof fn frame_g3_imul(s: CpuState, rm: Rm, size: u8)
    ensures
        kept(s, #[trigger] g3_imul(s, rm, size)),
{
    broadcast use {frame_load_operand, frame_with_flags, frame_wide_stored};

}

pub broadcast proof fn frame_g3_div(s: CpuState, rm: Rm, size: u8)
    ensures
        kept(s, #[trigger] g3_div(s, rm, size)),
{
    broadcast use {frame_load_operand, frame_raised, frame_wide_stored};

}

pub broadcast proof fn frame_g3_idiv(s: CpuState, rm: Rm, size: u8)
    ensures
        kept(s, #[trigger] g3_idiv(s, rm, size)),
{
    broadcast use {frame_load_operand, frame_raised, frame_wide_stored};

}

pub broadcast proof fn frame_do_group3(s: CpuState, p: Prefix, op: u8)
    ensures
        kept(s, #[trigger] do_group3(s, p, op)),
{
    broadcast use {
        frame_decode_rm, frame_g3_test, frame_g3_not, frame_g3_neg, frame_g3_mul,
        frame_g3_imul, frame_g3_div, frame_g3_idiv,
    };

}

pub broadcast proof fn frame_do_setcc(s: CpuState, p: Prefix, op: u8)
    ensures
        kept(s, #[trigger] do_setcc(s, p, op)),
{
    broadcast use {frame_decode_rm, frame_store_operand};

}

pub broadcast proof fn frame_do_cmov(s: CpuState, p: Prefix, op: u8)
    ensures
        kept(s, #[trigger] do_cmov(s, p, op)),
{
    broadcast use {frame_decode_rm, frame_load_operand, frame_store_operand};

}

pub broadcast proof fn frame_do_extend(s: CpuState, p: Prefix, op: u8)
    ensures
        kept(s, #[trigger] do_extend(s, p, op)),
{
    broadcast use {frame_decode_rm, frame_load_operand, frame_store_operand};

}

pub broadcast proof fn frame_do_imul2(s: CpuState, p: Prefix)
    ensures
        kept(s, #[trigger] do_imul2(s, p)),
{
    broadcast use {frame_decode_rm, frame_load_operand, frame_imul_stored};

}

pub broadcast proof fn frame_bit_tested(s: CpuState, rm: Rm, size: u8, bit: u64, op: u8)
    ensures
        kept(s, #[trigger] bit_tested(s, rm, size, bit, op)),
{
    broadcast use {
        frame_mem_read, frame_mem_write, frame_load_operand, frame_store_operand,
        frame_with_flags,
    };

}

pub broadcast proof fn frame_do_bit_reg(s: CpuState, p: Prefix, op: u8)
    ensures
        kept(s, #[trigger] do_bit_reg(s, p, op)),
{
    broadcast use {frame_decode_rm, frame_bit_tested};

}

pub broadcast proof fn frame_do_bit_imm(s: CpuState, p: Prefix)
    ensures
        kept(s, #[trigger] do_bit_imm(s, p)),
{
    broadcast use {frame_fetch_bytes, frame_decode_rm, frame_bit_tested};

}

pub broadcast proof fn frame_do_bit_scan(s: CpuState, p: Prefix, op: u8)
    ensures
        kept(s, #[trigger] do_bit_scan(s, p, op)),
{
    broadcast use {frame_decode_rm, frame_load_operand, frame_store_operand, frame_with_flags};

}

pub broadcast proof fn frame_do_exchange(s: CpuState, p: Prefix, size: u8)
    ensures
        kept(s, #[trigger] do_exchange(s, p, size)),
{
    broadcast use {frame_decode_rm, frame_load_operand, frame_store_operand, frame_with_flags};

}

pub broadcast proof fn frame_exchange_pair(s: CpuState, rm: Rm, size: u8)
    ensures
        kept(s, #[trigger] exchange_pair(s, rm, size)),
{
    broadcast use {frame_mem_read, frame_mem_write, frame_with_reg, frame_with_flags};

}

pub broadcast proof fn frame_do_xadd(s: CpuState, p: Prefix, size: u8)
    ensures
        kept(s, #[trigger] do_xadd(s, p, size)),
{
    broadcast use {frame_decode_rm, frame_load_operand, frame_store_operand, frame_with_flags};

}

pub broadcast proof fn frame_double_shifted(
    s: CpuState,
    rm: Rm,
    reg: int,
    size: u8,
    cnt: u8,
    right: bool,
)
    ensures
        kept(s, #[trigger] double_shifted(s, rm, reg, size, cnt, right)),
{
    broadcast use {frame_load_operand, frame_store_operand, frame_with_flags};

}

pub broadcast proof fn frame_do_double_shift(s: CpuState, p: Prefix, op: u8)
    ensures
        kept(s, #[trigger] do_double_shift(s, p, op)),
{
    broadcast use {frame_fetch_bytes, frame_decode_rm, frame_double_shifted};

}

pub broadcast proof fn frame_do_bswap(s: CpuState, p: Prefix, op: u8)
    ensures
        kept(s, #[trigger] do_bswap(s, p, op)),
{
    broadcast use frame_store_operand;

}

pub broadcast proof fn frame_index_moved(s: CpuState, reg: int, size: u8)
    ensures
        kept(s, #[trigger] index_moved(s, reg, size)),
{
    broadcast use frame_with_reg;

}

pub broadcast proof fn frame_string_element(s: CpuState, kind: StringOp, size: u8)
    ensures
        kept(s, #[trigger] string_element(s, kind, size)),
{
    broadcast use {
        frame_mem_read, frame_mem_write, frame_store_operand, frame_with_flags,
        frame_index_moved,
    };

    reveal(string_element);
}

pub broadcast proof fn frame_string_repeated(
    s: CpuState,
    kind: StringOp,
    size: u8,
    rep: RepKind,
    start: u64,
    n: nat,
)
    ensures
        kept(s, #[trigger] string_repeated(s, kind, size, rep, start, n)),
    decreases n,
{
    broadcast use {frame_with_reg, frame_with_rip, frame_string_element};

    if n > 0 && s.r[1] != 0 {
        let u = with_reg(string_element(s, kind, size), 1, (s.r[1] - 1) as u64);
        frame_string_repeated(u, kind, size, rep, start, (n - 1) as nat);
    }
}

pub broadcast proof fn frame_string_stepped(
    s: CpuState,
    kind: StringOp,
    size: u8,
    rep: RepKind,
    start: u64,
)
    ensures
        kept(s, #[trigger] string_stepped(s, kind, size, rep, start)),
{
    broadcast use {frame_string_element, frame_string_repeated};

}

pub broadcast proof fn frame_filled(s: CpuState, pa: u64, n: nat, size: u8, val: u64)
    ensures
        kept(s, #[trigger] filled(s, pa, n, size, val)),
    decreases n,
{
    broadcast use frame_touched;

    if n > 0 {
        frame_filled(s, pa, (n - 1) as nat, size, val);
    }
}

pub broadcast proof fn frame_copied(s: CpuState, spa: u64, dpa: u64, n: nat, size: u8)
    ensures
        kept(s, #[trigger] copied(s, spa, dpa, n, size)),
    decreases n,
{
    broadcast use frame_touched;

    if n > 0 {
        frame_copied(s, spa, dpa, (n - 1) as nat, size);
    }
}

pub broadcast proof fn frame_bulk_stos(s: CpuState, size: u8, rep: RepKind)
    ensures
        kept(s, (#[trigger] bulk_stos(s, size, rep)).0),
{
    broadcast use {frame_translate_access, frame_with_reg, frame_filled};

    reveal(bulk_stos);
}

pub broadcast proof fn frame_bulk_movs(s: CpuState, size: u8, rep: RepKind)
    ensures
        kept(s, (#[trigger] bulk_movs(s, size, rep)).0),
{
    broadcast use {frame_translate_access, frame_with_reg, frame_copied};

    reveal(bulk_movs);
}

pub broadcast proof fn frame_do_string(
    s: CpuState,
    kind: StringOp,
    size: u8,
    rep: RepKind,
    start: u64,
)
    ensures
        kept(s, #[trigger] do_string(s, kind, size, rep, start)),
{
    broadcast use {frame_string_stepped, frame_bulk_stos, frame_bulk_movs};

    reveal(do_string);
}

pub broadcast proof fn frame_split_stored(s: CpuState, v: u64)
    ensures
        kept(s, #[trigger] split_stored(s, v)),
{
    broadcast use frame_with_reg;

}

pub broadcast proof fn frame_with_base(s: CpuState, i: int, v: u64)
    ensures
        kept(s, #[trigger] with_base(s, i, v)),
{
}

pub broadcast proof fn frame_with_msr(s: CpuState, n: u32, v: u64)
    ensures
        kept(s, #[trigger] with_msr(s, n, v)),
{
}

pub broadcast proof fn frame_msr_written(s: CpuState, n: u32, v: u64)
    ensures
        kept(s, #[trigger] msr_written(s, n, v)),
{
    broadcast use {frame_with_base, frame_with_msr};

}

pub broadcast proof fn frame_do_msr(s: CpuState, op: u8)
    ensures
        kept(s, #[trigger] do_msr(s, op)),
{
    broadcast use {frame_split_stored, frame_msr_written};

}

pub broadcast proof fn frame_gs_swapped(s: CpuState)
    ensures
        kept(s, #[trigger] gs_swapped(s)),
{
    broadcast use {frame_with_base, frame_with_msr};

}

pub broadcast proof fn frame_do_mov_cr(s: CpuState, p: Prefix, op: u8)
    ensures
        kept(s, #[trigger] do_mov_cr(s, p, op)),
{
    broadcast use {frame_cr_write, frame_decode_rm, frame_with_reg};

}

pub broadcast proof fn frame_do_syscall(s: CpuState)
    ensures
        kept(s, #[trigger] do_syscall(s)),
{
}

pub broadcast proof fn frame_do_sysret(s: CpuState)
    ensures
        kept(s, #[trigger] do_sysret(s)),
{
}

pub broadcast proof fn frame_group7_reg(s: CpuState, m: u8)
    ensures
        kept(s, #[trigger] group7_reg(s, m)),
{
    broadcast use {frame_with_reg, frame_with_flags, frame_split_stored, frame_gs_swapped};

}

pub broadcast proof fn frame_table_read(s: CpuState, a: u64)
    ensures
        kept(s, (#[trigger] table_read(s, a)).0),
{
    broadcast use frame_mem_read;

}

pub broadcast proof fn frame_table_written(s: CpuState, a: u64, t: (u64, u16))
    ensures
        kept(s, #[trigger] table_written(s, a, t)),
{
    broadcast use frame_mem_write;

}

pub broadcast proof fn frame_task_loaded(s: CpuState, sel: u16)
    ensures
        kept(s, #[trigger] task_loaded(s, sel)),
{
}

pub broadcast proof fn frame_do_group6(s: CpuState, p: Prefix)
    ensures
        kept(s, #[trigger] do_group6(s, p)),
{
    broadcast use {frame_decode_rm, frame_load_operand, frame_task_loaded};

}

pub broadcast proof fn frame_do_cpuid(s: CpuState)
    ensures
        kept(s, #[trigger] do_cpuid(s)),
{
}

pub broadcast proof fn frame_random_stored(s: CpuState, reg: int, size: u8)
    ensures
        kept(s, #[trigger] random_stored(s, reg, size)),
{
    broadcast use {frame_store_operand, frame_with_flags};

}

pub broadcast proof fn frame_do_group9(s: CpuState, p: Prefix)
    ensures
        kept(s, #[trigger] do_group9(s, p)),
{
    broadcast use {frame_decode_rm, frame_exchange_pair, frame_random_stored};

}

pub broadcast proof fn frame_do_ud2(s: CpuState, p: Prefix)
    ensures
        kept(s, (#[trigger] do_ud2(s, p)).0),
{
    broadcast use {frame_with_rip, frame_raised};

}

pub broadcast proof fn frame_do_packed(s: CpuState, p: Prefix, k: Packed)
    ensures
        kept(s, #[trigger] do_packed(s, p, k)),
{
    broadcast use {frame_decode_rm, frame_load128, frame_with_xmm};

}

pub broadcast proof fn frame_do_mov_load(s: CpuState, p: Prefix)
    ensures
        kept(s, #[trigger] do_mov_load(s, p)),
{
    broadcast use {frame_decode_rm, frame_load128, frame_load64, frame_load32, frame_with_xmm};

}

pub broadcast proof fn frame_do_mov_store(s: CpuState, p: Prefix)
    ensures
        kept(s, #[trigger] do_mov_store(s, p)),
{
    broadcast use {frame_mem_write, frame_decode_rm, frame_store128, frame_with_xmm};

}

pub broadcast proof fn frame_do_mov_whole(s: CpuState, p: Prefix, store: bool)
    ensures
        kept(s, #[trigger] do_mov_whole(s, p, store)),
{
    broadcast use {frame_decode_rm, frame_load128, frame_store128, frame_with_xmm};

}

pub broadcast proof fn frame_do_mov_half_load(s: CpuState, p: Prefix, op: u8)
    ensures
        kept(s, #[trigger] do_mov_half_load(s, p, op)),
{
    broadcast use {frame_decode_rm, frame_load64, frame_with_xmm};

}

pub broadcast proof fn frame_do_mov_half_store(s: CpuState, p: Prefix, op: u8)
    ensures
        kept(s, #[trigger] do_mov_half_store(s, p, op)),
{
    broadcast use {frame_mem_write, frame_decode_rm};

}

pub broadcast proof fn frame_do_movd_load(s: CpuState, p: Prefix)
    ensures
        kept(s, #[trigger] do_movd_load(s, p)),
{
    broadcast use {frame_decode_rm, frame_load_operand, frame_with_xmm};

}

pub broadcast proof fn frame_do_movd_store(s: CpuState, p: Prefix)
    ensures
        kept(s, #[trigger] do_movd_store(s, p)),
{
    broadcast use {frame_decode_rm, frame_store_operand, frame_load64, frame_with_xmm};

}

pub broadcast proof fn frame_do_movq_store(s: CpuState, p: Prefix)
    ensures
        kept(s, #[trigger] do_movq_store(s, p)),
{
    broadcast use {frame_mem_write, frame_decode_rm, frame_with_xmm};

}

pub broadcast proof fn frame_do_shuffle(s: CpuState, p: Prefix)
    ensures
        kept(s, #[trigger] do_shuffle(s, p)),
{
    broadcast use {frame_fetch_byte, frame_decode_rm, frame_load128, frame_with_xmm};

}

pub broadcast proof fn frame_do_shuffle_pair(s: CpuState, p: Prefix)
    ensures
        kept(s, #[trigger] do_shuffle_pair(s, p)),
{
    broadcast use {frame_fetch_byte, frame_decode_rm, frame_load128, frame_with_xmm};

}

pub broadcast proof fn frame_do_insert_word(s: CpuState, p: Prefix)
    ensures
        kept(s, #[trigger] do_insert_word(s, p)),
{
    broadcast use {frame_fetch_byte, frame_decode_rm, frame_load_operand, frame_with_xmm};

}

pub broadcast proof fn frame_do_extract_word(s: CpuState, p: Prefix)
    ensures
        kept(s, #[trigger] do_extract_word(s, p)),
{
    broadcast use {frame_fetch_byte, frame_decode_rm, frame_load128, frame_with_reg};

}

pub broadcast proof fn frame_do_move_mask(s: CpuState, p: Prefix)
    ensures
        kept(s, #[trigger] do_move_mask(s, p)),
{
    broadcast use {frame_decode_rm, frame_load128, frame_with_reg};

}

pub broadcast proof fn frame_do_shift_imm(s: CpuState, p: Prefix, op: u8)
    ensures
        kept(s, (#[trigger] do_shift_imm(s, p, op)).0),
{
    broadcast use {frame_fetch_byte, frame_decode_rm, frame_with_xmm};

}

pub broadcast proof fn frame_form_load(s: CpuState, rm: Rm, f: Form)
    ensures
        kept(s, (#[trigger] form_load(s, rm, f)).0),
{
    broadcast use {frame_load128, frame_load64, frame_load32};

}

pub broadcast proof fn frame_do_arith(s: CpuState, p: Prefix, op: u8)
    ensures
        kept(s, (#[trigger] do_arith(s, p, op)).0),
{
    broadcast use {frame_decode_rm, frame_form_load};

}

pub broadcast proof fn frame_do_mask_compare(s: CpuState, p: Prefix)
    ensures
        kept(s, (#[trigger] do_mask_compare(s, p)).0),
{
    broadcast use {frame_fetch_byte, frame_decode_rm, frame_form_load};

}

pub broadcast proof fn frame_do_flag_compare(s: CpuState, p: Prefix)
    ensures
        kept(s, (#[trigger] do_flag_compare(s, p)).0),
{
    broadcast use {frame_decode_rm, frame_form_load};

}

pub broadcast proof fn frame_do_from_int(s: CpuState, p: Prefix)
    ensures
        kept(s, (#[trigger] do_from_int(s, p)).0),
{
    broadcast use {frame_decode_rm, frame_load_operand};

}

pub broadcast proof fn frame_do_to_int(s: CpuState, p: Prefix, op: u8)
    ensures
        kept(s, (#[trigger] do_to_int(s, p, op)).0),
{
    broadcast use {frame_decode_rm, frame_form_load};

}

pub broadcast proof fn frame_do_convert(s: CpuState, p: Prefix)
    ensures
        kept(s, (#[trigger] do_convert(s, p)).0),
{
    broadcast use {frame_decode_rm, frame_load128, frame_load64, frame_load32};

}

pub broadcast proof fn frame_do_convert_int4(s: CpuState, p: Prefix)
    ensures
        kept(s, (#[trigger] do_convert_int4(s, p)).0),
{
    broadcast use {frame_decode_rm, frame_load128};

}

pub broadcast proof fn frame_do_convert_int2(s: CpuState, p: Prefix)
    ensures
        kept(s, (#[trigger] do_convert_int2(s, p)).0),
{
    broadcast use {frame_decode_rm, frame_load128};

}

pub broadcast proof fn frame_with_st(s: CpuState, i: int, v: u64)
    ensures
        kept(s, #[trigger] with_st(s, i, v)),
{
}

pub broadcast proof fn frame_pushed(s: CpuState, v: u64)
    ensures
        kept(s, #[trigger] pushed(s, v)),
{
}

pub broadcast proof fn frame_popped(s: CpuState)
    ensures
        kept(s, #[trigger] popped(s)),
{
}

pub broadcast proof fn frame_popped_n(s: CpuState, n: nat)
    ensures
        kept(s, #[trigger] popped_n(s, n)),
    decreases n,
{
    broadcast use frame_popped;

    if n > 0 {
        frame_popped_n(s, (n - 1) as nat);
    }
}

pub broadcast proof fn frame_x87_load(s: CpuState, op: u8, g: u8, addr: u64)
    ensures
        kept(s, (#[trigger] x87_load(s, op, g, addr)).0),
{
    broadcast use {frame_mem_read, frame_pushed};

}

pub broadcast proof fn frame_x87_memory_arith(s: CpuState, op: u8, g: u8, addr: u64)
    ensures
        kept(s, (#[trigger] x87_memory_arith(s, op, g, addr)).0),
{
    broadcast use frame_mem_read;

}

pub broadcast proof fn frame_x87_memory(s: CpuState, op: u8, g: u8, addr: u64)
    ensures
        kept(s, (#[trigger] x87_memory(s, op, g, addr)).0),
{
    broadcast use {
        frame_mem_read, frame_mem_write, frame_popped, frame_x87_load,
        frame_x87_memory_arith,
    };

    reveal(x87_memory);
}

pub broadcast proof fn frame_x87_d9(s: CpuState, m: u8)
    ensures
        kept(s, (#[trigger] x87_d9(s, m)).0),
{
    broadcast use {frame_with_st, frame_pushed};

}

pub broadcast proof fn frame_x87_other(s: CpuState, op: u8, m: u8)
    ensures
        kept(s, (#[trigger] x87_other(s, op, m)).0),
{
    broadcast use {frame_with_reg, frame_with_st, frame_popped};

}

pub broadcast proof fn frame_x87_register(s: CpuState, op: u8, m: u8)
    ensures
        kept(s, (#[trigger] x87_register(s, op, m)).0),
{
    broadcast use {frame_x87_d9, frame_x87_other};

    reveal(x87_register);
}

pub broadcast proof fn frame_do_x87(s: CpuState, p: Prefix, op: u8)
    ensures
        kept(s, (#[trigger] do_x87(s, p, op)).0),
{
    broadcast use {
        frame_fetch_byte, frame_decode_rm, frame_with_rip, frame_x87_memory,
        frame_x87_register,
    };

}

pub broadcast proof fn frame_read_numbers(s: CpuState, addr: u64, n: nat)
    ensures
        kept(s, (#[trigger] read_numbers(s, addr, n)).0),
    decreases n,
{
    broadcast use frame_mem_read;

    if n > 0 {
        frame_read_numbers(s, addr, (n - 1) as nat);
    }
}

pub broadcast proof fn frame_read_xmm(s: CpuState, addr: u64, n: nat)
    ensures
        kept(s, #[trigger] read_xmm(s, addr, n)),
    decreases n,
{
    broadcast use {frame_mem_read, frame_with_xmm};

    if n > 0 {
        frame_read_xmm(s, addr, (n - 1) as nat);
    }
}

pub broadcast proof fn frame_state_read(s: CpuState, addr: u64)
    ensures
        kept(s, (#[trigger] state_read(s, addr)).0),
{
    broadcast use {frame_mem_read, frame_read_numbers, frame_read_xmm};

    reveal(state_read);
}

pub broadcast proof fn frame_do_state(s: CpuState, p: Prefix)
    ensures
        kept(s, (#[trigger] do_state(s, p)).0),
{
    broadcast use {frame_mem_read, frame_mem_write, frame_decode_rm, frame_state_read};

}

pub broadcast proof fn frame_write_number(s: CpuState, addr: u64, m: u64, e: u64)
    ensures
        kept(s, #[trigger] write_number(s, addr, m, e)),
{
    broadcast use frame_mem_write;

}

pub broadcast proof fn frame_write_numbers(
    s: CpuState,
    addr: u64,
    a: FpAskState,
    res: Seq<u64>,
    n: nat,
)
    ensures
        kept(s, #[trigger] write_numbers(s, addr, a, res, n)),
    decreases n,
{
    broadcast use frame_write_number;

    if n > 0 {
        frame_write_numbers(s, addr, a, res, (n - 1) as nat);
    }
}

pub broadcast proof fn frame_write_xmm(s: CpuState, addr: u64, n: nat)
    ensures
        kept(s, #[trigger] write_xmm(s, addr, n)),
    decreases n,
{
    broadcast use frame_mem_write;

    if n > 0 {
        frame_write_xmm(s, addr, (n - 1) as nat);
    }
}

pub broadcast proof fn frame_write_head(s: CpuState, addr: u64)
    ensures
        kept(s, #[trigger] write_head(s, addr)),
{
    broadcast use frame_mem_write;

}

pub broadcast proof fn frame_state_written(
    s: CpuState,
    addr: u64,
    header: bool,
    a: FpAskState,
    res: Seq<u64>,
)
    ensures
        kept(s, #[trigger] state_written(s, addr, header, a, res)),
{
    broadcast use {frame_mem_write, frame_write_numbers, frame_write_xmm, frame_write_head};

    reveal(state_written);
}

pub broadcast proof fn frame_fp_done(s: CpuState, a: FpAskState, res: Seq<u64>)
    ensures
        kept(s, #[trigger] fp_done(s, a, res)),
{
    broadcast use {
        frame_mem_write, frame_reg_write, frame_with_xmm, frame_with_flags, frame_with_st,
        frame_pushed, frame_popped, frame_popped_n, frame_write_number, frame_state_written,
    };

    reveal(fp_done);
}

pub broadcast proof fn frame_plainly(s: CpuState)
    ensures
        kept(s, (#[trigger] plainly(s)).0),
{
}

pub broadcast proof fn frame_undefined(s: CpuState, p: Prefix)
    ensures
        kept(s, (#[trigger] undefined(s, p)).0),
{
}

pub broadcast proof fn frame_map_5_7(s: CpuState, p: Prefix, op: u8)
    ensures
        kept(s, (#[trigger] map_5_7(s, p, op)).0),
{
    broadcast use {
        frame_do_imul_imm, frame_do_movsxd, frame_do_push_pop, frame_do_push_imm,
        frame_jumped, frame_plainly, frame_undefined,
    };

    reveal(map_5_7);
}

pub broadcast proof fn frame_map_8_9(s: CpuState, p: Prefix, op: u8)
    ensures
        kept(s, (#[trigger] map_8_9(s, p, op)).0),
{
    broadcast use {
        frame_with_flags, frame_stack_push, frame_stack_pop, frame_do_alu_imm,
        frame_do_test, frame_do_mov, frame_do_xchg, frame_do_xchg_acc,
        frame_do_mov_from_seg, frame_do_mov_to_seg, frame_do_lea, frame_do_extend_acc,
        frame_do_spread_sign, frame_do_pop_rm, frame_plainly, frame_undefined,
    };

    reveal(map_8_9);
}

pub broadcast proof fn frame_map_a_b(s: CpuState, p: Prefix, op: u8)
    ensures
        kept(s, (#[trigger] map_a_b(s, p, op)).0),
{
    broadcast use {
        frame_do_test_imm, frame_do_mov_reg_imm, frame_do_string, frame_plainly,
        frame_undefined,
    };

    reveal(map_a_b);
}

pub broadcast proof fn frame_map_c_d(s: CpuState, p: Prefix, op: u8)
    ensures
        kept(s, (#[trigger] map_c_d(s, p, op)).0),
{
    broadcast use {
        frame_fetch_byte, frame_delivered, frame_do_shift, frame_do_mov_imm, frame_do_ret,
        frame_do_leave, frame_do_far_ret, frame_do_iret, frame_do_x87, frame_plainly,
        frame_undefined,
    };

    reveal(map_c_d);
}

pub broadcast proof fn frame_do_group4(s: CpuState, p: Prefix)
    ensures
        kept(s, #[trigger] do_group4(s, p)),
{
    broadcast use {frame_decode_rm, frame_stepped};

}

pub broadcast proof fn frame_map_e_f(s: CpuState, p: Prefix, op: u8)
    ensures
        kept(s, (#[trigger] map_e_f(s, p, op)).0),
{
    broadcast use {
        frame_jumped, frame_do_call, frame_do_group5, frame_do_port, frame_do_hlt,
        frame_do_flag, frame_do_group3, frame_plainly, frame_undefined, frame_do_group4,
    };

    reveal(map_e_f);
}

pub broadcast proof fn frame_map_0f_mid(s: CpuState, p: Prefix, op: u8)
    ensures
        kept(s, (#[trigger] map_0f_mid(s, p, op)).0),
{
    broadcast use {
        frame_do_cmov, frame_do_mov_whole, frame_do_movd_load, frame_do_movd_store,
        frame_do_shuffle, frame_do_shift_imm, frame_do_arith, frame_do_convert,
        frame_do_convert_int4, frame_plainly, frame_undefined,
    };

    reveal(map_0f_mid);
}

pub broadcast proof fn frame_map_0f_8_b(s: CpuState, p: Prefix, op: u8)
    ensures
        kept(s, (#[trigger] map_0f_8_b(s, p, op)).0),
{
    broadcast use {
        frame_jumped, frame_do_setcc, frame_do_extend, frame_do_imul2, frame_do_bit_reg,
        frame_do_bit_imm, frame_do_bit_scan, frame_do_exchange, frame_do_double_shift,
        frame_do_cpuid, frame_do_state, frame_plainly, frame_undefined,
    };

    reveal(map_0f_8_b);
}

pub broadcast proof fn frame_map_0f_c_f(s: CpuState, p: Prefix, op: u8)
    ensures
        kept(s, (#[trigger] map_0f_c_f(s, p, op)).0),
{
    broadcast use {
        frame_do_xadd, frame_do_bswap, frame_do_group9, frame_do_movq_store,
        frame_do_shuffle_pair, frame_do_insert_word, frame_do_extract_word,
        frame_do_move_mask, frame_do_mask_compare, frame_do_convert_int2, frame_plainly,
        frame_undefined,
    };

    reveal(map_0f_c_f);
}

// ----- the one exception, and the whole -----

/// `LIDT` loads the descriptor table register; the rest of group 7 leaves it alone.
pub broadcast proof fn frame_group7_mem(s: CpuState, ext: u8, a: u64)
    ensures
        kept_but_table(s, #[trigger] group7_mem(s, ext, a)),
        ext != 3 ==> kept(s, group7_mem(s, ext, a)),
{
    broadcast use {frame_flushed_pcid, frame_table_read, frame_table_written};
}

pub broadcast proof fn frame_do_group7(s: CpuState, p: Prefix)
    ensures
        kept_but_table(s, #[trigger] do_group7(s, p)),
{
    broadcast use {frame_decode_rm, frame_with_rip, frame_group7_reg, frame_group7_mem};
}

pub broadcast proof fn frame_map_0f_low(s: CpuState, p: Prefix, op: u8)
    ensures
        kept_but_table(s, (#[trigger] map_0f_low(s, p, op)).0),
        op != 0x01 ==> kept(s, map_0f_low(s, p, op).0),
{
    broadcast use {
        frame_decode_rm, frame_split_stored, frame_do_msr, frame_do_mov_cr,
        frame_do_syscall, frame_do_sysret, frame_do_group7, frame_do_group6, frame_do_ud2,
        frame_do_mov_load, frame_do_mov_store, frame_do_mov_whole, frame_do_mov_half_load,
        frame_do_mov_half_store, frame_do_flag_compare, frame_do_from_int, frame_do_to_int,
        frame_plainly, frame_undefined,
    };

    reveal(map_0f_low);
}

pub broadcast proof fn frame_map_0f(s: CpuState, p: Prefix)
    ensures
        kept_but_table(s, (#[trigger] map_0f(s, p)).0),
        fetch_byte(s).1 != 0x01 ==> kept(s, map_0f(s, p).0),
{
    broadcast use {
        frame_fetch_byte, frame_do_packed, frame_plainly, frame_map_0f_low,
        frame_map_0f_mid, frame_map_0f_8_b, frame_map_0f_c_f,
    };

    reveal(map_0f);
}

/// No instruction touches the switches or the count of retired instructions, takes the platform away,
/// or puts another fault in the place
/// of a latched one; and only group 7, `0F 01`, loads the descriptor table register.
pub proof fn law_executed_keeps(s: CpuState, p: Prefix, op: u8)
    ensures
        kept_but_table(s, executed(s, p, op).0),
        op != 0x0f || fetch_byte(s).1 != 0x01 ==> kept(s, executed(s, p, op).0),
{
    broadcast use {
        frame_do_alu, frame_plainly, frame_undefined, frame_map_5_7, frame_map_8_9,
        frame_map_a_b, frame_map_c_d, frame_map_e_f, frame_map_0f,
    };

    reveal(executed);
}

/// The same of fetching an opcode.
pub proof fn law_fetch_keeps(s: CpuState)
    ensures
        kept(s, opcode_fetched(s).0),
{
    broadcast use {frame_prefixes, frame_fetch_byte};

    reveal(opcode_fetched);
}

/// The same of completing an instruction that waited for floating-point arithmetic.
pub proof fn law_complete_keeps(s: CpuState, a: FpAskState, res: Seq<u64>)
    ensures
        kept(s, fp_done(s, a, res)),
{
    broadcast use frame_fp_done;

}

/// A step leaves the switches, the presence of the platform, the size of the translation cache and the
/// count of retired instructions alone: retiring is the run's.
pub proof fn law_step_keeps(s: CpuState)
    ensures
        one_step(s).0.cfg == s.cfg,
        one_step(s).0.platform == s.platform,
        one_step(s).0.insns == s.insns,
        s.tlb.len() == TLB_SETS ==> one_step(s).0.tlb.len() == TLB_SETS,
{
    broadcast use frame_raised;

    reveal(one_step);
    reveal(fault_taken);
    law_fetch_keeps(s);
    let (s1, (p, op)) = opcode_fetched(s);
    law_executed_keeps(s1, p, op);
}

/// The same of an instruction that waited for floating-point arithmetic.
pub proof fn law_completion_keeps(s: CpuState, a: FpAskState, v: SavedState, res: Seq<u64>)
    ensures
        completed(s, a, v, res).cfg == s.cfg,
        completed(s, a, v, res).platform == s.platform,
        completed(s, a, v, res).insns == s.insns,
        s.tlb.len() == TLB_SETS ==> completed(s, a, v, res).tlb.len() == TLB_SETS,
{
    broadcast use frame_raised;

    reveal(completed);
    reveal(fault_taken);
    law_complete_keeps(s, a, res);
}

/// The next instruction is of group 7, `0F 01`, which can load the descriptor table register.
pub open spec fn table_load_next(s: CpuState) -> bool {
    let (s1, (_, op)) = opcode_fetched(s);
    op == 0x0f && fetch_byte(s1).1 == 0x01
}

/// A step from a machine without a descriptor table, whose instruction comes to a page fault and
/// loads no table: the registers, flags, segments and the privilege level are as before it, `CR2`
/// holds the address, and no fault is latched.
pub proof fn law_fault_leaves_machine(s: CpuState)
    requires
        s.sys.idtr.1 == 0,
        faulting(s) is Some,
        !table_load_next(s),
    ensures
        one_step(s).1 is Done,
        saved_of(one_step(s).0) == saved_of(s),
        one_step(s).0.cr2 == faulting(s)->0.fault->0.addr,
        one_step(s).0.fault is None,
{
    law_fetch_keeps(s);
    let (s1, (p, op)) = opcode_fetched(s);
    law_executed_keeps(s1, p, op);
    law_step_rolls_back(s);
}

} // verus!
