//! Laws of booting: what the kernel finds in memory and in the registers at its entry.
use vstd::prelude::*;
#[allow(unused_imports)]
use crate::boot::{
    boot_ram, boot_state, bootable, elf_loaded, fb_base_of, file_bytes, gdt_rows, header_rows,
    lemma_loaded_len, map_rows, memory_map, ph_at, rows_written, screen_rows, segment_at,
    segment_loaded, tables_written, zero_page_rows, Segment, FB_SIZE,
};
#[allow(unused_imports)]
use crate::kappa::put_at;
#[allow(unused_imports)]
use crate::memory_laws::law_store_exact;
#[allow(unused_imports)]
use crate::mmu::{le_read, le_write};
#[allow(unused_imports)]
use crate::snap::{dec_u16, dec_u32, dec_u64};
#[allow(unused_imports)]
use crate::word_laws::{
    byte_num, law_load_number, law_store_number, lemma_add_byte, number_at, weight,
};

verus! {

// ----- rows -----

/// Two rows have no byte in common.
pub open spec fn apart(a: (u64, u8, u64), b: (u64, u8, u64)) -> bool {
    a.0 + a.1 <= b.0 || b.0 + b.1 <= a.0
}

proof fn lemma_same_number(r: Seq<u8>, q: Seq<u8>, a: int, n: nat)
    requires
        r.len() == q.len(),
        forall|i: int| a <= i < a + n && 0 <= i < r.len() ==> r[i] == q[i],
    ensures
        number_at(r, a, n) == number_at(q, a, n),
    decreases n,
{
    if n > 0 {
        lemma_same_number(r, q, a, (n - 1) as nat);
    }
}

/// What was written at a place is the number there.
proof fn lemma_written_number(r: Seq<u8>, a: int, n: nat, v: u64)
    requires
        n <= 8,
        0 <= a,
        a + n <= r.len(),
    ensures
        number_at(le_write(r, a, n, v), a, n) == v as int % weight(n as int),
{
    law_load_number(le_write(r, a, n, v), a, n);
    crate::memory_laws::law_store_load(r, a, n, v);
    crate::memory_laws::lemma_join(v, 0);
    let m = crate::memory_laws::low_bytes(v, n);
    lemma_low_number(v, n);
}

proof fn lemma_low_number(v: u64, n: nat)
    requires
        n <= 8,
    ensures
        crate::memory_laws::low_bytes(v, n) == v as int % weight(n as int),
{
    lemma_low_bits(v);
}

proof fn lemma_low_bits(v: u64)
    ensures
        v & !(0xffff_ffff_ffff_ffffu64 << 0) == 0,
        v & !(0xffff_ffff_ffff_ffffu64 << 8) == v % 0x100,
        v & !(0xffff_ffff_ffff_ffffu64 << 16) == v % 0x1_0000,
        v & !(0xffff_ffff_ffff_ffffu64 << 24) == v % 0x100_0000,
        v & !(0xffff_ffff_ffff_ffffu64 << 32) == v % 0x1_0000_0000,
        v & !(0xffff_ffff_ffff_ffffu64 << 40) == v % 0x100_0000_0000,
        v & !(0xffff_ffff_ffff_ffffu64 << 48) == v % 0x1_0000_0000_0000,
        v & !(0xffff_ffff_ffff_ffffu64 << 56) == v % 0x100_0000_0000_0000,
        v >> 32 == v / 0x1_0000_0000,
{
    crate::bit_facts::lemma_bytes_of_words(v, 0, 0, 0, 0, 0, 0);
}

/// Rows change no byte outside them.
proof fn lemma_rows_outside(r: Seq<u8>, base: u64, t: Seq<(u64, u8, u64)>, n: nat, x: int)
    requires
        n <= t.len(),
        0 <= x < r.len(),
        forall|j: int| 0 <= j < n ==> !(base + (#[trigger] t[j]).0 <= x < base + t[j].0 + t[j].1),
    ensures
        rows_written(r, base, t, n).len() == r.len(),
        rows_written(r, base, t, n)[x] == r[x],
    decreases n,
{
    if n > 0 {
        lemma_rows_outside(r, base, t, (n - 1) as nat, x);
        let row = t[n - 1];
        law_store_exact(rows_written(r, base, t, (n - 1) as nat), base + row.0, row.1 as nat, row.2);
    }
}

proof fn lemma_rows_size(r: Seq<u8>, base: u64, t: Seq<(u64, u8, u64)>, n: nat)
    ensures
        rows_written(r, base, t, n).len() == r.len(),
    decreases n,
{
    if n > 0 {
        lemma_rows_size(r, base, t, (n - 1) as nat);
        let row = t[n - 1];
        law_store_exact(rows_written(r, base, t, (n - 1) as nat), base + row.0, row.1 as nat, row.2);
    }
}

/// A row that no later one touches can be read back.
proof fn lemma_row_there(r: Seq<u8>, base: u64, t: Seq<(u64, u8, u64)>, n: nat, i: int)
    requires
        0 <= i < n <= t.len(),
        t[i].1 <= 8,
        base + t[i].0 + t[i].1 <= r.len(),
        forall|j: int| i < j < n ==> apart(t[i], #[trigger] t[j]),
    ensures
        number_at(rows_written(r, base, t, n), base + t[i].0, t[i].1 as nat) == t[i].2 as int % weight(
            t[i].1 as int,
        ),
    decreases n,
{
    let q = rows_written(r, base, t, (n - 1) as nat);
    let row = t[n - 1];
    lemma_rows_size(r, base, t, (n - 1) as nat);
    law_store_exact(q, base + row.0, row.1 as nat, row.2);
    if i == n - 1 {
        lemma_written_number(q, base + row.0, row.1 as nat, row.2);
    } else {
        lemma_row_there(r, base, t, (n - 1) as nat, i);
        assert(apart(t[i], t[n - 1]));
        lemma_same_number(rows_written(r, base, t, n), q, base + t[i].0, t[i].1 as nat);
    }
}

/// A field of the page that `RSI` points to.
pub open spec fn param(s: crate::cpu::CpuState, off: int, n: nat) -> int {
    number_at(s.ram, s.r[6] + off, n)
}

// ----- the memory of the booted machine -----

proof fn lemma_tables_outside(r: Seq<u8>, n: nat, x: int)
    requires
        n <= 512,
        0 <= x < r.len(),
        !(0x9000 <= x < 0xb000),
    ensures
        tables_written(r, n).len() == r.len(),
        tables_written(r, n)[x] == r[x],
    decreases n,
{
    if n == 0 {
        law_store_exact(r, 0x9000, 8, 0xa000u64 | 0x3);
    } else {
        lemma_tables_outside(r, (n - 1) as nat, x);
        law_store_exact(
            tables_written(r, (n - 1) as nat),
            0xa000 + 8 * (n - 1),
            8,
            (((n - 1) as u64) << 30) | 0x83,
        );
    }
}

/// Memory before the tables: the kernel and the command line.
spec fn early(ram: nat, kernel: Seq<u8>, cmdline: Seq<u8>) -> Seq<u8> {
    let r1 = elf_loaded(Seq::new(ram, |i: int| 0u8), kernel, dec_u16(kernel, 56) as nat);
    put_at(r1, 0x2_0000, cmdline.push(0u8))
}

proof fn lemma_map_rows(m: Seq<(u64, u64, u32)>, n: nat)
    requires
        n <= 8,
    ensures
        map_rows(m, n).len() == 3 * n,
        forall|i: int|
            0 <= i < n ==> ({
                &&& #[trigger] map_rows(m, n)[3 * i] == ((0x2d0 + 20 * i) as u64, 8u8, m[i].0)
                &&& map_rows(m, n)[3 * i + 1] == ((0x2d8 + 20 * i) as u64, 8u8, m[i].1)
                &&& map_rows(m, n)[3 * i + 2] == ((0x2e0 + 20 * i) as u64, 4u8, m[i].2 as u64)
            }),
    decreases n,
{
    if n > 0 {
        lemma_map_rows(m, (n - 1) as nat);
        let w = map_rows(m, (n - 1) as nat);
        let t = map_rows(m, n);
        assert forall|i: int| 0 <= i < n implies ({
            &&& #[trigger] t[3 * i] == ((0x2d0 + 20 * i) as u64, 8u8, m[i].0)
            &&& t[3 * i + 1] == ((0x2d8 + 20 * i) as u64, 8u8, m[i].1)
            &&& t[3 * i + 2] == ((0x2e0 + 20 * i) as u64, 4u8, m[i].2 as u64)
        }) by {
            if i < n - 1 {
                assert(w[3 * i] == ((0x2d0 + 20 * i) as u64, 8u8, m[i].0));
                assert(t[3 * i] == w[3 * i] && t[3 * i + 1] == w[3 * i + 1] && t[3 * i + 2] == w[3 * i
                    + 2]);
            }
        }
    }
}

/// The rows of the zero page by number.
#[verifier::spinoff_prover]
proof fn lemma_zero_rows(ram: u64)
    ensures
        ({
            let t = zero_page_rows(ram);
            let m = memory_map(ram);
            &&& m.len() <= 8
            &&& t.len() == 26 + 3 * m.len()
            &&& forall|i: int| 0 <= i < 9 ==> #[trigger] t[i] == header_rows()[i]
            &&& forall|i: int|
                9 <= i < 25 ==> #[trigger] t[i] == screen_rows(fb_base_of(ram))[i - 9]
            &&& t[25] == (0x1e8u64, 1u8, m.len() as u64)
            &&& forall|i: int| 26 <= i < t.len() ==> #[trigger] t[i] == map_rows(m, m.len())[i - 26]
            &&& forall|i: int| 0 <= i < 26 ==> (#[trigger] t[i]).0 + t[i].1 <= 0x2d0 && t[i].1 <= 8
            &&& forall|i: int|
                26 <= i < t.len() ==> 0x2d0 <= (#[trigger] t[i]).0 && t[i].0 + t[i].1 <= 0x380 && t[i].1 <= 8
        }),
{
    let m = memory_map(ram);
    lemma_map_rows(m, m.len());
    let t = zero_page_rows(ram);
    assert forall|i: int| 26 <= i < t.len() implies 0x2d0 <= (#[trigger] t[i]).0 && t[i].0 + t[i].1
        <= 0x380 && t[i].1 <= 8 by {
        let k = (i - 26) / 3;
        let d = (i - 26) % 3;
        assert(t[i] == map_rows(m, m.len())[i - 26]);
        assert(map_rows(m, m.len())[3 * k] == ((0x2d0 + 20 * k) as u64, 8u8, m[k].0));
        assert(i - 26 == 3 * k + d);
    }
}

/// The fixed rows have no byte in common.
#[verifier::spinoff_prover]
#[verifier::rlimit(60)]
proof fn lemma_fixed_apart(ram: u64, i: int)
    requires
        0 <= i < 26,
    ensures
        forall|j: int|
            i < j < zero_page_rows(ram).len() ==> apart(
                zero_page_rows(ram)[i],
                #[trigger] zero_page_rows(ram)[j],
            ),
{
    lemma_zero_rows(ram);
    let t = zero_page_rows(ram);
    assert forall|j: int| i < j < t.len() implies apart(t[i], #[trigger] t[j]) by {
        if j < 26 {
            assert(t[i] == t[i] && t[j] == t[j]);
        }
    }
}

proof fn lemma_map_apart(ram: u64, i: int)
    requires
        26 <= i < zero_page_rows(ram).len(),
    ensures
        forall|j: int|
            i < j < zero_page_rows(ram).len() ==> apart(
                zero_page_rows(ram)[i],
                #[trigger] zero_page_rows(ram)[j],
            ),
{
    let t = zero_page_rows(ram);
    let m = memory_map(ram);
    lemma_zero_rows(ram);
    lemma_map_rows(m, m.len());
    assert forall|j: int| i < j < t.len() implies apart(t[i], #[trigger] t[j]) by {
        let k = (i - 26) / 3;
        let d = (i - 26) % 3;
        let l = (j - 26) / 3;
        let e = (j - 26) % 3;
        assert(t[i] == map_rows(m, m.len())[i - 26] && t[j] == map_rows(m, m.len())[j - 26]);
        assert(map_rows(m, m.len())[3 * k] == ((0x2d0 + 20 * k) as u64, 8u8, m[k].0));
        assert(map_rows(m, m.len())[3 * l] == ((0x2d0 + 20 * l) as u64, 8u8, m[l].0));
        assert(i - 26 == 3 * k + d && j - 26 == 3 * l + e);
    }
}

/// Outside the tables that booting writes, memory is the kernel and the command line.
proof fn lemma_early(ram: nat, kernel: Seq<u8>, cmdline: Seq<u8>, x: int)
    requires
        bootable(ram as int, kernel, cmdline),
        ram <= u64::MAX,
        0 <= x < ram,
        !(0x500 <= x < 0x520),
        !(0x7000 <= x < 0x7380),
        !(0x9000 <= x < 0xb000),
    ensures
        boot_ram(ram, kernel, cmdline).len() == ram,
        boot_ram(ram, kernel, cmdline)[x] == early(ram, kernel, cmdline)[x],
{
    reveal(boot_ram);
    lemma_loaded_len(Seq::new(ram, |i: int| 0u8), kernel, dec_u16(kernel, 56) as nat);
    let r2 = early(ram, kernel, cmdline);
    let rows = zero_page_rows(ram as u64);
    lemma_zero_rows(ram as u64);
    lemma_rows_outside(r2, 0x7000, rows, rows.len(), x);
    let r3 = rows_written(r2, 0x7000, rows, rows.len());
    lemma_rows_outside(r3, 0x500, gdt_rows(), 3, x);
    lemma_tables_outside(rows_written(r3, 0x500, gdt_rows(), 3), 512, x);
}

/// A row of the zero page can be read in the booted machine.
#[verifier::spinoff_prover]
proof fn lemma_zero_row(ram: nat, kernel: Seq<u8>, cmdline: Seq<u8>, i: int)
    requires
        bootable(ram as int, kernel, cmdline),
        ram <= u64::MAX,
        0 <= i < zero_page_rows(ram as u64).len(),
    ensures
        ({
            let (off, n, v) = zero_page_rows(ram as u64)[i];
            number_at(boot_ram(ram, kernel, cmdline), 0x7000 + off, n as nat) == v as int % weight(
                n as int,
            )
        }),
        boot_ram(ram, kernel, cmdline).len() == ram,
{
    reveal(boot_ram);
    lemma_loaded_len(Seq::new(ram, |i: int| 0u8), kernel, dec_u16(kernel, 56) as nat);
    let r2 = early(ram, kernel, cmdline);
    let rows = zero_page_rows(ram as u64);
    lemma_zero_rows(ram as u64);
    if i < 26 {
        lemma_fixed_apart(ram as u64, i);
    } else {
        lemma_map_apart(ram as u64, i);
    }
    assert(rows[i].1 <= 8);
    lemma_rows_size(r2, 0x7000, rows, rows.len());
    lemma_row_there(r2, 0x7000, rows, rows.len(), i);
    let r3 = rows_written(r2, 0x7000, rows, rows.len());
    let r4 = rows_written(r3, 0x500, gdt_rows(), 3);
    lemma_rows_size(r3, 0x500, gdt_rows(), 3);
    let last = tables_written(r4, 512);
    let (off, n, v) = rows[i];
    lemma_tables_outside(r4, 512, 0);
    assert forall|x: int| 0x7000 + off <= x < 0x7000 + off + n && 0 <= x < r3.len() implies last[x]
        == r3[x] by {
        lemma_rows_outside(r3, 0x500, gdt_rows(), 3, x);
        lemma_tables_outside(r4, 512, x);
    }
    lemma_same_number(last, r3, 0x7000 + off, n as nat);
}

/// The kernel finds its command line: the word at offset 0x228 of the page that `RSI` points to is an
/// address at which the bytes of the command line stand, followed by a zero byte.
pub proof fn law_command_line(ram: nat, kernel: Seq<u8>, cmdline: Seq<u8>, disk: Option<Seq<u8>>)
    requires
        bootable(ram as int, kernel, cmdline),
        ram <= u64::MAX,
    ensures
        ({
            let s = boot_state(ram, kernel, cmdline, disk);
            let a = number_at(s.ram, s.r[6] + 0x228, 4);
            &&& s.ram.len() == ram
            &&& a + cmdline.len() < s.ram.len()
            &&& forall|i: int| 0 <= i < cmdline.len() ==> #[trigger] s.ram[a + i] == cmdline[i]
            &&& s.ram[a + cmdline.len()] == 0
        }),
{
    let s = boot_state(ram, kernel, cmdline, disk);
    lemma_zero_rows(ram as u64);
    lemma_zero_row(ram, kernel, cmdline, 5);
    assert(zero_page_rows(ram as u64)[5] == header_rows()[5]);
    let a = number_at(s.ram, s.r[6] + 0x228, 4);
    assert(a == 0x2_0000);
    lemma_loaded_len(Seq::new(ram, |i: int| 0u8), kernel, dec_u16(kernel, 56) as nat);
    assert forall|i: int| 0 <= i < cmdline.len() implies #[trigger] s.ram[a + i] == cmdline[i] by {
        lemma_early(ram, kernel, cmdline, a + i);
    }
    lemma_early(ram, kernel, cmdline, a + cmdline.len());
}

/// The setup header of the boot protocol in the page that `RSI` points to: the letters `HdrS`, version
/// 2.15, a loader without a number, flags that say the kernel is high and the heap usable, a command
/// line of up to 2048 bytes, and no ramdisk.
#[verifier::spinoff_prover]
pub proof fn law_setup_header(ram: nat, kernel: Seq<u8>, cmdline: Seq<u8>, disk: Option<Seq<u8>>)
    requires
        bootable(ram as int, kernel, cmdline),
        ram <= u64::MAX,
    ensures
        ({
            let s = boot_state(ram, kernel, cmdline, disk);
            &&& param(s, 0x202, 4) == 0x48 + 0x64 * 0x100 + 0x72 * 0x1_0000 + 0x53 * 0x100_0000
            &&& param(s, 0x206, 2) == 2 * 0x100 + 15
            &&& param(s, 0x210, 1) == 0xff
            &&& param(s, 0x211, 1) == 0x81
            &&& param(s, 0x238, 4) == 2048
            &&& param(s, 0x218, 4) == 0
            &&& param(s, 0x21c, 4) == 0
            &&& param(s, 0x1f1, 1) == 0
        }),
{
    lemma_zero_rows(ram as u64);
    lemma_zero_row(ram, kernel, cmdline, 0);
    lemma_zero_row(ram, kernel, cmdline, 1);
    lemma_zero_row(ram, kernel, cmdline, 2);
    lemma_zero_row(ram, kernel, cmdline, 3);
    lemma_zero_row(ram, kernel, cmdline, 4);
    lemma_zero_row(ram, kernel, cmdline, 6);
    lemma_zero_row(ram, kernel, cmdline, 7);
    lemma_zero_row(ram, kernel, cmdline, 8);
    let t = zero_page_rows(ram as u64);
    assert(t[0] == header_rows()[0] && t[1] == header_rows()[1] && t[2] == header_rows()[2] && t[3]
        == header_rows()[3] && t[4] == header_rows()[4] && t[6] == header_rows()[6] && t[7]
        == header_rows()[7] && t[8] == header_rows()[8]);
}

spec fn screen_row_there(ram: nat, kernel: Seq<u8>, cmdline: Seq<u8>, k: int) -> bool {
    let (off, n, v) = screen_rows(fb_base_of(ram as u64))[k];
    number_at(boot_ram(ram, kernel, cmdline), 0x7000 + off, n as nat) == v as int % weight(n as int)
}

/// The screen that the kernel is told of: a linear framebuffer at the top of memory, 1280 by 800
/// pixels of four bytes, in the order blue, green, red.
#[verifier::spinoff_prover]
pub proof fn law_screen(ram: nat, kernel: Seq<u8>, cmdline: Seq<u8>, disk: Option<Seq<u8>>)
    requires
        bootable(ram as int, kernel, cmdline),
        4 * 1280 * 800 <= ram <= u64::MAX,
    ensures
        ({
            let s = boot_state(ram, kernel, cmdline, disk);
            &&& param(s, 0x18, 4) + param(s, 0x3a, 4) * 0x1_0000_0000 == s.ram.len() - 4 * 1280 * 800
            &&& param(s, 0x1c, 4) == 4 * 1280 * 800
            &&& param(s, 0x12, 2) == 1280
            &&& param(s, 0x14, 2) == 800
            &&& param(s, 0x16, 2) == 32
            &&& param(s, 0x24, 2) == 4 * 1280
            &&& param(s, 0x0f, 1) == 0x70
            &&& (param(s, 0x26, 1), param(s, 0x27, 1)) == (8int, 16int)
            &&& (param(s, 0x28, 1), param(s, 0x29, 1)) == (8int, 8int)
            &&& (param(s, 0x2a, 1), param(s, 0x2b, 1)) == (8int, 0int)
            &&& (param(s, 0x2c, 1), param(s, 0x2d, 1)) == (8int, 24int)
        }),
{
    lemma_zero_rows(ram as u64);
    let t = zero_page_rows(ram as u64);
    let q = screen_rows(fb_base_of(ram as u64));
    lemma_low_bits(fb_base_of(ram as u64));
    assert forall|k: int| 0 <= k < 16 implies #[trigger] screen_row_there(ram, kernel, cmdline, k) by {
        lemma_zero_row(ram, kernel, cmdline, 9 + k);
        assert(t[9 + k] == q[k]);
    }
    lemma_zero_row(ram, kernel, cmdline, 0);
    assert(screen_row_there(ram, kernel, cmdline, 0));
    assert(screen_row_there(ram, kernel, cmdline, 1));
    assert(screen_row_there(ram, kernel, cmdline, 2));
    assert(screen_row_there(ram, kernel, cmdline, 3));
    assert(screen_row_there(ram, kernel, cmdline, 4));
    assert(screen_row_there(ram, kernel, cmdline, 5));
    assert(screen_row_there(ram, kernel, cmdline, 6));
    assert(screen_row_there(ram, kernel, cmdline, 7));
    assert(screen_row_there(ram, kernel, cmdline, 8));
    assert(screen_row_there(ram, kernel, cmdline, 9));
    assert(screen_row_there(ram, kernel, cmdline, 10));
    assert(screen_row_there(ram, kernel, cmdline, 11));
    assert(screen_row_there(ram, kernel, cmdline, 12));
    assert(screen_row_there(ram, kernel, cmdline, 13));
    assert(screen_row_there(ram, kernel, cmdline, 14));
    assert(screen_row_there(ram, kernel, cmdline, 15));
}

/// The memory map that the kernel is told of: a count, and entries of twenty bytes from offset 0x2d0,
/// each a start, a size and a kind.
#[verifier::spinoff_prover]
pub proof fn law_map_entries(ram: nat, kernel: Seq<u8>, cmdline: Seq<u8>, disk: Option<Seq<u8>>, i: int)
    requires
        bootable(ram as int, kernel, cmdline),
        ram <= u64::MAX,
        0 <= i < memory_map(ram as u64).len(),
    ensures
        ({
            let s = boot_state(ram, kernel, cmdline, disk);
            let (a, n, kind) = memory_map(ram as u64)[i];
            &&& number_at(s.ram, s.r[6] + 0x1e8, 1) == memory_map(ram as u64).len()
            &&& number_at(s.ram, s.r[6] + 0x2d0 + 20 * i, 8) == a
            &&& number_at(s.ram, s.r[6] + 0x2d0 + 20 * i + 8, 8) == n
            &&& number_at(s.ram, s.r[6] + 0x2d0 + 20 * i + 16, 4) == kind
        }),
{
    let m = memory_map(ram as u64);
    let t = zero_page_rows(ram as u64);
    lemma_zero_rows(ram as u64);
    lemma_map_rows(m, m.len());
    lemma_zero_row(ram, kernel, cmdline, 25);
    lemma_zero_row(ram, kernel, cmdline, 26 + 3 * i);
    lemma_zero_row(ram, kernel, cmdline, 26 + 3 * i + 1);
    lemma_zero_row(ram, kernel, cmdline, 26 + 3 * i + 2);
    assert(map_rows(m, m.len())[3 * i] == ((0x2d0 + 20 * i) as u64, 8u8, m[i].0));
    assert(t[26 + 3 * i] == map_rows(m, m.len())[3 * i]);
    assert(t[26 + 3 * i + 1] == map_rows(m, m.len())[3 * i + 1]);
    assert(t[26 + 3 * i + 2] == map_rows(m, m.len())[3 * i + 2]);
}

/// An address lies in an entry of the map.
pub open spec fn in_map(ram: u64, i: int, x: int) -> bool {
    0 <= i < memory_map(ram).len() && memory_map(ram)[i].0 <= x < memory_map(ram)[i].0 + memory_map(
        ram,
    )[i].1
}

/// The kernel is given all the memory there is: an address of RAM lies in a usable entry unless it is
/// in the hole below the first megabyte, in the framebuffer, or between the device windows and 4 GiB.
/// No address lies in a usable entry and in a reserved one, and none in two usable ones.
pub proof fn law_map_covers(ram: u64, x: int)
    requires
        ram >= FB_SIZE + 0x10_0000,
    ensures
        ({
            let usable = exists|i: int| #[trigger] in_map(ram, i, x) && memory_map(ram)[i].2 == 1;
            usable == (0 <= x < ram - 4 * 1280 * 800 && !(0x9_fc00 <= x < 0x10_0000) && !(0xD000_0000
                <= x < 0x1_0000_0000))
        }),
        forall|i: int, j: int|
            #![trigger in_map(ram, i, x), in_map(ram, j, x)]
            in_map(ram, i, x) && in_map(ram, j, x) && memory_map(ram)[i].2 == 1 ==> i == j,
{
    let m = memory_map(ram);
    assert(m[0] == (0u64, 0x9_fc00u64, 1u32));
    let fb = fb_base_of(ram);
    if 0 <= x < 0x9_fc00 {
        assert(in_map(ram, 0, x));
    } else if 0x10_0000 <= x < 0xD000_0000 && x < fb {
        assert(in_map(ram, 3, x));
    } else if 0x1_0000_0000 <= x < fb {
        let k = m.len() - 2;
        assert(m[k].0 == 0x1_0000_0000 && m[k].2 == 1);
        assert(in_map(ram, k, x));
    }
}

// ----- the kernel image -----

proof fn lemma_numbers(b: Seq<u8>, p: int)
    requires
        0 <= p,
    ensures
        p + 2 <= b.len() ==> dec_u16(b, p) == number_at(b, p, 2),
        p + 4 <= b.len() ==> dec_u32(b, p) == number_at(b, p, 4),
        p + 8 <= b.len() ==> dec_u64(b, p) == number_at(b, p, 8),
{
    reveal_with_fuel(number_at, 9);
    if p + 8 <= b.len() {
        let x0 = b[p] as u64;
        let b1 = b[p + 1];
        let b2 = b[p + 2];
        let b3 = b[p + 3];
        let b4 = b[p + 4];
        let b5 = b[p + 5];
        let b6 = b[p + 6];
        let b7 = b[p + 7];
        lemma_add_byte(x0, b1, 1);
        let x1 = x0 | ((b1 as u64) << 8);
        lemma_add_byte(x1, b2, 2);
        let x2 = x1 | ((b2 as u64) << 16);
        lemma_add_byte(x2, b3, 3);
        let x3 = x2 | ((b3 as u64) << 24);
        lemma_add_byte(x3, b4, 4);
        let x4 = x3 | ((b4 as u64) << 32);
        lemma_add_byte(x4, b5, 5);
        let x5 = x4 | ((b5 as u64) << 40);
        lemma_add_byte(x5, b6, 6);
        let x6 = x5 | ((b6 as u64) << 48);
        lemma_add_byte(x6, b7, 7);
    }
    if p + 4 <= b.len() {
        lemma_small_words(b[p], b[p + 1], b[p + 2], b[p + 3]);
    }
    if p + 2 <= b.len() {
        lemma_small_words(b[p], b[p + 1], 0, 0);
    }
}

proof fn lemma_small_words(a: u8, b: u8, c: u8, d: u8)
    ensures
        (a as u16) | ((b as u16) << 8) == a + b * 0x100,
        (a as u32) | ((b as u32) << 8) | ((c as u32) << 16) | ((d as u32) << 24) == a + b * 0x100 + c
            * 0x1_0000 + d * 0x100_0000,
{
    crate::bit_facts::lemma_bytes_of_words(0, 0, 0, a, b, c, d);
}

/// The `i`-th program header of an image: the table begins where bytes 32 to 39 say, in steps of what
/// bytes 54 and 55 say.
pub open spec fn header_at(elf: Seq<u8>, i: int) -> int {
    number_at(elf, 32, 8) + i * number_at(elf, 54, 2)
}

/// A byte of memory belongs to the segment of a loadable program header.
pub open spec fn in_segment(elf: Seq<u8>, i: int, x: int) -> bool {
    let h = header_at(elf, i);
    number_at(elf, h, 4) == 1 && number_at(elf, h + 24, 8) <= x < number_at(elf, h + 24, 8) + number_at(
        elf,
        h + 40,
        8,
    )
}

/// What a segment puts at an address of memory: the byte of the file, or zero behind the bytes that
/// the file has for it.
pub open spec fn segment_byte(elf: Seq<u8>, i: int, x: int) -> u8 {
    let h = header_at(elf, i);
    let k = x - number_at(elf, h + 24, 8);
    let from = number_at(elf, h + 8, 8);
    if k < number_at(elf, h + 32, 8) && from + k < elf.len() {
        elf[from + k]
    } else {
        0
    }
}

proof fn lemma_loads(r: Seq<u8>, elf: Seq<u8>, n: nat, x: int, i: int)
    requires
        crate::boot::elf_ok(elf, r.len() as int),
        n <= number_at(elf, 56, 2),
        0 <= x < r.len(),
        i < n,
        i >= 0 ==> in_segment(elf, i, x),
        forall|j: int| i < j < n && 0 <= j ==> !#[trigger] in_segment(elf, j, x),
    ensures
        elf_loaded(r, elf, n).len() == r.len(),
        elf_loaded(r, elf, n)[x] == if i >= 0 { segment_byte(elf, i, x) } else { r[x] },
    decreases n,
{
    lemma_numbers(elf, 32);
    lemma_numbers(elf, 54);
    lemma_numbers(elf, 56);
    lemma_loaded_len(r, elf, n);
    if n > 0 {
        let j = n - 1;
        let h = header_at(elf, j);
        assert(crate::boot::ph_ok(elf, j, r.len() as int));
        assert(ph_at(elf, j) == h);
        assert(0 <= h) by (nonlinear_arith)
            requires
                h == number_at(elf, 32, 8) + j * number_at(elf, 54, 2),
                number_at(elf, 32, 8) >= 0,
                number_at(elf, 54, 2) >= 0,
                j >= 0,
        ;
        lemma_numbers(elf, h);
        if number_at(elf, h, 4) == 1 {
            lemma_numbers(elf, h + 8);
            lemma_numbers(elf, h + 24);
            lemma_numbers(elf, h + 32);
            lemma_numbers(elf, h + 40);
        }
        lemma_loaded_len(r, elf, j as nat);
        if i == j {
        } else {
            assert(!in_segment(elf, j, x));
            lemma_loads(r, elf, j as nat, x, i);
        }
    }
}

/// Each byte of memory that a loadable segment covers holds the byte of the file for it, or zero; where
/// segments overlap, the later one's. Memory outside them is as it was.
pub proof fn law_image_loaded(r: Seq<u8>, elf: Seq<u8>, x: int, i: int)
    requires
        crate::boot::elf_ok(elf, r.len() as int),
        0 <= x < r.len(),
        -1 <= i < number_at(elf, 56, 2),
        i >= 0 ==> in_segment(elf, i, x),
        forall|j: int| i < j < number_at(elf, 56, 2) && 0 <= j ==> !#[trigger] in_segment(elf, j, x),
    ensures
        elf_loaded(r, elf, dec_u16(elf, 56) as nat)[x] == if i >= 0 {
            segment_byte(elf, i, x)
        } else {
            r[x]
        },
{
    lemma_numbers(elf, 56);
    lemma_loads(r, elf, dec_u16(elf, 56) as nat, x, i);
}

/// The same of the booted machine, for what lies above the first megabyte and behind the command line;
/// execution begins at the entry point of the image.
pub proof fn law_kernel_in_place(
    ram: nat,
    kernel: Seq<u8>,
    cmdline: Seq<u8>,
    disk: Option<Seq<u8>>,
    x: int,
    i: int,
)
    requires
        bootable(ram as int, kernel, cmdline),
        ram <= u64::MAX,
        0x10_0000 <= x < ram,
        x > 0x2_0000 + cmdline.len(),
        -1 <= i < number_at(kernel, 56, 2),
        i >= 0 ==> in_segment(kernel, i, x),
        forall|j: int| i < j < number_at(kernel, 56, 2) && 0 <= j ==> !#[trigger] in_segment(kernel, j, x),
    ensures
        boot_state(ram, kernel, cmdline, disk).ram[x] == if i >= 0 { segment_byte(kernel, i, x) } else { 0 },
        boot_state(ram, kernel, cmdline, disk).rip == number_at(kernel, 24, 8),
{
    let r0 = Seq::new(ram, |i: int| 0u8);
    lemma_loaded_len(r0, kernel, dec_u16(kernel, 56) as nat);
    lemma_early(ram, kernel, cmdline, x);
    law_image_loaded(r0, kernel, x, i);
    lemma_numbers(kernel, 24);
}

/// The machine at the kernel's entry: the kernel's privilege, interrupts off, the boot page in `RSI`
/// at 0x7000 and nothing in the other registers, a flat 64-bit code segment, and a descriptor table
/// whose third and fourth entries are 64-bit code and data for the kernel.
#[verifier::spinoff_prover]
pub proof fn law_entry_state(ram: nat, kernel: Seq<u8>, cmdline: Seq<u8>, disk: Option<Seq<u8>>)
    requires
        bootable(ram as int, kernel, cmdline),
        ram <= u64::MAX,
    ensures
        ({
            let s = boot_state(ram, kernel, cmdline, disk);
            &&& s.cpl == 0
            &&& (s.rflags as int / 0x200) % 2 == 0
            &&& s.r[6] == 0x7000
            &&& forall|i: int| 0 <= i < 16 && i != 6 ==> #[trigger] s.r[i] == 0
            &&& s.seg[1] == (crate::cpu::Seg { selector: 0x10, base: 0, long: true })
            &&& forall|i: int| 0 <= i < 6 && i != 1 ==> (#[trigger] s.seg[i]).selector == 0x18
                && s.seg[i].base == 0
            &&& s.sys.gdtr.0 == 0x500
            &&& number_at(s.ram, 0x510, 8) == 0x00af_9b00_0000_ffff
            &&& number_at(s.ram, 0x518, 8) == 0x00cf_9300_0000_ffff
            &&& s.sys.disk == disk
            &&& s.sys.idtr.1 == 0
            &&& s.platform
        }),
{
    reveal(boot_ram);
    let s = boot_state(ram, kernel, cmdline, disk);
    lemma_loaded_len(Seq::new(ram, |i: int| 0u8), kernel, dec_u16(kernel, 56) as nat);
    let r2 = early(ram, kernel, cmdline);
    let rows = zero_page_rows(ram as u64);
    lemma_rows_size(r2, 0x7000, rows, rows.len());
    let r3 = rows_written(r2, 0x7000, rows, rows.len());
    let g = gdt_rows();
    lemma_row_there(r3, 0x500, g, 3, 1);
    lemma_row_there(r3, 0x500, g, 3, 2);
    lemma_rows_size(r3, 0x500, g, 3);
    let r4 = rows_written(r3, 0x500, g, 3);
    lemma_tables_outside(r4, 512, 0);
    assert forall|x: int| 0x510 <= x < 0x520 implies s.ram[x] == r4[x] by {
        lemma_tables_outside(r4, 512, x);
    }
    lemma_same_number(s.ram, r4, 0x510, 8);
    lemma_same_number(s.ram, r4, 0x518, 8);
    assert(g[1] == (0x10u64, 8u8, 0x00af_9b00_0000_ffffu64) && g[2] == (0x18u64, 8u8, 0x00cf_9300_0000_ffffu64));
    assert(number_at(r4, 0x510, 8) == 0x00af_9b00_0000_ffffint % weight(8));
    assert(number_at(s.ram, 0x510, 8) == 0x00af_9b00_0000_ffff);
    assert(number_at(s.ram, 0x518, 8) == 0x00cf_9300_0000_ffff);
    assert(s.seg[1] == (crate::cpu::Seg { selector: 0x10, base: 0, long: true }));
    assert(s.sys.disk == disk);
}

} // verus!
