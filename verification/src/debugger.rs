//! The inspection logic of the forth.s debugger tab: which memory cells
//! hold the data and return stacks, the memory-map bar, the disassembly
//! window around the PC, address-to-label resolution, the dictionary
//! browser and the decoding of a colon word's thread.
use vstd::prelude::*;
use crate::config::{ForthTier, StackSize, spec_initial_sp};
use crate::repl::{Effects, only_render, start_effects, uart_ready, uart_ready_spec, joined_lines};
use crate::text::{trim_str, trim_spec, demo_lines, demo_lines_spec, lines_bytes, lines_to_uart, input_to_uart};
use crate::demos::Demo;
use std::collections::VecDeque;
use vstd::utf8::encode_utf8;
use crate::fmt::{dec_digits, hex6, hex2, push_decimal, push_hex6, push_hex2};
use crate::fmt::{digits_value, is_numeral, upper_digit_value, lemma_dec_digits_numeral, lemma_hex6_numeral};
use crate::base64::string_push;
use crate::text::{str_starts_with, str_ends_with, str_eq};

verus! {

/// Cell size in bytes (24-bit words).
pub const CELL: u32 = 3;

/// Address just above the return stack; the stack grows downward.
pub const RSTACK_BASE: u32 = 0x0F0000;

/// Most stack cells shown in a stack panel.
pub const MAX_STACK_CELLS: usize = 64;

/// Most frames shown in the caller chain.
pub const MAX_CHAIN_FRAMES: usize = 16;

/// Mask of a 24-bit cell value.
pub const CELL_MASK: u32 = 0xFF_FFFF;

/// Number of cells of a downward stack between `top` (exclusive) and
/// `bottom`, at most `max`.
pub open spec fn walk_len(top: u32, bottom: u32, max: nat) -> nat {
    if top <= bottom {
        0
    } else {
        let n = ((top - bottom + 2) / 3) as nat;
        if n < max { n } else { max }
    }
}

/// The addresses of those cells, top of the region first.
pub open spec fn walk_addrs(top: u32, bottom: u32, max: nat) -> Seq<u32> {
    Seq::new(walk_len(top, bottom, max), |k: int| (top - 3 * (k + 1)) as u32)
}

fn stack_walk(top: u32, bottom: u32, max: usize) -> (addrs: Vec<u32>)
    requires
        top >= 3 * max,
    ensures
        addrs@ == walk_addrs(top, bottom, max as nat),
{
    let mut addrs: Vec<u32> = Vec::new();
    let mut addr = top;
    while addr > bottom && addrs.len() < max
        invariant
            top >= 3 * max,
            addrs@.len() <= max,
            addr == top - 3 * addrs@.len(),
            addr > bottom ==> addrs@.len() < walk_len(top, bottom, max as nat) || addrs@.len() == max,
            addr <= bottom ==> addrs@.len() == walk_len(top, bottom, max as nat),
            forall|k: int| 0 <= k < addrs@.len() ==> addrs@[k] == (top - 3 * (k + 1)) as u32,
        decreases max - addrs@.len(),
    {
        addr = addr - CELL;
        addrs.push(addr);
    }
    proof {
        assert(addrs@.len() == walk_len(top, bottom, max as nat));
        assert(addrs@ =~= walk_addrs(top, bottom, max as nat));
    }
    addrs
}

/// Addresses of the data-stack cells below the initial stack pointer of
/// `stack_size` down to `sp`, read from the top down (at most 64).
pub fn data_stack_addrs(stack_size: StackSize, sp: u32) -> (addrs: Vec<u32>)
    ensures
        addrs@ == walk_addrs(spec_initial_sp(stack_size), sp, MAX_STACK_CELLS as nat),
{
    stack_walk(stack_size.initial_sp(), sp, MAX_STACK_CELLS)
}

/// The return stack pointer `rsp` points into the return stack.
pub open spec fn rsp_valid(rsp: u32) -> bool {
    rsp != 0 && rsp < RSTACK_BASE
}

/// Addresses of the return-stack cells between the base and `rsp`, read
/// from the top down (at most `max`); none while `rsp` is 0 or not yet
/// below the base.
pub open spec fn return_addrs(rsp: u32, max: nat) -> Seq<u32> {
    if rsp_valid(rsp) { walk_addrs(RSTACK_BASE, rsp, max) } else { Seq::empty() }
}

/// Addresses of the return-stack cells (at most 64).
pub fn return_stack_addrs(rsp: u32) -> (addrs: Vec<u32>)
    ensures
        addrs@ == return_addrs(rsp, MAX_STACK_CELLS as nat),
{
    if rsp == 0 || rsp >= RSTACK_BASE {
        return Vec::new();
    }
    stack_walk(RSTACK_BASE, rsp, MAX_STACK_CELLS)
}

/// Addresses of the return addresses that make up the caller chain (at
/// most 16).
pub fn caller_chain_addrs(rsp: u32) -> (addrs: Vec<u32>)
    ensures
        addrs@ == return_addrs(rsp, MAX_CHAIN_FRAMES as nat),
{
    if rsp == 0 || rsp >= RSTACK_BASE {
        return Vec::new();
    }
    stack_walk(RSTACK_BASE, rsp, MAX_CHAIN_FRAMES)
}

/// A stack panel's cells from the words read from the top of the stack
/// region down (so the first word read is the bottom of the stack),
/// masked to 24 bits and reversed: the last word read, the top of the
/// stack, comes first.
pub fn stack_cells(raw: &[u32]) -> (cells: Vec<u32>)
    ensures
        cells@ == Seq::new(raw@.len(), |i: int| raw@[raw@.len() - 1 - i] & CELL_MASK),
{
    let n = raw.len();
    let mut cells: Vec<u32> = Vec::new();
    let mut j: usize = n;
    while j > 0
        invariant
            n == raw@.len(),
            j <= n,
            cells@.len() == n - j,
            forall|i: int| 0 <= i < cells@.len() ==> cells@[i] == raw@[n - 1 - i] & CELL_MASK,
        decreases j,
    {
        j = j - 1;
        cells.push(raw[j] & CELL_MASK);
    }
    proof {
        assert(cells@ =~= Seq::new(raw@.len(), |i: int| raw@[raw@.len() - 1 - i] & CELL_MASK));
    }
    cells
}

/// `a - b`, or 0 when `b` exceeds `a`.
pub open spec fn sat_sub(a: u32, b: u32) -> u32 {
    if a >= b { (a - b) as u32 } else { 0 }
}

/// One bar of the memory map: its label, its style class and its size.
pub type Region = (&'static str, &'static str, u32);

/// The memory-map bar: kernel, free space, return stack and data stack
/// sizes, from the end of the program, the return stack pointer, the data
/// stack pointer and the stack preset.
pub fn memory_regions(program_end: u32, rsp: u32, sp: u32, stack_size: StackSize) -> (regions: Vec<Region>)
    ensures
        regions@.len() == 4,
        regions@[0].0@ == "Kernel"@ && regions@[0].1@ == "region-kernel"@,
        regions@[1].0@ == "Free"@ && regions@[1].1@ == "region-free"@,
        regions@[2].0@ == "RStack"@ && regions@[2].1@ == "region-rstack"@,
        regions@[3].0@ == "DStack"@ && regions@[3].1@ == "region-dstack"@,
        regions@[0].2 == program_end,
        regions@[1].2 == sat_sub(sat_sub(RSTACK_BASE, program_end), sat_sub(RSTACK_BASE, rsp)),
        regions@[2].2 == sat_sub(RSTACK_BASE, rsp),
        regions@[3].2 == sat_sub(spec_initial_sp(stack_size), sp),
{
    let stack_top = stack_size.initial_sp();
    let rstack_used = RSTACK_BASE.saturating_sub(rsp);
    let dstack_used = stack_top.saturating_sub(sp);
    let free = RSTACK_BASE.saturating_sub(program_end).saturating_sub(rstack_used);
    let mut regions: Vec<Region> = Vec::new();
    regions.push(("Kernel", "region-kernel", program_end));
    regions.push(("Free", "region-free", free));
    regions.push(("RStack", "region-rstack", rstack_used));
    regions.push(("DStack", "region-dstack", dstack_used));
    regions
}

// ===== disassembly window =====

/// A disassembled instruction: address, mnemonic, size in bytes.
pub type DisasmLine = (u32, String, u32);

/// Number of leading lines of `scan` whose address is below `pc`.
pub open spec fn lines_before(scan: Seq<DisasmLine>, pc: u32) -> nat
    decreases scan.len(),
{
    if scan.len() == 0 || scan[0].0 >= pc {
        0
    } else {
        1 + lines_before(scan.drop_first(), pc)
    }
}

/// First address scanned for the lines before the PC.
pub open spec fn scan_start_spec(pc: u32, count_before: usize) -> u32 {
    sat_sub(pc, (count_before * 4 + 8) as u32)
}

/// Where to start disassembling to find the `count_before` instructions
/// before `pc`: a little more than four bytes per instruction back.
pub fn disasm_scan_start(pc: u32, count_before: usize) -> (start: u32)
    requires
        count_before * 4 + 8 <= u32::MAX,
    ensures
        start == scan_start_spec(pc, count_before),
{
    pc.saturating_sub((count_before as u32) * 4 + 8)
}

/// The lines shown before the PC: the last `count_before` lines of the
/// scan that lie below the PC (none when `count_before` or `pc` is 0).
pub open spec fn window_before(pc: u32, count_before: usize, scan: Seq<DisasmLine>) -> Seq<DisasmLine> {
    if count_before == 0 || pc == 0 {
        Seq::empty()
    } else {
        let p = lines_before(scan, pc) as int;
        let skip = if p > count_before { p - count_before } else { 0 };
        scan.subrange(skip, p)
    }
}

/// The disassembly panel: the lines before the PC, unmarked, then the
/// lines from the PC on, each marked when it is at the PC.
pub open spec fn window_spec(pc: u32, count_before: usize, scan: Seq<DisasmLine>, forward: Seq<DisasmLine>) -> Seq<(u32, String, bool)> {
    window_before(pc, count_before, scan).map_values(|l: DisasmLine| (l.0, l.1, false))
        + forward.map_values(|l: DisasmLine| (l.0, l.1, l.0 == pc))
}

proof fn lemma_lines_before(scan: Seq<DisasmLine>, pc: u32, p: int)
    requires
        0 <= p <= scan.len(),
        forall|t: int| 0 <= t < p ==> scan[t].0 < pc,
        p == scan.len() || scan[p].0 >= pc,
    ensures
        lines_before(scan, pc) == p,
    decreases p,
{
    if p > 0 {
        lemma_lines_before(scan.drop_first(), pc, p - 1);
    }
}

/// Builds the disassembly panel from the lines scanned from
/// `disasm_scan_start` and the lines disassembled from the PC on.
pub fn disasm_window(pc: u32, count_before: usize, scan: &Vec<DisasmLine>, forward: &Vec<DisasmLine>) -> (lines: Vec<(u32, String, bool)>)
    ensures
        lines@ == window_spec(pc, count_before, scan@, forward@),
{
    let mut lines: Vec<(u32, String, bool)> = Vec::new();
    if count_before > 0 && pc > 0 {
        let n = scan.len();
        let mut p: usize = 0;
        while p < n && scan[p].0 < pc
            invariant
                n == scan@.len(),
                p <= n,
                forall|t: int| 0 <= t < p ==> scan@[t].0 < pc,
            decreases n - p,
        {
            p = p + 1;
        }
        proof {
            lemma_lines_before(scan@, pc, p as int);
        }
        let skip: usize = if p > count_before { p - count_before } else { 0 };
        let mut i: usize = skip;
        while i < p
            invariant
                skip <= i <= p <= n,
                n == scan@.len(),
                lines@ == scan@.subrange(skip as int, i as int).map_values(|l: DisasmLine| (l.0, l.1, false)),
            decreases p - i,
        {
            let entry = (scan[i].0, scan[i].1.clone(), false);
            lines.push(entry);
            i = i + 1;
            proof {
                assert(lines@ =~= scan@.subrange(skip as int, i as int).map_values(|l: DisasmLine| (l.0, l.1, false)));
            }
        }
    }
    let ghost head = lines@;
    proof {
        assert(head =~= window_before(pc, count_before, scan@).map_values(|l: DisasmLine| (l.0, l.1, false)));
    }
    let m = forward.len();
    let mut k: usize = 0;
    while k < m
        invariant
            m == forward@.len(),
            k <= m,
            lines@ == head + forward@.take(k as int).map_values(|l: DisasmLine| (l.0, l.1, l.0 == pc)),
        decreases m - k,
    {
        let a = forward[k].0;
        lines.push((a, forward[k].1.clone(), a == pc));
        k = k + 1;
        proof {
            assert(lines@ =~= head + forward@.take(k as int).map_values(|l: DisasmLine| (l.0, l.1, l.0 == pc)));
        }
    }
    proof {
        assert(forward@.take(m as int) =~= forward@);
    }
    lines
}


// ===== labels =====

/// An assembler label: its name and address, in the order the
/// assembler's label table lists them.
pub type Label = (String, u32);

/// A label table maps names to addresses: no name occurs twice.
pub open spec fn labels_wf(labels: Seq<Label>) -> bool {
    forall|i: int, j: int| 0 <= i < j < labels.len() ==> labels[i].0@ != labels[j].0@
}

/// Index of the last label at exactly `addr`.
pub open spec fn last_exact(labels: Seq<Label>, addr: u32) -> Option<int>
    decreases labels.len(),
{
    if labels.len() == 0 {
        None
    } else if labels.last().1 == addr {
        Some(labels.len() - 1)
    } else {
        last_exact(labels.drop_last(), addr)
    }
}

/// The label `l` lies at or below `addr`, less than 32 bytes away.
pub open spec fn near_candidate(l: Label, addr: u32) -> bool {
    l.1 <= addr && addr - l.1 < 32
}

/// Among the first `n` labels, the first of the candidates nearest to
/// `addr`.
pub open spec fn nearest_in(labels: Seq<Label>, addr: u32, n: int) -> Option<int>
    decreases n,
{
    if n <= 0 {
        None
    } else {
        let prev = nearest_in(labels, addr, n - 1);
        let l = labels[n - 1];
        if near_candidate(l, addr) && (prev is None || addr - l.1 < addr - labels[prev->0].1) {
            Some(n - 1)
        } else {
            prev
        }
    }
}

/// How an address reads in the debugger: the name of the last label at
/// it; else the nearest label below it within 32 bytes, as `name+offset`
/// (the first such label in table order when several are equally near);
/// else six or more upper-case hex digits.
pub open spec fn resolve_spec(labels: Seq<Label>, addr: u32) -> Seq<char> {
    match last_exact(labels, addr) {
        Some(i) => labels[i].0@,
        None => match nearest_in(labels, addr, labels.len() as int) {
            Some(i) => {
                let d = (addr - labels[i].1) as nat;
                if d == 0 {
                    labels[i].0@
                } else {
                    labels[i].0@ + seq!['+'] + dec_digits(d)
                }
            },
            None => hex6(addr as nat),
        },
    }
}

proof fn lemma_nearest_bounds(labels: Seq<Label>, addr: u32, n: int)
    requires
        0 <= n <= labels.len(),
    ensures
        nearest_in(labels, addr, n) matches Some(i) ==> 0 <= i < n && near_candidate(labels[i], addr),
    decreases n,
{
    if n > 0 {
        lemma_nearest_bounds(labels, addr, n - 1);
    }
}

proof fn lemma_last_exact_bounds(labels: Seq<Label>, addr: u32)
    ensures
        last_exact(labels, addr) matches Some(i) ==> 0 <= i < labels.len() && labels[i].1 == addr,
    decreases labels.len(),
{
    if labels.len() > 0 {
        lemma_last_exact_bounds(labels.drop_last(), addr);
    }
}

proof fn lemma_nearest_is_nearest(labels: Seq<Label>, addr: u32, n: int)
    requires
        0 <= n <= labels.len(),
    ensures
        nearest_in(labels, addr, n) is None <==> (forall|j: int| 0 <= j < n ==> !near_candidate(#[trigger] labels[j], addr)),
        nearest_in(labels, addr, n) matches Some(i) ==> 0 <= i < n && near_candidate(labels[i], addr)
            && forall|j: int| 0 <= j < n && near_candidate(#[trigger] labels[j], addr) ==> addr - labels[i].1 <= addr - labels[j].1,
    decreases n,
{
    if n > 0 {
        lemma_nearest_is_nearest(labels, addr, n - 1);
    }
}

proof fn lemma_last_exact_is_last(labels: Seq<Label>, addr: u32)
    ensures
        last_exact(labels, addr) is None <==> (forall|j: int| 0 <= j < labels.len() ==> (#[trigger] labels[j]).1 != addr),
        last_exact(labels, addr) matches Some(i) ==> 0 <= i < labels.len() && labels[i].1 == addr,
    decreases labels.len(),
{
    if labels.len() > 0 {
        lemma_last_exact_is_last(labels.drop_last(), addr);
        if last_exact(labels, addr) is None {
            assert forall|j: int| 0 <= j < labels.len() implies (#[trigger] labels[j]).1 != addr by {
                if j < labels.len() - 1 {
                    assert(labels.drop_last()[j] == labels[j]);
                }
            }
        } else {
            assert(labels.last() == labels[labels.len() - 1]);
        }
        if forall|j: int| 0 <= j < labels.len() ==> (#[trigger] labels[j]).1 != addr {
            assert(labels.last() == labels[labels.len() - 1]);
            assert forall|j: int| 0 <= j < labels.drop_last().len() implies (#[trigger] labels.drop_last()[j]).1 != addr by {
                assert(labels.drop_last()[j] == labels[j]);
            }
        }
    }
}

/// How an address reads, in terms of the label table: the name of a
/// label at it when there is one; else, when a label lies below it by
/// less than 32 bytes, the name of the nearest such label, `+` and the
/// offset as a standard decimal numeral; else the address as an
/// upper-case hexadecimal numeral of at least six digits.
pub proof fn lemma_resolve_text(labels: Seq<Label>, addr: u32)
    ensures
        (exists|i: int| 0 <= i < labels.len() && (#[trigger] labels[i]).1 == addr) ==> exists|i: int|
            0 <= i < labels.len() && (#[trigger] labels[i]).1 == addr && resolve_spec(labels, addr) == labels[i].0@,
        (forall|i: int| 0 <= i < labels.len() ==> (#[trigger] labels[i]).1 != addr)
            && (exists|i: int| 0 <= i < labels.len() && (#[trigger] labels[i]).1 <= addr && addr - labels[i].1 < 32)
            ==> exists|i: int, t: Seq<char>| #![trigger labels[i], is_numeral(t, 10)] {
                &&& 0 <= i < labels.len()
                &&& labels[i].1 < addr && addr - labels[i].1 < 32
                &&& (forall|j: int| 0 <= j < labels.len() && (#[trigger] labels[j]).1 <= addr ==> addr - labels[i].1 <= addr - labels[j].1)
                &&& resolve_spec(labels, addr) == labels[i].0@ + seq!['+'] + t
                &&& is_numeral(t, 10)
                &&& digits_value(t, 10) == addr - labels[i].1
                &&& upper_digit_value(t[0]) != 0
            },
        (forall|i: int| 0 <= i < labels.len() ==> !((#[trigger] labels[i]).1 <= addr && addr - labels[i].1 < 32)) ==> {
            &&& is_numeral(resolve_spec(labels, addr), 16)
            &&& resolve_spec(labels, addr).len() >= 6
            &&& digits_value(resolve_spec(labels, addr), 16) == addr
        },
{
    lemma_last_exact_is_last(labels, addr);
    lemma_nearest_is_nearest(labels, addr, labels.len() as int);
    let r = resolve_spec(labels, addr);
    match last_exact(labels, addr) {
        Some(i) => {},
        None => {
            match nearest_in(labels, addr, labels.len() as int) {
                Some(i) => {
                    let d = (addr - labels[i].1) as nat;
                    assert(d != 0);
                    let t = dec_digits(d);
                    lemma_dec_digits_numeral(d);
                    assert(r == labels[i].0@ + seq!['+'] + t);
                    assert forall|j: int| 0 <= j < labels.len() && (#[trigger] labels[j]).1 <= addr implies addr - labels[i].1 <= addr - labels[j].1 by {
                        if !near_candidate(labels[j], addr) {
                        }
                    }
                },
                None => {
                    lemma_hex6_numeral(addr as nat);
                    assert forall|j: int| 0 <= j < labels.len() implies !near_candidate(#[trigger] labels[j], addr) by {
                        assert(!(labels[j].1 <= addr && addr - labels[j].1 < 32));
                    }
                },
            }
        },
    }
}

fn find_last_exact(labels: &Vec<Label>, addr: u32) -> (r: Option<usize>)
    ensures
        r matches Some(i) ==> last_exact(labels@, addr) == Some(i as int),
        r is None ==> last_exact(labels@, addr) is None,
{
    let n = labels.len();
    let mut found: Option<usize> = None;
    let mut i: usize = 0;
    while i < n
        invariant
            n == labels@.len(),
            i <= n,
            found matches Some(f) ==> last_exact(labels@.take(i as int), addr) == Some(f as int),
            found is None ==> last_exact(labels@.take(i as int), addr) is None,
        decreases n - i,
    {
        proof {
            assert(labels@.take(i + 1).drop_last() =~= labels@.take(i as int));
        }
        if labels[i].1 == addr {
            found = Some(i);
        }
        i = i + 1;
    }
    proof {
        assert(labels@.take(n as int) =~= labels@);
    }
    found
}

/// The name shown for `addr`: see `resolve_spec`.
pub fn resolve_addr(labels: &Vec<Label>, addr: u32) -> (name: String)
    ensures
        name@ == resolve_spec(labels@, addr),
{
    if let Some(i) = find_last_exact(labels, addr) {
        proof {
            lemma_last_exact_bounds(labels@, addr);
        }
        return labels[i].0.clone();
    }
    let n = labels.len();
    let mut best: Option<usize> = None;
    let mut i: usize = 0;
    while i < n
        invariant
            n == labels@.len(),
            i <= n,
            best == (match nearest_in(labels@, addr, i as int) {
                Some(k) => Some(k as usize),
                None => None::<usize>,
            }),
            forall|k: int| nearest_in(labels@, addr, i as int) == Some(k) ==> 0 <= k < i,
        decreases n - i,
    {
        proof {
            lemma_nearest_bounds(labels@, addr, i as int);
        }
        let label_addr = labels[i].1;
        if label_addr <= addr {
            let dist = addr - label_addr;
            if dist < 32 {
                match best {
                    None => {
                        best = Some(i);
                    },
                    Some(b) => {
                        if dist < addr - labels[b].1 {
                            best = Some(i);
                        }
                    },
                }
            }
        }
        i = i + 1;
    }
    proof {
        lemma_nearest_bounds(labels@, addr, n as int);
    }
    match best {
        Some(b) => {
            let d = addr - labels[b].1;
            let mut s = labels[b].0.clone();
            if d != 0 {
                string_push(&mut s, '+');
                push_decimal(&mut s, d);
            }
            s
        },
        None => {
            let mut s = String::new();
            push_hex6(&mut s, addr);
            proof {
                assert(s@ =~= hex6(addr as nat));
            }
            s
        },
    }
}


// ===== dictionary browser =====

/// How a dictionary entry was recognised from its label.
#[derive(Clone, Copy, PartialEq, Eq, Structural, Debug)]
pub enum WordKind {
    /// `do_*`: an asm primitive.
    Primitive,
    /// `*_word`: a colon definition.
    ColonDef,
    /// `*_thread`: a threaded-code body.
    Thread,
}

/// A dictionary entry derived from an assembler label.
pub struct DictEntry {
    pub name: String,
    pub addr: u32,
    pub kind: WordKind,
}

/// Internal labels that the dictionary leaves out (UART loops, halt,
/// branch helpers and the entry point).
pub open spec fn internal_label(n: Seq<char>) -> bool {
    ||| "tx"@.is_prefix_of(n)
    ||| "halt_"@.is_prefix_of(n)
    ||| "emit_"@.is_prefix_of(n)
    ||| "key_"@.is_prefix_of(n)
    ||| "zbr_"@.is_prefix_of(n)
    ||| "eq_"@.is_prefix_of(n)
    ||| "lt_"@.is_prefix_of(n)
    ||| "zeq_"@.is_prefix_of(n)
    ||| n == "_start"@
}

/// The kind of dictionary entry a label names, if it names one.
pub open spec fn label_kind(n: Seq<char>) -> Option<WordKind> {
    if internal_label(n) {
        None
    } else if "_word"@.is_suffix_of(n) {
        Some(WordKind::ColonDef)
    } else if "_thread"@.is_suffix_of(n) {
        Some(WordKind::Thread)
    } else if "do_"@.is_prefix_of(n) {
        Some(WordKind::Primitive)
    } else {
        None
    }
}

/// The recognised labels as entries, in label-table order.
pub open spec fn dict_filter(labels: Seq<Label>) -> Seq<DictEntry>
    decreases labels.len(),
{
    if labels.len() == 0 {
        Seq::empty()
    } else {
        let prev = dict_filter(labels.drop_last());
        let l = labels.last();
        match label_kind(l.0@) {
            Some(k) => prev.push(DictEntry { name: l.0, addr: l.1, kind: k }),
            None => prev,
        }
    }
}

/// Position of the first entry whose address is above `a`.
pub open spec fn insert_pos(s: Seq<DictEntry>, a: u32) -> int
    decreases s.len(),
{
    if s.len() == 0 || s[0].addr > a {
        0
    } else {
        1 + insert_pos(s.drop_first(), a)
    }
}

/// Stable sort by address: each entry goes after every earlier entry
/// whose address is at most its own.
pub open spec fn sort_by_addr(s: Seq<DictEntry>) -> Seq<DictEntry>
    decreases s.len(),
{
    if s.len() == 0 {
        Seq::empty()
    } else {
        let sorted = sort_by_addr(s.drop_last());
        sorted.insert(insert_pos(sorted, s.last().addr), s.last())
    }
}

/// The dictionary browser's entries.
pub open spec fn dict_entries_spec(labels: Seq<Label>) -> Seq<DictEntry> {
    sort_by_addr(dict_filter(labels))
}

/// Kind of the entry that the label `name` stands for, if any.
pub fn label_kind_of(name: &str) -> (k: Option<WordKind>)
    ensures
        k == label_kind(name@),
{
    proof {
        reveal_strlit("tx");
        reveal_strlit("halt_");
        reveal_strlit("emit_");
        reveal_strlit("key_");
        reveal_strlit("zbr_");
        reveal_strlit("eq_");
        reveal_strlit("lt_");
        reveal_strlit("zeq_");
        reveal_strlit("_start");
        reveal_strlit("_word");
        reveal_strlit("_thread");
        reveal_strlit("do_");
    }
    if str_starts_with(name, "tx") || str_starts_with(name, "halt_") || str_starts_with(name, "emit_")
        || str_starts_with(name, "key_") || str_starts_with(name, "zbr_") || str_starts_with(name, "eq_")
        || str_starts_with(name, "lt_") || str_starts_with(name, "zeq_") || str_eq(name, "_start")
    {
        None
    } else if str_ends_with(name, "_word") {
        Some(WordKind::ColonDef)
    } else if str_ends_with(name, "_thread") {
        Some(WordKind::Thread)
    } else if str_starts_with(name, "do_") {
        Some(WordKind::Primitive)
    } else {
        None
    }
}

proof fn lemma_insert_pos(s: Seq<DictEntry>, a: u32, p: int)
    requires
        0 <= p <= s.len(),
        forall|t: int| 0 <= t < p ==> s[t].addr <= a,
        p == s.len() || s[p].addr > a,
    ensures
        insert_pos(s, a) == p,
    decreases p,
{
    if p > 0 {
        lemma_insert_pos(s.drop_first(), a, p - 1);
    }
}

/// The dictionary browser's entries: the labels that name primitives,
/// colon definitions and threads, sorted by address (stably, so labels
/// at one address keep their table order).
pub fn build_dict_entries(labels: &Vec<Label>) -> (entries: Vec<DictEntry>)
    requires
        labels_wf(labels@),
    ensures
        entries@ == dict_entries_spec(labels@),
{
    let mut entries: Vec<DictEntry> = Vec::new();
    let n = labels.len();
    let mut i: usize = 0;
    while i < n
        invariant
            n == labels@.len(),
            i <= n,
            entries@ == sort_by_addr(dict_filter(labels@.take(i as int))),
        decreases n - i,
    {
        proof {
            assert(labels@.take(i + 1).drop_last() =~= labels@.take(i as int));
            assert(labels@.take(i + 1).last() == labels@[i as int]);
        }
        match label_kind_of(labels[i].0.as_str()) {
            Some(kind) => {
                let addr = labels[i].1;
                let m = entries.len();
                let mut p: usize = 0;
                while p < m && entries[p].addr <= addr
                    invariant
                        m == entries@.len(),
                        p <= m,
                        forall|t: int| 0 <= t < p ==> entries@[t].addr <= addr,
                    decreases m - p,
                {
                    p = p + 1;
                }
                proof {
                    lemma_insert_pos(entries@, addr, p as int);
                    let f = dict_filter(labels@.take(i + 1));
                    assert(f.drop_last() =~= dict_filter(labels@.take(i as int)));
                }
                entries.insert(p, DictEntry { name: labels[i].0.clone(), addr, kind });
            },
            None => {},
        }
        i = i + 1;
    }
    proof {
        assert(labels@.take(n as int) =~= labels@);
    }
    entries
}

/// Inserting into a list sorted by address keeps it sorted.
proof fn lemma_insert_sorted(s: Seq<DictEntry>, e: DictEntry)
    requires
        forall|i: int, j: int| 0 <= i < j < s.len() ==> s[i].addr <= s[j].addr,
    ensures
        ({
            let r = s.insert(insert_pos(s, e.addr), e);
            forall|i: int, j: int| 0 <= i < j < r.len() ==> r[i].addr <= r[j].addr
        }),
    decreases s.len(),
{
    let p = insert_pos(s, e.addr);
    lemma_insert_pos_props(s, e.addr);
    let r = s.insert(p, e);
    assert forall|i: int, j: int| 0 <= i < j < r.len() implies r[i].addr <= r[j].addr by {
        if j < p {
        } else if j == p {
            assert(r[i] == s[i]);
        } else if i < p {
            assert(r[j] == s[j - 1]);
        } else if i == p {
            assert(r[j] == s[j - 1]);
        } else {
            assert(r[i] == s[i - 1] && r[j] == s[j - 1]);
        }
    }
}

proof fn lemma_insert_pos_props(s: Seq<DictEntry>, a: u32)
    ensures
        0 <= insert_pos(s, a) <= s.len(),
        forall|t: int| 0 <= t < insert_pos(s, a) ==> s[t].addr <= a,
        insert_pos(s, a) < s.len() ==> s[insert_pos(s, a)].addr > a,
    decreases s.len(),
{
    if s.len() > 0 && s[0].addr <= a {
        lemma_insert_pos_props(s.drop_first(), a);
        assert forall|t: int| 0 <= t < insert_pos(s, a) implies s[t].addr <= a by {
            if t > 0 {
                assert(s[t] == s.drop_first()[t - 1]);
            }
        }
    }
}

proof fn lemma_sort_sorted(s: Seq<DictEntry>)
    ensures
        sort_by_addr(s).len() == s.len(),
        forall|i: int, j: int| 0 <= i < j < sort_by_addr(s).len() ==> sort_by_addr(s)[i].addr <= sort_by_addr(s)[j].addr,
    decreases s.len(),
{
    if s.len() > 0 {
        lemma_sort_sorted(s.drop_last());
        let sorted = sort_by_addr(s.drop_last());
        lemma_insert_pos_props(sorted, s.last().addr);
        lemma_insert_sorted(sorted, s.last());
    }
}

/// The dictionary browser lists its entries in address order.
pub proof fn lemma_dict_entries_sorted(labels: Seq<Label>)
    ensures
        forall|i: int, j: int| 0 <= i < j < dict_entries_spec(labels).len()
            ==> dict_entries_spec(labels)[i].addr <= dict_entries_spec(labels)[j].addr,
{
    lemma_sort_sorted(dict_filter(labels));
}

// ===== colon-word threads =====

/// Cells read when decoding a thread.
pub const THREAD_CELLS: usize = 32;

/// The names whose next thread cell is an inline value, not a word.
pub open spec fn takes_inline_value(n: Seq<char>) -> bool {
    n == "do_lit"@ || n == "do_branch"@ || n == "do_zbranch"@
}

/// The names that end a thread.
pub open spec fn ends_thread(n: Seq<char>) -> bool {
    n == "do_exit"@ || n == "do_halt"@
}

/// Decoding state after the first `k` cells: the lines so far, whether
/// the next cell is an inline value, and whether the thread has ended.
pub open spec fn thread_run(words: Seq<u32>, labels: Seq<Label>, k: int) -> (Seq<(u32, Seq<char>)>, bool, bool)
    decreases k,
{
    if k <= 0 {
        (Seq::empty(), false, false)
    } else {
        let (out, lit, done) = thread_run(words, labels, k - 1);
        if done {
            (out, lit, done)
        } else {
            let w = words[k - 1] & CELL_MASK;
            if lit {
                (out.push((w, dec_digits(w as nat))), false, false)
            } else {
                let name = resolve_spec(labels, w);
                (out.push((w, name)), takes_inline_value(name), ends_thread(name))
            }
        }
    }
}

proof fn lemma_numeral_not_name(w: u32)
    ensures
        dec_digits(w as nat) != "do_lit"@,
        dec_digits(w as nat) != "do_branch"@,
        dec_digits(w as nat) != "do_zbranch"@,
        dec_digits(w as nat) != "do_exit"@,
        dec_digits(w as nat) != "do_halt"@,
{
    lemma_dec_digits_numeral(w as nat);
    reveal_strlit("do_lit");
    reveal_strlit("do_branch");
    reveal_strlit("do_zbranch");
    reveal_strlit("do_exit");
    reveal_strlit("do_halt");
    let c = dec_digits(w as nat)[0];
    assert(0 <= upper_digit_value(c));
    assert(c != 'd');
}

proof fn lemma_thread_run_shape(words: Seq<u32>, labels: Seq<Label>, k: int)
    requires
        0 <= k <= words.len(),
    ensures
        ({
            let (out, lit, done) = thread_run(words, labels, k);
            &&& out.len() <= k
            &&& (!done ==> out.len() == k)
            &&& (forall|j: int| 0 <= j < out.len() ==> (#[trigger] out[j]).0 == words[j] & CELL_MASK)
            &&& (!done ==> (lit <==> (out.len() > 0 && (out.last().1 == "do_lit"@ || out.last().1 == "do_branch"@
                || out.last().1 == "do_zbranch"@))))
            &&& (!done ==> (out.len() == 0 || (out.last().1 != "do_exit"@ && out.last().1 != "do_halt"@)))
            &&& (forall|j: int| 0 <= j && j + 1 < out.len() ==> (#[trigger] out[j]).1 != "do_exit"@ && out[j].1 != "do_halt"@)
            &&& (forall|j: int| 0 <= j && j + 1 < out.len()
                && ((#[trigger] out[j]).1 == "do_lit"@ || out[j].1 == "do_branch"@ || out[j].1 == "do_zbranch"@)
                ==> is_numeral(out[j + 1].1, 10) && digits_value(out[j + 1].1, 10) == out[j + 1].0 as int)
        }),
    decreases k,
{
    if k > 0 {
        lemma_thread_run_shape(words, labels, k - 1);
        let (out, lit, done) = thread_run(words, labels, k - 1);
        if !done {
            let w = words[k - 1] & CELL_MASK;
            let (out2, lit2, done2) = thread_run(words, labels, k);
            if lit {
                lemma_dec_digits_numeral(w as nat);
                lemma_numeral_not_name(w);
                assert(out2 == out.push((w, dec_digits(w as nat))));
                assert forall|j: int| 0 <= j && j + 1 < out2.len()
                    && ((#[trigger] out2[j]).1 == "do_lit"@ || out2[j].1 == "do_branch"@ || out2[j].1 == "do_zbranch"@)
                    implies is_numeral(out2[j + 1].1, 10) && digits_value(out2[j + 1].1, 10) == out2[j + 1].0 as int by {
                    if j + 1 < out.len() {
                        assert(out2[j] == out[j] && out2[j + 1] == out[j + 1]);
                    }
                }
                assert forall|j: int| 0 <= j && j + 1 < out2.len() implies (#[trigger] out2[j]).1 != "do_exit"@ && out2[j].1 != "do_halt"@ by {
                    if j + 1 < out.len() {
                        assert(out2[j] == out[j]);
                    } else {
                        assert(out2[j] == out.last());
                        reveal_strlit("do_lit");
                        reveal_strlit("do_branch");
                        reveal_strlit("do_zbranch");
                        reveal_strlit("do_exit");
                        reveal_strlit("do_halt");
                    }
                }
            } else {
                let name = resolve_spec(labels, w);
                assert(out2 == out.push((w, name)));
                assert forall|j: int| 0 <= j && j + 1 < out2.len()
                    && ((#[trigger] out2[j]).1 == "do_lit"@ || out2[j].1 == "do_branch"@ || out2[j].1 == "do_zbranch"@)
                    implies is_numeral(out2[j + 1].1, 10) && digits_value(out2[j + 1].1, 10) == out2[j + 1].0 as int by {
                    if j + 1 < out.len() {
                        assert(out2[j] == out[j] && out2[j + 1] == out[j + 1]);
                    } else {
                        assert(out2[j] == out.last());
                    }
                }
                assert forall|j: int| 0 <= j && j + 1 < out2.len() implies (#[trigger] out2[j]).1 != "do_exit"@ && out2[j].1 != "do_halt"@ by {
                    if j + 1 < out.len() {
                        assert(out2[j] == out[j]);
                    } else {
                        assert(out2[j] == out.last());
                    }
                }
            }
        }
    }
}

/// The lines of a decoded thread: one per cell, in order, each carrying
/// the cell masked to 24 bits, up to and including the first `do_exit` or
/// `do_halt`; the line after a `do_lit`, `do_branch` or `do_zbranch`
/// shows that next cell as its standard decimal numeral.
pub proof fn lemma_thread_operands(words: Seq<u32>, labels: Seq<Label>)
    ensures
        ({
            let out = thread_run(words, labels, words.len() as int).0;
            &&& out.len() <= words.len()
            &&& (forall|j: int| 0 <= j < out.len() ==> (#[trigger] out[j]).0 == words[j] & CELL_MASK)
            &&& (forall|j: int| 0 <= j && j + 1 < out.len() ==> (#[trigger] out[j]).1 != "do_exit"@ && out[j].1 != "do_halt"@)
            &&& (out.len() < words.len() ==> out.len() > 0 && (out.last().1 == "do_exit"@ || out.last().1 == "do_halt"@))
            &&& (forall|j: int| 0 <= j && j + 1 < out.len()
                && ((#[trigger] out[j]).1 == "do_lit"@ || out[j].1 == "do_branch"@ || out[j].1 == "do_zbranch"@)
                ==> is_numeral(out[j + 1].1, 10) && digits_value(out[j + 1].1, 10) == out[j + 1].0 as int)
        }),
{
    lemma_thread_run_shape(words, labels, words.len() as int);
    lemma_thread_run_done(words, labels, words.len() as int);
}

proof fn lemma_thread_run_done(words: Seq<u32>, labels: Seq<Label>, k: int)
    requires
        0 <= k <= words.len(),
    ensures
        ({
            let (out, lit, done) = thread_run(words, labels, k);
            done ==> out.len() > 0 && (out.last().1 == "do_exit"@ || out.last().1 == "do_halt"@)
        }),
    decreases k,
{
    if k > 0 {
        lemma_thread_run_done(words, labels, k - 1);
        let (out, lit, done) = thread_run(words, labels, k - 1);
        if !done && lit {
            lemma_numeral_not_name(words[k - 1] & CELL_MASK);
        }
    }
}

/// The lines of a decoded thread, as values.
pub open spec fn thread_view(lines: Seq<(u32, String)>) -> Seq<(u32, Seq<char>)> {
    lines.map_values(|l: (u32, String)| (l.0, l.1@))
}

/// Addresses of the 32 cells of the parameter field of the colon word
/// whose code field is at `cfa`.
pub fn word_thread_addrs(cfa: u32) -> (addrs: Vec<u32>)
    requires
        cfa + CELL * (THREAD_CELLS + 1) <= u32::MAX,
    ensures
        addrs@ == Seq::new(THREAD_CELLS as nat, |k: int| (cfa + CELL + CELL * k) as u32),
{
    let mut addrs: Vec<u32> = Vec::new();
    let mut addr = cfa + CELL;
    let mut k: usize = 0;
    while k < THREAD_CELLS
        invariant
            cfa + CELL * (THREAD_CELLS + 1) <= u32::MAX,
            k <= THREAD_CELLS,
            addr == cfa + CELL + CELL * k,
            addrs@ == Seq::new(k as nat, |t: int| (cfa + CELL + CELL * t) as u32),
        decreases THREAD_CELLS - k,
    {
        addrs.push(addr);
        addr = addr + CELL;
        k = k + 1;
        proof {
            assert(addrs@ =~= Seq::new(k as nat, |t: int| (cfa + CELL + CELL * t) as u32));
        }
    }
    addrs
}

/// Decodes the cells of a thread, read from `word_thread_addrs`: each
/// cell is masked to 24 bits and shown as the label it resolves to; the
/// cell after `do_lit`, `do_branch` or `do_zbranch` is shown as a decimal
/// value; decoding stops after `do_exit` or `do_halt`.
pub fn decode_thread(words: &Vec<u32>, labels: &Vec<Label>) -> (lines: Vec<(u32, String)>)
    ensures
        thread_view(lines@) == thread_run(words@, labels@, words@.len() as int).0,
{
    let mut lines: Vec<(u32, String)> = Vec::new();
    let mut next_is_literal = false;
    let mut done = false;
    let n = words.len();
    let mut i: usize = 0;
    proof {
        reveal_strlit("do_lit");
        reveal_strlit("do_branch");
        reveal_strlit("do_zbranch");
        reveal_strlit("do_exit");
        reveal_strlit("do_halt");
    }
    while i < n
        invariant
            n == words@.len(),
            i <= n,
            thread_run(words@, labels@, i as int) == (thread_view(lines@), next_is_literal, done),
        decreases n - i,
    {
        if !done {
            let w = words[i] & CELL_MASK;
            if next_is_literal {
                let mut s = String::new();
                push_decimal(&mut s, w);
                proof {
                    assert(s@ =~= dec_digits(w as nat));
                }
                lines.push((w, s));
                next_is_literal = false;
            } else {
                let name = resolve_addr(labels, w);
                next_is_literal = str_eq(name.as_str(), "do_lit") || str_eq(name.as_str(), "do_branch")
                    || str_eq(name.as_str(), "do_zbranch");
                done = str_eq(name.as_str(), "do_exit") || str_eq(name.as_str(), "do_halt");
                lines.push((w, name));
            }
        }
        i = i + 1;
        proof {
            assert(thread_view(lines@) =~= thread_run(words@, labels@, i as int).0);
        }
    }
    lines
}

/// The caller chain: each return address read from `caller_chain_addrs`
/// (oldest first, since the walk starts at the base of the return stack),
/// masked to 24 bits and resolved to a label, listed innermost (most
/// recent) caller first.
pub fn caller_chain(raw: &Vec<u32>, labels: &Vec<Label>) -> (chain: Vec<(u32, String)>)
    ensures
        thread_view(chain@) == Seq::new(raw@.len(), |i: int| {
            let w = raw@[raw@.len() - 1 - i] & CELL_MASK;
            (w, resolve_spec(labels@, w))
        }),
{
    let n = raw.len();
    let mut chain: Vec<(u32, String)> = Vec::new();
    let mut j: usize = n;
    while j > 0
        invariant
            n == raw@.len(),
            j <= n,
            chain@.len() == n - j,
            forall|i: int| 0 <= i < chain@.len() ==> (#[trigger] chain@[i]).0 == raw@[n - 1 - i] & CELL_MASK
                && chain@[i].1@ == resolve_spec(labels@, raw@[n - 1 - i] & CELL_MASK),
        decreases j,
    {
        j = j - 1;
        let w = raw[j] & CELL_MASK;
        let name = resolve_addr(labels, w);
        chain.push((w, name));
    }
    proof {
        assert(thread_view(chain@) =~= Seq::new(raw@.len(), |i: int| {
            let w = raw@[raw@.len() - 1 - i] & CELL_MASK;
            (w, resolve_spec(labels@, w))
        }));
    }
    chain
}


// ===== debugger state =====

/// Tab of the bottom panel.
#[derive(Clone, Copy, PartialEq, Eq, Structural, Debug)]
pub enum BottomTab {
    Dictionary,
    CompileLog,
}

/// The state of the debugger tab, apart from the emulator and the
/// assembler's listing.
pub struct DebuggerState {
    pub tier: ForthTier,
    pub stack_size: StackSize,
    pub output: String,
    pub input: String,
    pub running: bool,
    pub halted: bool,
    pub prev_regs: [u32; 8],
    pub prev_pc: u32,
    pub rx_queue: VecDeque<u8>,
    pub labels: Vec<Label>,
    pub dict_entries: Vec<DictEntry>,
    pub selected_word: Option<String>,
    pub bottom_tab: BottomTab,
    pub program_end: u32,
    pub switch_pressed: bool,
    pub selected_demo: Option<usize>,
}

/// The debugger state as values.
#[verifier::ext_equal]
pub struct DebuggerView {
    pub tier: ForthTier,
    pub stack_size: StackSize,
    pub output: Seq<char>,
    pub input: Seq<char>,
    pub running: bool,
    pub halted: bool,
    pub prev_regs: Seq<u32>,
    pub prev_pc: u32,
    pub rx_queue: Seq<u8>,
    pub labels: Seq<Label>,
    pub dict_entries: Seq<DictEntry>,
    pub selected_word: Option<Seq<char>>,
    pub bottom_tab: BottomTab,
    pub program_end: u32,
    pub switch_pressed: bool,
    pub selected_demo: Option<usize>,
}

impl View for DebuggerState {
    type V = DebuggerView;

    open spec fn view(&self) -> DebuggerView {
        DebuggerView {
            tier: self.tier,
            stack_size: self.stack_size,
            output: self.output@,
            input: self.input@,
            running: self.running,
            halted: self.halted,
            prev_regs: self.prev_regs@,
            prev_pc: self.prev_pc,
            rx_queue: self.rx_queue@,
            labels: self.labels@,
            dict_entries: self.dict_entries@,
            selected_word: match self.selected_word {
                Some(w) => Some(w@),
                None => None,
            },
            bottom_tab: self.bottom_tab,
            program_end: self.program_end,
            switch_pressed: self.switch_pressed,
            selected_demo: self.selected_demo,
        }
    }
}

/// The debugger before its first load: the bootstrap tier, the 3 KB
/// stack, the dictionary tab, everything else empty.
pub open spec fn debugger_initial() -> DebuggerView {
    DebuggerView {
        tier: ForthTier::Bootstrap,
        stack_size: StackSize::ThreeKb,
        output: Seq::empty(),
        input: Seq::empty(),
        running: false,
        halted: false,
        prev_regs: Seq::new(8, |i: int| 0u32),
        prev_pc: 0,
        rx_queue: Seq::empty(),
        labels: Seq::empty(),
        dict_entries: Seq::empty(),
        selected_word: None,
        bottom_tab: BottomTab::Dictionary,
        program_end: 0,
        switch_pressed: false,
        selected_demo: None,
    }
}

/// A kernel assembled into `program_len` bytes with these labels was
/// loaded: the labels and the dictionary kept, the output, stacks of
/// previous values, UART queue, selection, switch and demo cleared, and
/// the debugger paused. The caller resets the emulator, loads the
/// program at 0, sets the PC to 0 and pauses.
pub open spec fn loaded_spec(v: DebuggerView, labels: Seq<Label>, program_len: usize) -> DebuggerView {
    DebuggerView {
        labels,
        dict_entries: dict_entries_spec(labels),
        program_end: program_len as u32,
        output: Seq::empty(),
        halted: false,
        prev_regs: Seq::new(8, |i: int| 0u32),
        prev_pc: 0,
        rx_queue: Seq::empty(),
        selected_word: None,
        switch_pressed: false,
        selected_demo: None,
        running: false,
        ..v
    }
}

/// Before a tick or a step: the current registers and PC become the
/// previous ones, and one queued byte goes to the UART when it is ready.
pub open spec fn prepare_spec(v: DebuggerView, regs: Seq<u32>, pc: u32, status: u8) -> (DebuggerView, Option<u8>) {
    let feeds = v.rx_queue.len() > 0 && uart_ready_spec(status);
    (
        DebuggerView {
            prev_regs: regs,
            prev_pc: pc,
            rx_queue: if feeds { v.rx_queue.drop_first() } else { v.rx_queue },
            ..v
        },
        if feeds { Some(v.rx_queue[0]) } else { None },
    )
}

/// After a tick's batch: a halt stops the run, a breakpoint pauses it,
/// otherwise a running debugger schedules its next tick.
pub open spec fn tick_done_spec(v: DebuggerView, halted: bool, breakpoint: bool) -> (DebuggerView, Effects) {
    if halted {
        (DebuggerView { running: false, halted: true, ..v }, only_render(true))
    } else if breakpoint {
        (
            DebuggerView { running: false, ..v },
            Effects { pause: true, resume: false, set_button: None, cancel_tick: false, schedule_tick: false, rerender: true },
        )
    } else {
        (
            v,
            Effects { pause: false, resume: false, set_button: None, cancel_tick: false, schedule_tick: v.running, rerender: true },
        )
    }
}

/// Sending the input line: nothing for an empty line; otherwise its bytes
/// and a newline are queued, the input cleared, and the debugger started
/// when it is neither running nor halted.
pub open spec fn debugger_send_spec(v: DebuggerView) -> (DebuggerView, Effects) {
    if v.input.len() == 0 {
        (v, only_render(false))
    } else {
        let start = !v.running && !v.halted;
        (
            DebuggerView {
                rx_queue: v.rx_queue + encode_utf8(v.input) + seq![10u8],
                input: Seq::empty(),
                running: v.running || start,
                ..v
            },
            if start { start_effects() } else { only_render(true) },
        )
    }
}

/// Run/Pause: nothing once halted; pauses a running debugger (dropping
/// its pending tick), starts a paused one.
pub open spec fn pause_resume_spec(v: DebuggerView) -> (DebuggerView, Effects) {
    if v.halted {
        (v, only_render(false))
    } else if v.running {
        (
            DebuggerView { running: false, ..v },
            Effects { pause: true, resume: false, set_button: None, cancel_tick: true, schedule_tick: false, rerender: true },
        )
    } else {
        (DebuggerView { running: true, ..v }, start_effects())
    }
}

/// Clicking a dictionary word selects it, or deselects it when it is
/// already selected.
pub open spec fn select_word_spec(v: DebuggerView, name: Seq<char>) -> DebuggerView {
    if v.selected_word == Some(name) {
        DebuggerView { selected_word: None, ..v }
    } else {
        DebuggerView { selected_word: Some(name), ..v }
    }
}

impl DebuggerState {
    /// The debugger before its first load.
    pub fn new() -> (s: DebuggerState)
        ensures
            s@ == debugger_initial(),
    {
        let s = DebuggerState {
            tier: ForthTier::Bootstrap,
            stack_size: StackSize::ThreeKb,
            output: String::new(),
            input: String::new(),
            running: false,
            halted: false,
            prev_regs: [0u32; 8],
            prev_pc: 0,
            rx_queue: VecDeque::new(),
            labels: Vec::new(),
            dict_entries: Vec::new(),
            selected_word: None,
            bottom_tab: BottomTab::Dictionary,
            program_end: 0,
            switch_pressed: false,
            selected_demo: None,
        };
        proof {
            assert(s@.prev_regs =~= Seq::new(8, |i: int| 0u32));
            assert(s@ =~= debugger_initial());
        }
        s
    }

    /// The tier's kernel did not assemble: the output lists the errors.
    pub fn assembly_failed(&mut self, errors: &Vec<String>)
        ensures
            final(self)@ == (DebuggerView {
                output: "Assembly errors:\n"@ + joined_lines(errors@.map_values(|e: String| e@)),
                ..old(self)@
            }),
    {
        let mut out = String::from_str("Assembly errors:\n");
        let ghost head = out@;
        let n = errors.len();
        let mut i: usize = 0;
        while i < n
            invariant
                n == errors@.len(),
                i <= n,
                out@ == head + joined_lines(errors@.take(i as int).map_values(|e: String| e@)),
            decreases n - i,
        {
            out.append(errors[i].as_str());
            out.append("\n");
            proof {
                let t = errors@.take(i + 1).map_values(|e: String| e@);
                assert(t.drop_last() =~= errors@.take(i as int).map_values(|e: String| e@));
                assert(out@ =~= head + joined_lines(t));
            }
            i = i + 1;
        }
        proof {
            assert(errors@.take(n as int) =~= errors@);
        }
        self.output = out;
    }

    /// The tier's kernel assembled and was loaded (see `loaded_spec`).
    pub fn loaded(&mut self, labels: Vec<Label>, program_len: usize)
        requires
            labels_wf(labels@),
        ensures
            final(self)@ == loaded_spec(old(self)@, labels@, program_len),
    {
        self.dict_entries = build_dict_entries(&labels);
        self.labels = labels;
        self.program_end = program_len as u32;
        self.output = String::new();
        self.halted = false;
        self.prev_regs = [0u32; 8];
        self.prev_pc = 0;
        self.rx_queue = VecDeque::new();
        self.selected_word = None;
        self.switch_pressed = false;
        self.selected_demo = None;
        self.running = false;
        proof {
            assert(final(self)@.prev_regs =~= Seq::new(8, |i: int| 0u32));
            assert(final(self)@ =~= loaded_spec(old(self)@, labels@, program_len));
        }
    }

    /// Before a tick or a step (see `prepare_spec`); returns the byte to
    /// hand to the UART.
    pub fn prepare(&mut self, regs: [u32; 8], pc: u32, status: u8) -> (feed: Option<u8>)
        ensures
            (final(self)@, feed) == prepare_spec(old(self)@, regs@, pc, status),
    {
        self.prev_regs = regs;
        self.prev_pc = pc;
        let mut feed: Option<u8> = None;
        if self.rx_queue.len() > 0 && uart_ready(status) {
            feed = self.rx_queue.pop_front();
        }
        proof {
            assert(final(self)@ =~= prepare_spec(old(self)@, regs@, pc, status).0);
        }
        feed
    }

    /// Appends what the UART printed to the output.
    pub fn append_output(&mut self, text: &str)
        ensures
            final(self)@ == (DebuggerView { output: old(self)@.output + text@, ..old(self)@ }),
    {
        self.output.append(text);
    }

    /// After a tick's batch (see `tick_done_spec`).
    pub fn tick_done(&mut self, halted: bool, breakpoint: bool) -> (e: Effects)
        ensures
            (final(self)@, e) == tick_done_spec(old(self)@, halted, breakpoint),
    {
        if halted {
            self.running = false;
            self.halted = true;
            render_only_effects()
        } else if breakpoint {
            self.running = false;
            Effects { pause: true, resume: false, set_button: None, cancel_tick: false, schedule_tick: false, rerender: true }
        } else {
            Effects { pause: false, resume: false, set_button: None, cancel_tick: false, schedule_tick: self.running, rerender: true }
        }
    }

    /// Whether Step / Step Over may run: not once halted. When it may, the
    /// debugger stops running; the caller resumes the emulator, prepares,
    /// steps, collects the output, pauses, and reports a halt.
    pub fn step_begin(&mut self) -> (may: bool)
        ensures
            may == !old(self)@.halted,
            final(self)@ == (if may { DebuggerView { running: false, ..old(self)@ } } else { old(self)@ }),
    {
        if self.halted {
            return false;
        }
        self.running = false;
        true
    }

    /// After a step: a halt is recorded.
    pub fn step_done(&mut self, halted: bool)
        ensures
            final(self)@ == (if halted { DebuggerView { halted: true, ..old(self)@ } } else { old(self)@ }),
    {
        if halted {
            self.halted = true;
        }
    }

    /// Sends the input line (see `debugger_send_spec`).
    pub fn send_input(&mut self) -> (e: Effects)
        ensures
            (final(self)@, e) == debugger_send_spec(old(self)@),
    {
        if self.input.as_str().unicode_len() == 0 {
            return render_only_effects_no();
        }
        let bytes = input_to_uart(self.input.as_str());
        queue_into(&mut self.rx_queue, bytes.as_slice());
        self.input = String::new();
        let mut e = render_only_effects();
        if !self.running && !self.halted {
            self.running = true;
            e = Effects { pause: false, resume: true, set_button: None, cancel_tick: false, schedule_tick: true, rerender: true };
        }
        proof {
            assert(final(self)@ =~= debugger_send_spec(old(self)@).0);
        }
        e
    }

    /// The Run/Pause button (see `pause_resume_spec`).
    pub fn pause_resume(&mut self) -> (e: Effects)
        ensures
            (final(self)@, e) == pause_resume_spec(old(self)@),
    {
        if self.halted {
            return render_only_effects_no();
        }
        if self.running {
            self.running = false;
            Effects { pause: true, resume: false, set_button: None, cancel_tick: true, schedule_tick: false, rerender: true }
        } else {
            self.running = true;
            Effects { pause: false, resume: true, set_button: None, cancel_tick: false, schedule_tick: true, rerender: true }
        }
    }

    /// Choosing demo `index`: when it exists, it is selected and its tier
    /// chosen; the caller then reloads the tier's kernel (which clears the
    /// selection again) and calls `load_demo_finish`.
    pub fn load_demo_begin(&mut self, index: usize, demos: &Vec<Demo>) -> (found: bool)
        ensures
            found == (index < demos@.len()),
            final(self)@ == (if found {
                DebuggerView { selected_demo: Some(index), tier: demos@[index as int].tier, ..old(self)@ }
            } else {
                old(self)@
            }),
    {
        if index < demos.len() {
            self.selected_demo = Some(index);
            self.tier = demos[index].tier;
            true
        } else {
            false
        }
    }

    /// Types the demo's lines (trimmed, no blank or `\` comment lines)
    /// into the UART queue and runs.
    pub fn load_demo_finish(&mut self, source: &str) -> (e: Effects)
        ensures
            final(self)@ == (DebuggerView {
                rx_queue: old(self)@.rx_queue + lines_bytes(demo_lines_spec(source@)),
                running: true,
                ..old(self)@
            }),
            e == start_effects(),
    {
        let lines = demo_lines(source);
        let bytes = lines_to_uart(&lines);
        queue_into(&mut self.rx_queue, bytes.as_slice());
        self.running = true;
        proof {
            assert(final(self)@ =~= (DebuggerView {
                rx_queue: old(self)@.rx_queue + lines_bytes(demo_lines_spec(source@)),
                running: true,
                ..old(self)@
            }));
        }
        Effects { pause: false, resume: true, set_button: None, cancel_tick: false, schedule_tick: true, rerender: true }
    }

    /// Clicking the S2 switch: it toggles and the emulator's button follows.
    pub fn toggle_switch(&mut self) -> (e: Effects)
        ensures
            final(self)@ == (DebuggerView { switch_pressed: !old(self)@.switch_pressed, ..old(self)@ }),
            e == (Effects {
                pause: false,
                resume: false,
                set_button: Some(!old(self)@.switch_pressed),
                cancel_tick: false,
                schedule_tick: false,
                rerender: true,
            }),
    {
        self.switch_pressed = !self.switch_pressed;
        Effects { pause: false, resume: false, set_button: Some(self.switch_pressed), cancel_tick: false, schedule_tick: false, rerender: true }
    }

    /// Clicking a dictionary word (see `select_word_spec`).
    pub fn select_word(&mut self, name: String)
        ensures
            final(self)@ == select_word_spec(old(self)@, name@),
    {
        let same = match &self.selected_word {
            Some(w) => crate::text::str_eq(w.as_str(), name.as_str()),
            None => false,
        };
        if same {
            self.selected_word = None;
        } else {
            self.selected_word = Some(name);
        }
        proof {
            assert(final(self)@ =~= select_word_spec(old(self)@, name@));
        }
    }
}

fn render_only_effects() -> (e: Effects)
    ensures
        e == only_render(true),
{
    Effects { pause: false, resume: false, set_button: None, cancel_tick: false, schedule_tick: false, rerender: true }
}

fn render_only_effects_no() -> (e: Effects)
    ensures
        e == only_render(false),
{
    Effects { pause: false, resume: false, set_button: None, cancel_tick: false, schedule_tick: false, rerender: false }
}

fn queue_into(q: &mut VecDeque<u8>, b: &[u8])
    ensures
        final(q)@ == old(q)@ + b@,
{
    let n = b.len();
    let mut i: usize = 0;
    while i < n
        invariant
            n == b@.len(),
            i <= n,
            q@ == old(q)@ + b@.take(i as int),
        decreases n - i,
    {
        q.push_back(b[i]);
        i = i + 1;
        proof {
            assert(q@ =~= old(q)@ + b@.take(i as int));
        }
    }
    proof {
        assert(b@.take(n as int) =~= b@);
    }
}


// ===== panel helpers =====

impl WordKind {
    /// Style class of a dictionary entry of this kind.
    pub fn css_class(self) -> (c: &'static str)
        ensures
            c@ == (match self {
                WordKind::Primitive => "dict-primitive"@,
                WordKind::ColonDef => "dict-colon"@,
                WordKind::Thread => "dict-thread"@,
            }),
    {
        match self {
            WordKind::Primitive => "dict-primitive",
            WordKind::ColonDef => "dict-colon",
            WordKind::Thread => "dict-thread",
        }
    }

    /// Short tag shown beside a dictionary entry of this kind.
    pub fn tag(self) -> (t: &'static str)
        ensures
            t@ == (match self {
                WordKind::Primitive => "PRIM"@,
                WordKind::ColonDef => "COLON"@,
                WordKind::Thread => "THREAD"@,
            }),
    {
        match self {
            WordKind::Primitive => "PRIM",
            WordKind::ColonDef => "COLON",
            WordKind::Thread => "THREAD",
        }
    }
}

/// Some label lies at `addr`.
pub open spec fn is_label_addr(labels: Seq<Label>, addr: u32) -> bool {
    exists|i: int| 0 <= i < labels.len() && labels[i].1 == addr
}

/// Number of leading lines of a primitive's disassembly that belong to
/// it: lines at its own address, or at addresses that no label names.
pub open spec fn primitive_len(entry: u32, lines: Seq<DisasmLine>, labels: Seq<Label>) -> nat
    decreases lines.len(),
{
    if lines.len() > 0 && (lines[0].0 == entry || !is_label_addr(labels, lines[0].0)) {
        1 + primitive_len(entry, lines.drop_first(), labels)
    } else {
        0
    }
}

proof fn lemma_primitive_len(entry: u32, lines: Seq<DisasmLine>, labels: Seq<Label>, p: int)
    requires
        0 <= p <= lines.len(),
        forall|t: int| 0 <= t < p ==> lines[t].0 == entry || !is_label_addr(labels, lines[t].0),
        p == lines.len() || !(lines[p].0 == entry || !is_label_addr(labels, lines[p].0)),
    ensures
        primitive_len(entry, lines, labels) == p,
    decreases p,
{
    if p > 0 {
        lemma_primitive_len(entry, lines.drop_first(), labels, p - 1);
    }
}

fn has_label_at(labels: &Vec<Label>, addr: u32) -> (r: bool)
    ensures
        r == is_label_addr(labels@, addr),
{
    let n = labels.len();
    let mut i: usize = 0;
    while i < n
        invariant
            n == labels@.len(),
            i <= n,
            forall|t: int| 0 <= t < i ==> labels@[t].1 != addr,
        decreases n - i,
    {
        if labels[i].1 == addr {
            return true;
        }
        i = i + 1;
    }
    false
}

/// The inspector's listing of a primitive at `entry`: its disassembly up
/// to the next labelled address, as address and mnemonic.
pub fn primitive_listing(entry: u32, lines: &Vec<DisasmLine>, labels: &Vec<Label>) -> (listing: Vec<(u32, String)>)
    ensures
        listing@ == lines@.take(primitive_len(entry, lines@, labels@) as int).map_values(|l: DisasmLine| (l.0, l.1)),
{
    let n = lines.len();
    let mut listing: Vec<(u32, String)> = Vec::new();
    let mut i: usize = 0;
    while i < n && (lines[i].0 == entry || !has_label_at(labels, lines[i].0))
        invariant
            n == lines@.len(),
            i <= n,
            forall|t: int| 0 <= t < i ==> lines@[t].0 == entry || !is_label_addr(labels@, lines@[t].0),
            listing@ == lines@.take(i as int).map_values(|l: DisasmLine| (l.0, l.1)),
        decreases n - i,
    {
        listing.push((lines[i].0, lines[i].1.clone()));
        i = i + 1;
        proof {
            assert(listing@ =~= lines@.take(i as int).map_values(|l: DisasmLine| (l.0, l.1)));
        }
    }
    proof {
        lemma_primitive_len(entry, lines@, labels@, i as int);
    }
    listing
}

/// Sum of the region sizes.
pub open spec fn regions_sum(regions: Seq<Region>) -> int
    decreases regions.len(),
{
    if regions.len() == 0 {
        0
    } else {
        regions_sum(regions.drop_last()) + regions.last().2
    }
}

/// Total of the memory-map bar, at least 1 so that proportions are
/// defined.
pub fn region_total(regions: &Vec<Region>) -> (total: u32)
    requires
        regions_sum(regions@) <= u32::MAX,
    ensures
        total == (if regions_sum(regions@) < 1 { 1 } else { regions_sum(regions@) }),
{
    let n = regions.len();
    let mut sum: u32 = 0;
    let mut i: usize = 0;
    proof {
        assert forall|k: int| 0 <= k <= n implies regions_sum(regions@.take(k)) <= regions_sum(regions@) by {
            lemma_regions_sum_prefix(regions@, k);
        }
        assert(regions@.take(0) =~= Seq::<Region>::empty());
    }
    while i < n
        invariant
            n == regions@.len(),
            i <= n,
            regions_sum(regions@) <= u32::MAX,
            sum == regions_sum(regions@.take(i as int)),
            forall|k: int| 0 <= k <= n ==> regions_sum(regions@.take(k)) <= regions_sum(regions@),
        decreases n - i,
    {
        proof {
            assert(regions@.take(i + 1).drop_last() =~= regions@.take(i as int));
        }
        sum = sum + regions[i].2;
        i = i + 1;
    }
    proof {
        assert(regions@.take(n as int) =~= regions@);
    }
    if sum < 1 { 1 } else { sum }
}

proof fn lemma_regions_sum_prefix(regions: Seq<Region>, k: int)
    requires
        0 <= k <= regions.len(),
    ensures
        regions_sum(regions.take(k)) <= regions_sum(regions),
    decreases regions.len() - k,
{
    if k < regions.len() {
        lemma_regions_sum_prefix(regions, k + 1);
        assert(regions.take(k + 1).drop_last() =~= regions.take(k));
    } else {
        assert(regions.take(k) =~= regions);
    }
}


// ===== compile log =====

/// The compile log lists the assembled lines that produced bytes or carry
/// a label.
pub fn compile_log_shows(n_bytes: usize, has_label: bool) -> (shown: bool)
    ensures
        shown == (n_bytes > 0 || has_label),
{
    n_bytes > 0 || has_label
}

/// Hex of the first six bytes of `bytes`, separated by spaces.
pub open spec fn bytes_preview_spec(bytes: Seq<u8>) -> Seq<char>
    decreases bytes.len(),
{
    let b = if bytes.len() > 6 { bytes.take(6) } else { bytes };
    if b.len() == 0 {
        Seq::empty()
    } else if b.len() == 1 {
        hex2(b[0])
    } else {
        bytes_preview_spec(b.drop_last()) + seq![' '] + hex2(b.last())
    }
}

/// The bytes column of a compile-log line: up to six bytes in hex.
pub fn compile_log_bytes(bytes: &[u8]) -> (text: String)
    ensures
        text@ == bytes_preview_spec(bytes@),
{
    let n: usize = if bytes.len() > 6 { 6 } else { bytes.len() };
    let ghost b = if bytes@.len() > 6 { bytes@.take(6) } else { bytes@ };
    proof {
        assert(b.len() == n);
    }
    let mut text = String::new();
    let mut i: usize = 0;
    while i < n
        invariant
            n <= bytes@.len(),
            n <= 6,
            b == (if bytes@.len() > 6 { bytes@.take(6) } else { bytes@ }),
            b.len() == n,
            i <= n,
            text@ == bytes_preview_spec(b.take(i as int)),
        decreases n - i,
    {
        proof {
            let t = b.take(i + 1);
            assert(t.len() <= 6);
            assert(t.drop_last() =~= b.take(i as int));
            if i == 0 {
                assert(b.take(0) =~= Seq::<u8>::empty());
            }
        }
        if i > 0 {
            string_push(&mut text, ' ');
        }
        push_hex2(&mut text, bytes[i]);
        i = i + 1;
        proof {
            assert(b[(i - 1) as int] == bytes@[(i - 1) as int]);
            assert(text@ =~= bytes_preview_spec(b.take(i as int)));
        }
    }
    proof {
        assert(b.take(n as int) =~= b);
        if bytes@.len() > 6 {
            assert(b.take(6) =~= b);
        }
    }
    text
}

/// The source column of a compile-log line: the trimmed source, after
/// `label:` and two spaces when the line has a label.
pub fn compile_log_source(label: Option<&str>, source: &str) -> (text: String)
    ensures
        text@ == (match label {
            Some(l) => l@ + ":  "@ + trim_spec(source@),
            None => trim_spec(source@),
        }),
{
    let trimmed = trim_str(source);
    match label {
        Some(l) => {
            let mut text = String::from_str(l);
            text.append(":  ");
            text.append(trimmed.as_str());
            text
        },
        None => trimmed,
    }
}


impl DebuggerState {
    /// The status bar's run state.
    pub fn status_text(&self) -> (t: &'static str)
        ensures
            t@ == (if self.halted { "Halted"@ } else if self.running { "Running"@ } else { "Paused"@ }),
    {
        if self.halted {
            "Halted"
        } else if self.running {
            "Running"
        } else {
            "Paused"
        }
    }
}


/// The name of the last label at exactly `addr`, as the disassembly
/// shows it above the instruction there.
pub fn label_at(labels: &Vec<Label>, addr: u32) -> (name: Option<String>)
    requires
        labels_wf(labels@),
    ensures
        match name {
            Some(n) => last_exact(labels@, addr) matches Some(i) && n@ == labels@[i].0@,
            None => last_exact(labels@, addr) is None,
        },
{
    match find_last_exact(labels, addr) {
        Some(i) => {
            proof {
                lemma_last_exact_bounds(labels@, addr);
            }
            Some(labels[i].0.clone())
        },
        None => None,
    }
}

/// Whether the region sizes add up without overflowing a `u32`, as
/// `region_total` needs.
pub fn regions_fit(regions: &Vec<Region>) -> (fits: bool)
    ensures
        fits == (regions_sum(regions@) <= u32::MAX),
{
    let n = regions.len();
    let mut sum: u64 = 0;
    let mut i: usize = 0;
    while i < n
        invariant
            n == regions@.len(),
            i <= n,
            sum == regions_sum(regions@.take(i as int)),
            sum <= u32::MAX,
        decreases n - i,
    {
        proof {
            assert(regions@.take(i + 1).drop_last() =~= regions@.take(i as int));
            lemma_regions_sum_prefix(regions@, i + 1);
            lemma_regions_sum_mono(regions@, i + 1);
        }
        sum = sum + regions[i].2 as u64;
        if sum > 0xFFFF_FFFF {
            return false;
        }
        i = i + 1;
    }
    proof {
        assert(regions@.take(n as int) =~= regions@);
    }
    true
}

proof fn lemma_regions_sum_mono(regions: Seq<Region>, k: int)
    requires
        0 <= k <= regions.len(),
    ensures
        regions_sum(regions.take(k)) <= regions_sum(regions),
        regions_sum(regions.take(k)) >= 0,
    decreases regions.len() - k,
{
    lemma_regions_sum_prefix(regions, k);
    lemma_regions_sum_nonneg(regions.take(k));
}

proof fn lemma_regions_sum_nonneg(regions: Seq<Region>)
    ensures
        regions_sum(regions) >= 0,
    decreases regions.len(),
{
    if regions.len() > 0 {
        lemma_regions_sum_nonneg(regions.drop_last());
    }
}

} // verus!
