use web_sw_cor24_forth::debugger::{label_at, regions_fit};
use web_sw_cor24_forth::config::StackSize;
use web_sw_cor24_forth::debugger::{
    build_dict_entries, caller_chain, caller_chain_addrs, compile_log_bytes, compile_log_shows, compile_log_source,
    data_stack_addrs, decode_thread, disasm_scan_start, disasm_window, label_kind_of, memory_regions,
    primitive_listing, region_total, resolve_addr, return_stack_addrs, stack_cells, word_thread_addrs, WordKind,
};

fn labels(pairs: &[(&str, u32)]) -> Vec<(String, u32)> {
    pairs.iter().map(|(n, a)| (n.to_string(), *a)).collect()
}

#[test]
fn data_stack_walk() {
    let top = StackSize::ThreeKb.initial_sp();
    assert!(data_stack_addrs(StackSize::ThreeKb, top).is_empty());
    assert_eq!(data_stack_addrs(StackSize::ThreeKb, top - 6), vec![top - 3, top - 6]);
    assert_eq!(data_stack_addrs(StackSize::ThreeKb, top - 7), vec![top - 3, top - 6, top - 9]);
    assert_eq!(data_stack_addrs(StackSize::EightKb, 0).len(), 64);
}

#[test]
fn return_stack_walk() {
    assert!(return_stack_addrs(0).is_empty());
    assert!(return_stack_addrs(0x0F0000).is_empty());
    assert!(return_stack_addrs(0x0F0001).is_empty());
    assert_eq!(return_stack_addrs(0x0F0000 - 3), vec![0x0F0000 - 3]);
    assert_eq!(caller_chain_addrs(1).len(), 16);
    assert_eq!(return_stack_addrs(1).len(), 64);
}

#[test]
fn stack_cells_mask_top_first() {
    assert_eq!(stack_cells(&[0x1_000001, 0xFF_000002, 3]), vec![3, 2, 1]);
}

#[test]
fn regions() {
    let r = memory_regions(0x1000, 0x0F0000 - 9, 0xFEEC00 - 6, StackSize::ThreeKb);
    assert_eq!(r[0], ("Kernel", "region-kernel", 0x1000));
    assert_eq!(r[1], ("Free", "region-free", 0x0F0000 - 0x1000 - 9));
    assert_eq!(r[2], ("RStack", "region-rstack", 9));
    assert_eq!(r[3], ("DStack", "region-dstack", 6));
    assert_eq!(region_total(&r), 0x0F0000 + 6);
    let empty = memory_regions(0, 0x0F0000, 0xFF0000, StackSize::EightKb);
    assert_eq!(empty[2].2, 0);
    assert_eq!(region_total(&vec![("a", "b", 0)]), 1);
}

#[test]
fn resolve_exact_near_and_hex() {
    let l = labels(&[("do_dup", 0x100), ("alias", 0x100), ("do_drop", 0x110)]);
    assert_eq!(resolve_addr(&l, 0x100), "alias");
    assert_eq!(resolve_addr(&l, 0x105), "do_dup+5");
    assert_eq!(resolve_addr(&l, 0x11F), "do_drop+15");
    assert_eq!(resolve_addr(&l, 0x12F), "do_drop+31");
    assert_eq!(resolve_addr(&l, 0x130), "000130");
    assert_eq!(resolve_addr(&l, 0x1234567), "1234567");
    assert_eq!(resolve_addr(&l, 0x50), "000050");
    assert_eq!(resolve_addr(&labels(&[]), 0x1234567), "1234567");
}

#[test]
fn dictionary_entries() {
    let l = labels(&[
        ("tx_wait", 1),
        ("do_lit", 30),
        ("square_word", 20),
        ("quit_thread", 20),
        ("_start", 0),
        ("do_exit", 10),
        ("helper", 5),
        ("key_poll", 3),
    ]);
    let e = build_dict_entries(&l);
    let got: Vec<(String, u32, WordKind)> = e.iter().map(|d| (d.name.clone(), d.addr, d.kind)).collect();
    assert_eq!(
        got,
        vec![
            ("do_exit".to_string(), 10, WordKind::Primitive),
            ("square_word".to_string(), 20, WordKind::ColonDef),
            ("quit_thread".to_string(), 20, WordKind::Thread),
            ("do_lit".to_string(), 30, WordKind::Primitive),
        ]
    );
    assert_eq!(label_kind_of("eq_true"), None);
    assert_eq!(label_kind_of("do_word"), Some(WordKind::ColonDef));
    assert_eq!(WordKind::Thread.tag(), "THREAD");
    assert_eq!(WordKind::ColonDef.css_class(), "dict-colon");
}

#[test]
fn thread_decoding() {
    let l = labels(&[("do_lit", 0x10), ("do_dot", 0x20), ("do_exit", 0x30), ("do_branch", 0x40)]);
    let words = vec![0x10, 0xFF_00002A, 0x20, 0x40, 7, 0x30, 0x20, 0x20];
    let t = decode_thread(&words, &l);
    let got: Vec<(u32, String)> = t;
    assert_eq!(
        got,
        vec![
            (0x10, "do_lit".to_string()),
            (0x2A, "42".to_string()),
            (0x20, "do_dot".to_string()),
            (0x40, "do_branch".to_string()),
            (7, "7".to_string()),
            (0x30, "do_exit".to_string()),
        ]
    );
    let a = word_thread_addrs(0x100);
    assert_eq!(a.len(), 32);
    assert_eq!(a[0], 0x103);
    assert_eq!(a[31], 0x103 + 31 * 3);
}

#[test]
fn caller_chain_names() {
    let l = labels(&[("quit_thread", 0x200)]);
    let c = caller_chain(&vec![0x1_000205, 0x300], &l);
    assert_eq!(caller_chain(&vec![0x100], &l), vec![(0x100, "000100".to_string())]);
    assert_eq!(c, vec![(0x300, "000300".to_string()), (0x205, "quit_thread+5".to_string())]);
}

#[test]
fn disassembly_window() {
    let line = |a: u32, m: &str| (a, m.to_string(), 4u32);
    let scan = vec![line(0x10, "a"), line(0x14, "b"), line(0x18, "c"), line(0x1C, "d"), line(0x20, "pc")];
    let fwd = vec![line(0x20, "pc"), line(0x24, "e")];
    let w = disasm_window(0x20, 2, &scan, &fwd);
    assert_eq!(
        w,
        vec![
            (0x18, "c".to_string(), false),
            (0x1C, "d".to_string(), false),
            (0x20, "pc".to_string(), true),
            (0x24, "e".to_string(), false),
        ]
    );
    assert_eq!(disasm_window(0, 4, &scan, &fwd).len(), 2);
    assert_eq!(disasm_window(0x20, 0, &scan, &fwd).len(), 2);
    assert_eq!(disasm_scan_start(0x20, 4), 8);
    assert_eq!(disasm_scan_start(0x10, 4), 0);
}

#[test]
fn primitive_listing_stops_at_next_label() {
    let l = labels(&[("do_dup", 0x100), ("do_drop", 0x108)]);
    let line = |a: u32, m: &str| (a, m.to_string(), 4u32);
    let d = vec![line(0x100, "push"), line(0x104, "jmp"), line(0x108, "pop")];
    assert_eq!(primitive_listing(0x100, &d, &l), vec![(0x100, "push".to_string()), (0x104, "jmp".to_string())]);
}

#[test]
fn compile_log_columns() {
    assert!(compile_log_shows(0, true));
    assert!(!compile_log_shows(0, false));
    assert_eq!(compile_log_bytes(&[]), "");
    assert_eq!(compile_log_bytes(&[0x0a, 0xff]), "0A FF");
    assert_eq!(compile_log_bytes(&[1, 2, 3, 4, 5, 6, 7, 8]), "01 02 03 04 05 06");
    assert_eq!(compile_log_source(Some("start"), "  la r0, 1  \t"), "start:  la r0, 1");
    assert_eq!(compile_log_source(None, "\u{3000}nop\r"), "nop");
}

#[test]
fn labels_at_addresses_and_region_fit() {
    let l = labels(&[("a", 1), ("b", 1), ("c", 2)]);
    assert_eq!(label_at(&l, 1), Some("b".to_string()));
    assert_eq!(label_at(&l, 3), None);
    assert!(regions_fit(&vec![("x", "y", u32::MAX)]));
    assert!(!regions_fit(&vec![("x", "y", u32::MAX), ("z", "w", 1)]));
}
