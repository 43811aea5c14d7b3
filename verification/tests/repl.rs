use web_sw_cor24_forth::repl::{batch_outcome, BatchOutcome, ReplStatus};
use web_sw_cor24_forth::config::ForthTier;
use web_sw_cor24_forth::debugger::{BottomTab, DebuggerState};
use web_sw_cor24_forth::demos::{fif_demos, EXAMPLE_COUNT};
use web_sw_cor24_forth::repl::{
    at_uart_poll, bootstrap_queue, uart_poll_addrs, uart_ready, History, PumpStep, ReplState, BATCH_SIZE,
    BOOTSTRAP_BATCH, PUMP_BIG, PUMP_TINY,
};
use web_sw_cor24_forth::text::{demo_lines, input_to_uart, lines_to_uart, script_lines};

#[test]
fn poll_addresses_in_fixed_order() {
    let labels: Vec<(String, u32)> =
        vec![("word_read_rx".to_string(), 300), ("key_poll".to_string(), 100), ("other".to_string(), 5)];
    assert_eq!(uart_poll_addrs(&labels), vec![100, 300]);
    assert!(at_uart_poll(115, &vec![100, 300]));
    assert!(!at_uart_poll(116, &vec![100, 300]));
    assert!(!at_uart_poll(99, &vec![100]));
    assert!(uart_ready(0xFE));
    assert!(!uart_ready(1));
}

#[test]
fn bootstrap_stream() {
    let files: &[(&str, &str)] = &[("a", ": A 1 ;\r\n"), ("b", "B"), ("c", ""), ("d", "D\n\n")];
    assert_eq!(bootstrap_queue(files), b": A 1 ;\nB\nD\n\n".to_vec());
    assert_eq!(bootstrap_queue(&[]), Vec::<u8>::new());
}

#[test]
fn history_up_down() {
    let mut h = History::new();
    let mut input = "typed".to_string();
    assert!(!h.up(&mut input));
    h.record("one".to_string());
    h.record("two".to_string());
    assert!(h.up(&mut input));
    assert_eq!(input, "two");
    assert!(h.up(&mut input));
    assert_eq!(input, "one");
    assert!(h.up(&mut input));
    assert_eq!(input, "one");
    assert!(h.down(&mut input));
    assert_eq!(input, "two");
    assert!(h.down(&mut input));
    assert_eq!(input, "typed");
    assert!(!h.down(&mut input));
    let mut again = "draft".to_string();
    assert!(h.up(&mut again));
    assert!(h.down(&mut again));
    assert_eq!(again, "draft");
}

#[test]
fn text_lines() {
    let src = "  : SQ DUP * ;  \r\n\\ comment\n\n\t5 SQ .\u{a0}\nlast";
    assert_eq!(demo_lines(src), vec![": SQ DUP * ;", "5 SQ .", "last"]);
    assert_eq!(script_lines("a\r\r\n  \n\\ kept\n"), vec!["a", "\\ kept"]);
    assert!(demo_lines("").is_empty());
    assert_eq!(lines_to_uart(&vec!["1 2 +".to_string(), "é".to_string()]), b"1 2 +\n\xc3\xa9\n".to_vec());
    assert_eq!(input_to_uart("WORDS"), b"WORDS\n".to_vec());
}

#[test]
fn repl_boot_pump_and_finish() {
    let mut s = ReplState::new();
    let e = s.boot(vec![100], &[("minimal", "X\n")]);
    assert!(e.resume && e.schedule_tick && e.set_button.is_none());
    assert!(s.running && !s.booted);
    assert_eq!(s.rx_queue.len(), 2);
    assert_eq!(s.tick_budget(), BOOTSTRAP_BATCH);
    // at a poll address with the UART ready: hand over a byte, tiny batch
    assert_eq!(s.pump_step(104, 0, 0, BOOTSTRAP_BATCH), PumpStep { feed: Some(b'X'), run: PUMP_TINY });
    // busy elsewhere: big batch, no byte
    assert_eq!(s.pump_step(500, 0, 0, BOOTSTRAP_BATCH), PumpStep { feed: None, run: PUMP_BIG });
    // UART not ready: no byte
    assert_eq!(s.pump_step(104, 1, 0, BOOTSTRAP_BATCH), PumpStep { feed: None, run: PUMP_TINY });
    // budget nearly spent
    assert_eq!(s.pump_step(500, 0, BOOTSTRAP_BATCH - 10, BOOTSTRAP_BATCH), PumpStep { feed: None, run: 10 });
    assert_eq!(s.pump_step(104, 0, 0, BOOTSTRAP_BATCH).feed, Some(b'\n'));
    // polling with an empty queue ends the loop
    assert_eq!(s.pump_step(104, 0, 0, BOOTSTRAP_BATCH), PumpStep { feed: None, run: 0 });
    s.append_output("ok\n");
    let t = s.finish_tick(true, true, 104, false);
    assert!(s.booted && s.waiting_for_input);
    assert_eq!(s.output, "");
    assert!(!t.capture_snapshot);
    assert!(t.effects.schedule_tick && t.effects.rerender);
    assert_eq!(s.tick_budget(), BATCH_SIZE);
    // an idle tick that printed nothing does not re-render
    let t2 = s.finish_tick(false, true, 104, false);
    assert!(!t2.effects.rerender);
    let t3 = s.finish_tick(false, false, 104, true);
    assert!(s.halted && !s.running && !t3.effects.schedule_tick);
}

#[test]
fn repl_input_and_controls() {
    let mut s = ReplState::new();
    assert!(!s.send_input().rerender);
    s.input = "1 2 +".to_string();
    let e = s.send_input();
    assert!(e.resume && e.schedule_tick);
    assert!(s.running);
    assert_eq!(s.input, "");
    assert_eq!(s.rx_queue.iter().copied().collect::<Vec<u8>>(), b"1 2 +\n".to_vec());
    s.input = "DUP".to_string();
    let e2 = s.send_input();
    assert!(!e2.resume);
    assert_eq!(s.output, "[input queued \u{2014} interpreter busy]\n");
    assert!(s.history_up());
    assert_eq!(s.input, "DUP");
    let st = s.stop();
    assert!(st.pause && st.cancel_tick && !s.running);
    assert!(!s.stop().rerender);
    assert!(s.run().resume);
    let sw = s.toggle_switch();
    assert_eq!(sw.set_button, Some(true));
    s.toggle_about();
    assert!(s.show_about);
}

#[test]
fn repl_demo_and_file() {
    let ex: Vec<&'static str> = vec!["x"; EXAMPLE_COUNT];
    let demos = fif_demos(&ex);
    let mut s = ReplState::new();
    s.load_demo(99, &demos);
    assert!(s.pending_preview.is_none());
    s.load_demo(0, &demos);
    assert_eq!(s.selected_demo, Some(0));
    assert_eq!(s.pending_preview.as_ref().unwrap().0, "Demo: AGAIN");
    s.load_file("1 .\r\n\n  2 .  \n".to_string());
    let e = s.run_file();
    assert!(e.resume);
    assert!(s.pending_preview.is_none() && s.selected_demo.is_none());
    assert_eq!(s.full_log, vec!["\\ --- Uploaded File ---", "1 .", "2 ."]);
    assert_eq!(s.history.entries, vec!["1 .", "2 ."]);
    assert_eq!(s.rx_queue.iter().copied().collect::<Vec<u8>>(), b"1 .\n2 .\n".to_vec());
    assert!(s.run_file().rerender);
    s.load_file("x".to_string());
    s.cancel_file();
    assert!(s.pending_preview.is_none());
}

#[test]
fn repl_assembly_errors() {
    let mut s = ReplState::new();
    s.assembly_failed(&vec!["line 3: bad".to_string(), "line 9: worse".to_string()]);
    assert_eq!(s.output, "Kernel assembly errors:\nline 3: bad\nline 9: worse\n");
}

#[test]
fn debugger_state_flow() {
    let mut d = DebuggerState::new();
    assert_eq!(d.tier, ForthTier::Bootstrap);
    assert_eq!(d.bottom_tab, BottomTab::Dictionary);
    d.loaded(vec![("do_dup".to_string(), 9), ("_start".to_string(), 0)], 300);
    assert_eq!(d.program_end, 300);
    assert_eq!(d.dict_entries.len(), 1);
    d.input = "5".to_string();
    let e = d.send_input();
    assert!(e.resume && d.running);
    let feed = d.prepare([1, 2, 3, 4, 5, 6, 7, 8], 0x44, 0);
    assert_eq!(feed, Some(b'5'));
    assert_eq!(d.prev_pc, 0x44);
    assert_eq!(d.prepare([0; 8], 0, 1), None);
    let t = d.tick_done(false, true);
    assert!(t.pause && !d.running);
    assert!(d.pause_resume().resume);
    assert!(d.pause_resume().pause);
    assert!(d.step_begin());
    d.step_done(true);
    assert!(d.halted);
    assert!(!d.step_begin());
    assert!(!d.pause_resume().rerender);
    d.select_word("do_dup".to_string());
    assert_eq!(d.selected_word.as_deref(), Some("do_dup"));
    d.select_word("do_dup".to_string());
    assert!(d.selected_word.is_none());
    d.assembly_failed(&vec!["e".to_string()]);
    assert_eq!(d.output, "Assembly errors:\ne\n");
}

#[test]
fn debugger_demo_loading() {
    let ex: Vec<&'static str> = vec!["\\ header\n1 2 + .\n\n"; EXAMPLE_COUNT];
    let demos = fif_demos(&ex);
    let mut d = DebuggerState::new();
    assert!(!d.load_demo_begin(100, &demos));
    assert!(d.load_demo_begin(1, &demos));
    assert_eq!(d.selected_demo, Some(1));
    assert_eq!(d.tier, ForthTier::Interpreter);
    d.loaded(vec![], 0);
    assert_eq!(d.selected_demo, None);
    let e = d.load_demo_finish(demos[1].source);
    assert!(e.resume && e.schedule_tick && d.running);
    assert_eq!(d.rx_queue.iter().copied().collect::<Vec<u8>>(), b"1 2 + .\n".to_vec());
}

#[test]
fn batch_outcomes_and_status() {
    assert_eq!(batch_outcome(0, true, 5), BatchOutcome { stop: true, halted: true, used: 5 });
    assert_eq!(batch_outcome(0, false, 5), BatchOutcome { stop: true, halted: false, used: 5 });
    assert_eq!(batch_outcome(10, false, 5), BatchOutcome { stop: false, halted: false, used: 15 });
    assert_eq!(batch_outcome(10, true, 5), BatchOutcome { stop: true, halted: true, used: 15 });
    let mut s = ReplState::new();
    assert_eq!(s.status(), ReplStatus::Booting);
    assert!(s.ui_locked());
    assert_eq!(s.placeholder(), "Booting core/*.fth \u{2014} UI locked until ready...");
    s.booted = true;
    assert_eq!(s.status(), ReplStatus::Stopped);
    s.running = true;
    assert_eq!(s.status(), ReplStatus::Running);
    assert_eq!(s.prompt(), "\u{25F3} ");
    assert_eq!(s.input_bar_class(), "input-bar input-busy");
    s.waiting_for_input = true;
    assert_eq!(s.status(), ReplStatus::Ready);
    assert_eq!(s.prompt(), "> ");
    s.halted = true;
    assert_eq!(s.status(), ReplStatus::Halted);
    let mut d = DebuggerState::new();
    assert_eq!(d.status_text(), "Paused");
    d.running = true;
    assert_eq!(d.status_text(), "Running");
}

#[test]
fn tick_loop_stays_within_budget() {
    // An emulator that always runs what it is asked: polling while bytes
    // are queued, then busy elsewhere.
    let mut s = ReplState::new();
    s.boot(vec![100], &[("minimal", "AB")]);
    let budget = s.tick_budget();
    let mut used: u64 = 0;
    let mut fed: Vec<u8> = Vec::new();
    loop {
        let pc = if s.rx_queue.is_empty() { 500 } else { 104 };
        let step = s.pump_step(pc, 0, used, budget);
        if let Some(b) = step.feed {
            fed.push(b);
        }
        if step.run == 0 {
            break;
        }
        let o = batch_outcome(step.run, false, used);
        used = o.used;
        if o.stop {
            break;
        }
    }
    assert_eq!(used, budget);
    assert_eq!(fed, b"AB\n".to_vec());
    assert!(s.rx_queue.is_empty());
}

#[test]
fn bootstrap_queue_file_by_file() {
    let files: &[(&str, &str)] = &[("runtime", "R\r\n"), ("minimal", "M"), ("lowlevel", "L\n\n")];
    assert_eq!(bootstrap_queue(files), b"R\nM\nL\n\n".to_vec());
}
