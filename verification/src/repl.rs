//! The REPL of the forth-in-forth and forth-on-forthish tabs: the UART
//! poll addresses that mark "idle at KEY", the bootstrap byte stream of
//! the core tiers, the adaptive pump loop's decisions, command history,
//! and the REPL's state transitions. The emulator calls that these
//! decisions ask for are made by the caller.
use vstd::prelude::*;
use vstd::string::StringSliceAdditionalSpecFns;
use vstd::utf8::encode_utf8;
use crate::debugger::Label;
use crate::text::{str_eq, script_lines, lines_bytes, script_lines_spec, lines_to_uart, input_to_uart};
use crate::demos::Demo;
use std::collections::VecDeque;

verus! {

/// Whether the cache of bootstrapped snapshots is used. Off while the
/// kernel's own boot speed is being measured.
pub const SNAPSHOT_CACHE_ENABLED: bool = false;

/// Instruction budget of one tick once the REPL is interactive.
pub const BATCH_SIZE: u64 = 50_000;

/// Instruction budget of one tick while the core tiers are compiled.
pub const BOOTSTRAP_BATCH: u64 = 600_000;

/// Sub-batch while the CPU polls the UART and bytes are waiting.
pub const PUMP_TINY: u64 = 2_000;

/// Sub-batch while the CPU does real work.
pub const PUMP_BIG: u64 = 50_000;

/// Tick interval during boot, in milliseconds.
pub const TICK_MS_BOOT: u32 = 5;

/// Tick interval once interactive, in milliseconds.
pub const TICK_MS_INTERACTIVE: u32 = 25;

/// Address of the UART status byte; bit 0 is set while a received byte
/// is still unread.
pub const UART_STATUS_ADDR: u32 = 0xFF0101;

/// The kernel labels of the loops that wait for a UART byte.
pub open spec fn poll_label_names() -> Seq<Seq<char>> {
    seq![
        "key_poll"@,
        "word_skip_rx"@,
        "word_skip_rx2"@,
        "word_read_rx"@,
        "word_read_rx2"@,
        "create_skip_rx"@,
        "create_skip_rx2"@,
        "create_read_rx"@,
        "create_read_rx2"@,
    ]
}

/// Address of the first label named `name`.
pub open spec fn label_lookup(labels: Seq<Label>, name: Seq<char>) -> Option<u32>
    decreases labels.len(),
{
    if labels.len() == 0 {
        None
    } else if labels[0].0@ == name {
        Some(labels[0].1)
    } else {
        label_lookup(labels.drop_first(), name)
    }
}

/// The addresses of the named labels that exist, in the order of `names`.
pub open spec fn lookup_all(labels: Seq<Label>, names: Seq<Seq<char>>) -> Seq<u32>
    decreases names.len(),
{
    if names.len() == 0 {
        Seq::empty()
    } else {
        let prev = lookup_all(labels, names.drop_last());
        match label_lookup(labels, names.last()) {
            Some(a) => prev.push(a),
            None => prev,
        }
    }
}

fn find_label(labels: &Vec<Label>, name: &str) -> (r: Option<u32>)
    ensures
        r == label_lookup(labels@, name@),
{
    let n = labels.len();
    let mut i: usize = 0;
    proof {
        assert(labels@.skip(0) =~= labels@);
    }
    while i < n
        invariant
            n == labels@.len(),
            i <= n,
            label_lookup(labels@, name@) == label_lookup(labels@.skip(i as int), name@),
        decreases n - i,
    {
        proof {
            assert(labels@.skip(i as int).drop_first() =~= labels@.skip(i + 1));
        }
        if str_eq(labels[i].0.as_str(), name) {
            return Some(labels[i].1);
        }
        i = i + 1;
    }
    proof {
        assert(labels@.skip(n as int) =~= Seq::<Label>::empty());
    }
    None
}

/// The addresses of the kernel's UART poll loops, in the order of
/// `poll_label_names`, for those labels that the kernel defines.
pub fn uart_poll_addrs(labels: &Vec<Label>) -> (addrs: Vec<u32>)
    ensures
        addrs@ == lookup_all(labels@, poll_label_names()),
{
    let names: [&str; 9] = [
        "key_poll",
        "word_skip_rx",
        "word_skip_rx2",
        "word_read_rx",
        "word_read_rx2",
        "create_skip_rx",
        "create_skip_rx2",
        "create_read_rx",
        "create_read_rx2",
    ];
    let ghost views = poll_label_names();
    assert(names@.map_values(|s: &str| s@) =~= views);
    let mut addrs: Vec<u32> = Vec::new();
    let mut i: usize = 0;
    while i < 9
        invariant
            i <= 9,
            views == poll_label_names(),
            names@.map_values(|s: &str| s@) == views,
            addrs@ == lookup_all(labels@, views.take(i as int)),
        decreases 9 - i,
    {
        proof {
            assert(views.take(i + 1).drop_last() =~= views.take(i as int));
            assert(names@[i as int]@ == views[i as int]);
        }
        if let Some(a) = find_label(labels, names[i]) {
            addrs.push(a);
        }
        i = i + 1;
    }
    proof {
        assert(views.take(9) =~= views);
    }
    addrs
}

/// The PC lies within 16 bytes after one of the poll addresses.
pub open spec fn at_poll(pc: u32, addrs: Seq<u32>) -> bool {
    exists|i: int| 0 <= i < addrs.len() && addrs[i] <= pc && pc < addrs[i] + 16
}

/// Whether the CPU is busy-waiting in a UART poll loop.
pub fn at_uart_poll(pc: u32, addrs: &Vec<u32>) -> (r: bool)
    ensures
        r == at_poll(pc, addrs@),
{
    let n = addrs.len();
    let mut i: usize = 0;
    while i < n
        invariant
            n == addrs@.len(),
            i <= n,
            forall|t: int| 0 <= t < i ==> !(addrs@[t] <= pc && pc < addrs@[t] + 16),
        decreases n - i,
    {
        if addrs[i] <= pc && pc - addrs[i] < 16 {
            return true;
        }
        i = i + 1;
    }
    false
}

/// The UART can take another byte: the status byte's bit 0 is clear.
pub open spec fn uart_ready_spec(status: u8) -> bool {
    status & 1 == 0
}

/// Whether the UART can take another byte.
pub fn uart_ready(status: u8) -> (r: bool)
    ensures
        r == uart_ready_spec(status),
{
    status & 1 == 0
}

// ===== bootstrap byte stream =====

/// `q` with a newline appended unless it is non-empty and already ends
/// with one.
pub open spec fn end_line(q: Seq<u8>) -> Seq<u8> {
    if q.len() == 0 || q.last() != 10 { q.push(10u8) } else { q }
}

/// The bytes of a core file without carriage returns.
pub open spec fn strip_cr_bytes(b: Seq<u8>) -> Seq<u8> {
    b.filter(|x: u8| x != 13)
}

/// The bytes that boot feeds to the kernel: the core files in order,
/// carriage returns removed, each ending with exactly the newlines it
/// has, or one added when it has none, and a newline between tiers when
/// the previous one did not end with one.
pub open spec fn boot_bytes(files: Seq<(Seq<u8>, Seq<u8>)>) -> Seq<u8>
    decreases files.len(),
{
    if files.len() == 0 {
        Seq::empty()
    } else {
        let prev = boot_bytes(files.drop_last());
        let sep = if files.len() > 1 { end_line(prev) } else { prev };
        end_line(sep + strip_cr_bytes(files.last().1))
    }
}

/// The bootstrap byte stream of the core files (see `boot_bytes`).
pub fn bootstrap_queue(core_files: &[(&str, &str)]) -> (q: Vec<u8>)
    ensures
        q@ == boot_bytes(crate::snapshot::files_bytes(core_files@)),
{
    let mut q: Vec<u8> = Vec::new();
    let n = core_files.len();
    let mut i: usize = 0;
    let ghost fb = crate::snapshot::files_bytes(core_files@);
    while i < n
        invariant
            n == core_files@.len(),
            fb == crate::snapshot::files_bytes(core_files@),
            i <= n,
            q@ == boot_bytes(fb.take(i as int)),
        decreases n - i,
    {
        let (_name, contents) = core_files[i];
        proof {
            assert(fb.take(i + 1).drop_last() =~= fb.take(i as int));
            assert(fb.take(i + 1).last() == fb[i as int]);
        }
        if i > 0 && (q.len() == 0 || q[q.len() - 1] != 10) {
            q.push(10);
        }
        let ghost before = q@;
        let bytes = contents.as_bytes();
        let m = bytes.len();
        let mut k: usize = 0;
        while k < m
            invariant
                m == bytes@.len(),
                k <= m,
                q@ == before + strip_cr_bytes(bytes@.take(k as int)),
            decreases m - k,
        {
            proof {
                assert(bytes@.take(k + 1).drop_last() =~= bytes@.take(k as int));
                reveal_with_fuel(Seq::filter, 1);
            }
            if bytes[k] != 13 {
                q.push(bytes[k]);
            }
            k = k + 1;
            proof {
                assert(q@ =~= before + strip_cr_bytes(bytes@.take(k as int)));
            }
        }
        proof {
            assert(bytes@.take(m as int) =~= bytes@);
        }
        if q.len() == 0 || q[q.len() - 1] != 10 {
            q.push(10);
        }
        i = i + 1;
    }
    proof {
        assert(fb.take(n as int) =~= fb);
    }
    q
}


proof fn lemma_end_line(q: Seq<u8>)
    ensures
        end_line(q).len() > 0,
        end_line(q).last() == 10,
        forall|i: int| 0 <= i < q.len() ==> end_line(q)[i] == q[i],
        end_line(q).len() <= q.len() + 1,
{
}

/// The bootstrap stream holds no carriage return and, when there is a
/// core file, ends with a newline.
pub proof fn lemma_boot_bytes_clean(files: Seq<(Seq<u8>, Seq<u8>)>)
    ensures
        forall|i: int| 0 <= i < boot_bytes(files).len() ==> boot_bytes(files)[i] != 13,
        files.len() > 0 ==> boot_bytes(files).len() > 0 && boot_bytes(files).last() == 10,
    decreases files.len(),
{
    if files.len() > 0 {
        lemma_boot_bytes_clean(files.drop_last());
        let prev = boot_bytes(files.drop_last());
        let sep = if files.len() > 1 { end_line(prev) } else { prev };
        lemma_end_line(prev);
        let body = strip_cr_bytes(files.last().1);
        assert forall|i: int| 0 <= i < body.len() implies body[i] != 13 by {
            assert(body.contains(body[i]));
            assert(files.last().1.filter(|x: u8| x != 13).contains(body[i]));
        }
        let t = sep + body;
        assert forall|i: int| 0 <= i < t.len() implies t[i] != 13 by {
            if i < sep.len() {
                if files.len() > 1 && i >= prev.len() {
                    assert(t[i] == 10);
                }
            } else {
                assert(t[i] == body[i - sep.len()]);
            }
        }
        lemma_end_line(t);
        assert forall|i: int| 0 <= i < end_line(t).len() implies end_line(t)[i] != 13 by {
            if i < t.len() {
                assert(end_line(t)[i] == t[i]);
            }
        }
    }
}


/// One core file as the boot stream carries it: its bytes without
/// carriage returns, then a newline unless they already end with one.
pub open spec fn file_line_bytes(body: Seq<u8>) -> Seq<u8> {
    let b = strip_cr_bytes(body);
    b + (if b.len() > 0 && b.last() == 10 { Seq::<u8>::empty() } else { seq![10u8] })
}

/// The core files one after the other, each as `file_line_bytes`.
pub open spec fn files_line_bytes(files: Seq<(Seq<u8>, Seq<u8>)>) -> Seq<u8>
    decreases files.len(),
{
    if files.len() == 0 {
        Seq::empty()
    } else {
        files_line_bytes(files.drop_last()) + file_line_bytes(files.last().1)
    }
}

proof fn lemma_end_line_is_file_line(body: Seq<u8>)
    ensures
        end_line(strip_cr_bytes(body)) == file_line_bytes(body),
{
    let b = strip_cr_bytes(body);
    if b.len() > 0 && b.last() == 10 {
        assert(b + Seq::<u8>::empty() =~= b);
    } else {
        assert(b.push(10u8) =~= b + seq![10u8]);
    }
}

/// When every core file holds a byte other than a carriage return, a
/// cold boot queues exactly the files one after the other, carriage
/// returns removed, each ended by a newline unless it already ends with
/// one.
pub proof fn lemma_boot_queue_per_file(v: ReplView, poll_addrs: Seq<u32>, files: Seq<(Seq<u8>, Seq<u8>)>)
    requires
        forall|i: int| 0 <= i < files.len() ==> strip_cr_bytes(#[trigger] files[i].1).len() > 0,
    ensures
        boot_bytes(files) == files_line_bytes(files),
        boot_spec(v, poll_addrs, files).0.rx_queue == files_line_bytes(files),
    decreases files.len(),
{
    if files.len() > 0 {
        let dl = files.drop_last();
        assert forall|i: int| 0 <= i < dl.len() implies strip_cr_bytes(#[trigger] dl[i].1).len() > 0 by {
            assert(dl[i] == files[i]);
        }
        lemma_boot_queue_per_file(v, poll_addrs, dl);
        lemma_boot_bytes_clean(dl);
        let prev = boot_bytes(dl);
        let b = strip_cr_bytes(files.last().1);
        assert(b.len() > 0) by {
            assert(files.last() == files[files.len() - 1]);
        }
        lemma_end_line_is_file_line(files.last().1);
        let sep = if files.len() > 1 { end_line(prev) } else { prev };
        assert(sep == prev);
        let t = prev + b;
        assert(t.last() == b.last());
        assert(end_line(t) =~= prev + end_line(b));
    }
}

// ===== command history =====

/// Lines entered so far, and where Up/Down browsing stands: `pos` is
/// `None` when not browsing, else the index of the entry shown; `saved`
/// is the unsent input that browsing replaced.
pub struct History {
    pub entries: Vec<String>,
    pub pos: Option<usize>,
    pub saved: String,
}

/// History browsing state as values: entries, position, saved input.
pub type HistoryView = (Seq<Seq<char>>, int, Seq<char>);

impl View for History {
    type V = HistoryView;

    open spec fn view(&self) -> HistoryView {
        (
            self.entries@.map_values(|e: String| e@),
            match self.pos {
                Some(p) => p as int,
                None => -1int,
            },
            self.saved@,
        )
    }
}

/// The position is -1 or indexes an entry.
pub open spec fn history_wf(h: HistoryView) -> bool {
    -1 <= h.1 < h.0.len()
}

/// Up arrow: from the input line to the newest entry (keeping the input),
/// or one entry older; nothing happens without history. Returns the new
/// state, the new input, and whether anything happened.
pub open spec fn up_spec(h: HistoryView, input: Seq<char>) -> (HistoryView, Seq<char>, bool) {
    if h.0.len() == 0 {
        (h, input, false)
    } else {
        let (p, saved) = if h.1 == -1 {
            (h.0.len() - 1, input)
        } else if h.1 > 0 {
            (h.1 - 1, h.2)
        } else {
            (h.1, h.2)
        };
        ((h.0, p, saved), h.0[p], true)
    }
}

/// Down arrow: one entry newer, or past the newest back to the saved
/// input; nothing happens when not browsing.
pub open spec fn down_spec(h: HistoryView, input: Seq<char>) -> (HistoryView, Seq<char>, bool) {
    if h.1 >= 0 {
        let p = h.1 + 1;
        if p >= h.0.len() {
            ((h.0, -1, h.2), h.2, true)
        } else {
            ((h.0, p, h.2), h.0[p], true)
        }
    } else {
        (h, input, false)
    }
}

impl History {
    /// Empty history, not browsing.
    pub fn new() -> (h: History)
        ensures
            h@ == (Seq::<Seq<char>>::empty(), -1int, Seq::<char>::empty()),
    {
        History { entries: Vec::new(), pos: None, saved: String::new() }
    }

    /// Up arrow on `input` (see `up_spec`).
    pub fn up(&mut self, input: &mut String) -> (handled: bool)
        requires
            history_wf(old(self)@),
        ensures
            (final(self)@, final(input)@, handled) == up_spec(old(self)@, old(input)@),
            history_wf(final(self)@),
    {
        if self.entries.len() == 0 {
            return false;
        }
        let p = match self.pos {
            None => {
                self.saved = input.clone();
                self.entries.len() - 1
            },
            Some(p) => if p > 0 { p - 1 } else { p },
        };
        self.pos = Some(p);
        *input = self.entries[p].clone();
        proof {
            assert(final(self)@.0 =~= old(self)@.0);
        }
        true
    }

    /// Down arrow on `input` (see `down_spec`).
    pub fn down(&mut self, input: &mut String) -> (handled: bool)
        requires
            history_wf(old(self)@),
        ensures
            (final(self)@, final(input)@, handled) == down_spec(old(self)@, old(input)@),
            history_wf(final(self)@),
    {
        let n = self.entries.len();
        if let Some(p0) = self.pos {
            let p = p0 + 1;
            if p >= n {
                self.pos = None;
                *input = self.saved.clone();
            } else {
                self.pos = Some(p);
                *input = self.entries[p].clone();
            }
            proof {
                assert(final(self)@.0 =~= old(self)@.0);
            }
            true
        } else {
            false
        }
    }

    /// Records a sent line and stops browsing.
    pub fn record(&mut self, line: String)
        requires
            history_wf(old(self)@),
        ensures
            final(self)@ == (old(self)@.0.push(line@), -1int, Seq::<char>::empty()),
            history_wf(final(self)@),
    {
        self.entries.push(line);
        self.pos = None;
        self.saved = String::new();
        proof {
            assert(final(self)@.0 =~= old(self)@.0.push(line@));
        }
    }
}

/// Up and then Down, from the input line, brings the input back and
/// ends browsing.
pub proof fn lemma_up_down_restores(entries: Seq<Seq<char>>, saved: Seq<char>, input: Seq<char>)
    requires
        entries.len() > 0,
    ensures
        ({
            let (h1, i1, _) = up_spec((entries, -1int, saved), input);
            let (h2, i2, _) = down_spec(h1, i1);
            i2 == input && h2.1 == -1
        }),
{
}


// ===== REPL state =====

/// Emulator and UI effects a REPL transition asks for. The caller
/// performs them in this order: pause, resume, set the S2 button, cancel
/// or schedule the next tick; `rerender` tells whether the view changed.
#[derive(Clone, Copy, PartialEq, Eq, Structural, Debug)]
pub struct Effects {
    pub pause: bool,
    pub resume: bool,
    pub set_button: Option<bool>,
    pub cancel_tick: bool,
    pub schedule_tick: bool,
    pub rerender: bool,
}

/// No effect beyond, possibly, a re-render.
pub open spec fn only_render(rerender: bool) -> Effects {
    Effects { pause: false, resume: false, set_button: None, cancel_tick: false, schedule_tick: false, rerender }
}

fn render_only(rerender: bool) -> (e: Effects)
    ensures
        e == only_render(rerender),
{
    Effects { pause: false, resume: false, set_button: None, cancel_tick: false, schedule_tick: false, rerender }
}

/// The state of a REPL tab, apart from the emulator itself.
pub struct ReplState {
    pub output: String,
    pub input: String,
    pub running: bool,
    pub halted: bool,
    pub booted: bool,
    pub rx_queue: VecDeque<u8>,
    pub waiting_for_input: bool,
    pub poll_addrs: Vec<u32>,
    pub show_about: bool,
    pub show_history: bool,
    pub pending_preview: Option<(String, String)>,
    pub history: History,
    pub full_log: Vec<String>,
    pub switch_pressed: bool,
    pub selected_demo: Option<usize>,
}

/// The REPL state as values.
#[verifier::ext_equal]
pub struct ReplView {
    pub output: Seq<char>,
    pub input: Seq<char>,
    pub running: bool,
    pub halted: bool,
    pub booted: bool,
    pub rx_queue: Seq<u8>,
    pub waiting_for_input: bool,
    pub poll_addrs: Seq<u32>,
    pub show_about: bool,
    pub show_history: bool,
    pub pending_preview: Option<(Seq<char>, Seq<char>)>,
    pub history: HistoryView,
    pub full_log: Seq<Seq<char>>,
    pub switch_pressed: bool,
    pub selected_demo: Option<usize>,
}

impl View for ReplState {
    type V = ReplView;

    open spec fn view(&self) -> ReplView {
        ReplView {
            output: self.output@,
            input: self.input@,
            running: self.running,
            halted: self.halted,
            booted: self.booted,
            rx_queue: self.rx_queue@,
            waiting_for_input: self.waiting_for_input,
            poll_addrs: self.poll_addrs@,
            show_about: self.show_about,
            show_history: self.show_history,
            pending_preview: match self.pending_preview {
                Some(p) => Some((p.0@, p.1@)),
                None => None,
            },
            history: self.history@,
            full_log: self.full_log@.map_values(|l: String| l@),
            switch_pressed: self.switch_pressed,
            selected_demo: self.selected_demo,
        }
    }
}

/// Start/stop effects: resume and schedule a tick.
pub open spec fn start_effects() -> Effects {
    Effects { pause: false, resume: true, set_button: None, cancel_tick: false, schedule_tick: true, rerender: true }
}

/// Sending the input line: nothing for an empty line; otherwise a busy
/// notice when the interpreter is running and not waiting, the line
/// recorded in the history and the log, its bytes and a newline queued
/// for the UART, the input cleared, and the emulator started when it is
/// neither running nor halted.
pub open spec fn send_input_spec(v: ReplView) -> (ReplView, Effects) {
    if v.input.len() == 0 {
        (v, only_render(false))
    } else {
        let out = if v.running && !v.waiting_for_input { v.output + "[input queued \u{2014} interpreter busy]\n"@ } else { v.output };
        let start = !v.running && !v.halted;
        (
            ReplView {
                output: out,
                history: (v.history.0.push(v.input), -1int, Seq::empty()),
                full_log: v.full_log.push(v.input),
                rx_queue: v.rx_queue + encode_utf8(v.input) + seq![10u8],
                input: Seq::empty(),
                waiting_for_input: false,
                running: v.running || start,
                ..v
            },
            if start { start_effects() } else { only_render(true) },
        )
    }
}


/// Each message followed by a newline.
pub open spec fn joined_lines(msgs: Seq<Seq<char>>) -> Seq<char>
    decreases msgs.len(),
{
    if msgs.len() == 0 {
        Seq::empty()
    } else {
        joined_lines(msgs.drop_last()) + msgs.last() + "\n"@
    }
}

/// The state of a freshly created REPL.
pub open spec fn initial_view() -> ReplView {
    ReplView {
        output: Seq::empty(),
        input: Seq::empty(),
        running: false,
        halted: false,
        booted: false,
        rx_queue: Seq::empty(),
        waiting_for_input: false,
        poll_addrs: Seq::empty(),
        show_about: false,
        show_history: false,
        pending_preview: None,
        history: (Seq::empty(), -1int, Seq::empty()),
        full_log: Seq::empty(),
        switch_pressed: false,
        selected_demo: None,
    }
}

/// Boot from the cold kernel: the poll addresses stored, output cleared,
/// not halted or booted or waiting, the bootstrap bytes queued, no demo
/// selected, running. The caller resets the emulator, presses S2 again
/// when it was pressed, loads the kernel, resumes and schedules a tick.
pub open spec fn boot_spec(v: ReplView, poll_addrs: Seq<u32>, files: Seq<(Seq<u8>, Seq<u8>)>) -> (ReplView, Effects) {
    (
        ReplView {
            poll_addrs,
            output: Seq::empty(),
            halted: false,
            booted: false,
            rx_queue: boot_bytes(files),
            waiting_for_input: false,
            selected_demo: None,
            running: true,
            ..v
        },
        Effects {
            pause: false,
            resume: true,
            set_button: if v.switch_pressed { Some(true) } else { None },
            cancel_tick: false,
            schedule_tick: true,
            rerender: true,
        },
    )
}

/// Boot from a restored snapshot: as a cold boot but with nothing queued,
/// already booted, waiting for input and running; the restore resumed
/// the emulator, so only S2 and the tick remain to do.
pub open spec fn boot_restored_spec(v: ReplView, poll_addrs: Seq<u32>) -> (ReplView, Effects) {
    (
        ReplView {
            poll_addrs,
            output: Seq::empty(),
            halted: false,
            booted: true,
            rx_queue: Seq::empty(),
            waiting_for_input: true,
            selected_demo: None,
            running: true,
            ..v
        },
        Effects {
            pause: false,
            resume: false,
            set_button: if v.switch_pressed { Some(true) } else { None },
            cancel_tick: false,
            schedule_tick: true,
            rerender: true,
        },
    )
}

/// One decision of the tick's pump loop: the byte to hand to the UART, if
/// any, and how many instructions to run next (0 ends the tick's loop).
#[derive(Clone, Copy, PartialEq, Eq, Structural, Debug)]
pub struct PumpStep {
    pub feed: Option<u8>,
    pub run: u64,
}

/// The pump decision at PC `pc` with UART status `status` after `used`
/// of `budget` instructions. Polling with nothing queued ends the loop.
/// Polling with bytes queued hands over the next byte when the UART is
/// ready and runs a tiny sub-batch; otherwise a big one; never beyond
/// the budget.
pub open spec fn pump_spec(v: ReplView, pc: u32, status: u8, used: u64, budget: u64) -> (ReplView, PumpStep) {
    let idle = at_poll(pc, v.poll_addrs);
    if idle && v.rx_queue.len() == 0 {
        (v, PumpStep { feed: None, run: 0 })
    } else {
        let feeds = idle && uart_ready_spec(status);
        let v2 = if feeds { ReplView { rx_queue: v.rx_queue.drop_first(), ..v } } else { v };
        let feed = if feeds { Some(v.rx_queue[0]) } else { None };
        let chunk: u64 = if idle { PUMP_TINY } else { PUMP_BIG };
        let remaining: u64 = if budget > used { (budget - used) as u64 } else { 0 };
        let run: u64 = if remaining < chunk { remaining } else { chunk };
        (v2, PumpStep { feed, run })
    }
}

/// What ends a tick: whether to store a snapshot of the now-booted
/// machine, and the effects.
#[derive(Clone, Copy, PartialEq, Eq, Structural, Debug)]
pub struct TickEnd {
    pub capture_snapshot: bool,
    pub effects: Effects,
}

/// The end of a tick: waiting for input when the last batch stopped on
/// its cycle limit at a poll address; the first wait with nothing queued
/// completes the boot and clears the boot log; a halt stops the REPL,
/// otherwise a running REPL schedules its next tick; an idle tick that
/// printed nothing does not re-render.
pub open spec fn finish_tick_spec(v: ReplView, had_output: bool, cycle_limit: bool, pc: u32, halted: bool) -> (ReplView, TickEnd) {
    let waiting = cycle_limit && at_poll(pc, v.poll_addrs);
    let boots = !v.booted && waiting && v.rx_queue.len() == 0;
    let v2 = ReplView {
        waiting_for_input: waiting,
        booted: v.booted || boots,
        output: if boots { Seq::empty() } else { v.output },
        running: if halted { false } else { v.running },
        halted: if halted { true } else { v.halted },
        ..v
    };
    (
        v2,
        TickEnd {
            capture_snapshot: boots && SNAPSHOT_CACHE_ENABLED,
            effects: Effects {
                pause: false,
                resume: false,
                set_button: None,
                cancel_tick: false,
                schedule_tick: !halted && v.running,
                rerender: !(waiting && v.waiting_for_input && !had_output),
            },
        },
    )
}

/// Run: starts a REPL that is neither halted nor running.
pub open spec fn run_spec(v: ReplView) -> (ReplView, Effects) {
    if v.halted || v.running {
        (v, only_render(false))
    } else {
        (ReplView { running: true, ..v }, start_effects())
    }
}

/// Stop: pauses a running REPL and drops its pending tick.
pub open spec fn stop_spec(v: ReplView) -> (ReplView, Effects) {
    if !v.running {
        (v, only_render(false))
    } else {
        (
            ReplView { running: false, ..v },
            Effects { pause: true, resume: false, set_button: None, cancel_tick: true, schedule_tick: false, rerender: true },
        )
    }
}

/// The S2 switch toggles and the emulator's button follows it.
pub open spec fn toggle_switch_spec(v: ReplView) -> (ReplView, Effects) {
    (
        ReplView { switch_pressed: !v.switch_pressed, ..v },
        Effects {
            pause: false,
            resume: false,
            set_button: Some(!v.switch_pressed),
            cancel_tick: false,
            schedule_tick: false,
            rerender: true,
        },
    )
}

/// Choosing a demo selects it and shows its source for review.
pub open spec fn load_demo_spec(v: ReplView, index: usize, demos: Seq<Demo>) -> ReplView {
    if index < demos.len() {
        ReplView {
            selected_demo: Some(index),
            pending_preview: Some(("Demo: "@ + demos[index as int].title@, demos[index as int].source@)),
            ..v
        }
    } else {
        v
    }
}

/// Running the previewed script: nothing without a preview; otherwise the
/// preview is consumed, no demo stays selected, a header and every
/// script line go to the log, the lines to the history and their bytes
/// to the UART queue, input is awaited no more, and the emulator starts
/// when it is neither running nor halted.
pub open spec fn run_file_spec(v: ReplView) -> (ReplView, Effects) {
    match v.pending_preview {
        None => (v, only_render(true)),
        Some((title, contents)) => {
            let lines = script_lines_spec(contents);
            let start = !v.running && !v.halted;
            (
                ReplView {
                    pending_preview: None,
                    selected_demo: None,
                    full_log: v.full_log.push("\\ --- "@ + title + " ---"@) + lines,
                    history: (v.history.0 + lines, v.history.1, v.history.2),
                    rx_queue: v.rx_queue + lines_bytes(lines),
                    waiting_for_input: false,
                    running: v.running || start,
                    ..v
                },
                if start { start_effects() } else { only_render(true) },
            )
        },
    }
}

fn queue_bytes(q: &mut VecDeque<u8>, b: &[u8])
    ensures
        final(q)@ == old(q)@ + b@,
{
    let n = b.len();
    let mut i: usize = 0;
    while i < n
        invariant
            n == b@.len(),
            i <= n,
            q@ == old(q)@ + b@.take(i as int),
        decreases n - i,
    {
        q.push_back(b[i]);
        i = i + 1;
        proof {
            assert(q@ =~= old(q)@ + b@.take(i as int));
        }
    }
    proof {
        assert(b@.take(n as int) =~= b@);
    }
}

impl ReplState {
    /// The history position is valid.
    pub open spec fn wf(&self) -> bool {
        history_wf(self.history@)
    }

    /// A REPL before its first boot.
    pub fn new() -> (s: ReplState)
        ensures
            s.wf(),
            s@ == initial_view(),
    {
        let s = ReplState {
            output: String::new(),
            input: String::new(),
            running: false,
            halted: false,
            booted: false,
            rx_queue: VecDeque::new(),
            waiting_for_input: false,
            poll_addrs: Vec::new(),
            show_about: false,
            show_history: false,
            pending_preview: None,
            history: History::new(),
            full_log: Vec::new(),
            switch_pressed: false,
            selected_demo: None,
        };
        proof {
            assert(s@.full_log =~= Seq::<Seq<char>>::empty());
        }
        s
    }

    /// The kernel did not assemble: the output lists the errors, one per
    /// line, and nothing else changes.
    pub fn assembly_failed(&mut self, errors: &Vec<String>)
        ensures
            final(self)@ == (ReplView {
                output: "Kernel assembly errors:\n"@ + joined_lines(errors@.map_values(|e: String| e@)),
                ..old(self)@
            }),
            final(self).wf() == old(self).wf(),
    {
        let mut out = String::from_str("Kernel assembly errors:\n");
        let ghost head = out@;
        let n = errors.len();
        let mut i: usize = 0;
        while i < n
            invariant
                n == errors@.len(),
                i <= n,
                out@ == head + joined_lines(errors@.take(i as int).map_values(|e: String| e@)),
            decreases n - i,
        {
            out.append(errors[i].as_str());
            out.append("\n");
            proof {
                let t = errors@.take(i + 1).map_values(|e: String| e@);
                assert(t.drop_last() =~= errors@.take(i as int).map_values(|e: String| e@));
                assert(out@ =~= head + joined_lines(t));
            }
            i = i + 1;
        }
        proof {
            assert(errors@.take(n as int) =~= errors@);
        }
        self.output = out;
    }

    /// Cold boot after the kernel assembled (see `boot_spec`).
    pub fn boot(&mut self, poll_addrs: Vec<u32>, core_files: &[(&str, &str)]) -> (e: Effects)
        ensures
            (final(self)@, e) == boot_spec(old(self)@, poll_addrs@, crate::snapshot::files_bytes(core_files@)),
            final(self).wf() == old(self).wf(),
    {
        self.poll_addrs = poll_addrs;
        self.output = String::new();
        self.halted = false;
        self.booted = false;
        let q = bootstrap_queue(core_files);
        let mut rx: VecDeque<u8> = VecDeque::new();
        queue_bytes(&mut rx, q.as_slice());
        self.rx_queue = rx;
        self.waiting_for_input = false;
        self.selected_demo = None;
        self.running = true;
        let e = Effects {
            pause: false,
            resume: true,
            set_button: if self.switch_pressed { Some(true) } else { None },
            cancel_tick: false,
            schedule_tick: true,
            rerender: true,
        };
        proof {
            assert(final(self)@ =~= boot_spec(old(self)@, poll_addrs@, crate::snapshot::files_bytes(core_files@)).0);
        }
        e
    }

    /// Boot from a restored snapshot (see `boot_restored_spec`).
    pub fn boot_restored(&mut self, poll_addrs: Vec<u32>) -> (e: Effects)
        ensures
            (final(self)@, e) == boot_restored_spec(old(self)@, poll_addrs@),
            final(self).wf() == old(self).wf(),
    {
        self.poll_addrs = poll_addrs;
        self.output = String::new();
        self.halted = false;
        self.booted = true;
        self.rx_queue = VecDeque::new();
        self.waiting_for_input = true;
        self.selected_demo = None;
        self.running = true;
        Effects {
            pause: false,
            resume: false,
            set_button: if self.switch_pressed { Some(true) } else { None },
            cancel_tick: false,
            schedule_tick: true,
            rerender: true,
        }
    }

    /// Instruction budget of the next tick.
    pub fn tick_budget(&self) -> (b: u64)
        ensures
            b == (if self.booted { BATCH_SIZE } else { BOOTSTRAP_BATCH }),
    {
        if self.booted { BATCH_SIZE } else { BOOTSTRAP_BATCH }
    }

    /// Delay before the next tick, in milliseconds.
    pub fn tick_ms(&self) -> (ms: u32)
        ensures
            ms == (if self.booted { TICK_MS_INTERACTIVE } else { TICK_MS_BOOT }),
    {
        if self.booted { TICK_MS_INTERACTIVE } else { TICK_MS_BOOT }
    }

    /// One decision of the pump loop (see `pump_spec`).
    pub fn pump_step(&mut self, pc: u32, status: u8, used: u64, budget: u64) -> (step: PumpStep)
        ensures
            (final(self)@, step) == pump_spec(old(self)@, pc, status, used, budget),
            final(self).wf() == old(self).wf(),
    {
        let idle = at_uart_poll(pc, &self.poll_addrs);
        if idle && self.rx_queue.len() == 0 {
            return PumpStep { feed: None, run: 0 };
        }
        let mut feed: Option<u8> = None;
        if idle && uart_ready(status) {
            feed = self.rx_queue.pop_front();
        }
        let chunk: u64 = if idle { PUMP_TINY } else { PUMP_BIG };
        let remaining = budget.saturating_sub(used);
        let run = if remaining < chunk { remaining } else { chunk };
        proof {
            if idle && uart_ready_spec(status) {
                assert(final(self)@.rx_queue =~= old(self)@.rx_queue.drop_first());
                assert(final(self)@ =~= pump_spec(old(self)@, pc, status, used, budget).0);
            }
        }
        PumpStep { feed, run }
    }

    /// Appends what the UART printed to the output.
    pub fn append_output(&mut self, text: &str)
        ensures
            final(self)@ == (ReplView { output: old(self)@.output + text@, ..old(self)@ }),
            final(self).wf() == old(self).wf(),
    {
        self.output.append(text);
    }

    /// The end of a tick (see `finish_tick_spec`).
    pub fn finish_tick(&mut self, had_output: bool, cycle_limit: bool, pc: u32, halted: bool) -> (t: TickEnd)
        ensures
            (final(self)@, t) == finish_tick_spec(old(self)@, had_output, cycle_limit, pc, halted),
            final(self).wf() == old(self).wf(),
    {
        let was_waiting = self.waiting_for_input;
        let waiting = cycle_limit && at_uart_poll(pc, &self.poll_addrs);
        self.waiting_for_input = waiting;
        let mut capture = false;
        if !self.booted && waiting && self.rx_queue.len() == 0 {
            self.booted = true;
            self.output = String::new();
            capture = SNAPSHOT_CACHE_ENABLED;
        }
        let was_running = self.running;
        let mut schedule = false;
        if halted {
            self.running = false;
            self.halted = true;
        } else if self.running {
            schedule = true;
        }
        let rerender = !(waiting && was_waiting && !had_output);
        TickEnd {
            capture_snapshot: capture,
            effects: Effects { pause: false, resume: false, set_button: None, cancel_tick: false, schedule_tick: schedule, rerender },
        }
    }

    /// Sends the input line (see `send_input_spec`).
    pub fn send_input(&mut self) -> (e: Effects)
        requires
            old(self).wf(),
        ensures
            (final(self)@, e) == send_input_spec(old(self)@),
            final(self).wf(),
    {
        if self.input.as_str().unicode_len() == 0 {
            return render_only(false);
        }
        if self.running && !self.waiting_for_input {
            self.output.append("[input queued \u{2014} interpreter busy]\n");
        }
        let line = self.input.clone();
        self.history.record(line.clone());
        self.full_log.push(line);
        let bytes = input_to_uart(self.input.as_str());
        queue_bytes(&mut self.rx_queue, bytes.as_slice());
        self.input = String::new();
        self.waiting_for_input = false;
        let mut e = render_only(true);
        if !self.running && !self.halted {
            self.running = true;
            e = Effects { pause: false, resume: true, set_button: None, cancel_tick: false, schedule_tick: true, rerender: true };
        }
        proof {
            assert(final(self)@.full_log =~= old(self)@.full_log.push(old(self)@.input));
            assert(final(self)@ =~= send_input_spec(old(self)@).0);
        }
        e
    }

    /// Up arrow in the input field.
    pub fn history_up(&mut self) -> (handled: bool)
        requires
            old(self).wf(),
        ensures
            final(self).wf(),
            ({
                let (h, i, r) = up_spec(old(self)@.history, old(self)@.input);
                final(self)@ == ReplView { history: h, input: i, ..old(self)@ } && handled == r
            }),
    {
        self.history.up(&mut self.input)
    }

    /// Down arrow in the input field.
    pub fn history_down(&mut self) -> (handled: bool)
        requires
            old(self).wf(),
        ensures
            final(self).wf(),
            ({
                let (h, i, r) = down_spec(old(self)@.history, old(self)@.input);
                final(self)@ == ReplView { history: h, input: i, ..old(self)@ } && handled == r
            }),
    {
        self.history.down(&mut self.input)
    }

    /// The Run button (see `run_spec`).
    pub fn run(&mut self) -> (e: Effects)
        ensures
            (final(self)@, e) == run_spec(old(self)@),
            final(self).wf() == old(self).wf(),
    {
        if self.halted || self.running {
            return render_only(false);
        }
        self.running = true;
        Effects { pause: false, resume: true, set_button: None, cancel_tick: false, schedule_tick: true, rerender: true }
    }

    /// The Stop button (see `stop_spec`).
    pub fn stop(&mut self) -> (e: Effects)
        ensures
            (final(self)@, e) == stop_spec(old(self)@),
            final(self).wf() == old(self).wf(),
    {
        if !self.running {
            return render_only(false);
        }
        self.running = false;
        Effects { pause: true, resume: false, set_button: None, cancel_tick: true, schedule_tick: false, rerender: true }
    }

    /// Clicking the S2 switch (see `toggle_switch_spec`).
    pub fn toggle_switch(&mut self) -> (e: Effects)
        ensures
            (final(self)@, e) == toggle_switch_spec(old(self)@),
            final(self).wf() == old(self).wf(),
    {
        self.switch_pressed = !self.switch_pressed;
        Effects {
            pause: false,
            resume: false,
            set_button: Some(self.switch_pressed),
            cancel_tick: false,
            schedule_tick: false,
            rerender: true,
        }
    }

    /// Choosing demo number `index` of the tab (see `load_demo_spec`).
    pub fn load_demo(&mut self, index: usize, demos: &Vec<Demo>)
        ensures
            final(self)@ == load_demo_spec(old(self)@, index, demos@),
            final(self).wf() == old(self).wf(),
    {
        if index < demos.len() {
            let demo = &demos[index];
            self.selected_demo = Some(index);
            let mut title = String::from_str("Demo: ");
            title.append(demo.title);
            self.pending_preview = Some((title, demo.source.to_owned()));
        }
    }

    /// An uploaded file's text, shown for review before it runs.
    pub fn load_file(&mut self, contents: String)
        ensures
            final(self)@ == (ReplView { pending_preview: Some(("Uploaded File"@, contents@)), ..old(self)@ }),
            final(self).wf() == old(self).wf(),
    {
        self.pending_preview = Some((String::from_str("Uploaded File"), contents));
    }

    /// Runs the previewed script (see `run_file_spec`).
    pub fn run_file(&mut self) -> (e: Effects)
        requires
            old(self).wf(),
        ensures
            (final(self)@, e) == run_file_spec(old(self)@),
            final(self).wf(),
    {
        let preview = self.pending_preview.take();
        match preview {
            None => {
                proof {
                    assert(old(self)@.pending_preview is None);
                    assert(final(self)@ =~= old(self)@);
                    assert(run_file_spec(old(self)@) == (old(self)@, only_render(true)));
                }
                render_only(true)
            },
            Some((title, contents)) => {
                self.selected_demo = None;
                let mut header = String::from_str("\\ --- ");
                header.append(title.as_str());
                header.append(" ---");
                self.full_log.push(header);
                let lines = script_lines(contents.as_str());
                let ghost lv = lines@.map_values(|l: String| l@);
                let ghost log0 = self.full_log@.map_values(|l: String| l@);
                let ghost hist0 = self.history.entries@.map_values(|l: String| l@);
                let mut extra_log: Vec<String> = Vec::new();
                let mut extra_hist: Vec<String> = Vec::new();
                let n = lines.len();
                let mut i: usize = 0;
                while i < n
                    invariant
                        n == lines@.len(),
                        i <= n,
                        lv == lines@.map_values(|l: String| l@),
                        extra_log@.map_values(|l: String| l@) == lv.take(i as int),
                        extra_hist@.map_values(|l: String| l@) == lv.take(i as int),
                    decreases n - i,
                {
                    let ghost f0 = extra_log@;
                    let ghost h0 = extra_hist@;
                    let l1 = lines[i].clone();
                    let l2 = lines[i].clone();
                    extra_log.push(l1);
                    extra_hist.push(l2);
                    proof {
                        assert(extra_log@.map_values(|l: String| l@) =~= f0.map_values(|l: String| l@).push(l1@));
                        assert(extra_hist@.map_values(|l: String| l@) =~= h0.map_values(|l: String| l@).push(l2@));
                        assert(l1@ == lv[i as int]);
                        assert(lv.take(i + 1) =~= lv.take(i as int).push(lv[i as int]));
                    }
                    i = i + 1;
                }
                proof {
                    assert(lv.take(n as int) =~= lv);
                }
                let ghost fl = self.full_log@;
                let ghost he = self.history.entries@;
                let ghost el = extra_log@;
                let ghost eh = extra_hist@;
                self.full_log.append(&mut extra_log);
                self.history.entries.append(&mut extra_hist);
                proof {
                    assert(self.full_log@.map_values(|l: String| l@) =~= fl.map_values(|l: String| l@) + el.map_values(|l: String| l@));
                    assert(self.history.entries@.map_values(|l: String| l@) =~= he.map_values(|l: String| l@) + eh.map_values(|l: String| l@));
                }
                let bytes = lines_to_uart(&lines);
                queue_bytes(&mut self.rx_queue, bytes.as_slice());
                self.waiting_for_input = false;
                let mut e = render_only(true);
                if !self.running && !self.halted {
                    self.running = true;
                    e = Effects { pause: false, resume: true, set_button: None, cancel_tick: false, schedule_tick: true, rerender: true };
                }
                proof {
                    assert(log0 =~= old(self)@.full_log.push("\\ --- "@ + title@ + " ---"@));
                    let sp = run_file_spec(old(self)@).0;
                    assert(lv == script_lines_spec(contents@));
                    assert(final(self)@.full_log =~= sp.full_log);
                    assert(final(self)@.history.0 =~= sp.history.0);
                    assert(final(self)@.history == sp.history);
                    assert(final(self)@.rx_queue =~= sp.rx_queue);
                    assert(final(self)@.pending_preview == sp.pending_preview);
                    assert(final(self)@ =~= run_file_spec(old(self)@).0);
                }
                e
            },
        }
    }

    /// Discards the previewed script.
    pub fn cancel_file(&mut self)
        ensures
            final(self)@ == (ReplView { pending_preview: None, ..old(self)@ }),
            final(self).wf() == old(self).wf(),
    {
        self.pending_preview = None;
    }

    /// Opens or closes the About dialog.
    pub fn toggle_about(&mut self)
        ensures
            final(self)@ == (ReplView { show_about: !old(self)@.show_about, ..old(self)@ }),
            final(self).wf() == old(self).wf(),
    {
        self.show_about = !self.show_about;
    }

    /// Opens or closes the history panel.
    pub fn toggle_history(&mut self)
        ensures
            final(self)@ == (ReplView { show_history: !old(self)@.show_history, ..old(self)@ }),
            final(self).wf() == old(self).wf(),
    {
        self.show_history = !self.show_history;
    }
}


/// What the REPL's status bar reports.
#[derive(Clone, Copy, PartialEq, Eq, Structural, Debug)]
pub enum ReplStatus {
    Halted,
    Booting,
    Ready,
    Running,
    Stopped,
}

impl ReplState {
    /// The status: halted; else booting until the core tiers are
    /// compiled; else ready when waiting for input; else running or
    /// stopped.
    pub fn status(&self) -> (st: ReplStatus)
        ensures
            st == (if self.halted {
                ReplStatus::Halted
            } else if !self.booted {
                ReplStatus::Booting
            } else if self.waiting_for_input {
                ReplStatus::Ready
            } else if self.running {
                ReplStatus::Running
            } else {
                ReplStatus::Stopped
            }),
    {
        if self.halted {
            ReplStatus::Halted
        } else if !self.booted {
            ReplStatus::Booting
        } else if self.waiting_for_input {
            ReplStatus::Ready
        } else if self.running {
            ReplStatus::Running
        } else {
            ReplStatus::Stopped
        }
    }

    /// The controls are locked until boot completes, so that nothing typed
    /// lands ahead of the core tiers in the UART stream.
    pub fn ui_locked(&self) -> (locked: bool)
        ensures
            locked == !self.booted,
    {
        !self.booted
    }

    /// Style class of the input bar: ready, busy or plain.
    pub fn input_bar_class(&self) -> (c: &'static str)
        ensures
            c@ == (if self.waiting_for_input {
                "input-bar input-ready"@
            } else if self.running {
                "input-bar input-busy"@
            } else {
                "input-bar"@
            }),
    {
        if self.waiting_for_input {
            "input-bar input-ready"
        } else if self.running {
            "input-bar input-busy"
        } else {
            "input-bar"
        }
    }

    /// The prompt: a busy mark while the interpreter runs, else `> `.
    pub fn prompt(&self) -> (p: &'static str)
        ensures
            p@ == (if self.running && !self.waiting_for_input { "\u{25F3} "@ } else { "> "@ }),
    {
        if self.running && !self.waiting_for_input {
            "\u{25F3} "
        } else {
            "> "
        }
    }

    /// The input field's placeholder text.
    pub fn placeholder(&self) -> (p: &'static str)
        ensures
            p@ == (if !self.booted {
                "Booting core/*.fth \u{2014} UI locked until ready..."@
            } else if self.running && !self.waiting_for_input {
                "Running..."@
            } else {
                "Try: WORDS  or  : SQUARE DUP * ;  5 SQUARE ."@
            }),
    {
        if !self.booted {
            "Booting core/*.fth \u{2014} UI locked until ready..."
        } else if self.running && !self.waiting_for_input {
            "Running..."
        } else {
            "Try: WORDS  or  : SQUARE DUP * ;  5 SQUARE ."
        }
    }
}


/// How the pump loop goes on after a sub-batch.
#[derive(Clone, Copy, PartialEq, Eq, Structural, Debug)]
pub struct BatchOutcome {
    pub stop: bool,
    pub halted: bool,
    pub used: u64,
}

/// After a sub-batch that ran `ran` instructions and stopped on a halt
/// when `halt_reason` holds: an emulator that ran nothing (paused or
/// halted) ends the loop; otherwise the instructions count against the
/// budget and a halt ends the loop.
pub fn batch_outcome(ran: u64, halt_reason: bool, used: u64) -> (o: BatchOutcome)
    requires
        used + ran <= u64::MAX,
    ensures
        o == (if ran == 0 {
            BatchOutcome { stop: true, halted: halt_reason, used }
        } else {
            BatchOutcome { stop: halt_reason, halted: halt_reason, used: (used + ran) as u64 }
        }),
{
    if ran == 0 {
        BatchOutcome { stop: true, halted: halt_reason, used }
    } else {
        BatchOutcome { stop: halt_reason, halted: halt_reason, used: used + ran }
    }
}


/// The pump never runs past the tick's budget, and hands the UART a
/// byte only when it is polling, ready, and bytes are queued.
pub proof fn lemma_pump_within_budget(v: ReplView, pc: u32, status: u8, used: u64, budget: u64)
    ensures
        ({
            let (v2, step) = pump_spec(v, pc, status, used, budget);
            &&& used + step.run <= (if budget > used { budget as int } else { used as int })
            &&& (step.feed is Some ==> at_poll(pc, v.poll_addrs) && uart_ready_spec(status) && v.rx_queue.len() > 0
                && step.feed == Some(v.rx_queue[0]) && v2.rx_queue == v.rx_queue.drop_first())
            &&& (step.feed is None ==> v2.rx_queue == v.rx_queue)
        }),
{
}

/// What the emulator reports at one turn of a tick's pump loop: the PC,
/// the UART status byte, how many instructions the sub-batch ran, and
/// whether it stopped on a halt.
pub type PumpObservation = (u32, u8, u64, bool);

/// A whole tick's pump loop from the state `v` after `used` of `budget`
/// instructions, given what the emulator reports at each turn: the state
/// after the loop, the bytes handed to the UART in order, and the
/// instructions used. The loop ends when a step asks for no
/// instructions, when a sub-batch runs none, or on a halt.
pub open spec fn tick_trace(v: ReplView, obs: Seq<PumpObservation>, used: u64, budget: u64) -> (ReplView, Seq<u8>, u64)
    decreases obs.len(),
{
    if obs.len() == 0 {
        (v, Seq::empty(), used)
    } else {
        let (pc, status, ran, halt) = obs[0];
        let (v2, step) = pump_spec(v, pc, status, used, budget);
        let fed: Seq<u8> = match step.feed {
            Some(b) => seq![b],
            None => Seq::empty(),
        };
        if step.run == 0 {
            (v2, fed, used)
        } else if ran == 0 {
            (v2, fed, used)
        } else if halt {
            (v2, fed, (used + ran) as u64)
        } else {
            let (v3, f3, u3) = tick_trace(v2, obs.drop_first(), (used + ran) as u64, budget);
            (v3, fed + f3, u3)
        }
    }
}

/// The emulator keeps to each sub-batch's limit: every turn that the
/// loop reaches runs at most the instructions the pump asked for.
pub open spec fn tick_obs_ok(v: ReplView, obs: Seq<PumpObservation>, used: u64, budget: u64) -> bool
    decreases obs.len(),
{
    if obs.len() == 0 {
        true
    } else {
        let (pc, status, ran, halt) = obs[0];
        let (v2, step) = pump_spec(v, pc, status, used, budget);
        &&& ran <= step.run
        &&& (step.run == 0 || ran == 0 || halt || tick_obs_ok(v2, obs.drop_first(), (used + ran) as u64, budget))
    }
}

/// Over a whole tick, with an emulator that keeps to each sub-batch's
/// limit: at most the tick's budget of instructions runs, the bytes
/// handed to the UART are the front of the queue, in order, and leave it,
/// and nothing else of the state changes.
pub proof fn lemma_tick_within_budget(v: ReplView, obs: Seq<PumpObservation>, used: u64, budget: u64)
    requires
        used <= budget,
        tick_obs_ok(v, obs, used, budget),
    ensures
        ({
            let (v2, fed, used2) = tick_trace(v, obs, used, budget);
            &&& used <= used2 <= budget
            &&& v.rx_queue == fed + v2.rx_queue
            &&& v2 == ReplView { rx_queue: v2.rx_queue, ..v }
        }),
    decreases obs.len(),
{
    if obs.len() > 0 {
        let (pc, status, ran, halt) = obs[0];
        lemma_pump_within_budget(v, pc, status, used, budget);
        let (v2, step) = pump_spec(v, pc, status, used, budget);
        let fed: Seq<u8> = match step.feed {
            Some(b) => seq![b],
            None => Seq::empty(),
        };
        assert(v.rx_queue =~= fed + v2.rx_queue);
        assert(v2 == ReplView { rx_queue: v2.rx_queue, ..v });
        if step.run != 0 && ran != 0 && !halt {
            lemma_tick_within_budget(v2, obs.drop_first(), (used + ran) as u64, budget);
            let (v3, f3, u3) = tick_trace(v2, obs.drop_first(), (used + ran) as u64, budget);
            assert(v.rx_queue =~= (fed + f3) + v3.rx_queue);
        }
    }
}


/// A tick never completes the boot while bootstrap bytes are still
/// queued: afterwards the REPL is booted only if it was before or the
/// UART queue is empty, and while bytes remain the boot log is kept and
/// no snapshot is taken. A finished boot stays finished. The first tick
/// that ends waiting for input with the queue drained completes it and
/// clears the boot log. The tick's end never touches the queue.
pub proof fn lemma_boot_waits_for_drained_queue(v: ReplView, had_output: bool, cycle_limit: bool, pc: u32, halted: bool)
    ensures
        ({
            let (v2, end) = finish_tick_spec(v, had_output, cycle_limit, pc, halted);
            &&& v2.rx_queue == v.rx_queue
            &&& (v2.booted ==> v.booted || v.rx_queue.len() == 0)
            &&& (!v.booted && v.rx_queue.len() > 0 ==> !v2.booted && v2.output == v.output && !end.capture_snapshot)
            &&& (v.booted ==> v2.booted && v2.output == v.output && !end.capture_snapshot)
            &&& (!v.booted && v.rx_queue.len() == 0 && v2.waiting_for_input ==> v2.booted && v2.output.len() == 0)
        }),
{
}

} // verus!
