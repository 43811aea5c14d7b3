use web_sw_cor24_forth::config::ForthTier;
use web_sw_cor24_forth::demos::{assert_demos_sorted, fif_demos, fof_demos, forth_s_demos, Demo, EXAMPLE_COUNT};

fn examples() -> Vec<&'static str> {
    const TEXTS: [&str; 20] = [
        "ex0", "ex1", "ex2", "ex3", "ex4", "ex5", "ex6", "ex7", "ex8", "ex9", "ex10", "ex11", "ex12", "ex13", "ex14",
        "ex15", "ex16", "ex17", "ex18", "ex19",
    ];
    assert_eq!(TEXTS.len(), EXAMPLE_COUNT);
    TEXTS.to_vec()
}

fn check_sorted(name: &str, demos: &[Demo]) {
    for pair in demos.windows(2) {
        assert!(
            pair[0].title <= pair[1].title,
            "{name}: titles out of alphabetical order: {:?} before {:?}",
            pair[0].title,
            pair[1].title,
        );
    }
    assert_demos_sorted(demos);
}

#[test]
fn forth_s_demos_alphabetical() {
    check_sorted("FORTH_S_DEMOS", &forth_s_demos(&examples()));
}

#[test]
fn fif_demos_alphabetical() {
    check_sorted("FIF_DEMOS", &fif_demos(&examples()));
}

#[test]
fn fof_demos_alphabetical() {
    check_sorted("FOF_DEMOS", &fof_demos(&examples()));
}

#[test]
fn demo_lists_take_example_sources() {
    let ex = examples();
    let s = forth_s_demos(&ex);
    assert_eq!(s.len(), 15);
    assert_eq!(s[0].title, "ASCII Stars");
    assert_eq!(s[0].source, "ex4");
    assert_eq!(s[14].title, "Switch \u{2192} LED");
    assert!(s.iter().all(|d| d.tier == ForthTier::Interpreter));
    let f = fif_demos(&ex);
    assert_eq!(f.len(), 22);
    let dump = f.iter().find(|d| d.title == "SEE (all words)").unwrap();
    assert_eq!(dump.source, ": SQUARE DUP * ;\n: CUBE DUP SQUARE * ;\nDUMP-ALL\n");
    let fof = fof_demos(&ex);
    assert_eq!(fof.len(), f.len());
}

#[test]
fn sorted_edge_cases_accepted() {
    let mk = |t: &'static str| Demo { title: t, description: "", source: "", tier: ForthTier::Interpreter };
    assert_demos_sorted(&[]);
    assert_demos_sorted(&[mk("A")]);
    assert_demos_sorted(&[mk("A"), mk("A")]);
    // a prefix sorts first
    assert_demos_sorted(&[mk("a"), mk("ab"), mk("b")]);
    // byte-wise: upper case sorts before lower case
    assert_demos_sorted(&[mk("CONSTANT"), mk("Colon")]);
    assert_demos_sorted(&[mk("B"), mk("a")]);
}

#[test]
fn shipped_lists_sorted_byte_wise() {
    let ex = [""; EXAMPLE_COUNT];
    for list in [forth_s_demos(&ex), fif_demos(&ex), fof_demos(&ex)] {
        assert_demos_sorted(&list);
        for w in list.windows(2) {
            assert!(w[0].title.as_bytes() <= w[1].title.as_bytes());
        }
    }
}
