//! The curated demo programs of each tab, and the check that every list
//! is in alphabetical order by title.
use vstd::prelude::*;
use vstd::string::StringSliceAdditionalSpecFns;
use vstd::utf8::{encode_utf8, encode_scalar, leading_byte_width_1};
use crate::config::ForthTier;

verus! {

/// A demo program offered in a tab's dropdown.
#[derive(Clone, Copy, PartialEq, Eq, Debug)]
pub struct Demo {
    pub title: &'static str,
    pub description: &'static str,
    pub source: &'static str,
    pub tier: ForthTier,
}

/// Number of numbered example programs (`examples/00-*.fth` to
/// `examples/19-*.fth`) that the demo lists draw on.
pub const EXAMPLE_COUNT: usize = 20;

/// The forth_s_demos list, as values.
pub open spec fn spec_forth_s_demos(examples: Seq<&'static str>) -> Seq<Demo> {
    seq![
        Demo { title: "ASCII Stars", description: "STAR, STARS, NL — EMIT patterns", source: examples[4], tier: ForthTier::Interpreter },
        Demo { title: "Colon Definitions", description: "TWO, SQUARE, CUBE — compile mode", source: examples[1], tier: ForthTier::Interpreter },
        Demo { title: "Comments", description: "\\ and ( ) — line and inline comments", source: examples[6], tier: ForthTier::Interpreter },
        Demo { title: "Division & Modulo", description: "/MOD, /, MOD — unsigned integer division", source: examples[7], tier: ForthTier::Interpreter },
        Demo { title: "Fibonacci", description: "FIB with NIP/TUCK/1+/1- helpers; FIB(0)..FIB(10)", source: examples[14], tier: ForthTier::Interpreter },
        Demo { title: "FizzBuzz", description: "BEGIN/UNTIL, nested IF/ELSE — classic 1-20", source: examples[11], tier: ForthTier::Interpreter },
        Demo { title: "IF ELSE", description: "IF ELSE THEN — conditional branching", source: examples[9], tier: ForthTier::Interpreter },
        Demo { title: "IF THEN", description: "IF THEN — conditional execution", source: examples[8], tier: ForthTier::Interpreter },
        Demo { title: "LED Control", description: "ON/OFF words, BLINK — hardware I/O", source: examples[2], tier: ForthTier::Interpreter },
        Demo { title: "Loop", description: "BEGIN UNTIL — counted loops with counter", source: examples[10], tier: ForthTier::Interpreter },
        Demo { title: "Loop Switch LED", description: "SW? LED! in 10000-iter loop — toggle S2 while running", source: examples[13], tier: ForthTier::Interpreter },
        Demo { title: "Math Words", description: "NEGATE, DOUBLE, TRIPLE, * multiply", source: examples[3], tier: ForthTier::Interpreter },
        Demo { title: "Self Test", description: "Exercise all kernel words — stack empty at end, no '?' errors", source: examples[12], tier: ForthTier::Interpreter },
        Demo { title: "Smoke Test", description: ".S, arithmetic, hex, WORDS — interpret-only", source: examples[0], tier: ForthTier::Interpreter },
        Demo { title: "Switch \u{2192} LED", description: "SW? LED! — click S2 first, then run", source: examples[5], tier: ForthTier::Interpreter },
    ]
}
/// Demos of the forth.s tab. They target the asm kernel, so the
/// Fibonacci example defines its own NIP/TUCK/1-. `examples[n]` is the
/// text of example program number `n`.
pub fn forth_s_demos(examples: &[&'static str]) -> (demos: Vec<Demo>)
    requires
        examples@.len() == EXAMPLE_COUNT,
    ensures
        demos@ == spec_forth_s_demos(examples@),
{
    let mut v: Vec<Demo> = Vec::new();
    v.push(Demo { title: "ASCII Stars", description: "STAR, STARS, NL — EMIT patterns", source: examples[4], tier: ForthTier::Interpreter });
    v.push(Demo { title: "Colon Definitions", description: "TWO, SQUARE, CUBE — compile mode", source: examples[1], tier: ForthTier::Interpreter });
    v.push(Demo { title: "Comments", description: "\\ and ( ) — line and inline comments", source: examples[6], tier: ForthTier::Interpreter });
    v.push(Demo { title: "Division & Modulo", description: "/MOD, /, MOD — unsigned integer division", source: examples[7], tier: ForthTier::Interpreter });
    v.push(Demo { title: "Fibonacci", description: "FIB with NIP/TUCK/1+/1- helpers; FIB(0)..FIB(10)", source: examples[14], tier: ForthTier::Interpreter });
    v.push(Demo { title: "FizzBuzz", description: "BEGIN/UNTIL, nested IF/ELSE — classic 1-20", source: examples[11], tier: ForthTier::Interpreter });
    v.push(Demo { title: "IF ELSE", description: "IF ELSE THEN — conditional branching", source: examples[9], tier: ForthTier::Interpreter });
    v.push(Demo { title: "IF THEN", description: "IF THEN — conditional execution", source: examples[8], tier: ForthTier::Interpreter });
    v.push(Demo { title: "LED Control", description: "ON/OFF words, BLINK — hardware I/O", source: examples[2], tier: ForthTier::Interpreter });
    v.push(Demo { title: "Loop", description: "BEGIN UNTIL — counted loops with counter", source: examples[10], tier: ForthTier::Interpreter });
    v.push(Demo { title: "Loop Switch LED", description: "SW? LED! in 10000-iter loop — toggle S2 while running", source: examples[13], tier: ForthTier::Interpreter });
    v.push(Demo { title: "Math Words", description: "NEGATE, DOUBLE, TRIPLE, * multiply", source: examples[3], tier: ForthTier::Interpreter });
    v.push(Demo { title: "Self Test", description: "Exercise all kernel words — stack empty at end, no '?' errors", source: examples[12], tier: ForthTier::Interpreter });
    v.push(Demo { title: "Smoke Test", description: ".S, arithmetic, hex, WORDS — interpret-only", source: examples[0], tier: ForthTier::Interpreter });
    v.push(Demo { title: "Switch \u{2192} LED", description: "SW? LED! — click S2 first, then run", source: examples[5], tier: ForthTier::Interpreter });
    proof {
        assert(v@ =~= spec_forth_s_demos(examples@));
        lemma_shipped_demos_sorted(examples@);
    }
    assert_demos_sorted(v.as_slice());
    v
}

/// The fif_demos list, as values.
pub open spec fn spec_fif_demos(examples: Seq<&'static str>) -> Seq<Demo> {
    seq![
        Demo { title: "AGAIN", description: "BEGIN AGAIN with IF EXIT — countdown loop", source: examples[15], tier: ForthTier::Interpreter },
        Demo { title: "ASCII Stars", description: "STAR, STARS, NL — EMIT patterns", source: examples[4], tier: ForthTier::Interpreter },
        Demo { title: "CONSTANT", description: "Bind values to names — ANSWER, YEAR, UART-DATA", source: examples[17], tier: ForthTier::Interpreter },
        Demo { title: "Colon Definitions", description: "TWO, SQUARE, CUBE — compile mode", source: examples[1], tier: ForthTier::Interpreter },
        Demo { title: "Comments", description: "\\ and ( ) — line and inline comments", source: examples[6], tier: ForthTier::Interpreter },
        Demo { title: "DO LOOP", description: "DO/LOOP, ?DO, I, UNLOOP — counted loops + factorial", source: examples[19], tier: ForthTier::Interpreter },
        Demo { title: "Division & Modulo", description: "/MOD, /, MOD — unsigned integer division", source: examples[7], tier: ForthTier::Interpreter },
        Demo { title: "Fibonacci (looped)", description: "Same FIB; BEGIN/UNTIL counter prints FIB(0)..FIB(20)", source: ": FIB ( n -- f )\n  >R 0 1 R>\n  BEGIN\n    DUP 0=\n    IF DROP SWAP DROP EXIT THEN\n    >R\n    SWAP OVER +\n    R> 1 -\n    0\n  UNTIL\n;\n: FIBS ( -- )\n  0\n  BEGIN\n    DUP FIB .\n    1 +\n    DUP 21 =\n  UNTIL\n  DROP\n;\nFIBS\n", tier: ForthTier::Interpreter },
        Demo { title: "Fibonacci (manual calls)", description: "Define FIB; hand-written 0 FIB . 1 FIB . … 10 FIB .", source: ": FIB ( n -- f )\n  >R 0 1 R>\n  BEGIN\n    DUP 0=\n    IF DROP SWAP DROP EXIT THEN\n    >R\n    SWAP OVER +\n    R> 1 -\n    0\n  UNTIL\n;\n0 FIB . 1 FIB . 2 FIB . 3 FIB . 4 FIB . 5 FIB . 6 FIB . 7 FIB . 8 FIB . 9 FIB . 10 FIB .\n", tier: ForthTier::Interpreter },
        Demo { title: "FizzBuzz", description: "BEGIN/UNTIL, nested IF/ELSE — classic 1-20", source: examples[11], tier: ForthTier::Interpreter },
        Demo { title: "IF ELSE", description: "IF ELSE THEN — conditional branching", source: examples[9], tier: ForthTier::Interpreter },
        Demo { title: "IF THEN", description: "IF THEN — conditional execution", source: examples[8], tier: ForthTier::Interpreter },
        Demo { title: "LED Control", description: "ON/OFF words, BLINK — hardware I/O", source: examples[2], tier: ForthTier::Interpreter },
        Demo { title: "Loop", description: "BEGIN UNTIL — counted loops with counter", source: examples[10], tier: ForthTier::Interpreter },
        Demo { title: "Loop Switch LED", description: "SW? LED! in 10000-iter loop — toggle S2 while running", source: examples[13], tier: ForthTier::Interpreter },
        Demo { title: "Math Words", description: "NEGATE, DOUBLE, TRIPLE, * multiply", source: examples[3], tier: ForthTier::Interpreter },
        Demo { title: "SEE (all words)", description: "Define SQUARE, CUBE; DUMP-ALL decompiles every word", source: ": SQUARE DUP * ;\n: CUBE DUP SQUARE * ;\nDUMP-ALL\n", tier: ForthTier::Interpreter },
        Demo { title: "Self Test", description: "Exercise all kernel words — stack empty at end, no '?' errors", source: examples[12], tier: ForthTier::Interpreter },
        Demo { title: "Smoke Test", description: ".S, arithmetic, hex, WORDS — interpret-only", source: examples[0], tier: ForthTier::Interpreter },
        Demo { title: "Switch \u{2192} LED", description: "SW? LED! — click S2 first, then run", source: examples[5], tier: ForthTier::Interpreter },
        Demo { title: "VARIABLE", description: "Mutable cells — COUNTER with BUMP/RESET/SHOW", source: examples[18], tier: ForthTier::Interpreter },
        Demo { title: "WHILE REPEAT", description: "BEGIN WHILE REPEAT — test-in-middle loop, TRIANGLE sum", source: examples[16], tier: ForthTier::Interpreter },
    ]
}
/// Demos of the forth-in-forth tab, with the DUMP-ALL demo and the two
/// Fibonacci drivers that rely on the core words. `examples[n]` is the
/// text of example program number `n`.
pub fn fif_demos(examples: &[&'static str]) -> (demos: Vec<Demo>)
    requires
        examples@.len() == EXAMPLE_COUNT,
    ensures
        demos@ == spec_fif_demos(examples@),
{
    let mut v: Vec<Demo> = Vec::new();
    v.push(Demo { title: "AGAIN", description: "BEGIN AGAIN with IF EXIT — countdown loop", source: examples[15], tier: ForthTier::Interpreter });
    v.push(Demo { title: "ASCII Stars", description: "STAR, STARS, NL — EMIT patterns", source: examples[4], tier: ForthTier::Interpreter });
    v.push(Demo { title: "CONSTANT", description: "Bind values to names — ANSWER, YEAR, UART-DATA", source: examples[17], tier: ForthTier::Interpreter });
    v.push(Demo { title: "Colon Definitions", description: "TWO, SQUARE, CUBE — compile mode", source: examples[1], tier: ForthTier::Interpreter });
    v.push(Demo { title: "Comments", description: "\\ and ( ) — line and inline comments", source: examples[6], tier: ForthTier::Interpreter });
    v.push(Demo { title: "DO LOOP", description: "DO/LOOP, ?DO, I, UNLOOP — counted loops + factorial", source: examples[19], tier: ForthTier::Interpreter });
    v.push(Demo { title: "Division & Modulo", description: "/MOD, /, MOD — unsigned integer division", source: examples[7], tier: ForthTier::Interpreter });
    v.push(Demo { title: "Fibonacci (looped)", description: "Same FIB; BEGIN/UNTIL counter prints FIB(0)..FIB(20)", source: ": FIB ( n -- f )\n  >R 0 1 R>\n  BEGIN\n    DUP 0=\n    IF DROP SWAP DROP EXIT THEN\n    >R\n    SWAP OVER +\n    R> 1 -\n    0\n  UNTIL\n;\n: FIBS ( -- )\n  0\n  BEGIN\n    DUP FIB .\n    1 +\n    DUP 21 =\n  UNTIL\n  DROP\n;\nFIBS\n", tier: ForthTier::Interpreter });
    v.push(Demo { title: "Fibonacci (manual calls)", description: "Define FIB; hand-written 0 FIB . 1 FIB . … 10 FIB .", source: ": FIB ( n -- f )\n  >R 0 1 R>\n  BEGIN\n    DUP 0=\n    IF DROP SWAP DROP EXIT THEN\n    >R\n    SWAP OVER +\n    R> 1 -\n    0\n  UNTIL\n;\n0 FIB . 1 FIB . 2 FIB . 3 FIB . 4 FIB . 5 FIB . 6 FIB . 7 FIB . 8 FIB . 9 FIB . 10 FIB .\n", tier: ForthTier::Interpreter });
    v.push(Demo { title: "FizzBuzz", description: "BEGIN/UNTIL, nested IF/ELSE — classic 1-20", source: examples[11], tier: ForthTier::Interpreter });
    v.push(Demo { title: "IF ELSE", description: "IF ELSE THEN — conditional branching", source: examples[9], tier: ForthTier::Interpreter });
    v.push(Demo { title: "IF THEN", description: "IF THEN — conditional execution", source: examples[8], tier: ForthTier::Interpreter });
    v.push(Demo { title: "LED Control", description: "ON/OFF words, BLINK — hardware I/O", source: examples[2], tier: ForthTier::Interpreter });
    v.push(Demo { title: "Loop", description: "BEGIN UNTIL — counted loops with counter", source: examples[10], tier: ForthTier::Interpreter });
    v.push(Demo { title: "Loop Switch LED", description: "SW? LED! in 10000-iter loop — toggle S2 while running", source: examples[13], tier: ForthTier::Interpreter });
    v.push(Demo { title: "Math Words", description: "NEGATE, DOUBLE, TRIPLE, * multiply", source: examples[3], tier: ForthTier::Interpreter });
    v.push(Demo { title: "SEE (all words)", description: "Define SQUARE, CUBE; DUMP-ALL decompiles every word", source: ": SQUARE DUP * ;\n: CUBE DUP SQUARE * ;\nDUMP-ALL\n", tier: ForthTier::Interpreter });
    v.push(Demo { title: "Self Test", description: "Exercise all kernel words — stack empty at end, no '?' errors", source: examples[12], tier: ForthTier::Interpreter });
    v.push(Demo { title: "Smoke Test", description: ".S, arithmetic, hex, WORDS — interpret-only", source: examples[0], tier: ForthTier::Interpreter });
    v.push(Demo { title: "Switch \u{2192} LED", description: "SW? LED! — click S2 first, then run", source: examples[5], tier: ForthTier::Interpreter });
    v.push(Demo { title: "VARIABLE", description: "Mutable cells — COUNTER with BUMP/RESET/SHOW", source: examples[18], tier: ForthTier::Interpreter });
    v.push(Demo { title: "WHILE REPEAT", description: "BEGIN WHILE REPEAT — test-in-middle loop, TRIANGLE sum", source: examples[16], tier: ForthTier::Interpreter });
    proof {
        assert(v@ =~= spec_fif_demos(examples@));
        lemma_shipped_demos_sorted(examples@);
    }
    assert_demos_sorted(v.as_slice());
    v
}

/// Demos of the forth-on-forthish tab: the same list as forth-in-forth.
pub fn fof_demos(examples: &[&'static str]) -> (demos: Vec<Demo>)
    requires
        examples@.len() == EXAMPLE_COUNT,
    ensures
        demos@ == spec_fif_demos(examples@),
{
    fif_demos(examples)
}

// ===== alphabetical order =====

/// Byte-wise lexicographic order: `a` is a prefix of `b`, or the first
/// byte where they differ is smaller in `a`.
pub open spec fn bytes_le(a: Seq<u8>, b: Seq<u8>) -> bool {
    ||| (a.len() <= b.len() && a =~= b.take(a.len() as int))
    ||| exists|k: int| 0 <= k < a.len() && k < b.len() && a.take(k) =~= b.take(k) && a[k] < b[k]
}

/// Every title is, byte-wise, at most the next one.
pub open spec fn titles_sorted(demos: Seq<Demo>) -> bool {
    forall|i: int| 1 <= i < demos.len() ==> bytes_le(#[trigger] demos[i - 1].title.spec_bytes(), demos[i].title.spec_bytes())
}

proof fn lemma_encode_concat(a: Seq<char>, r: Seq<char>)
    ensures
        encode_utf8(a + r) == encode_utf8(a) + encode_utf8(r),
    decreases a.len(),
{
    if a.len() == 0 {
        assert(a + r =~= r);
        assert(encode_utf8(a) + encode_utf8(r) =~= encode_utf8(r));
    } else {
        lemma_encode_concat(a.drop_first(), r);
        assert((a + r).drop_first() =~= a.drop_first() + r);
        assert((a + r)[0] == a[0]);
        assert(encode_utf8(a + r) =~= encode_utf8(a) + encode_utf8(r));
    }
}

/// A title that is a prefix of another sorts first.
proof fn lemma_title_prefix(a: Seq<char>, b: Seq<char>)
    requires
        a.len() <= b.len(),
        forall|t: int| 0 <= t < a.len() ==> a[t] == b[t],
    ensures
        bytes_le(encode_utf8(a), encode_utf8(b)),
{
    let r = b.skip(a.len() as int);
    assert(b =~= a + r);
    lemma_encode_concat(a, r);
    let ea = encode_utf8(a);
    assert(ea =~= encode_utf8(b).take(ea.len() as int));
}

/// A title whose first differing character is an ASCII character below
/// the other title's sorts first.
proof fn lemma_title_differs(a: Seq<char>, b: Seq<char>, k: int)
    requires
        0 <= k < a.len(),
        k < b.len(),
        forall|t: int| 0 <= t < k ==> a[t] == b[t],
        (a[k] as u32) < (b[k] as u32) < 128,
    ensures
        bytes_le(encode_utf8(a), encode_utf8(b)),
{
    let p = a.take(k);
    assert(p =~= b.take(k));
    let ra = a.skip(k + 1);
    let rb = b.skip(k + 1);
    assert(a =~= p + (seq![a[k]] + ra));
    assert(b =~= p + (seq![b[k]] + rb));
    lemma_encode_concat(p, seq![a[k]] + ra);
    lemma_encode_concat(seq![a[k]], ra);
    lemma_encode_concat(p, seq![b[k]] + rb);
    lemma_encode_concat(seq![b[k]], rb);
    let x = a[k] as u32;
    let y = b[k] as u32;
    assert(seq![a[k]].drop_first() =~= Seq::<char>::empty());
    assert(seq![b[k]].drop_first() =~= Seq::<char>::empty());
    assert(seq![a[k]][0] == a[k]);
    assert(encode_scalar(x) == seq![leading_byte_width_1(x)]);
    assert(encode_utf8(seq![a[k]].drop_first()) =~= Seq::<u8>::empty());
    assert(encode_utf8(seq![a[k]]) =~= seq![leading_byte_width_1(x)]);
    assert(seq![b[k]][0] == b[k]);
    assert(encode_scalar(y) == seq![leading_byte_width_1(y)]);
    assert(encode_utf8(seq![b[k]].drop_first()) =~= Seq::<u8>::empty());
    assert(encode_utf8(seq![b[k]]) =~= seq![leading_byte_width_1(y)]);
    assert(leading_byte_width_1(x) < leading_byte_width_1(y)) by (bit_vector)
        requires
            x < y < 128,
    ;
    let ea = encode_utf8(a);
    let eb = encode_utf8(b);
    let j = encode_utf8(p).len() as int;
    assert(ea.take(j) =~= encode_utf8(p));
    assert(eb.take(j) =~= encode_utf8(p));
    assert(ea[j] == leading_byte_width_1(x));
    assert(eb[j] == leading_byte_width_1(y));
}

proof fn lemma_forth_s_titles_sorted(examples: Seq<&'static str>)
    ensures
        titles_sorted(spec_forth_s_demos(examples)),
{
    reveal_strlit("ASCII Stars");
    reveal_strlit("Colon Definitions");
    reveal_strlit("Comments");
    reveal_strlit("Division & Modulo");
    reveal_strlit("Fibonacci");
    reveal_strlit("FizzBuzz");
    reveal_strlit("IF ELSE");
    reveal_strlit("IF THEN");
    reveal_strlit("LED Control");
    reveal_strlit("Loop");
    reveal_strlit("Loop Switch LED");
    reveal_strlit("Math Words");
    reveal_strlit("Self Test");
    reveal_strlit("Smoke Test");
    reveal_strlit("Switch \u{2192} LED");
    let d = spec_forth_s_demos(examples);
    assert(titles_sorted(d)) by {
        lemma_title_differs("ASCII Stars"@, "Colon Definitions"@, 0);
        lemma_title_differs("Colon Definitions"@, "Comments"@, 2);
        lemma_title_differs("Comments"@, "Division & Modulo"@, 0);
        lemma_title_differs("Division & Modulo"@, "Fibonacci"@, 0);
        lemma_title_differs("Fibonacci"@, "FizzBuzz"@, 2);
        lemma_title_differs("FizzBuzz"@, "IF ELSE"@, 0);
        lemma_title_differs("IF ELSE"@, "IF THEN"@, 3);
        lemma_title_differs("IF THEN"@, "LED Control"@, 0);
        lemma_title_differs("LED Control"@, "Loop"@, 1);
        lemma_title_prefix("Loop"@, "Loop Switch LED"@);
        lemma_title_differs("Loop Switch LED"@, "Math Words"@, 0);
        lemma_title_differs("Math Words"@, "Self Test"@, 0);
        lemma_title_differs("Self Test"@, "Smoke Test"@, 1);
        lemma_title_differs("Smoke Test"@, "Switch \u{2192} LED"@, 1);
        assert forall|i: int| 1 <= i < d.len() implies bytes_le(#[trigger] d[i - 1].title.spec_bytes(), d[i].title.spec_bytes()) by {}
    }
}

proof fn lemma_fif_titles_sorted(examples: Seq<&'static str>)
    ensures
        titles_sorted(spec_fif_demos(examples)),
{
    reveal_strlit("AGAIN");
    reveal_strlit("ASCII Stars");
    reveal_strlit("CONSTANT");
    reveal_strlit("Colon Definitions");
    reveal_strlit("Comments");
    reveal_strlit("DO LOOP");
    reveal_strlit("Division & Modulo");
    reveal_strlit("Fibonacci (looped)");
    reveal_strlit("Fibonacci (manual calls)");
    reveal_strlit("FizzBuzz");
    reveal_strlit("IF ELSE");
    reveal_strlit("IF THEN");
    reveal_strlit("LED Control");
    reveal_strlit("Loop");
    reveal_strlit("Loop Switch LED");
    reveal_strlit("Math Words");
    reveal_strlit("SEE (all words)");
    reveal_strlit("Self Test");
    reveal_strlit("Smoke Test");
    reveal_strlit("Switch \u{2192} LED");
    reveal_strlit("VARIABLE");
    reveal_strlit("WHILE REPEAT");
    let d = spec_fif_demos(examples);
    assert(titles_sorted(d)) by {
        lemma_title_differs("AGAIN"@, "ASCII Stars"@, 1);
        lemma_title_differs("ASCII Stars"@, "CONSTANT"@, 0);
        lemma_title_differs("CONSTANT"@, "Colon Definitions"@, 1);
        lemma_title_differs("Colon Definitions"@, "Comments"@, 2);
        lemma_title_differs("Comments"@, "DO LOOP"@, 0);
        lemma_title_differs("DO LOOP"@, "Division & Modulo"@, 1);
        lemma_title_differs("Division & Modulo"@, "Fibonacci (looped)"@, 0);
        lemma_title_differs("Fibonacci (looped)"@, "Fibonacci (manual calls)"@, 11);
        lemma_title_differs("Fibonacci (manual calls)"@, "FizzBuzz"@, 2);
        lemma_title_differs("FizzBuzz"@, "IF ELSE"@, 0);
        lemma_title_differs("IF ELSE"@, "IF THEN"@, 3);
        lemma_title_differs("IF THEN"@, "LED Control"@, 0);
        lemma_title_differs("LED Control"@, "Loop"@, 1);
        lemma_title_prefix("Loop"@, "Loop Switch LED"@);
        lemma_title_differs("Loop Switch LED"@, "Math Words"@, 0);
        lemma_title_differs("Math Words"@, "SEE (all words)"@, 0);
        lemma_title_differs("SEE (all words)"@, "Self Test"@, 1);
        lemma_title_differs("Self Test"@, "Smoke Test"@, 1);
        lemma_title_differs("Smoke Test"@, "Switch \u{2192} LED"@, 1);
        lemma_title_differs("Switch \u{2192} LED"@, "VARIABLE"@, 0);
        lemma_title_differs("VARIABLE"@, "WHILE REPEAT"@, 0);
        assert forall|i: int| 1 <= i < d.len() implies bytes_le(#[trigger] d[i - 1].title.spec_bytes(), d[i].title.spec_bytes()) by {}
    }
}

/// The shipped demo lists are in alphabetical order by title: the
/// forth.s list, and the list that the forth-in-forth and forth-on-forthish
/// tabs share.
pub proof fn lemma_shipped_demos_sorted(examples: Seq<&'static str>)
    ensures
        titles_sorted(spec_forth_s_demos(examples)),
        titles_sorted(spec_fif_demos(examples)),
{
    lemma_forth_s_titles_sorted(examples);
    lemma_fif_titles_sorted(examples);
}

fn title_le(a: &[u8], b: &[u8]) -> (r: bool)
    ensures
        r == bytes_le(a@, b@),
{
    let min_len = if a.len() < b.len() { a.len() } else { b.len() };
    let mut j: usize = 0;
    while j < min_len && a[j] == b[j]
        invariant
            min_len <= a@.len(),
            min_len <= b@.len(),
            min_len == a@.len() || min_len == b@.len(),
            j <= min_len,
            forall|t: int| 0 <= t < j ==> a@[t] == b@[t],
        decreases min_len - j,
    {
        j = j + 1;
    }
    proof {
        assert(a@.take(j as int) =~= b@.take(j as int));
    }
    if j == min_len {
        if a.len() > b.len() {
            proof {
                assert forall|k: int| 0 <= k < a@.len() && k < b@.len() && a@.take(k) =~= b@.take(k) implies !(a@[k] < b@[k]) by {
                    assert(a@[k] == b@[k]);
                }
            }
            false
        } else {
            proof {
                assert(a@ =~= b@.take(a@.len() as int));
            }
            true
        }
    } else if a[j] > b[j] {
        proof {
            assert(!(a@.len() <= b@.len() && a@ =~= b@.take(a@.len() as int))) by {
                if a@.len() <= b@.len() {
                    assert(b@.take(a@.len() as int)[j as int] == b@[j as int]);
                    assert(a@[j as int] != b@.take(a@.len() as int)[j as int]);
                }
            }
            assert forall|k: int| 0 <= k < a@.len() && k < b@.len() && a@.take(k) =~= b@.take(k) implies !(a@[k] < b@[k]) by {
                if k < j {
                    assert(a@[k] == b@[k]);
                } else if k > j {
                    assert(a@.take(k)[j as int] == b@.take(k)[j as int]);
                }
            }
        }
        false
    } else {
        proof {
            assert(a@.take(j as int) =~= b@.take(j as int));
        }
        true
    }
}

/// The sorted-by-title check of a demo list: every adjacent pair is in
/// byte-wise order (a title that is a prefix of the next sorts first).
/// A list out of order is not accepted: Verus rejects a call on one, as
/// the build rejects an unsorted list.
pub fn assert_demos_sorted(demos: &[Demo])
    requires
        titles_sorted(demos@),
{
    let n = demos.len();
    let mut i: usize = 1;
    while i < n
        invariant
            n == demos@.len(),
            1 <= i,
            titles_sorted(demos@),
        decreases n - i,
    {
        let in_order = title_le(demos[i - 1].title.as_bytes(), demos[i].title.as_bytes());
        assert(in_order);
        i = i + 1;
    }
}

} // verus!
