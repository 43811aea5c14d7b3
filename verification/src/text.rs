//! Character-level string tests and the line handling of Forth source
//! text that is fed to the UART.
use vstd::prelude::*;
use vstd::utf8::encode_utf8;
use vstd::string::StringSliceAdditionalSpecFns;

verus! {

/// Whether `s` begins with `p`.
pub fn str_starts_with(s: &str, p: &str) -> (r: bool)
    ensures
        r == p@.is_prefix_of(s@),
{
    let n = s.unicode_len();
    let m = p.unicode_len();
    if m > n {
        return false;
    }
    let mut i: usize = 0;
    while i < m
        invariant
            n == s@.len(),
            m == p@.len(),
            m <= n,
            i <= m,
            forall|t: int| 0 <= t < i ==> p@[t] == s@[t],
        decreases m - i,
    {
        if s.get_char(i) != p.get_char(i) {
            proof {
                assert(p@[i as int] != s@.subrange(0, m as int)[i as int]);
            }
            return false;
        }
        i = i + 1;
    }
    proof {
        assert(p@ =~= s@.subrange(0, m as int));
    }
    true
}

/// Whether `s` ends with `p`.
pub fn str_ends_with(s: &str, p: &str) -> (r: bool)
    ensures
        r == p@.is_suffix_of(s@),
{
    let n = s.unicode_len();
    let m = p.unicode_len();
    if m > n {
        return false;
    }
    let off = n - m;
    let mut i: usize = 0;
    while i < m
        invariant
            n == s@.len(),
            m == p@.len(),
            m <= n,
            off == n - m,
            i <= m,
            forall|t: int| 0 <= t < i ==> p@[t] == s@[off + t],
        decreases m - i,
    {
        if s.get_char(off + i) != p.get_char(i) {
            proof {
                assert(p@[i as int] != s@.subrange(off as int, n as int)[i as int]);
            }
            return false;
        }
        i = i + 1;
    }
    proof {
        assert(p@ =~= s@.subrange(off as int, n as int));
    }
    true
}

/// Whether `s` and `p` hold the same characters.
pub fn str_eq(s: &str, p: &str) -> (r: bool)
    ensures
        r == (s@ == p@),
{
    let n = s.unicode_len();
    let m = p.unicode_len();
    if m != n {
        return false;
    }
    let r = str_starts_with(s, p);
    proof {
        if r {
            assert(s@ =~= p@);
        }
    }
    r
}


/// The characters of `s`.
pub fn chars_of(s: &str) -> (cs: Vec<char>)
    ensures
        cs@ == s@,
{
    let mut cs: Vec<char> = Vec::new();
    for c in it: s.chars()
        invariant
            cs@ == it.seq().take(it.index() as int),
    {
        cs.push(c);
    }
    cs
}


// ===== lines and trimming =====

/// Unicode `White_Space` characters, which `trim` removes.
pub open spec fn is_ws(c: char) -> bool {
    let u = c as u32;
    ||| 0x09 <= u <= 0x0D
    ||| u == 0x20
    ||| u == 0x85
    ||| u == 0xA0
    ||| u == 0x1680
    ||| 0x2000 <= u <= 0x200A
    ||| u == 0x2028
    ||| u == 0x2029
    ||| u == 0x202F
    ||| u == 0x205F
    ||| u == 0x3000
}

/// Whether `c` is Unicode white space.
pub fn is_ws_char(c: char) -> (r: bool)
    ensures
        r == is_ws(c),
{
    let u = c as u32;
    (0x09 <= u && u <= 0x0D) || u == 0x20 || u == 0x85 || u == 0xA0 || u == 0x1680 || (0x2000 <= u && u <= 0x200A)
        || u == 0x2028 || u == 0x2029 || u == 0x202F || u == 0x205F || u == 0x3000
}

/// Number of leading white-space characters of `x`.
pub open spec fn lead_ws(x: Seq<char>) -> nat
    decreases x.len(),
{
    if x.len() > 0 && is_ws(x[0]) {
        1 + lead_ws(x.drop_first())
    } else {
        0
    }
}

/// Number of trailing white-space characters of `x`.
pub open spec fn trail_ws(x: Seq<char>) -> nat
    decreases x.len(),
{
    if x.len() > 0 && is_ws(x.last()) {
        1 + trail_ws(x.drop_last())
    } else {
        0
    }
}

/// `x` without leading and trailing white space.
pub open spec fn trim_spec(x: Seq<char>) -> Seq<char> {
    let y = x.skip(lead_ws(x) as int);
    y.take(y.len() - trail_ws(y))
}

/// `x` without its trailing carriage returns.
pub open spec fn strip_cr_end(x: Seq<char>) -> Seq<char>
    decreases x.len(),
{
    if x.len() > 0 && x.last() == '\r' {
        strip_cr_end(x.drop_last())
    } else {
        x
    }
}

/// Index of the first newline of `s`, or its length.
pub open spec fn first_nl(s: Seq<char>) -> nat
    decreases s.len(),
{
    if s.len() == 0 || s[0] == '\n' {
        0
    } else {
        1 + first_nl(s.drop_first())
    }
}

/// The first line of `s`: up to the first newline, without a carriage
/// return just before it.
pub open spec fn first_line(s: Seq<char>) -> Seq<char> {
    let k = first_nl(s) as int;
    if k < s.len() {
        let l = s.take(k);
        if l.len() > 0 && l.last() == '\r' { l.drop_last() } else { l }
    } else {
        s
    }
}

/// What follows the first line of `s` and its newline.
pub open spec fn after_first_line(s: Seq<char>) -> Seq<char> {
    let k = first_nl(s) as int;
    if k < s.len() { s.skip(k + 1) } else { Seq::empty() }
}

/// A demo line is sent unless it is empty or a `\` comment.
pub open spec fn keep_demo_line(t: Seq<char>) -> bool {
    t.len() > 0 && t[0] != '\\'
}

/// The lines of a demo as sent to the UART: each line trimmed, without
/// empty lines and `\` comment lines.
pub open spec fn demo_lines_spec(s: Seq<char>) -> Seq<Seq<char>>
    decreases s.len(),
{
    if s.len() == 0 {
        Seq::empty()
    } else {
        let t = trim_spec(first_line(s));
        let rest = if first_nl(s) < s.len() { demo_lines_spec(after_first_line(s)) } else { Seq::empty() };
        if keep_demo_line(t) { seq![t] + rest } else { rest }
    }
}

/// The lines of an uploaded script as sent to the UART: trailing
/// carriage returns removed, then trimmed, without empty lines.
pub open spec fn script_lines_spec(s: Seq<char>) -> Seq<Seq<char>>
    decreases s.len(),
{
    if s.len() == 0 {
        Seq::empty()
    } else {
        let t = trim_spec(strip_cr_end(first_line(s)));
        let rest = if first_nl(s) < s.len() { script_lines_spec(after_first_line(s)) } else { Seq::empty() };
        if t.len() > 0 { seq![t] + rest } else { rest }
    }
}

proof fn lemma_first_nl(s: Seq<char>, k: int)
    requires
        0 <= k <= s.len(),
        forall|t: int| 0 <= t < k ==> s[t] != '\n',
        k == s.len() || s[k] == '\n',
    ensures
        first_nl(s) == k,
    decreases k,
{
    if k > 0 {
        lemma_first_nl(s.drop_first(), k - 1);
    }
}

proof fn lemma_lead_ws(x: Seq<char>, k: int)
    requires
        0 <= k <= x.len(),
        forall|t: int| 0 <= t < k ==> is_ws(x[t]),
        k == x.len() || !is_ws(x[k]),
    ensures
        lead_ws(x) == k,
    decreases k,
{
    if k > 0 {
        lemma_lead_ws(x.drop_first(), k - 1);
    }
}

proof fn lemma_trail_ws(x: Seq<char>, k: int)
    requires
        0 <= k <= x.len(),
        forall|t: int| x.len() - k <= t < x.len() ==> is_ws(x[t]),
        k == x.len() || !is_ws(x[x.len() - k - 1]),
    ensures
        trail_ws(x) == k,
    decreases k,
{
    if k > 0 {
        lemma_trail_ws(x.drop_last(), k - 1);
    }
}

proof fn lemma_strip_cr(x: Seq<char>, k: int)
    requires
        0 <= k <= x.len(),
        forall|t: int| k <= t < x.len() ==> x[t] == '\r',
        k == 0 || x[k - 1] != '\r',
    ensures
        strip_cr_end(x) == x.take(k),
    decreases x.len(),
{
    if x.len() > k {
        lemma_strip_cr(x.drop_last(), k);
        assert(x.drop_last().take(k) =~= x.take(k));
    } else {
        assert(x.take(k) =~= x);
    }
}

/// Trims `cs[lo..hi]`: the bounds of the part without white space.
fn trim_bounds(cs: &Vec<char>, lo: usize, hi: usize) -> (r: (usize, usize))
    requires
        lo <= hi <= cs@.len(),
    ensures
        lo <= r.0 <= r.1 <= hi,
        cs@.subrange(r.0 as int, r.1 as int) == trim_spec(cs@.subrange(lo as int, hi as int)),
{
    let ghost x = cs@.subrange(lo as int, hi as int);
    let mut a = lo;
    while a < hi && is_ws_char(cs[a])
        invariant
            lo <= a <= hi <= cs@.len(),
            x == cs@.subrange(lo as int, hi as int),
            forall|t: int| 0 <= t < a - lo ==> is_ws(x[t]),
        decreases hi - a,
    {
        a = a + 1;
    }
    proof {
        lemma_lead_ws(x, a - lo);
    }
    let ghost y = x.skip(a - lo);
    let mut b = hi;
    while b > a && is_ws_char(cs[b - 1])
        invariant
            lo <= a <= b <= hi <= cs@.len(),
            x == cs@.subrange(lo as int, hi as int),
            y == x.skip(a - lo),
            forall|t: int| y.len() - (hi - b) <= t < y.len() ==> is_ws(y[t]),
        decreases b - a,
    {
        b = b - 1;
    }
    proof {
        lemma_trail_ws(y, (hi - b) as int);
        assert(cs@.subrange(a as int, b as int) =~= y.take(y.len() - (hi - b)));
    }
    (a, b)
}

/// Finds the line that starts at `start`: returns the end of its text
/// (without a carriage return before the newline) and the start of the
/// next line, which is past the end when the text has no further line.
fn line_at(cs: &Vec<char>, start: usize) -> (r: (usize, usize, bool))
    requires
        start < cs@.len(),
    ensures
        start <= r.0 <= cs@.len(),
        cs@.subrange(start as int, r.0 as int) == first_line(cs@.skip(start as int)),
        r.2 == (first_nl(cs@.skip(start as int)) < cs@.len() - start),
        r.2 ==> r.1 <= cs@.len() && cs@.skip(r.1 as int) == after_first_line(cs@.skip(start as int)),
{
    let n = cs.len();
    let ghost s = cs@.skip(start as int);
    let mut k = start;
    while k < n && cs[k] != '\n'
        invariant
            n == cs@.len(),
            start <= k <= n,
            s == cs@.skip(start as int),
            forall|t: int| 0 <= t < k - start ==> s[t] != '\n',
        decreases n - k,
    {
        k = k + 1;
    }
    proof {
        lemma_first_nl(s, k - start);
    }
    if k < n {
        let mut e = k;
        if e > start && cs[e - 1] == '\r' {
            e = e - 1;
        }
        proof {
            assert(s.take(k - start) =~= cs@.subrange(start as int, k as int));
            if k > start && cs@[k - 1] == '\r' {
                assert(cs@.subrange(start as int, e as int) =~= s.take(k - start).drop_last());
            }
            assert(cs@.skip(k + 1) =~= s.skip(k - start + 1));
        }
        (e, k + 1, true)
    } else {
        proof {
            assert(cs@.subrange(start as int, n as int) =~= s);
        }
        (n, n, false)
    }
}

/// The lines of a demo source to type into the REPL: trimmed, without
/// empty lines and `\` comment lines.
pub fn demo_lines(source: &str) -> (lines: Vec<String>)
    ensures
        lines@.map_values(|l: String| l@) == demo_lines_spec(source@),
{
    let cs = chars_of(source);
    let n = cs.len();
    let mut lines: Vec<String> = Vec::new();
    let mut start: usize = 0;
    let mut more = n > 0;
    proof {
        assert(cs@.skip(0) =~= cs@);
    }
    while more
        invariant
            n == cs@.len(),
            cs@ == source@,
            more ==> start < n,
            demo_lines_spec(source@) == lines@.map_values(|l: String| l@)
                + (if more { demo_lines_spec(cs@.skip(start as int)) } else { Seq::<Seq<char>>::empty() }),
        decreases (if more { n - start + 1 } else { 0 }),
    {
        let ghost s = cs@.skip(start as int);
        let (end, next, has_next) = line_at(&cs, start);
        let (a, b) = trim_bounds(&cs, start, end);
        let ghost t = trim_spec(first_line(s));
        let ghost old_lines = lines@;
        let ghost rest = if has_next { demo_lines_spec(after_first_line(s)) } else { Seq::<Seq<char>>::empty() };
        proof {
            assert(cs@.subrange(a as int, b as int) == t);
            assert(demo_lines_spec(s) == (if keep_demo_line(t) { seq![t] + rest } else { rest }));
        }
        if a < b && cs[a] != '\\' {
            let piece = source.substring_char(a, b);
            lines.push(piece.to_owned());
            proof {
                assert(lines@.map_values(|l: String| l@) =~= old_lines.map_values(|l: String| l@).push(t));
            }
        }
        if has_next && next < n {
            start = next;
        } else {
            more = false;
            proof {
                if has_next {
                    assert(cs@.skip(next as int) =~= Seq::<char>::empty());
                }
            }
        }
        proof {
            assert(lines@.map_values(|l: String| l@).len() >= old_lines.len());
        }
    }
    proof {
        if n == 0 {
            assert(lines@.map_values(|l: String| l@) =~= Seq::<Seq<char>>::empty());
        }
    }
    lines
}


/// The lines of an uploaded script to type into the REPL: trailing
/// carriage returns removed, trimmed, without empty lines.
pub fn script_lines(contents: &str) -> (lines: Vec<String>)
    ensures
        lines@.map_values(|l: String| l@) == script_lines_spec(contents@),
{
    let cs = chars_of(contents);
    let n = cs.len();
    let mut lines: Vec<String> = Vec::new();
    let mut start: usize = 0;
    let mut more = n > 0;
    proof {
        assert(cs@.skip(0) =~= cs@);
    }
    while more
        invariant
            n == cs@.len(),
            cs@ == contents@,
            more ==> start < n,
            script_lines_spec(contents@) == lines@.map_values(|l: String| l@)
                + (if more { script_lines_spec(cs@.skip(start as int)) } else { Seq::<Seq<char>>::empty() }),
        decreases (if more { n - start + 1 } else { 0 }),
    {
        let ghost s = cs@.skip(start as int);
        let (end, next, has_next) = line_at(&cs, start);
        let mut e = end;
        while e > start && cs[e - 1] == '\r'
            invariant
                start <= e <= end <= n,
                n == cs@.len(),
                forall|t: int| e <= t < end ==> cs@[t] == '\r',
            decreases e - start,
        {
            e = e - 1;
        }
        proof {
            let x = cs@.subrange(start as int, end as int);
            lemma_strip_cr(x, e - start);
            assert(x.take(e - start) =~= cs@.subrange(start as int, e as int));
        }
        let (a, b) = trim_bounds(&cs, start, e);
        let ghost t = trim_spec(strip_cr_end(first_line(s)));
        let ghost old_lines = lines@;
        let ghost rest = if has_next { script_lines_spec(after_first_line(s)) } else { Seq::<Seq<char>>::empty() };
        proof {
            assert(cs@.subrange(a as int, b as int) == t);
            assert(script_lines_spec(s) == (if t.len() > 0 { seq![t] + rest } else { rest }));
        }
        if a < b {
            let piece = contents.substring_char(a, b);
            lines.push(piece.to_owned());
            proof {
                assert(lines@.map_values(|l: String| l@) =~= old_lines.map_values(|l: String| l@).push(t));
            }
        }
        if has_next && next < n {
            start = next;
        } else {
            more = false;
            proof {
                if has_next {
                    assert(cs@.skip(next as int) =~= Seq::<char>::empty());
                }
            }
        }
    }
    proof {
        if n == 0 {
            assert(lines@.map_values(|l: String| l@) =~= Seq::<Seq<char>>::empty());
        }
    }
    lines
}

/// The UTF-8 bytes of each line, each followed by a newline.
pub open spec fn lines_bytes(lines: Seq<Seq<char>>) -> Seq<u8>
    decreases lines.len(),
{
    if lines.len() == 0 {
        Seq::empty()
    } else {
        lines_bytes(lines.drop_last()) + encode_utf8(lines.last()) + seq![10u8]
    }
}

fn push_bytes(out: &mut Vec<u8>, b: &[u8])
    ensures
        final(out)@ == old(out)@ + b@,
{
    let n = b.len();
    let mut i: usize = 0;
    while i < n
        invariant
            n == b@.len(),
            i <= n,
            out@ == old(out)@ + b@.take(i as int),
        decreases n - i,
    {
        out.push(b[i]);
        i = i + 1;
        proof {
            assert(out@ =~= old(out)@ + b@.take(i as int));
        }
    }
    proof {
        assert(b@.take(n as int) =~= b@);
    }
}

/// The bytes that typing `lines` sends to the UART: each line's UTF-8
/// bytes and a newline.
pub fn lines_to_uart(lines: &Vec<String>) -> (bytes: Vec<u8>)
    ensures
        bytes@ == lines_bytes(lines@.map_values(|l: String| l@)),
{
    let mut bytes: Vec<u8> = Vec::new();
    let n = lines.len();
    let mut i: usize = 0;
    while i < n
        invariant
            n == lines@.len(),
            i <= n,
            bytes@ == lines_bytes(lines@.take(i as int).map_values(|l: String| l@)),
        decreases n - i,
    {
        push_bytes(&mut bytes, lines[i].as_str().as_bytes());
        bytes.push(10);
        proof {
            let v = lines@.take(i + 1).map_values(|l: String| l@);
            assert(v.drop_last() =~= lines@.take(i as int).map_values(|l: String| l@));
            assert(v.last() == lines@[i as int]@);
        }
        i = i + 1;
    }
    proof {
        assert(lines@.take(n as int) =~= lines@);
    }
    bytes
}

/// The bytes that sending one input line puts on the UART: the line's
/// UTF-8 bytes and a newline.
pub fn input_to_uart(input: &str) -> (bytes: Vec<u8>)
    ensures
        bytes@ == input.spec_bytes() + seq![10u8],
{
    let mut bytes: Vec<u8> = Vec::new();
    push_bytes(&mut bytes, input.as_bytes());
    bytes.push(10);
    bytes
}


/// `s` without leading and trailing white space.
pub fn trim_str(s: &str) -> (t: String)
    ensures
        t@ == trim_spec(s@),
{
    let cs = chars_of(s);
    let (a, b) = trim_bounds(&cs, 0, cs.len());
    proof {
        assert(cs@.subrange(0, cs@.len() as int) =~= cs@);
    }
    s.substring_char(a, b).to_owned()
}

} // verus!
