//! The bootstrap snapshot: content hash of the kernel and core sources,
//! the cache key derived from it, the serialisable snapshot of the CPU
//! and low memory, and the layout of the build-time snapshot blob.
use vstd::prelude::*;
use vstd::string::StringSliceAdditionalSpecFns;
use vstd::utf8::*;
use crate::base64::{ascii_chars, b64_decode_spec, b64_encode_spec, lemma_b64_roundtrip, string_push};

pub use crate::base64::{b64_decode, b64_encode, b64_val};

verus! {

/// Bytes of low memory that a snapshot holds (64 KB).
pub const SNAPSHOT_BYTES: u32 = 65536;

// ===== content hash (djb2) =====

/// One djb2 step: `h * 33 + b`, modulo 2^64.
pub open spec fn djb2_step(h: u64, b: u8) -> u64 {
    ((h as nat * 33 + b as nat) % 0x1_0000_0000_0000_0000nat) as u64
}

/// djb2 over the bytes `s`, starting from the state `h`.
pub open spec fn djb2_fold(h: u64, s: Seq<u8>) -> u64
    decreases s.len(),
{
    if s.len() == 0 {
        h
    } else {
        djb2_step(djb2_fold(h, s.drop_last()), s.last())
    }
}

/// The hash state after the named core files, each hashed as its name,
/// its body and a 0xFF separator.
pub open spec fn files_hash(h: u64, files: Seq<(Seq<u8>, Seq<u8>)>) -> u64
    decreases files.len(),
{
    if files.len() == 0 {
        h
    } else {
        djb2_step(
            djb2_fold(djb2_fold(files_hash(h, files.drop_last()), files.last().0), files.last().1),
            0xFF,
        )
    }
}

/// The UTF-8 bytes of each name and body of a core-file list.
pub open spec fn files_bytes(files: Seq<(&str, &str)>) -> Seq<(Seq<u8>, Seq<u8>)> {
    files.map_values(|p: (&str, &str)| (p.0.spec_bytes(), p.1.spec_bytes()))
}

/// Content hash of a kernel source and its core files: djb2 from 5381
/// over the kernel, a 0xFF separator, then every core file.
pub open spec fn content_hash_spec(kernel: Seq<u8>, files: Seq<(Seq<u8>, Seq<u8>)>) -> u64 {
    files_hash(djb2_step(djb2_fold(5381, kernel), 0xFF), files)
}

proof fn lemma_wrapping_step(h: u64, b: u8)
    ensures
        ({
            let m = (h as nat * 33) % 0x1_0000_0000_0000_0000nat;
            let s = m + b as nat;
            (if s > u64::MAX { (s - 0x1_0000_0000_0000_0000nat) as u64 } else { s as u64 })
                == djb2_step(h, b)
        }),
{
    let big = 0x1_0000_0000_0000_0000int;
    let x = h as int * 33;
    let m = x % big;
    let q = x / big;
    assert(x == q * big + m && 0 <= m < big) by (nonlinear_arith)
        requires big > 0, q == x / big, m == x % big;
    let s = m + b as int;
    let t = x + b as int;
    assert(t == q * big + s);
    if s >= big {
        assert(t == (q + 1) * big + (s - big)) by (nonlinear_arith)
            requires t == q * big + s;
        assert(t % big == s - big) by (nonlinear_arith)
            requires t == (q + 1) * big + (s - big), 0 <= s - big < big, big > 0;
    } else {
        assert(t % big == s) by (nonlinear_arith)
            requires t == q * big + s, 0 <= s < big, big > 0;
    }
}

fn djb2_step_exec(h: u64, b: u8) -> (r: u64)
    ensures
        r == djb2_step(h, b),
{
    proof {
        lemma_wrapping_step(h, b);
    }
    h.wrapping_mul(33).wrapping_add(b as u64)
}

fn djb2_bytes(h: u64, s: &[u8]) -> (r: u64)
    ensures
        r == djb2_fold(h, s@),
{
    let mut acc = h;
    let n = s.len();
    let mut i: usize = 0;
    while i < n
        invariant
            n == s@.len(),
            i <= n,
            acc == djb2_fold(h, s@.take(i as int)),
        decreases n - i,
    {
        proof {
            assert(s@.take(i + 1).drop_last() =~= s@.take(i as int));
        }
        acc = djb2_step_exec(acc, s[i]);
        i = i + 1;
    }
    proof {
        assert(s@.take(n as int) =~= s@);
    }
    acc
}

/// A stable content hash of the kernel source and all core files
/// (djb2; not cryptographic). The build step computes the same value for
/// the embedded snapshot blob.
pub fn content_hash(kernel_src: &str, core_files: &[(&str, &str)]) -> (h: u64)
    ensures
        h == content_hash_spec(kernel_src.spec_bytes(), files_bytes(core_files@)),
{
    let mut h = djb2_bytes(5381, kernel_src.as_bytes());
    h = djb2_step_exec(h, 0xFF);
    let ghost start = h;
    let n = core_files.len();
    let mut i: usize = 0;
    while i < n
        invariant
            n == core_files@.len(),
            i <= n,
            h == files_hash(start, files_bytes(core_files@).take(i as int)),
        decreases n - i,
    {
        let (name, src) = core_files[i];
        proof {
            assert(files_bytes(core_files@).take(i + 1).drop_last() =~= files_bytes(core_files@).take(i as int));
        }
        h = djb2_bytes(h, name.as_bytes());
        h = djb2_bytes(h, src.as_bytes());
        h = djb2_step_exec(h, 0xFF);
        i = i + 1;
    }
    proof {
        assert(files_bytes(core_files@).take(n as int) =~= files_bytes(core_files@));
    }
    h
}

/// The UTF-8 bytes of each name and body of a core-file list whose
/// bodies are owned strings, as the build step holds them.
pub open spec fn owned_files_bytes(files: Seq<(&str, String)>) -> Seq<(Seq<u8>, Seq<u8>)> {
    files.map_values(|p: (&str, String)| (p.0.spec_bytes(), encode_utf8(p.1@)))
}

/// The content hash as the build step computes it for the embedded
/// blob, over core files read into owned strings: the same djb2 over the
/// same bytes as `content_hash`.
pub fn build_content_hash(kernel_src: &str, core_files: &[(&str, String)]) -> (h: u64)
    ensures
        h == content_hash_spec(kernel_src.spec_bytes(), owned_files_bytes(core_files@)),
{
    let mut h = djb2_bytes(5381, kernel_src.as_bytes());
    h = djb2_step_exec(h, 0xFF);
    let ghost start = h;
    let ghost fb = owned_files_bytes(core_files@);
    let n = core_files.len();
    let mut i: usize = 0;
    while i < n
        invariant
            n == core_files@.len(),
            fb == owned_files_bytes(core_files@),
            i <= n,
            h == files_hash(start, fb.take(i as int)),
        decreases n - i,
    {
        let name = core_files[i].0;
        let body = core_files[i].1.as_str();
        proof {
            assert(fb.take(i + 1).drop_last() =~= fb.take(i as int));
            assert(fb.take(i + 1).last() == fb[i as int]);
            assert(body.spec_bytes() == encode_utf8(core_files@[i as int].1@));
        }
        h = djb2_bytes(h, name.as_bytes());
        h = djb2_bytes(h, body.as_bytes());
        h = djb2_step_exec(h, 0xFF);
        i = i + 1;
    }
    proof {
        assert(fb.take(n as int) =~= fb);
    }
    h
}

/// The hash the build step writes into the embedded blob equals the
/// hash computed at run time from the same kernel and core files, so a
/// blob made from these sources is accepted.
pub proof fn lemma_build_hash_matches_runtime(
    kernel: Seq<u8>,
    files: Seq<(&str, &str)>,
    owned: Seq<(&str, String)>,
)
    requires
        files.len() == owned.len(),
        forall|i: int| 0 <= i < files.len() ==> files[i].0@ == owned[i].0@ && files[i].1@ == (#[trigger] owned[i]).1@,
    ensures
        content_hash_spec(kernel, files_bytes(files)) == content_hash_spec(kernel, owned_files_bytes(owned)),
{
    assert(files_bytes(files) =~= owned_files_bytes(owned));
}

// ===== cache key =====

/// Lower-case hex digit of a value below 16.
pub open spec fn hex_lower_digit(d: u64) -> char {
    if d < 10 {
        ((d + 48) as u8) as char
    } else {
        ((d - 10 + 97) as u8) as char
    }
}

/// `h` as exactly 16 lower-case hex digits, most significant first.
pub open spec fn hex16_lower(h: u64) -> Seq<char> {
    Seq::new(16, |i: int| hex_lower_digit((h >> ((60 - 4 * i) as u64)) & 15))
}

/// The prefix of every snapshot key.
pub open spec fn key_prefix() -> Seq<char> {
    "fif-snapshot-v1-"@
}

/// The storage key of a content hash.
pub open spec fn content_key_spec(h: u64) -> Seq<char> {
    key_prefix() + hex16_lower(h)
}

/// The value of a lower-case hex digit character: `0`-`9` are 0 to 9,
/// `a`-`f` are 10 to 15; any other character has none (-1).
pub open spec fn lower_hex_value(c: char) -> int {
    let u = c as int;
    if 48 <= u <= 57 {
        u - 48
    } else if 97 <= u <= 102 {
        u - 87
    } else {
        -1
    }
}

/// A snapshot key is the prefix `fif-snapshot-v1-` and then the 16
/// lower-case hex digits of the hash, most significant first: the
/// `i`-th digit is a character of `0`-`9` or `a`-`f` whose value is the
/// `i`-th nibble of the hash from the top.
pub proof fn lemma_content_key_digits(h: u64)
    ensures
        content_key_spec(h).len() == 32,
        content_key_spec(h).take(16) == "fif-snapshot-v1-"@,
        forall|i: int| 0 <= i < 16 ==> lower_hex_value(#[trigger] content_key_spec(h)[16 + i])
            == ((h >> ((60 - 4 * i) as u64)) & 15) as int,
{
    reveal_strlit("fif-snapshot-v1-");
    let k = content_key_spec(h);
    assert(k.take(16) =~= "fif-snapshot-v1-"@);
    assert forall|i: int| 0 <= i < 16 implies lower_hex_value(#[trigger] k[16 + i]) == ((h >> ((60 - 4 * i) as u64)) & 15) as int by {
        let sh = (60 - 4 * i) as u64;
        let d = (h >> sh) & 15;
        assert(d < 16) by (bit_vector)
            requires d == (h >> sh) & 15;
        assert(k[16 + i] == hex_lower_digit(d));
        if d < 10 {
            let u = (d + 48) as u8;
            assert(hex_lower_digit(d) == u as char);
            assert((u as char) as int == u as int);
        } else {
            let u = (d - 10 + 97) as u8;
            assert(hex_lower_digit(d) == u as char);
            assert((u as char) as int == u as int);
        }
    }
}

/// The number that lower-case hex digits read as.
pub open spec fn lower_hex_digits_value(s: Seq<char>) -> int
    decreases s.len(),
{
    if s.len() == 0 {
        0
    } else {
        lower_hex_digits_value(s.drop_last()) * 16 + lower_hex_value(s.last())
    }
}

proof fn lemma_lower_hex_digits_value_take(s: Seq<char>, k: int)
    requires
        0 <= k < s.len(),
    ensures
        lower_hex_digits_value(s.take(k + 1)) == lower_hex_digits_value(s.take(k)) * 16 + lower_hex_value(s[k]),
{
    assert(s.take(k + 1).drop_last() =~= s.take(k));
}

/// The 16 digits after the prefix of a snapshot key read back as the
/// hash, so the key names its hash and nothing else.
pub proof fn lemma_content_key_reads_back(h: u64)
    ensures
        lower_hex_digits_value(content_key_spec(h).skip(16)) == h,
{
    lemma_content_key_digits(h);
    let t = content_key_spec(h).skip(16);
    assert(t.len() == 16);
    assert forall|i: int| 0 <= i < 16 implies lower_hex_value(#[trigger] t[i]) == ((h >> ((60 - 4 * i) as u64)) & 15) as int by {
        assert(t[i] == content_key_spec(h)[16 + i]);
    }
    assert(t.take(0) =~= Seq::<char>::empty());
    lemma_lower_hex_digits_value_take(t, 0);
    assert(lower_hex_value(t[0]) == ((h >> 60u64) & 15) as int);
    lemma_lower_hex_digits_value_take(t, 1);
    assert(lower_hex_value(t[1]) == ((h >> 56u64) & 15) as int);
    lemma_lower_hex_digits_value_take(t, 2);
    assert(lower_hex_value(t[2]) == ((h >> 52u64) & 15) as int);
    lemma_lower_hex_digits_value_take(t, 3);
    assert(lower_hex_value(t[3]) == ((h >> 48u64) & 15) as int);
    lemma_lower_hex_digits_value_take(t, 4);
    assert(lower_hex_value(t[4]) == ((h >> 44u64) & 15) as int);
    lemma_lower_hex_digits_value_take(t, 5);
    assert(lower_hex_value(t[5]) == ((h >> 40u64) & 15) as int);
    lemma_lower_hex_digits_value_take(t, 6);
    assert(lower_hex_value(t[6]) == ((h >> 36u64) & 15) as int);
    lemma_lower_hex_digits_value_take(t, 7);
    assert(lower_hex_value(t[7]) == ((h >> 32u64) & 15) as int);
    lemma_lower_hex_digits_value_take(t, 8);
    assert(lower_hex_value(t[8]) == ((h >> 28u64) & 15) as int);
    lemma_lower_hex_digits_value_take(t, 9);
    assert(lower_hex_value(t[9]) == ((h >> 24u64) & 15) as int);
    lemma_lower_hex_digits_value_take(t, 10);
    assert(lower_hex_value(t[10]) == ((h >> 20u64) & 15) as int);
    lemma_lower_hex_digits_value_take(t, 11);
    assert(lower_hex_value(t[11]) == ((h >> 16u64) & 15) as int);
    lemma_lower_hex_digits_value_take(t, 12);
    assert(lower_hex_value(t[12]) == ((h >> 12u64) & 15) as int);
    lemma_lower_hex_digits_value_take(t, 13);
    assert(lower_hex_value(t[13]) == ((h >> 8u64) & 15) as int);
    lemma_lower_hex_digits_value_take(t, 14);
    assert(lower_hex_value(t[14]) == ((h >> 4u64) & 15) as int);
    lemma_lower_hex_digits_value_take(t, 15);
    assert(lower_hex_value(t[15]) == ((h >> 0u64) & 15) as int);
    assert(t.take(16) =~= t);
    assert(((h >> 60u64) & 15) * 1152921504606846976 + ((h >> 56u64) & 15) * 72057594037927936 + ((h >> 52u64) & 15) * 4503599627370496 + ((h >> 48u64) & 15) * 281474976710656 + ((h >> 44u64) & 15) * 17592186044416 + ((h >> 40u64) & 15) * 1099511627776 + ((h >> 36u64) & 15) * 68719476736 + ((h >> 32u64) & 15) * 4294967296 + ((h >> 28u64) & 15) * 268435456 + ((h >> 24u64) & 15) * 16777216 + ((h >> 20u64) & 15) * 1048576 + ((h >> 16u64) & 15) * 65536 + ((h >> 12u64) & 15) * 4096 + ((h >> 8u64) & 15) * 256 + ((h >> 4u64) & 15) * 16 + ((h >> 0u64) & 15) * 1 == h) by (bit_vector);
}

/// Storage key for the snapshot of these sources: the prefix and the
/// content hash as 16 lower-case hex digits.
pub fn content_key(kernel_src: &str, core_files: &[(&str, &str)]) -> (key: String)
    ensures
        key@ == content_key_spec(content_hash_spec(kernel_src.spec_bytes(), files_bytes(core_files@))),
{
    let h = content_hash(kernel_src, core_files);
    let mut key = String::from_str("fif-snapshot-v1-");
    proof {
        reveal_strlit("fif-snapshot-v1-");
    }
    let ghost start = key@;
    let mut i: u64 = 0;
    while i < 16
        invariant
            i <= 16,
            start == key_prefix(),
            key@ == start + hex16_lower(h).take(i as int),
        decreases 16 - i,
    {
        let sh: u64 = 60 - 4 * i;
        let d = (h >> sh) & 15;
        assert(((h >> sh) & 15) < 16) by (bit_vector);
        let c: char = if d < 10 { ((d + 48) as u8) as char } else { ((d - 10 + 97) as u8) as char };
        proof {
            assert(c == hex16_lower(h)[i as int]);
            assert(hex16_lower(h).take(i + 1) =~= hex16_lower(h).take(i as int).push(c));
        }
        string_push(&mut key, c);
        i = i + 1;
    }
    proof {
        assert(hex16_lower(h).take(16) =~= hex16_lower(h));
    }
    key
}

// ===== snapshot value =====

/// Serialisable form of a bootstrapped machine: low memory as base64,
/// the register file, PC, carry flag and the cycle and instruction
/// counters.
pub struct Snapshot {
    pub memory_b64: String,
    pub regs: [u32; 8],
    pub pc: u32,
    pub c: bool,
    pub cycles: u64,
    pub instructions: u64,
}

/// What to load into a freshly reset emulator to resume a snapshot:
/// memory from address 0, the program extent, the PC, the registers, the
/// carry flag and the cycle and instruction counters.
pub struct RestorePlan {
    pub memory: Vec<u8>,
    pub extent: u32,
    pub pc: u32,
    pub regs: [u32; 8],
    pub c: bool,
    pub cycles: u64,
    pub instructions: u64,
}

/// Captures the machine state read from the emulator: `memory` is the
/// low memory from address 0.
pub fn capture(memory: &[u8], regs: [u32; 8], pc: u32, c: bool, cycles: u64, instructions: u64) -> (snap: Snapshot)
    ensures
        snap.memory_b64@ == ascii_chars(b64_encode_spec(memory@)),
        snap.regs == regs,
        snap.pc == pc,
        snap.c == c,
        snap.cycles == cycles,
        snap.instructions == instructions,
{
    Snapshot { memory_b64: b64_encode(memory), regs, pc, c, cycles, instructions }
}

/// The memory that restoring base64 text loads: the decoded bytes, when
/// they decode and their length taken as a `u32` is `SNAPSHOT_BYTES`.
pub open spec fn restore_memory_spec(text: Seq<char>) -> Option<Seq<u8>> {
    match b64_decode_spec(encode_utf8(text)) {
        Some(d) => if d.len() as u32 == SNAPSHOT_BYTES { Some(d) } else { None },
        None => None,
    }
}

/// The plan that restores a snapshot: `None` when its memory is not
/// base64 of `SNAPSHOT_BYTES` bytes.
pub fn restore(snap: &Snapshot) -> (plan: Option<RestorePlan>)
    ensures
        plan is None <==> restore_memory_spec(snap.memory_b64@) is None,
        plan matches Some(p) ==> {
            &&& Some(p.memory@) == restore_memory_spec(snap.memory_b64@)
            &&& p.extent == SNAPSHOT_BYTES
            &&& p.pc == snap.pc
            &&& p.regs == snap.regs
            &&& p.c == snap.c
            &&& p.cycles == snap.cycles
            &&& p.instructions == snap.instructions
        },
{
    let decoded = b64_decode(snap.memory_b64.as_str());
    match decoded {
        None => None,
        Some(bytes) => {
            if bytes.len() as u32 != SNAPSHOT_BYTES {
                None
            } else {
                Some(RestorePlan {
                    memory: bytes,
                    extent: SNAPSHOT_BYTES,
                    pc: snap.pc,
                    regs: snap.regs,
                    c: snap.c,
                    cycles: snap.cycles,
                    instructions: snap.instructions,
                })
            }
        },
    }
}

/// Restoring a captured snapshot of exactly `SNAPSHOT_BYTES` bytes of
/// memory gives that memory back.
pub proof fn lemma_capture_restore(memory: Seq<u8>)
    requires
        memory.len() == SNAPSHOT_BYTES,
    ensures
        restore_memory_spec(ascii_chars(b64_encode_spec(memory))) == Some(memory),
{
    lemma_b64_roundtrip(memory);
}


// ===== build-time snapshot blob =====
//
// Layout, all little-endian: "FIF1" magic, content hash (u64), memory
// length (u32), the memory, eight registers (u32 each), PC (u32), carry
// flag (one byte), cycles (u64), instructions (u64).

/// Unsigned little-endian value of the 4 bytes of `s` at `off`.
pub open spec fn le_u32(s: Seq<u8>, off: int) -> u32 {
    (s[off] as nat + 0x100 * (s[off + 1] as nat) + 0x1_0000 * (s[off + 2] as nat)
        + 0x100_0000 * (s[off + 3] as nat)) as u32
}

/// Unsigned little-endian value of the 8 bytes of `s` at `off`.
pub open spec fn le_u64(s: Seq<u8>, off: int) -> u64 {
    (le_u32(s, off) as nat + 0x1_0000_0000 * (le_u32(s, off + 4) as nat)) as u64
}

/// The blob starts with the magic "FIF1".
pub open spec fn has_magic(b: Seq<u8>) -> bool {
    b.len() >= 4 && b[0] == 70 && b[1] == 73 && b[2] == 70 && b[3] == 49
}

/// Length of the memory image that the blob announces.
pub open spec fn blob_memory_len(b: Seq<u8>) -> nat {
    le_u32(b, 12) as nat
}

/// Offset where the memory image ends and the registers begin.
pub open spec fn blob_mem_end(b: Seq<u8>) -> int {
    16 + blob_memory_len(b) as int
}

/// The blob is long enough, carries the magic, and holds the announced
/// memory and the 53 bytes of CPU state after it.
pub open spec fn embedded_ok(b: Seq<u8>) -> bool {
    &&& b.len() >= 16
    &&& has_magic(b)
    &&& b.len() >= blob_mem_end(b) + 53
}

/// The eight registers stored after the memory image.
pub open spec fn blob_regs(b: Seq<u8>) -> Seq<u32> {
    Seq::new(8, |k: int| le_u32(b, blob_mem_end(b) + 4 * k))
}

/// Contents of a parsed snapshot blob.
pub struct Parsed {
    pub content_hash: u64,
    pub memory: Vec<u8>,
    pub regs: [u32; 8],
    pub pc: u32,
    pub c: bool,
    pub cycles: u64,
    pub instructions: u64,
}

/// `p` holds exactly what the well-formed blob `b` stores.
pub open spec fn parsed_from(p: Parsed, b: Seq<u8>) -> bool {
    &&& p.content_hash == le_u64(b, 4)
    &&& p.memory@ == b.subrange(16, blob_mem_end(b))
    &&& p.regs@ == blob_regs(b)
    &&& p.pc == le_u32(b, blob_mem_end(b) + 32)
    &&& p.c == (b[blob_mem_end(b) + 36] != 0)
    &&& p.cycles == le_u64(b, blob_mem_end(b) + 37)
    &&& p.instructions == le_u64(b, blob_mem_end(b) + 45)
}

fn read_le_u32(b: &[u8], off: usize) -> (v: u32)
    requires
        off + 4 <= b@.len(),
    ensures
        v == le_u32(b@, off as int),
{
    let b0 = b[off];
    let b1 = b[off + 1];
    let b2 = b[off + 2];
    let b3 = b[off + 3];
    let v = (b0 as u32) | ((b1 as u32) << 8) | ((b2 as u32) << 16) | ((b3 as u32) << 24);
    assert(v == ((b0 as nat + 0x100 * (b1 as nat) + 0x1_0000 * (b2 as nat) + 0x100_0000 * (b3 as nat)) as u32)) by (bit_vector)
        requires v == (b0 as u32) | ((b1 as u32) << 8) | ((b2 as u32) << 16) | ((b3 as u32) << 24);
    v
}

fn read_le_u64(b: &[u8], off: usize) -> (v: u64)
    requires
        off + 8 <= b@.len(),
    ensures
        v == le_u64(b@, off as int),
{
    let _n = b.len();
    let lo = read_le_u32(b, off);
    let hi = read_le_u32(b, off + 4);
    let v = (lo as u64) | ((hi as u64) << 32);
    assert(v == ((lo as nat + 0x1_0000_0000 * (hi as nat)) as u64)) by (bit_vector)
        requires v == (lo as u64) | ((hi as u64) << 32);
    v
}

/// Parses the snapshot blob layout; `None` if the blob is empty,
/// truncated, or lacks the magic.
pub fn parse_embedded(blob: &[u8]) -> (r: Option<Parsed>)
    ensures
        r is Some <==> embedded_ok(blob@),
        r matches Some(p) ==> parsed_from(p, blob@),
{
    let n = blob.len();
    if n < 16 || blob[0] != 70 || blob[1] != 73 || blob[2] != 70 || blob[3] != 49 {
        return None;
    }
    let content_hash = read_le_u64(blob, 4);
    let memory_len = read_le_u32(blob, 12);
    if (memory_len as usize) > n || n - (memory_len as usize) < 16 + 53 {
        return None;
    }
    let mem_end: usize = 16 + memory_len as usize;
    let mut memory: Vec<u8> = Vec::new();
    let mut i: usize = 16;
    while i < mem_end
        invariant
            16 <= i <= mem_end,
            mem_end == blob_mem_end(blob@),
            mem_end + 53 <= blob@.len(),
            memory@ == blob@.subrange(16, i as int),
        decreases mem_end - i,
    {
        memory.push(blob[i]);
        i = i + 1;
        proof {
            assert(memory@ =~= blob@.subrange(16, i as int));
        }
    }
    let r0 = read_le_u32(blob, mem_end);
    let r1 = read_le_u32(blob, mem_end + 4);
    let r2 = read_le_u32(blob, mem_end + 8);
    let r3 = read_le_u32(blob, mem_end + 12);
    let r4 = read_le_u32(blob, mem_end + 16);
    let r5 = read_le_u32(blob, mem_end + 20);
    let r6 = read_le_u32(blob, mem_end + 24);
    let r7 = read_le_u32(blob, mem_end + 28);
    let regs: [u32; 8] = [r0, r1, r2, r3, r4, r5, r6, r7];
    let pc = read_le_u32(blob, mem_end + 32);
    let c = blob[mem_end + 36] != 0;
    let cycles = read_le_u64(blob, mem_end + 37);
    let instructions = read_le_u64(blob, mem_end + 45);
    proof {
        assert(regs@ =~= blob_regs(blob@));
    }
    Some(Parsed { content_hash, memory, regs, pc, c, cycles, instructions })
}

/// Whether the blob is present, well formed, and made from the sources
/// whose content hash is `expected_hash`.
pub fn has_valid_embedded(blob: &[u8], expected_hash: u64) -> (ok: bool)
    ensures
        ok == (embedded_ok(blob@) && le_u64(blob@, 4) == expected_hash),
{
    match parse_embedded(blob) {
        Some(p) => p.content_hash == expected_hash,
        None => false,
    }
}

/// The plan that restores the blob: `None` unless the blob is well
/// formed and its content hash is `expected_hash`, so that a blob made
/// from other sources is never applied.
pub fn restore_from_embedded(blob: &[u8], expected_hash: u64) -> (plan: Option<RestorePlan>)
    ensures
        plan is Some <==> (embedded_ok(blob@) && le_u64(blob@, 4) == expected_hash),
        plan matches Some(p) ==> {
            &&& p.memory@ == blob@.subrange(16, blob_mem_end(blob@))
            &&& p.extent == blob_memory_len(blob@)
            &&& p.pc == le_u32(blob@, blob_mem_end(blob@) + 32)
            &&& p.regs@ == blob_regs(blob@)
            &&& p.c == (blob@[blob_mem_end(blob@) + 36] != 0)
            &&& p.cycles == le_u64(blob@, blob_mem_end(blob@) + 37)
            &&& p.instructions == le_u64(blob@, blob_mem_end(blob@) + 45)
        },
{
    match parse_embedded(blob) {
        None => None,
        Some(p) => {
            if p.content_hash != expected_hash {
                None
            } else {
                let extent = p.memory.len() as u32;
                Some(RestorePlan {
                    memory: p.memory,
                    extent,
                    pc: p.pc,
                    regs: p.regs,
                    c: p.c,
                    cycles: p.cycles,
                    instructions: p.instructions,
                })
            }
        },
    }
}

/// The 4 little-endian bytes of `v`.
pub open spec fn le_bytes_u32(v: u32) -> Seq<u8> {
    seq![(v & 0xff) as u8, ((v >> 8) & 0xff) as u8, ((v >> 16) & 0xff) as u8, ((v >> 24) & 0xff) as u8]
}

/// The 8 little-endian bytes of `v`.
pub open spec fn le_bytes_u64(v: u64) -> Seq<u8> {
    le_bytes_u32((v & 0xffff_ffff) as u32) + le_bytes_u32((v >> 32) as u32)
}

/// The little-endian bytes of the eight registers.
pub open spec fn regs_bytes(regs: Seq<u32>) -> Seq<u8> {
    le_bytes_u32(regs[0]) + le_bytes_u32(regs[1]) + le_bytes_u32(regs[2]) + le_bytes_u32(regs[3])
        + le_bytes_u32(regs[4]) + le_bytes_u32(regs[5]) + le_bytes_u32(regs[6]) + le_bytes_u32(regs[7])
}

/// The blob that the build step writes for a bootstrapped machine.
pub open spec fn blob_spec(
    content_hash: u64,
    memory: Seq<u8>,
    regs: Seq<u32>,
    pc: u32,
    c: bool,
    cycles: u64,
    instructions: u64,
) -> Seq<u8> {
    seq![70u8, 73u8, 70u8, 49u8] + le_bytes_u64(content_hash) + le_bytes_u32(memory.len() as u32) + memory
        + regs_bytes(regs) + le_bytes_u32(pc) + seq![if c { 1u8 } else { 0u8 }] + le_bytes_u64(cycles)
        + le_bytes_u64(instructions)
}

fn push_le_u32(out: &mut Vec<u8>, v: u32)
    ensures
        final(out)@ == old(out)@ + le_bytes_u32(v),
{
    out.push((v & 0xff) as u8);
    out.push(((v >> 8) & 0xff) as u8);
    out.push(((v >> 16) & 0xff) as u8);
    out.push(((v >> 24) & 0xff) as u8);
    proof {
        assert(final(out)@ =~= old(out)@ + le_bytes_u32(v));
    }
}

fn push_le_u64(out: &mut Vec<u8>, v: u64)
    ensures
        final(out)@ == old(out)@ + le_bytes_u64(v),
{
    push_le_u32(out, (v & 0xffff_ffff) as u32);
    push_le_u32(out, (v >> 32) as u32);
    proof {
        assert(final(out)@ =~= old(out)@ + le_bytes_u64(v));
    }
}

/// Writes the snapshot blob layout that `parse_embedded` reads.
pub fn encode_embedded(
    content_hash: u64,
    memory: &[u8],
    regs: [u32; 8],
    pc: u32,
    c: bool,
    cycles: u64,
    instructions: u64,
) -> (blob: Vec<u8>)
    requires
        memory@.len() <= u32::MAX,
    ensures
        blob@ == blob_spec(content_hash, memory@, regs@, pc, c, cycles, instructions),
{
    let mut out: Vec<u8> = Vec::new();
    out.push(70);
    out.push(73);
    out.push(70);
    out.push(49);
    push_le_u64(&mut out, content_hash);
    push_le_u32(&mut out, memory.len() as u32);
    let ghost head = out@;
    let n = memory.len();
    let mut i: usize = 0;
    while i < n
        invariant
            n == memory@.len(),
            i <= n,
            out@ == head + memory@.take(i as int),
        decreases n - i,
    {
        out.push(memory[i]);
        i = i + 1;
        proof {
            assert(out@ =~= head + memory@.take(i as int));
        }
    }
    proof {
        assert(memory@.take(n as int) =~= memory@);
    }
    let mut k: usize = 0;
    let ghost before_regs = out@;
    while k < 8
        invariant
            k <= 8,
            out@ == before_regs + regs_prefix_bytes(regs@, k as int),
        decreases 8 - k,
    {
        push_le_u32(&mut out, regs[k]);
        proof {
            assert(regs_prefix_bytes(regs@, k + 1) =~= regs_prefix_bytes(regs@, k as int) + le_bytes_u32(regs@[k as int]));
            assert(out@ =~= before_regs + regs_prefix_bytes(regs@, k + 1));
        }
        k = k + 1;
    }
    proof {
        reveal_with_fuel(regs_prefix_bytes, 9);
        assert(regs_prefix_bytes(regs@, 8) =~= regs_bytes(regs@));
    }
    push_le_u32(&mut out, pc);
    out.push(if c { 1 } else { 0 });
    push_le_u64(&mut out, cycles);
    push_le_u64(&mut out, instructions);
    proof {
        assert(out@ =~= blob_spec(content_hash, memory@, regs@, pc, c, cycles, instructions));
    }
    out
}

/// The bytes of the first `k` registers.
pub open spec fn regs_prefix_bytes(regs: Seq<u32>, k: int) -> Seq<u8>
    decreases k,
{
    if k <= 0 {
        Seq::<u8>::empty()
    } else {
        regs_prefix_bytes(regs, k - 1) + le_bytes_u32(regs[k - 1])
    }
}

proof fn lemma_le_u32_roundtrip(v: u32)
    ensures
        le_u32(le_bytes_u32(v), 0) == v,
{
    let b = le_bytes_u32(v);
    let b0 = (v & 0xff) as u8;
    let b1 = ((v >> 8) & 0xff) as u8;
    let b2 = ((v >> 16) & 0xff) as u8;
    let b3 = ((v >> 24) & 0xff) as u8;
    assert(((b0 as nat + 0x100 * (b1 as nat) + 0x1_0000 * (b2 as nat) + 0x100_0000 * (b3 as nat)) as u32) == v) by (bit_vector)
        requires
            b0 == (v & 0xff) as u8,
            b1 == ((v >> 8) & 0xff) as u8,
            b2 == ((v >> 16) & 0xff) as u8,
            b3 == ((v >> 24) & 0xff) as u8;
}

proof fn lemma_le_u32_at(s: Seq<u8>, off: int, v: u32)
    requires
        0 <= off,
        off + 4 <= s.len(),
        s.subrange(off, off + 4) == le_bytes_u32(v),
    ensures
        le_u32(s, off) == v,
{
    lemma_le_u32_roundtrip(v);
    let t = s.subrange(off, off + 4);
    assert(s[off] == t[0] && s[off + 1] == t[1] && s[off + 2] == t[2] && s[off + 3] == t[3]);
}

proof fn lemma_le_u64_at(s: Seq<u8>, off: int, v: u64)
    requires
        0 <= off,
        off + 8 <= s.len(),
        s.subrange(off, off + 8) == le_bytes_u64(v),
    ensures
        le_u64(s, off) == v,
{
    let lo = (v & 0xffff_ffff) as u32;
    let hi = (v >> 32) as u32;
    assert(s.subrange(off, off + 4) =~= s.subrange(off, off + 8).subrange(0, 4));
    assert(s.subrange(off + 4, off + 8) =~= s.subrange(off, off + 8).subrange(4, 8));
    assert(le_bytes_u64(v).subrange(0, 4) =~= le_bytes_u32(lo));
    assert(le_bytes_u64(v).subrange(4, 8) =~= le_bytes_u32(hi));
    lemma_le_u32_at(s, off, lo);
    lemma_le_u32_at(s, off + 4, hi);
    assert(((lo as nat + 0x1_0000_0000 * (hi as nat)) as u64) == v) by (bit_vector)
        requires lo == (v & 0xffff_ffff) as u32, hi == (v >> 32) as u32;
}

/// Parsing a blob that `encode_embedded` wrote gives back the content
/// hash, the memory, the registers, the PC, the carry flag and the cycle
/// and instruction counters.
pub proof fn lemma_blob_roundtrip(
    content_hash: u64,
    memory: Seq<u8>,
    regs: Seq<u32>,
    pc: u32,
    c: bool,
    cycles: u64,
    instructions: u64,
)
    requires
        memory.len() <= u32::MAX,
        regs.len() == 8,
    ensures
        ({
            let b = blob_spec(content_hash, memory, regs, pc, c, cycles, instructions);
            &&& embedded_ok(b)
            &&& le_u64(b, 4) == content_hash
            &&& blob_memory_len(b) == memory.len()
            &&& b.subrange(16, blob_mem_end(b)) == memory
            &&& blob_regs(b) == regs
            &&& le_u32(b, blob_mem_end(b) + 32) == pc
            &&& (b[blob_mem_end(b) + 36] != 0) == c
            &&& le_u64(b, blob_mem_end(b) + 37) == cycles
            &&& le_u64(b, blob_mem_end(b) + 45) == instructions
        }),
{
    let b = blob_spec(content_hash, memory, regs, pc, c, cycles, instructions);
    let m = memory.len() as int;
    assert(b.len() == 16 + m + 53);
    assert(b.subrange(4, 12) =~= le_bytes_u64(content_hash));
    lemma_le_u64_at(b, 4, content_hash);
    assert(b.subrange(12, 16) =~= le_bytes_u32(memory.len() as u32));
    lemma_le_u32_at(b, 12, memory.len() as u32);
    assert(blob_mem_end(b) == 16 + m);
    assert(b.subrange(16, 16 + m) =~= memory);
    assert forall|k: int| 0 <= k < 8 implies #[trigger] blob_regs(b)[k] == regs[k] by {
        assert(b.subrange(16 + m + 4 * k, 16 + m + 4 * k + 4) =~= le_bytes_u32(regs[k]));
        lemma_le_u32_at(b, 16 + m + 4 * k, regs[k]);
    }
    assert(blob_regs(b) =~= regs);
    assert(b.subrange(16 + m + 32, 16 + m + 36) =~= le_bytes_u32(pc));
    lemma_le_u32_at(b, 16 + m + 32, pc);
    assert(b[16 + m + 36] == if c { 1u8 } else { 0u8 });
    assert(b.subrange(16 + m + 37, 16 + m + 45) =~= le_bytes_u64(cycles));
    lemma_le_u64_at(b, 16 + m + 37, cycles);
    assert(b.subrange(16 + m + 45, 16 + m + 53) =~= le_bytes_u64(instructions));
    lemma_le_u64_at(b, 16 + m + 45, instructions);
}


// ===== the hash notices a changed byte =====

proof fn lemma_step_injective(h1: u64, h2: u64, b1: u8, b2: u8)
    requires
        djb2_step(h1, b1) == djb2_step(h2, b2),
        h1 == h2 || b1 == b2,
    ensures
        h1 == h2 && b1 == b2,
{
    assert(djb2_step(h1, b1) == ((h1 * 33 + b1) % 0x1_0000_0000_0000_0000) as u64);
    assert(djb2_step(h2, b2) == ((h2 * 33 + b2) % 0x1_0000_0000_0000_0000) as u64);
    assert((((h1 * 33 + b1) % 0x1_0000_0000_0000_0000) as u64 == ((h2 * 33 + b2) % 0x1_0000_0000_0000_0000) as u64
        && (h1 == h2 || b1 == b2)) ==> (h1 == h2 && b1 == b2)) by (bit_vector);
}

proof fn lemma_fold_append(h: u64, a: Seq<u8>, t: Seq<u8>)
    ensures
        djb2_fold(h, a + t) == djb2_fold(djb2_fold(h, a), t),
    decreases t.len(),
{
    if t.len() == 0 {
        assert(a + t =~= a);
    } else {
        assert((a + t).drop_last() =~= a + t.drop_last());
        lemma_fold_append(h, a, t.drop_last());
    }
}

proof fn lemma_fold_injective_state(h1: u64, h2: u64, t: Seq<u8>)
    requires
        h1 != h2,
    ensures
        djb2_fold(h1, t) != djb2_fold(h2, t),
    decreases t.len(),
{
    if t.len() > 0 {
        lemma_fold_injective_state(h1, h2, t.drop_last());
        if djb2_fold(h1, t) == djb2_fold(h2, t) {
            lemma_step_injective(djb2_fold(h1, t.drop_last()), djb2_fold(h2, t.drop_last()), t.last(), t.last());
        }
    }
}

/// Two byte strings of one length that differ in exactly one place.
pub open spec fn one_byte_edit(s1: Seq<u8>, s2: Seq<u8>, j: int) -> bool {
    &&& s1.len() == s2.len()
    &&& 0 <= j < s1.len()
    &&& s1[j] != s2[j]
    &&& forall|i: int| 0 <= i < s1.len() && i != j ==> s1[i] == s2[i]
}

proof fn lemma_fold_one_byte_edit(h: u64, s1: Seq<u8>, s2: Seq<u8>, j: int)
    requires
        one_byte_edit(s1, s2, j),
    ensures
        djb2_fold(h, s1) != djb2_fold(h, s2),
{
    let p = s1.take(j);
    assert(p =~= s2.take(j));
    let t1 = s1.skip(j + 1);
    let t2 = s2.skip(j + 1);
    assert(t1 =~= t2);
    assert(s1 =~= p.push(s1[j]) + t1);
    assert(s2 =~= p.push(s2[j]) + t1);
    lemma_fold_append(h, p.push(s1[j]), t1);
    lemma_fold_append(h, p.push(s2[j]), t1);
    assert(p.push(s1[j]).drop_last() =~= p);
    assert(p.push(s2[j]).drop_last() =~= p);
    let a = djb2_fold(h, p.push(s1[j]));
    let b = djb2_fold(h, p.push(s2[j]));
    if a == b {
        lemma_step_injective(djb2_fold(h, p), djb2_fold(h, p), s1[j], s2[j]);
    }
    lemma_fold_injective_state(a, b, t1);
}

proof fn lemma_files_injective_state(h1: u64, h2: u64, files: Seq<(Seq<u8>, Seq<u8>)>)
    requires
        h1 != h2,
    ensures
        files_hash(h1, files) != files_hash(h2, files),
    decreases files.len(),
{
    if files.len() > 0 {
        let f = files.last();
        lemma_files_injective_state(h1, h2, files.drop_last());
        let a1 = files_hash(h1, files.drop_last());
        let a2 = files_hash(h2, files.drop_last());
        lemma_fold_injective_state(a1, a2, f.0);
        lemma_fold_injective_state(djb2_fold(a1, f.0), djb2_fold(a2, f.0), f.1);
        if files_hash(h1, files) == files_hash(h2, files) {
            lemma_step_injective(djb2_fold(djb2_fold(a1, f.0), f.1), djb2_fold(djb2_fold(a2, f.0), f.1), 0xFF, 0xFF);
        }
    }
}

proof fn lemma_files_hash_append(h: u64, a: Seq<(Seq<u8>, Seq<u8>)>, t: Seq<(Seq<u8>, Seq<u8>)>)
    ensures
        files_hash(h, a + t) == files_hash(files_hash(h, a), t),
    decreases t.len(),
{
    if t.len() == 0 {
        assert(a + t =~= a);
    } else {
        assert((a + t).drop_last() =~= a + t.drop_last());
        assert((a + t).last() == t.last());
        lemma_files_hash_append(h, a, t.drop_last());
    }
}

proof fn lemma_hex16_injective(h1: u64, h2: u64)
    requires
        hex16_lower(h1) == hex16_lower(h2),
    ensures
        h1 == h2,
{
    let n1 = Seq::new(16, |i: int| (h1 >> ((60 - 4 * i) as u64)) & 15);
    let n2 = Seq::new(16, |i: int| (h2 >> ((60 - 4 * i) as u64)) & 15);
    assert forall|i: int| 0 <= i < 16 implies #[trigger] n1[i] == n2[i] by {
        let sh = (60 - 4 * i) as u64;
        let d1 = (h1 >> sh) & 15;
        let d2 = (h2 >> sh) & 15;
        assert(d1 < 16 && d2 < 16) by (bit_vector)
            requires d1 == (h1 >> sh) & 15, d2 == (h2 >> sh) & 15;
        assert(hex16_lower(h1)[i] == hex_lower_digit(d1));
        assert(hex16_lower(h2)[i] == hex_lower_digit(d2));
    }
    assert(n1[0] == n2[0] && n1[1] == n2[1] && n1[2] == n2[2] && n1[3] == n2[3]);
    assert(n1[4] == n2[4] && n1[5] == n2[5] && n1[6] == n2[6] && n1[7] == n2[7]);
    assert(n1[8] == n2[8] && n1[9] == n2[9] && n1[10] == n2[10] && n1[11] == n2[11]);
    assert(n1[12] == n2[12] && n1[13] == n2[13] && n1[14] == n2[14] && n1[15] == n2[15]);
    assert(
        ((h1 >> 60u64) & 15) == ((h2 >> 60u64) & 15) && ((h1 >> 56u64) & 15) == ((h2 >> 56u64) & 15)
        && ((h1 >> 52u64) & 15) == ((h2 >> 52u64) & 15) && ((h1 >> 48u64) & 15) == ((h2 >> 48u64) & 15)
        && ((h1 >> 44u64) & 15) == ((h2 >> 44u64) & 15) && ((h1 >> 40u64) & 15) == ((h2 >> 40u64) & 15)
        && ((h1 >> 36u64) & 15) == ((h2 >> 36u64) & 15) && ((h1 >> 32u64) & 15) == ((h2 >> 32u64) & 15)
        && ((h1 >> 28u64) & 15) == ((h2 >> 28u64) & 15) && ((h1 >> 24u64) & 15) == ((h2 >> 24u64) & 15)
        && ((h1 >> 20u64) & 15) == ((h2 >> 20u64) & 15) && ((h1 >> 16u64) & 15) == ((h2 >> 16u64) & 15)
        && ((h1 >> 12u64) & 15) == ((h2 >> 12u64) & 15) && ((h1 >> 8u64) & 15) == ((h2 >> 8u64) & 15)
        && ((h1 >> 4u64) & 15) == ((h2 >> 4u64) & 15) && ((h1 >> 0u64) & 15) == ((h2 >> 0u64) & 15)
    );
    assert(
        ((h1 >> 60u64) & 15) == ((h2 >> 60u64) & 15) && ((h1 >> 56u64) & 15) == ((h2 >> 56u64) & 15)
        && ((h1 >> 52u64) & 15) == ((h2 >> 52u64) & 15) && ((h1 >> 48u64) & 15) == ((h2 >> 48u64) & 15)
        && ((h1 >> 44u64) & 15) == ((h2 >> 44u64) & 15) && ((h1 >> 40u64) & 15) == ((h2 >> 40u64) & 15)
        && ((h1 >> 36u64) & 15) == ((h2 >> 36u64) & 15) && ((h1 >> 32u64) & 15) == ((h2 >> 32u64) & 15)
        && ((h1 >> 28u64) & 15) == ((h2 >> 28u64) & 15) && ((h1 >> 24u64) & 15) == ((h2 >> 24u64) & 15)
        && ((h1 >> 20u64) & 15) == ((h2 >> 20u64) & 15) && ((h1 >> 16u64) & 15) == ((h2 >> 16u64) & 15)
        && ((h1 >> 12u64) & 15) == ((h2 >> 12u64) & 15) && ((h1 >> 8u64) & 15) == ((h2 >> 8u64) & 15)
        && ((h1 >> 4u64) & 15) == ((h2 >> 4u64) & 15) && ((h1 >> 0u64) & 15) == ((h2 >> 0u64) & 15)
        ==> h1 == h2
    ) by (bit_vector);
}

proof fn lemma_key_injective(c1: u64, c2: u64)
    ensures
        content_key_spec(c1) == content_key_spec(c2) ==> c1 == c2,
{
    if content_key_spec(c1) == content_key_spec(c2) {
        reveal_strlit("fif-snapshot-v1-");
        assert(content_key_spec(c1).skip(16) =~= hex16_lower(c1));
        assert(content_key_spec(c2).skip(16) =~= hex16_lower(c2));
        lemma_hex16_injective(c1, c2);
    }
}

/// The bytes of the core files as the hash reads them: each name, its
/// body and a 0xFF separator.
pub open spec fn files_stream(files: Seq<(Seq<u8>, Seq<u8>)>) -> Seq<u8>
    decreases files.len(),
{
    if files.len() == 0 {
        Seq::empty()
    } else {
        files_stream(files.drop_last()) + files.last().0 + files.last().1 + seq![0xFFu8]
    }
}

/// Every byte the content hash reads, in order: the kernel, a 0xFF
/// separator, then the core files.
pub open spec fn hashed_bytes(kernel: Seq<u8>, files: Seq<(Seq<u8>, Seq<u8>)>) -> Seq<u8> {
    kernel + seq![0xFFu8] + files_stream(files)
}

proof fn lemma_fold_one(h: u64, b: u8)
    ensures
        djb2_fold(h, seq![b]) == djb2_step(h, b),
{
    assert(seq![b].drop_last() =~= Seq::<u8>::empty());
    assert(djb2_fold(h, Seq::<u8>::empty()) == h);
}

proof fn lemma_files_hash_stream(h: u64, files: Seq<(Seq<u8>, Seq<u8>)>)
    ensures
        files_hash(h, files) == djb2_fold(h, files_stream(files)),
    decreases files.len(),
{
    if files.len() > 0 {
        let f = files.last();
        let pre = files_stream(files.drop_last());
        lemma_files_hash_stream(h, files.drop_last());
        let x0 = files_hash(h, files.drop_last());
        assert(x0 == djb2_fold(h, pre));
        let x1 = djb2_fold(x0, f.0);
        lemma_fold_append(h, pre, f.0);
        assert(x1 == djb2_fold(h, pre + f.0));
        let x2 = djb2_fold(x1, f.1);
        lemma_fold_append(h, pre + f.0, f.1);
        assert(x2 == djb2_fold(h, pre + f.0 + f.1));
        lemma_fold_append(h, pre + f.0 + f.1, seq![0xFFu8]);
        lemma_fold_one(x2, 0xFF);
        assert(files_stream(files) == pre + f.0 + f.1 + seq![0xFFu8]);
        assert(files_hash(h, files) == djb2_step(x2, 0xFF));
    }
}

/// The content hash is djb2 from 5381 over `hashed_bytes`.
pub proof fn lemma_content_hash_is_djb2(kernel: Seq<u8>, files: Seq<(Seq<u8>, Seq<u8>)>)
    ensures
        content_hash_spec(kernel, files) == djb2_fold(5381, hashed_bytes(kernel, files)),
{
    let k0 = djb2_fold(5381, kernel);
    lemma_files_hash_stream(djb2_step(k0, 0xFF), files);
    lemma_fold_append(5381, kernel, seq![0xFFu8]);
    lemma_fold_one(k0, 0xFF);
    lemma_fold_append(5381, kernel + seq![0xFFu8], files_stream(files));
}

/// Changing any one byte of what the hash reads (in the kernel, a core
/// file's name or its body) changes the content hash and so the key.
pub proof fn lemma_one_byte_edit_changes_hash(
    kernel1: Seq<u8>,
    files1: Seq<(Seq<u8>, Seq<u8>)>,
    kernel2: Seq<u8>,
    files2: Seq<(Seq<u8>, Seq<u8>)>,
    j: int,
)
    requires
        one_byte_edit(hashed_bytes(kernel1, files1), hashed_bytes(kernel2, files2), j),
    ensures
        content_hash_spec(kernel1, files1) != content_hash_spec(kernel2, files2),
        content_key_spec(content_hash_spec(kernel1, files1)) != content_key_spec(content_hash_spec(kernel2, files2)),
{
    lemma_content_hash_is_djb2(kernel1, files1);
    lemma_content_hash_is_djb2(kernel2, files2);
    lemma_fold_one_byte_edit(5381, hashed_bytes(kernel1, files1), hashed_bytes(kernel2, files2), j);
    lemma_key_injective(content_hash_spec(kernel1, files1), content_hash_spec(kernel2, files2));
}

/// Two keys are equal exactly when their content hashes are.
pub proof fn lemma_content_key_injective(c1: u64, c2: u64)
    ensures
        content_key_spec(c1) == content_key_spec(c2) <==> c1 == c2,
{
    lemma_key_injective(c1, c2);
}

/// Changing one byte of the kernel source changes the snapshot key, so
/// a cached snapshot of the old source is not found under the new key.
pub proof fn lemma_kernel_edit_changes_key(
    kernel1: Seq<u8>,
    kernel2: Seq<u8>,
    j: int,
    files: Seq<(Seq<u8>, Seq<u8>)>,
)
    requires
        one_byte_edit(kernel1, kernel2, j),
    ensures
        content_key_spec(content_hash_spec(kernel1, files)) != content_key_spec(content_hash_spec(kernel2, files)),
{
    lemma_fold_one_byte_edit(5381, kernel1, kernel2, j);
    let a1 = djb2_fold(5381, kernel1);
    let a2 = djb2_fold(5381, kernel2);
    if djb2_step(a1, 0xFF) == djb2_step(a2, 0xFF) {
        lemma_step_injective(a1, a2, 0xFF, 0xFF);
    }
    lemma_files_injective_state(djb2_step(a1, 0xFF), djb2_step(a2, 0xFF), files);
    lemma_key_injective(content_hash_spec(kernel1, files), content_hash_spec(kernel2, files));
}

/// Changing one byte in the body of one core file, the others and all
/// names unchanged, changes the snapshot key.
pub proof fn lemma_core_file_edit_changes_key(
    kernel: Seq<u8>,
    files1: Seq<(Seq<u8>, Seq<u8>)>,
    files2: Seq<(Seq<u8>, Seq<u8>)>,
    k: int,
    j: int,
)
    requires
        files1.len() == files2.len(),
        0 <= k < files1.len(),
        forall|i: int| 0 <= i < files1.len() && i != k ==> files1[i] == files2[i],
        files1[k].0 == files2[k].0,
        one_byte_edit(files1[k].1, files2[k].1, j),
    ensures
        content_key_spec(content_hash_spec(kernel, files1)) != content_key_spec(content_hash_spec(kernel, files2)),
{
    let h0 = djb2_step(djb2_fold(5381, kernel), 0xFF);
    let pre = files1.take(k);
    assert(pre =~= files2.take(k));
    let post = files1.skip(k + 1);
    assert(post =~= files2.skip(k + 1));
    assert(files1 =~= pre.push(files1[k]) + post);
    assert(files2 =~= pre.push(files2[k]) + post);
    lemma_files_hash_append(h0, pre.push(files1[k]), post);
    lemma_files_hash_append(h0, pre.push(files2[k]), post);
    assert(pre.push(files1[k]).drop_last() =~= pre);
    assert(pre.push(files2[k]).drop_last() =~= pre);
    let base = djb2_fold(files_hash(h0, pre), files1[k].0);
    lemma_fold_one_byte_edit(base, files1[k].1, files2[k].1, j);
    let x1 = djb2_fold(base, files1[k].1);
    let x2 = djb2_fold(base, files2[k].1);
    if djb2_step(x1, 0xFF) == djb2_step(x2, 0xFF) {
        lemma_step_injective(x1, x2, 0xFF, 0xFF);
    }
    let s1 = files_hash(h0, pre.push(files1[k]));
    let s2 = files_hash(h0, pre.push(files2[k]));
    lemma_files_injective_state(s1, s2, post);
    lemma_key_injective(content_hash_spec(kernel, files1), content_hash_spec(kernel, files2));
}

} // verus!
