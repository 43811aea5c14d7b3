use web_sw_cor24_forth::snapshot::{
    b64_decode, b64_encode, b64_val, build_content_hash, capture, content_hash, content_key, encode_embedded, has_valid_embedded,
    parse_embedded, restore, restore_from_embedded, Snapshot, SNAPSHOT_BYTES,
};

#[test]
fn b64_roundtrip() {
    let samples: &[&[u8]] = &[b"", b"f", b"fo", b"foo", b"foob", b"fooba", b"foobar", &[0, 255, 128, 1, 2, 3, 4]];
    for s in samples {
        let enc = b64_encode(s);
        let dec = b64_decode(&enc).unwrap();
        assert_eq!(&dec[..], *s, "roundtrip failed for {:?}", s);
    }
}

#[test]
fn content_key_deterministic() {
    let k = "kernel source";
    let c: &[(&str, &str)] = &[("a", "body a"), ("b", "body b")];
    assert_eq!(content_key(k, c), content_key(k, c));
}

#[test]
fn content_key_changes_with_content() {
    let k = "kernel";
    let c1: &[(&str, &str)] = &[("a", "x")];
    let c2: &[(&str, &str)] = &[("a", "y")];
    assert_ne!(content_key(k, c1), content_key(k, c2));
}

fn djb2_reference(kernel: &str, files: &[(&str, &str)]) -> u64 {
    let mut h: u64 = 5381;
    for b in kernel.as_bytes() {
        h = h.wrapping_mul(33).wrapping_add(*b as u64);
    }
    h = h.wrapping_mul(33).wrapping_add(0xFF);
    for (name, src) in files {
        for b in name.as_bytes() {
            h = h.wrapping_mul(33).wrapping_add(*b as u64);
        }
        for b in src.as_bytes() {
            h = h.wrapping_mul(33).wrapping_add(*b as u64);
        }
        h = h.wrapping_mul(33).wrapping_add(0xFF);
    }
    h
}

#[test]
fn content_hash_of_empty_sources() {
    // 5381 * 33 + 255
    assert_eq!(content_hash("", &[]), 177_828);
}

#[test]
fn content_hash_matches_djb2() {
    let files: &[(&str, &str)] = &[("minimal", ": X 1 ;\r\n"), ("lowlevel", "é → ok")];
    assert_eq!(content_hash("kernel.s", files), djb2_reference("kernel.s", files));
}

#[test]
fn content_key_format() {
    let key = content_key("", &[]);
    assert_eq!(key, format!("fif-snapshot-v1-{:016x}", 177_828u64));
    assert_eq!(key, "fif-snapshot-v1-000000000002b6a4");
}

#[test]
fn content_key_sees_name_change() {
    let c1: &[(&str, &str)] = &[("a", "x")];
    let c2: &[(&str, &str)] = &[("b", "x")];
    assert_ne!(content_key("k", c1), content_key("k", c2));
}

#[test]
fn b64_encode_known_values() {
    assert_eq!(b64_encode(b""), "");
    assert_eq!(b64_encode(b"f"), "Zg==");
    assert_eq!(b64_encode(b"fo"), "Zm8=");
    assert_eq!(b64_encode(b"foo"), "Zm9v");
    assert_eq!(b64_encode(b"foobar"), "Zm9vYmFy");
    assert_eq!(b64_encode(&[0xfb, 0xff]), "+/8=");
}

#[test]
fn b64_decode_rejects_bad_input() {
    assert_eq!(b64_decode("Zm9"), None);
    assert_eq!(b64_decode("Zm9*"), None);
    assert_eq!(b64_decode("=m9v"), None);
    assert_eq!(b64_decode("Zg=="), Some(b"f".to_vec()));
    assert_eq!(b64_decode(""), Some(vec![]));
}

#[test]
fn b64_val_alphabet() {
    assert_eq!(b64_val(b'A'), Some(0));
    assert_eq!(b64_val(b'Z'), Some(25));
    assert_eq!(b64_val(b'a'), Some(26));
    assert_eq!(b64_val(b'z'), Some(51));
    assert_eq!(b64_val(b'0'), Some(52));
    assert_eq!(b64_val(b'9'), Some(61));
    assert_eq!(b64_val(b'+'), Some(62));
    assert_eq!(b64_val(b'/'), Some(63));
    assert_eq!(b64_val(b'='), None);
    assert_eq!(b64_val(b'-'), None);
}

#[test]
fn capture_then_restore() {
    let memory: Vec<u8> = (0..SNAPSHOT_BYTES).map(|i| (i % 251) as u8).collect();
    let regs = [1, 2, 3, 4, 0xFEEC00, 6, 7, 8];
    let snap = capture(&memory, regs, 0x1234, true, 99, 77);
    assert_eq!(snap.pc, 0x1234);
    assert_eq!(snap.cycles, 99);
    let plan = restore(&snap).unwrap();
    assert_eq!(plan.memory, memory);
    assert_eq!(plan.extent, SNAPSHOT_BYTES);
    assert_eq!(plan.pc, 0x1234);
    assert_eq!(plan.regs, regs);
    assert!(plan.c);
    assert_eq!(plan.cycles, 99);
    assert_eq!(plan.instructions, 77);
}

#[test]
fn restore_rejects_wrong_size_or_text() {
    let snap = capture(&[1, 2, 3], [0; 8], 0, false, 0, 0);
    assert!(restore(&snap).is_none());
    let bad = Snapshot { memory_b64: "not base64!".to_string(), regs: [0; 8], pc: 0, c: false, cycles: 0, instructions: 0 };
    assert!(restore(&bad).is_none());
}

#[test]
fn embedded_blob_roundtrip() {
    let memory = vec![9u8, 8, 7, 6, 5];
    let regs = [10, 20, 30, 40, 50, 60, 70, 0xABCDEF];
    let blob = encode_embedded(0x0123_4567_89ab_cdef, &memory, regs, 0x42, true, 5, 6);
    assert_eq!(&blob[0..4], b"FIF1");
    assert_eq!(blob.len(), 16 + memory.len() + 53);
    let p = parse_embedded(&blob).unwrap();
    assert_eq!(p.content_hash, 0x0123_4567_89ab_cdef);
    assert_eq!(p.memory, memory);
    assert_eq!(p.regs, regs);
    assert_eq!(p.pc, 0x42);
    assert!(p.c);
    assert_eq!(p.cycles, 5);
    assert_eq!(p.instructions, 6);
    assert!(has_valid_embedded(&blob, 0x0123_4567_89ab_cdef));
    assert!(!has_valid_embedded(&blob, 1));
    let plan = restore_from_embedded(&blob, 0x0123_4567_89ab_cdef).unwrap();
    assert_eq!(plan.extent, 5);
    assert_eq!(plan.memory, memory);
    assert_eq!((plan.pc, plan.regs, plan.c, plan.cycles, plan.instructions), (0x42, regs, true, 5, 6));
    assert!(restore_from_embedded(&blob, 7).is_none());
}

#[test]
fn embedded_blob_rejects_short_or_foreign() {
    assert!(parse_embedded(&[]).is_none());
    assert!(!has_valid_embedded(&[], 0));
    let blob = encode_embedded(1, &[1, 2, 3], [0; 8], 0, false, 0, 0);
    assert!(parse_embedded(&blob[..blob.len() - 1]).is_none());
    let mut foreign = blob.clone();
    foreign[0] = b'X';
    assert!(parse_embedded(&foreign).is_none());
}

#[test]
fn b64_encode_length_padding_and_groups() {
    let data: Vec<u8> = (0u8..10).map(|i| i.wrapping_mul(37)).collect();
    for n in 0..data.len() {
        let e = b64_encode(&data[..n]);
        assert_eq!(e.len(), 4 * ((n + 2) / 3));
        let pads = (3 - n % 3) % 3;
        assert!(e[e.len() - pads..].bytes().all(|c| c == b'='));
        assert!(e[..e.len() - pads].bytes().all(|c| b64_val(c).is_some()));
    }
    let (a, b) = data.split_at(6);
    assert_eq!(b64_encode(&data), format!("{}{}", b64_encode(a), b64_encode(b)));
}

#[test]
fn file_name_edit_changes_hash() {
    assert_ne!(content_hash("k", &[("ab", "x")]), content_hash("k", &[("ac", "x")]));
    assert_ne!(content_key("k", &[("ab", "x")]), content_key("k", &[("ac", "x")]));
}

#[test]
fn build_hash_matches_runtime_hash() {
    let files: &[(&str, &str)] = &[("runtime", ": R ;\n"), ("minimal", "x\u{e9}")];
    let owned: Vec<(&str, String)> = files.iter().map(|&(n, s)| (n, s.to_string())).collect();
    assert_eq!(build_content_hash("kernel", &owned), content_hash("kernel", files));
    assert_eq!(build_content_hash("", &[]), 177_828);
}
