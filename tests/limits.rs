use probe_extract::blocks::CodeBlock;
use probe_extract::limiter::{accepted_count, apply_limits, Limits};
use probe_extract::session::{filter_cached, fingerprint, record_returned, session_mode, SessionMode};

fn block(file: &str, start: usize, code: &str) -> CodeBlock {
    CodeBlock {
        file: file.to_string(),
        lines: (start, start + 1),
        node_type: "function_definition".to_string(),
        code: code.to_string(),
        symbol_signature: None,
        matched_lines: None,
        tokenized_content: Vec::new(),
    }
}

#[test]
fn token_budget_stops_at_first_crossing_block() {
    let blocks = vec![block("a.py", 1, "open"), block("b.py", 10, "file"), block("a.py", 20, "open file")];
    let lim = Limits { max_results: None, max_bytes: None, max_tokens: Some(200) };
    let r = apply_limits(blocks, &vec![120, 130, 90], lim);
    assert_eq!(r.accepted.len(), 1);
    assert_eq!(r.accepted[0].file, "a.py");
    let skipped: Vec<(String, usize)> = r.skipped_files.iter().map(|s| (s.file_path.clone(), s.skipped_blocks)).collect();
    assert_eq!(skipped, vec![("b.py".to_string(), 1), ("a.py".to_string(), 1)]);
    assert_eq!(r.limits_applied, Some(lim));
}

#[test]
fn zero_results_skips_everything() {
    let blocks = vec![block("a.py", 1, "x"), block("a.py", 5, "y"), block("c.py", 1, "z")];
    let lim = Limits { max_results: Some(0), max_bytes: None, max_tokens: None };
    let r = apply_limits(blocks, &vec![1, 1, 1], lim);
    assert!(r.accepted.is_empty());
    let skipped: Vec<(String, usize)> = r.skipped_files.iter().map(|s| (s.file_path.clone(), s.skipped_blocks)).collect();
    assert_eq!(skipped, vec![("a.py".to_string(), 2), ("c.py".to_string(), 1)]);
}

#[test]
fn no_limits_accepts_all() {
    let lim = Limits { max_results: None, max_bytes: None, max_tokens: None };
    let r = apply_limits(vec![block("a", 1, "x"), block("b", 1, "y")], &vec![5, 5], lim);
    assert_eq!(r.accepted.len(), 2);
    assert!(r.skipped_files.is_empty());
    assert_eq!(r.limits_applied, None);
}

#[test]
fn byte_and_result_budgets() {
    let lim = Limits { max_results: None, max_bytes: Some(10), max_tokens: None };
    assert_eq!(accepted_count(&vec![4, 6, 1], &vec![0, 0, 0], lim), 2);
    let lim = Limits { max_results: Some(2), max_bytes: None, max_tokens: None };
    assert_eq!(accepted_count(&vec![4, 6, 1], &vec![0, 0, 0], lim), 2);
    let lim = Limits { max_results: None, max_bytes: Some(3), max_tokens: None };
    assert_eq!(accepted_count(&vec![4, 1], &vec![0, 0], lim), 0);
}

#[test]
fn session_second_run_returns_only_new_blocks() {
    let a = || block("m.rs", 1, "fn a() {}");
    let b = || block("m.rs", 10, "fn b() {}");
    let c = || block("n.rs", 1, "fn c() {}");
    let d = || block("n.rs", 20, "fn d() {}");
    let mut cache: Vec<u128> = Vec::new();
    let (first, dropped) = filter_cached(vec![a(), b(), c()], &cache);
    assert_eq!(first.len(), 3);
    assert_eq!(dropped, 0);
    record_returned(&mut cache, &first);
    assert_eq!(cache.len(), 3);
    let (second, dropped) = filter_cached(vec![a(), d()], &cache);
    assert_eq!(second.len(), 1);
    assert_eq!(second[0].code, "fn d() {}");
    assert_eq!(dropped, 1);
}

#[test]
fn fingerprints_tell_blocks_apart() {
    let x = block("m.rs", 1, "fn a() {}");
    assert_eq!(fingerprint(&x), fingerprint(&block("m.rs", 1, "fn a() {}")));
    assert_ne!(fingerprint(&x), fingerprint(&block("m.rs", 2, "fn a() {}")));
    assert_ne!(fingerprint(&x), fingerprint(&block("n.rs", 1, "fn a() {}")));
    assert_ne!(fingerprint(&x), fingerprint(&block("m.rs", 1, "fn b() {}")));
}

#[test]
fn fingerprint_of_known_input() {
    // 128-bit FNV-1a of "a" \0 1u64-le \0 2u64-le \0 "b"
    let mut h: u128 = 0x6c62272e07bb014262b821756295c58d;
    let mut bytes: Vec<u8> = vec![b'a', 0];
    bytes.extend_from_slice(&1u64.to_le_bytes());
    bytes.push(0);
    bytes.extend_from_slice(&2u64.to_le_bytes());
    bytes.push(0);
    bytes.push(b'b');
    for byte in bytes {
        h = (h ^ byte as u128).wrapping_mul(0x0000000001000000000000000000013B);
    }
    let x = CodeBlock {
        file: "a".to_string(),
        lines: (1, 2),
        node_type: String::new(),
        code: "b".to_string(),
        symbol_signature: None,
        matched_lines: None,
        tokenized_content: Vec::new(),
    };
    assert_eq!(fingerprint(&x), h);
}

#[test]
fn session_modes() {
    assert!(matches!(session_mode(""), SessionMode::Disabled));
    assert!(matches!(session_mode("new"), SessionMode::Fresh));
    assert!(matches!(session_mode("s1"), SessionMode::Named));
}
