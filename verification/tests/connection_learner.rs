use debug_console::connection_learner::{
    jaccard_3gram, learn_log_name, log_pairs, percent_text, strip_ansi, trivial_similarity,
    ConnectionLearner, LearnConfig, LearnCycle, LearnError, LearnMethod, LearnResult,
};

fn compute_similarity(a: &str, b: &str) -> f64 {
    if let Some(m) = trivial_similarity(a, b) {
        return m as f64 / 1_000_000.0;
    }
    let (common, all) = jaccard_3gram(a, b);
    strsim::jaro_winkler(a, b) * 0.6 + common as f64 / all as f64 * 0.4
}

fn evaluate(learner: &ConnectionLearner, cycles: Vec<LearnCycle>) -> LearnResult {
    let scores: Vec<u32> = log_pairs(cycles.len())
        .iter()
        .map(|(i, j)| {
            (compute_similarity(&cycles[*i].first_50, &cycles[*j].first_50) * 1_000_000.0) as u32
        })
        .collect();
    learner.evaluate(cycles, LearnMethod::HardwareReset, &scores)
}

fn cycle(path: &str, text: &str) -> LearnCycle {
    LearnCycle {
        log_path: path.to_string(),
        first_50: ConnectionLearner::normalize(text),
        full_content: text.to_string(),
        method: LearnMethod::HardwareReset,
    }
}

#[test]
fn test_normalize_strips_ansi() {
    let result = ConnectionLearner::normalize("\x1b[31mERROR\x1b[0m: something");
    assert!(!result.contains("\x1b"));
    assert!(result.contains("error"));
}

#[test]
fn test_normalize_strips_timestamps() {
    let result = ConnectionLearner::normalize("[    0.000000] Booting Linux on CPU 0");
    assert!(!result.contains("[    0.000000]"));
    assert!(result.contains("booting linux"));
}

#[test]
fn test_normalize_compresses_whitespace() {
    assert_eq!(ConnectionLearner::normalize("hello    world  \t  foo"), "hello world foo");
}

#[test]
fn test_normalize_lowercases() {
    assert_eq!(ConnectionLearner::normalize("U-Boot SPL 2024.01"), "u-boot spl 2024.01");
}

#[test]
fn test_extract_first_n_lines() {
    let text = "line1\nline2\nline3\nline4\nline5\n";
    let result = ConnectionLearner::extract_first_n_lines(text, 3);
    assert_eq!(result.lines().count(), 3);
    assert!(result.starts_with("line1"));
}

#[test]
fn test_compute_similarity_identical() {
    let text = "u-boot spl 2024.01 ddr version 1.08";
    let score = compute_similarity(text, text);
    assert!((score - 1.0).abs() < 0.01, "expected ~1.0, got {score}");
}

#[test]
fn test_compute_similarity_different() {
    let a = "u-boot spl 2024.01 ddr version 1.08";
    let b = "linux version 6.1.0 starting kernel";
    let score = compute_similarity(a, b);
    assert!(score < 0.5, "expected <0.5, got {score}");
}

#[test]
fn test_compute_similarity_empty() {
    assert_eq!(compute_similarity("", ""), 1.0);
    assert_eq!(compute_similarity("hello", ""), 0.0);
    assert_eq!(compute_similarity("", "world"), 0.0);
}

#[test]
fn test_jaccard_3gram() {
    let a = "hello world";
    let (common, all) = jaccard_3gram(a, "hello world");
    assert!((common as f64 / all as f64 - 1.0).abs() < 0.01);
    let (common, all) = jaccard_3gram(a, "completely different");
    let score = common as f64 / all as f64;
    assert!(score < 0.3, "expected low similarity, got {score}");
}

#[test]
fn test_normalize_strips_nul() {
    let result = ConnectionLearner::normalize("hello\0world\0");
    assert!(!result.contains('\0'));
    assert_eq!(result, "helloworld");
}

#[test]
fn test_learn_config_defaults() {
    let cfg = LearnConfig::default();
    assert_eq!(cfg.cycles, 3);
    assert_eq!(cfg.compare_lines, 50);
    assert!((cfg.similarity_threshold as f64 / 1_000_000.0 - 0.93).abs() < 0.001);
    assert!((cfg.relay_broken_threshold as f64 / 1_000_000.0 - 0.10).abs() < 0.001);
}

#[test]
fn test_learn_result_no_cycles() {
    let learner = ConnectionLearner::new(LearnConfig::default());
    let result = evaluate(&learner, vec![]);
    assert!(!result.connected);
    assert!(result.error.is_some());
}

#[test]
fn test_learn_result_high_similarity() {
    let learner = ConnectionLearner::new(LearnConfig::default());
    let text = "u-boot spl 2024.01\nddr version 1.08\nbl31: v2.10\n";
    let cycles: Vec<LearnCycle> = (0..3).map(|_| cycle("/tmp/test.log", text)).collect();
    let result = evaluate(&learner, cycles);
    assert!(result.connected);
    assert!(result.best_similarity > 930_000);
}

#[test]
fn test_learn_result_low_similarity() {
    let learner = ConnectionLearner::new(LearnConfig::default());
    let cycles = vec![
        cycle("/tmp/test1.log", "completely random garbage text"),
        cycle("/tmp/test2.log", "totally different unrelated output"),
        cycle("/tmp/test3.log", "yet another distinct sequence here"),
    ];
    let result = evaluate(&learner, cycles);
    assert!(!result.connected);
    assert!(result.best_similarity < 930_000);
}

#[test]
fn test_relay_broken_detection() {
    let cfg = LearnConfig {
        relay_broken_threshold: 100_000,
        similarity_threshold: 930_000,
        ..Default::default()
    };
    let learner = ConnectionLearner::new(cfg);
    let cycles = vec![cycle("/tmp/t1.log", "aaaaaaaaaa"), cycle("/tmp/t2.log", "bbbbbbbbbb")];
    let result = evaluate(&learner, cycles);
    assert!(!result.relay_verified);
    assert!(!result.connected);
}

#[test]
fn the_least_alike_pair_decides() {
    let learner = ConnectionLearner::new(LearnConfig::default());
    let cycles = || vec![cycle("a", "x"), cycle("b", "x"), cycle("c", "x")];
    assert_eq!(log_pairs(3), vec![(0, 1), (0, 2), (1, 2)]);
    let r = learner.evaluate(cycles(), LearnMethod::HardwareReset, &[990_000, 950_000, 500_000]);
    assert!(!r.connected);
    assert!(r.relay_verified);
    assert_eq!(r.best_similarity, 990_000);
    assert_eq!(
        r.error.unwrap().message(),
        "Similarity 50.0% below threshold 93.0%"
    );
    let r = learner.evaluate(cycles(), LearnMethod::SoftwareReboot, &[990_000, 950_000, 930_000]);
    assert!(r.connected && !r.relay_verified);
    assert_eq!(r.reference_log, Some(learner.config().reference_log.clone()));
    assert_eq!(r.reference_unwritten().reference_log, None);
}

#[test]
fn logs_can_be_held_against_a_reference() {
    let learner = ConnectionLearner::new(LearnConfig::default());
    let r = learner.evaluate_with_reference(vec![cycle("a", "x")], &[940_000]);
    assert!(r.connected && !r.relay_verified);
    let r = learner.evaluate_with_reference(vec![cycle("a", "x")], &[20_000]);
    assert!(matches!(
        r.error,
        Some(LearnError::BelowThreshold { similarity: 20_000, against_reference: true, .. })
    ));
}

#[test]
fn details_are_exact() {
    assert_eq!(percent_text(999_999), "100.0%");
    assert_eq!(percent_text(934_999), "93.5%");
    assert_eq!(strip_ansi("\x1b[1;31mred\x1b[0m\x1b[2~x"), "redx");
    assert_eq!(jaccard_3gram("abcd", "bcde"), (1, 3));
    assert_eq!(trivial_similarity("a", "b"), None);
    assert!(learn_log_name("20240101_000000", 2).contains("20240101_000000"));
    assert_eq!(LearnMethod::HardwareReset.as_str(), "hardware_reset");
    assert!(!LearnError::NotConfigured.message().is_empty());
    assert!(!LearnError::TooFewCycles.message().is_empty());
    let e = LearnError::ControlFailed { backend: "b".to_string(), cause: "c".to_string() };
    assert!(e.message().contains("c"));
    let learner = ConnectionLearner::new(LearnConfig::default());
    let c = learner.cycle("l".to_string(), b"U-Boot\n", LearnMethod::SoftwareReboot);
    assert_eq!(c.first_50, "u-boot");
    assert_eq!(c.full_content, "U-Boot\n");
}
