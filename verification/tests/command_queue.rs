use debug_console::command_queue::{command_line, find_subsequence, parse_output, strip_ansi, CommandQueue};
use debug_console::marker::{gen_marker, MARKER_POOL};
use std::collections::HashSet;

const SECOND: u64 = 1_000_000_000;

#[test]
fn test_find_subsequence() {
    assert_eq!(find_subsequence(b"hello world", b"world"), Some(6));
    assert_eq!(find_subsequence(b"hello world", b"xyz"), None);
    assert_eq!(find_subsequence(b"ABCABC", b"ABC"), Some(0));
}

#[test]
fn test_strip_ansi() {
    assert_eq!(strip_ansi(b"\x1b[31mERROR\x1b[0m"), b"ERROR");
}

#[test]
fn test_strip_ansi_multiple() {
    assert_eq!(strip_ansi(b"\x1b[1m\x1b[31mBold Red\x1b[0m Normal"), b"Bold Red Normal");
}

#[test]
fn test_strip_ansi_cursor() {
    assert_eq!(strip_ansi(b"\x1b[2J\x1b[H\x1b[?25h"), b"");
}

#[test]
fn test_find_subsequence_not_found() {
    assert_eq!(find_subsequence(b"hello", b"world"), None);
    assert_eq!(find_subsequence(b"", b"test"), None);
    assert_eq!(find_subsequence(b"short", b"longer"), None);
}

#[test]
fn test_find_subsequence_empty() {
    // An empty needle is outside of what the function accepts.
    assert_eq!(find_subsequence(b"hello", b"h"), Some(0));
}

#[test]
fn test_strip_ansi_no_escapes() {
    assert_eq!(strip_ansi(b"plain text without escapes"), b"plain text without escapes");
}

#[test]
fn test_command_format() {
    let mut cq = CommandQueue::new();
    cq.set_write_fn();
    cq.execute("uname -a".to_string(), 90 * SECOND);
    let written: Vec<u8> = cq.take_writes().concat();
    let cmd_str = String::from_utf8_lossy(&written).to_string();
    assert!(cmd_str.starts_with("echo '"));
    assert!(cmd_str.contains("uname -a"));
    assert!(cmd_str.contains("echo \"$?\""));
    assert!(cmd_str.ends_with("'\n"));
}

#[test]
fn test_marker_extraction() {
    let marker = gen_marker();
    let marker_bytes = marker.as_bytes();
    let serial_data = format!("{}\noutput line 1\noutput line 2\n0\n{}\n", marker, marker);
    let first_pos = serial_data.find(&marker);
    assert!(first_pos.is_some());
    let second_pos = serial_data[first_pos.unwrap() + marker.len()..].find(&marker);
    assert!(second_pos.is_some());
    assert_eq!(find_subsequence(serial_data.as_bytes(), marker_bytes), first_pos);
}

#[test]
fn test_command_serialization() {
    let mut cq = CommandQueue::new();
    cq.set_write_fn();
    cq.execute("cmd1".to_string(), 90 * SECOND);
    cq.execute("cmd2".to_string(), 90 * SECOND);
    // The first command is running, the second waits.
    assert_eq!(cq.take_results().len(), 0);
    assert_eq!(cq.take_cancelled().len(), 0);
    assert_eq!(cq.take_writes().len(), 1);
    assert_eq!(cq.pending_len(), 1);
}

#[test]
fn test_marker_split() {
    let marker = gen_marker();
    assert_eq!(marker.len(), 10);
    let first_half = &marker[..4];
    let second_half = &marker[4..];
    assert!(!first_half.is_empty());
    assert!(!second_half.is_empty());
    let reconstructed = format!("{}{}", first_half, second_half);
    assert_eq!(reconstructed, marker);
}

#[test]
fn marker_length() {
    assert_eq!(gen_marker().len(), 10);
}

#[test]
fn marker_chars() {
    let m = gen_marker();
    assert!(m.chars().all(|c| c.is_ascii_uppercase()));
    assert!(!m.contains('R'));
    assert!(!m.contains('I'));
    assert!(!m.contains('D'));
}

#[test]
fn marker_unique() {
    let a = gen_marker();
    let b = gen_marker();
    assert_ne!(a, b);
}

#[test]
fn test_marker_many_unique() {
    let mut markers = HashSet::new();
    for _ in 0..1000 {
        let m = gen_marker();
        assert!(markers.insert(m), "Duplicate marker generated");
    }
    assert_eq!(markers.len(), 1000);
}

#[test]
fn test_marker_all_from_pool() {
    for _ in 0..100 {
        let m = gen_marker();
        for c in m.chars() {
            assert!(MARKER_POOL.contains(&(c as u8)), "Char {} not in pool", c);
        }
    }
}

#[test]
fn test_marker_pool_size() {
    assert_eq!(MARKER_POOL.len(), 23);
}

#[test]
fn test_marker_excluded_chars() {
    assert!(!MARKER_POOL.contains(&b'R'));
    assert!(!MARKER_POOL.contains(&b'I'));
    assert!(!MARKER_POOL.contains(&b'D'));
}

fn started(command: &str) -> (CommandQueue, u64) {
    let mut cq = CommandQueue::new();
    cq.set_write_fn();
    let id = cq.execute_at(command.to_string(), 5 * SECOND, "ABCEFGHJKL".to_string(), 0);
    (cq, id)
}

#[test]
fn a_command_is_written_between_its_markers() {
    assert_eq!(
        command_line("ls", "ABCEFGHJKL"),
        "echo 'ABCE''FGHJKL'; ls; echo \"$?\"; echo 'ABCE''FGHJKL'\n"
    );
    // What the target echoes of the line does not hold the marker.
    assert!(!command_line("ls", "ABCEFGHJKL").contains("ABCEFGHJKL"));
}

#[test]
fn output_between_the_markers_is_the_result() {
    let (mut cq, id) = started("ls");
    cq.feed_serial_data_at(b"ABCEFGHJKL\r\nfile\r\n0\r\nABCEFGHJKL\r\n", SECOND);
    let results = cq.take_results();
    assert_eq!(results.len(), 1);
    assert_eq!(results[0].id, id);
    assert_eq!(results[0].result.output, "file");
    assert_eq!(results[0].result.exit_code, Some(0));
    assert!(!results[0].result.timed_out);
    assert_eq!(cq.take_counts(), (1, 0));
}

#[test]
fn markers_may_be_cut() {
    let (mut cq, _) = started("false");
    cq.feed_serial_data_at(b"ABCEF", SECOND);
    cq.feed_serial_data_at(b"GHJKL\n1\nABCEFGH", SECOND);
    assert_eq!(cq.take_results().len(), 0);
    cq.feed_serial_data_at(b"JKL\n", SECOND);
    let results = cq.take_results();
    assert_eq!(results.len(), 1);
    assert_eq!(results[0].result.output, "");
    assert_eq!(results[0].result.exit_code, Some(1));
}

#[test]
fn chunks_do_not_matter() {
    let stream = b"ABCEFGHJKL\r\nout1\r\nout2\r\n0\r\nABCEFGHJKL\r\n";
    let complete = stream.len() - 2;
    let mut cuts = vec![(1..stream.len()).collect::<Vec<usize>>()];
    for a in 1..stream.len() {
        cuts.push(vec![a]);
        for b in a + 1..stream.len() {
            cuts.push(vec![a, b]);
        }
    }
    for mut ends in cuts {
        ends.push(stream.len());
        let (mut cq, id) = started("cmd");
        let mut from = 0;
        let mut count = 0;
        for end in ends {
            cq.feed_serial_data_at(&stream[from..end], SECOND);
            from = end;
            for done in cq.take_results() {
                count += 1;
                assert!(end >= complete);
                assert_eq!(done.id, id);
                assert_eq!(done.result.output, "out1\nout2");
                assert_eq!(done.result.exit_code, Some(0));
                assert!(!done.result.timed_out);
            }
            assert_eq!(count, if end >= complete { 1 } else { 0 });
        }
    }
}

#[test]
fn what_precedes_the_first_marker_does_not_matter() {
    let (mut cq, id) = started("cat name");
    cq.feed_serial_data_at(b"boot noise\n~ # echo ABCEF", SECOND);
    cq.feed_serial_data_at(b"GHJKL\nboard\n0\nABCEFGHJKL\n", SECOND);
    let results = cq.take_results();
    assert_eq!(results.len(), 1);
    assert_eq!(results[0].id, id);
    assert_eq!(results[0].result.output, "board");
    assert_eq!(results[0].result.exit_code, Some(0));
}

#[test]
fn an_overdue_command_times_out() {
    let (mut cq, id) = started("sleep 100");
    cq.check_timeouts_at(4 * SECOND);
    assert_eq!(cq.take_results().len(), 0);
    cq.check_timeouts_at(6 * SECOND);
    let results = cq.take_results();
    assert_eq!(results.len(), 1);
    assert_eq!(results[0].id, id);
    assert!(results[0].result.timed_out);
}

#[test]
fn the_last_line_is_the_exit_code() {
    assert_eq!(parse_output(b"a\nb\n3\n"), ("a\nb".to_string(), Some(3)));
    assert_eq!(parse_output(b"nothing").1, None);
}
