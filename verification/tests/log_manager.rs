use debug_console::log_manager::{
    cleanup_old_logs, is_archive_name, list_archives, list_log_files_sorted, log_file_name,
    log_header, missing_log, read_boot_count, read_log, strip_ansi_and_null, LogContent,
    LogFileInfo, LogManager, LogPlan,
};

/// The files that a manager asks for.
struct Disk {
    files: Vec<(String, Vec<u8>)>,
    counter: Option<String>,
    stamp: u32,
}

impl Disk {
    fn new() -> Self {
        Disk { files: Vec::new(), counter: None, stamp: 0 }
    }

    fn stamp(&mut self) -> String {
        self.stamp += 1;
        format!("20240101_{:06}", self.stamp)
    }

    fn apply(&mut self, plan: &LogPlan) {
        self.files.push((plan.path.clone(), plan.data.clone()));
        self.counter = Some(plan.counter.clone());
    }

    fn append(&mut self, path: &str, data: &[u8]) {
        for (p, d) in self.files.iter_mut() {
            if p == path {
                d.extend_from_slice(data);
            }
        }
    }

    fn infos(&self) -> Vec<LogFileInfo> {
        self.files
            .iter()
            .enumerate()
            .map(|(i, (p, d))| LogFileInfo {
                name: p.rsplit('/').next().unwrap().to_string(),
                size: d.len() as u64,
                path: p.clone(),
                modified: i as u64,
            })
            .collect()
    }

    fn text(&self, path: &str) -> String {
        let (_, d) = self.files.iter().find(|(p, _)| p == path).unwrap();
        String::from_utf8_lossy(d).to_string()
    }
}

fn manager(max_logs: usize, max_mb: u64) -> (LogManager, Disk) {
    (LogManager::new("/p", max_logs, max_mb, ".dut-serial"), Disk::new())
}

fn open(lm: &mut LogManager, disk: &mut Disk) {
    let stamp = disk.stamp();
    let plan = lm.open_current(disk.counter.clone().as_deref(), &stamp, "now");
    disk.apply(&plan);
}

fn rotate(lm: &mut LogManager, disk: &mut Disk) {
    let stamp = disk.stamp();
    let (saved, opened) = lm.rotate(disk.counter.clone().as_deref(), &stamp, "now");
    if let Some(plan) = &saved {
        disk.apply(plan);
    }
    disk.apply(&opened);
    for path in cleanup_old_logs(disk.infos(), lm.max_logs()) {
        disk.files.retain(|(p, _)| *p != path);
    }
}

fn write(lm: &mut LogManager, disk: &mut Disk, data: &[u8]) -> bool {
    let (clean, full) = lm.write(data);
    let path = lm.current_path().unwrap().clone();
    disk.append(&path, &clean);
    full
}

fn read(disk: &Disk, index: usize, limit: usize, pattern: Option<&str>) -> LogContent {
    let logs = list_log_files_sorted(disk.infos());
    match logs.get(index) {
        Some(f) => read_log(&disk.text(&f.path), &f.name, limit, pattern),
        None => missing_log(),
    }
}

#[test]
fn test_open_current_creates_file() {
    let (mut lm, mut disk) = manager(10, 100);
    open(&mut lm, &mut disk);
    assert_eq!(lm.boot_number(), 1);
    assert!(lm.current_path().is_some());
    assert!(disk.files.iter().any(|(p, _)| p == lm.current_path().unwrap()));
    assert!(lm.current_path().unwrap().ends_with(".log"));
    assert!(lm.current_path().unwrap().starts_with("/p/.dut-serial/logs/"));
}

#[test]
fn test_boot_number_increments() {
    let (mut lm, mut disk) = manager(10, 100);
    open(&mut lm, &mut disk);
    assert_eq!(lm.boot_number(), 1);
    rotate(&mut lm, &mut disk);
    assert_eq!(lm.boot_number(), 2);
    rotate(&mut lm, &mut disk);
    assert_eq!(lm.boot_number(), 3);
}

#[test]
fn test_read_log_basic() {
    let (mut lm, mut disk) = manager(10, 100);
    open(&mut lm, &mut disk);
    for i in 1..=10 {
        write(&mut lm, &mut disk, format!("line {}\n", i).as_bytes());
    }
    let result = read(&disk, 0, 5, None);
    assert!(result.total_lines >= 10);
    assert_eq!(result.filtered_lines, result.total_lines);
    let content_lines = result.content.lines().count();
    assert_eq!(content_lines, 5);
    assert!(result.content.contains("line 10"));
}

#[test]
fn test_read_log_with_pattern() {
    let (mut lm, mut disk) = manager(10, 100);
    open(&mut lm, &mut disk);
    write(&mut lm, &mut disk, b"ERROR: something failed\n");
    write(&mut lm, &mut disk, b"INFO: all good\n");
    write(&mut lm, &mut disk, b"ERROR: another failure\n");
    write(&mut lm, &mut disk, b"DEBUG: debugging\n");
    let result = read(&disk, 0, 100, Some("ERROR"));
    assert_eq!(result.filtered_lines, 2);
    assert!(result.content.contains("ERROR"));
    assert!(!result.content.contains("INFO"));
    assert!(!result.content.contains("DEBUG"));
}

#[test]
fn test_read_log_archive_index() {
    let (mut lm, mut disk) = manager(10, 100);
    open(&mut lm, &mut disk);
    write(&mut lm, &mut disk, b"boot 1 data\n");
    rotate(&mut lm, &mut disk);
    write(&mut lm, &mut disk, b"boot 2 data\n");
    let result = read(&disk, 0, 100, None);
    assert!(result.content.contains("boot 2 data"));
    let result = read(&disk, 1, 100, None);
    assert!(result.content.contains("boot 1 data"));
    let result = read(&disk, 99, 100, None);
    assert_eq!(result.content, "");
}

#[test]
fn test_close() {
    let (mut lm, mut disk) = manager(10, 100);
    open(&mut lm, &mut disk);
    assert!(lm.current_path().is_some());
    lm.close();
    assert!(lm.current_path().is_some());
}

#[test]
fn test_max_file_size_rotation() {
    let (mut lm, mut disk) = manager(10, 0);
    open(&mut lm, &mut disk);
    let path1 = lm.current_path().unwrap().clone();
    if write(&mut lm, &mut disk, b"some data\n") {
        rotate(&mut lm, &mut disk);
    }
    let path2 = lm.current_path().unwrap().clone();
    assert_ne!(path1, path2);
}

#[test]
fn rotation_keeps_both_logs() {
    let (mut lm, mut disk) = manager(10, 100);
    open(&mut lm, &mut disk);
    let path1 = lm.current_path().unwrap().clone();
    write(&mut lm, &mut disk, b"boot 1 data\n");
    rotate(&mut lm, &mut disk);
    let path2 = lm.current_path().unwrap().clone();
    write(&mut lm, &mut disk, b"boot 2 data\n");
    assert_ne!(path1, path2);
    assert!(disk.text(&path1).contains("boot 1 data"));
    assert!(disk.text(&path2).contains("boot 2 data"));
}

#[test]
fn old_logs_are_dropped() {
    let (mut lm, mut disk) = manager(3, 100);
    open(&mut lm, &mut disk);
    for i in 1..5 {
        write(&mut lm, &mut disk, format!("boot {}\n", i).as_bytes());
        rotate(&mut lm, &mut disk);
    }
    assert!(list_archives(disk.infos()).len() <= 3);
}

#[test]
fn archives_are_listed_newest_first() {
    let (mut lm, mut disk) = manager(10, 100);
    for _ in 0..3 {
        open(&mut lm, &mut disk);
    }
    let archives = list_archives(disk.infos());
    assert_eq!(archives.len(), 3);
    assert!(archives[0].path > archives[1].path);
    assert!(archives[1].path > archives[2].path);
    assert_eq!(archives[2].index, 2);
}

#[test]
fn the_counter_goes_on() {
    let (mut lm, mut disk) = manager(10, 100);
    open(&mut lm, &mut disk);
    assert_eq!(disk.counter, Some("1".to_string()));
    rotate(&mut lm, &mut disk);
    assert_eq!(disk.counter, Some("2".to_string()));
    assert_eq!(read_boot_count(None), 0);
    assert_eq!(read_boot_count(Some(" 41\n")), 41);
    assert_eq!(read_boot_count(Some("x")), 0);
    assert_eq!(lm.counter_path(), "/p/.dut-serial/.boot_count");
}

#[test]
fn files_have_names_and_headers() {
    assert_eq!(log_file_name(7, "20240101_000000"), "boot-007_20240101_000000.log");
    assert_eq!(log_header(1, "t"), "=== Boot #1 — t ===\n");
    assert!(is_archive_name("boot-001_x.log"));
    assert!(!is_archive_name("serial.current.log"));
    assert!(!is_archive_name("notes.txt"));
}

#[test]
fn output_is_cleaned() {
    assert_eq!(strip_ansi_and_null(b"a\x1b[31mb\x1b[0m\0c"), b"abc");
    let (mut lm, _) = manager(10, 100);
    lm.ensure_current_file("/p/x.log", 0);
    lm.write(b"a\0b");
    assert_eq!(lm.ring_buffer(), b"ab");
    let plan = lm.flush_boot_log(None, "t").unwrap();
    assert_eq!(plan.data, b"ab");
    assert!(lm.flush_boot_log(None, "t").is_none());
    lm.saved("/p/y.log");
    assert_eq!(lm.current_path().unwrap(), "/p/y.log");
    lm.mark_boot_start();
    assert!(lm.flush_boot_log(None, "t").is_none());
}

#[test]
fn patterns_ignore_case() {
    let r = read_log("Error one\nfine\nERROR two\n", "f", 0, Some("error"));
    assert_eq!(r.content, "Error one\nERROR two");
    // A pattern that does not compile filters nothing.
    assert_eq!(read_log("a\nb\n", "f", 0, Some("(")).filtered_lines, 2);
}
