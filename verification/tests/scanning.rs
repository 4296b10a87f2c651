use drive_scan::accum::{lies_under_exec, str_eq, Accumulator};
use drive_scan::text::{dir_csv_line, file_csv_line};

#[test]
fn prefix_matching() {
    assert!(lies_under_exec("/r", '/', "/r/a.txt"));
    assert!(lies_under_exec("/r", '/', "/r/sub/b.txt"));
    assert!(lies_under_exec("/r/sub", '/', "/r/sub/b.txt"));
    assert!(!lies_under_exec("/r/sub", '/', "/r/a.txt"));
    assert!(!lies_under_exec("/r", '/', "/r"));
    assert!(!lies_under_exec("/r", '/', "/rx/a.txt"));
    assert!(!lies_under_exec("/r/a.txt", '/', "/r"));
    assert!(lies_under_exec("C:\\r", '\\', "C:\\r\\a.txt"));
    assert!(!lies_under_exec("C:\\r", '/', "C:\\r\\a.txt"));
}

#[test]
fn string_equality() {
    assert!(str_eq("/r", "/r"));
    assert!(!str_eq("/r", "/r/"));
    assert!(!str_eq("", "x"));
    assert!(str_eq("", ""));
}

#[test]
fn empty_directories_total_zero() {
    let mut acc = Accumulator::new('/');
    acc.visit_dir(String::from("/r"));
    acc.visit_dir(String::from("/r/a"));
    acc.visit_dir(String::from("/r/a/b"));
    assert_eq!(acc.total_of("/r"), Some(0));
    assert_eq!(acc.total_of("/r/a"), Some(0));
    assert_eq!(acc.total_of("/r/a/b"), Some(0));
    assert_eq!(acc.total_of("/elsewhere"), None);
}

#[test]
fn file_size_reaches_every_ancestor() {
    let mut acc = Accumulator::new('/');
    acc.visit_dir(String::from("/r"));
    acc.visit_dir(String::from("/r/a"));
    acc.visit_dir(String::from("/r/a/b"));
    acc.visit_dir(String::from("/r/other"));
    assert!(acc.record_file("/r/a/b/f.bin", 7));
    assert_eq!(acc.total_of("/r/a/b"), Some(7));
    assert_eq!(acc.total_of("/r/a"), Some(7));
    assert_eq!(acc.total_of("/r"), Some(7));
    assert_eq!(acc.total_of("/r/other"), Some(0));
}

#[test]
fn aggregation_is_transitive_across_depth() {
    // A directory's total is its direct child files plus everything
    // contributed through nested subdirectories.
    let mut acc = Accumulator::new('/');
    acc.visit_dir(String::from("/r"));
    assert!(acc.record_file("/r/direct.txt", 100));
    acc.visit_dir(String::from("/r/sub"));
    assert!(acc.record_file("/r/sub/one.txt", 20));
    acc.visit_dir(String::from("/r/sub/deep"));
    assert!(acc.record_file("/r/sub/deep/two.txt", 3));
    assert_eq!(acc.total_of("/r/sub/deep"), Some(3));
    assert_eq!(acc.total_of("/r/sub"), Some(23));
    assert_eq!(acc.total_of("/r"), Some(123));
}

#[test]
fn directory_seen_late_misses_earlier_files() {
    // Prefix accumulation only reaches directories already recorded when
    // the file is visited.
    let mut acc = Accumulator::new('/');
    assert!(acc.record_file("/r/a.txt", 10));
    acc.visit_dir(String::from("/r"));
    assert_eq!(acc.total_of("/r"), Some(0));
}

#[test]
fn revisiting_a_directory_resets_its_total() {
    let mut acc = Accumulator::new('/');
    acc.visit_dir(String::from("/r"));
    assert!(acc.record_file("/r/a.txt", 10));
    assert_eq!(acc.total_of("/r"), Some(10));
    acc.visit_dir(String::from("/r"));
    assert_eq!(acc.total_of("/r"), Some(0));
    assert_eq!(acc.len(), 1);
}

#[test]
fn overflowing_total_is_refused_and_state_kept() {
    let mut acc = Accumulator::new('/');
    acc.visit_dir(String::from("/r"));
    assert!(acc.record_file("/r/huge.bin", u64::MAX));
    assert_eq!(acc.total_of("/r"), Some(u64::MAX));
    assert!(!acc.record_file("/r/one.bin", 1));
    assert_eq!(acc.total_of("/r"), Some(u64::MAX));
    assert!(acc.record_file("/r/zero.bin", 0));
    assert_eq!(acc.total_of("/r"), Some(u64::MAX));
}

#[test]
fn rerunning_the_same_tree_gives_identical_totals() {
    let run = || {
        let mut acc = Accumulator::new('/');
        acc.visit_dir(String::from("/r"));
        acc.record_file("/r/a.txt", 10);
        acc.visit_dir(String::from("/r/sub"));
        acc.record_file("/r/sub/b.txt", 20);
        acc
    };
    let first = run();
    let second = run();
    assert_eq!(first.len(), second.len());
    for i in 0..first.len() {
        assert_eq!(first.path_at(i), second.path_at(i));
        assert_eq!(first.total_at(i), second.total_at(i));
    }
}

#[test]
fn two_file_tree_scenario() {
    // Root /r holds a.txt (10 bytes) and sub/b.txt (20 bytes):
    // /r totals 30, /r/sub totals 20, and the CSV records are exact.
    let mut acc = Accumulator::new('/');
    acc.visit_dir(String::from("/r"));
    let a = file_csv_line("/r/a.txt", 10);
    assert!(acc.record_file("/r/a.txt", 10));
    acc.visit_dir(String::from("/r/sub"));
    let b = file_csv_line("/r/sub/b.txt", 20);
    assert!(acc.record_file("/r/sub/b.txt", 20));

    assert_eq!(acc.total_of("/r"), Some(30));
    assert_eq!(acc.total_of("/r/sub"), Some(20));
    assert_eq!(a, "F,/r/a.txt,10,0.01,0.00,0.00\r\n");
    assert_eq!(b, "F,/r/sub/b.txt,20,0.02,0.00,0.00\r\n");

    let mut dir_lines: Vec<String> = Vec::new();
    for i in 0..acc.len() {
        let path = acc.path_at(i).clone();
        let total = acc.total_at(i);
        dir_lines.push(dir_csv_line(&path, total));
    }
    assert!(dir_lines.contains(&String::from("D,/r,30,0.03,0.00,0.00\r\n")));
    assert!(dir_lines.contains(&String::from("D,/r/sub,20,0.02,0.00,0.00\r\n")));
    assert_eq!(dir_lines.len(), 2);
}
