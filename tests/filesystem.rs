use counter_fs::extract::{class_digit, ConfigError, StatusExtractor};
use counter_fs::fs::{CounterFS, EntryKind, FsError, INO_DIR, INO_PRETTY_STATS, INO_STATS};
use counter_fs::render::render;
use counter_fs::window::{get_minute, CounterWindow, Counters};

const PATTERN: &str = r#"HTTP\/\d?\.\d?"\s([0-9]{3})"#;

// 2023-11-14 22:14:00 UTC, the start of a minute.
const T: u64 = 1_700_000_040;

const HEADER: &str = "|dt|HTTP_100|HTTP_200|HTTP_300|HTTP_400|HTTP_500|\n";

fn line(code: &str) -> Vec<u8> {
    format!("127.0.0.1 - - [14/Nov/2023:22:14:00 +0000] \"GET / HTTP/1.1\" {} 612 \"-\" \"curl\"", code)
        .into_bytes()
}

fn bucket(moment: u64, c: [u64; 5]) -> Counters {
    Counters {
        moment,
        stats100: c[0],
        stats200: c[1],
        stats300: c[2],
        stats400: c[3],
        stats500: c[4],
    }
}

fn make(k: u16, pretty: bool) -> CounterFS {
    CounterFS::new("stats".to_string(), pretty, k, PATTERN.to_string(), T).unwrap()
}

#[test]
fn two_minutes_kept() {
    let mut fs = make(2, false);
    assert_eq!(fs.write(INO_STATS, &line("200"), T), Ok(line("200").len()));
    fs.write(INO_STATS, &line("200"), T + 30).unwrap();
    fs.write(INO_STATS, &line("404"), T + 60).unwrap();
    assert_eq!(
        fs.buckets().clone(),
        vec![bucket(T, [0, 2, 0, 0, 0]), bucket(T + 60, [0, 0, 0, 1, 0])]
    );
}

#[test]
fn read_before_any_write() {
    let fs = make(10, false);
    let out = fs.read(INO_STATS, 0).unwrap();
    let expected = format!("{}|14-11-2023 22:14:00|0|0|0|0|0|\n", HEADER);
    assert_eq!(String::from_utf8(out).unwrap(), expected);
}

#[test]
fn lookup_missing() {
    let fs = make(10, true);
    assert_eq!(fs.lookup(INO_DIR, b"missing"), Err(FsError::EntryNotFound));
    assert_eq!(fs.lookup(999, b"stats"), Err(FsError::EntryNotFound));
}

#[test]
fn third_minute_evicts_oldest() {
    let mut fs = make(2, false);
    fs.write(INO_STATS, &line("200"), T).unwrap();
    fs.write(INO_STATS, &line("404"), T + 60).unwrap();
    fs.write(INO_STATS, &line("503"), T + 125).unwrap();
    assert_eq!(
        fs.buckets().clone(),
        vec![bucket(T + 60, [0, 0, 0, 1, 0]), bucket(T + 120, [0, 0, 0, 0, 1])]
    );
}

#[test]
fn bucket_sums_match_writes_per_minute() {
    let mut fs = make(3, false);
    let codes = ["101", "200", "302", "404", "500", "201"];
    for c in codes.iter() {
        fs.write(INO_STATS, &line(c), T + 10).unwrap();
    }
    for c in ["204", "418"].iter() {
        fs.write(INO_STATS, &line(c), T + 61).unwrap();
    }
    let b = fs.buckets().clone();
    assert_eq!(b.len(), 2);
    let sum = |x: &Counters| x.stats100 + x.stats200 + x.stats300 + x.stats400 + x.stats500;
    assert_eq!(sum(&b[0]), 6);
    assert_eq!(sum(&b[1]), 2);
    assert_eq!(b[0], bucket(T, [1, 2, 1, 1, 1]));
}

#[test]
fn window_never_exceeds_capacity() {
    let mut w = CounterWindow::new(3, T);
    for i in 0..10u64 {
        w.push(b'2', T + 60 * i);
        assert!(w.snapshot().len() <= 3);
    }
    let minutes: Vec<u64> = w.snapshot().iter().map(|b| b.moment).collect();
    assert_eq!(minutes, vec![T + 420, T + 480, T + 540]);
}

#[test]
fn reads_are_repeatable() {
    let mut fs = make(5, true);
    fs.write(INO_STATS, &line("200"), T).unwrap();
    assert_eq!(fs.read(INO_STATS, 0), fs.read(INO_STATS, 0));
    assert_eq!(fs.read(INO_PRETTY_STATS, 0), fs.read(INO_PRETTY_STATS, 0));
}

#[test]
fn row_splits_back_into_counters() {
    let mut fs = make(5, false);
    for c in ["200", "200", "404", "101", "503", "503", "503"].iter() {
        fs.write(INO_STATS, &line(c), T).unwrap();
    }
    let text = String::from_utf8(fs.read(INO_STATS, 0).unwrap()).unwrap();
    let row = text.lines().nth(1).unwrap();
    let parts: Vec<&str> = row.split('|').collect();
    assert_eq!(parts.len(), 8);
    let counts: Vec<u64> = parts[2..7].iter().map(|p| p.parse().unwrap()).collect();
    assert_eq!(counts, vec![1, 2, 0, 1, 3]);
}

#[test]
fn unmatched_payload_changes_nothing() {
    let mut fs = make(5, false);
    let before = fs.buckets().clone();
    let payload = b"not a log line at all".to_vec();
    assert_eq!(fs.write(INO_STATS, &payload, T + 120), Ok(payload.len()));
    assert_eq!(fs.buckets().clone(), before);
}

#[test]
fn bad_class_digit_changes_nothing() {
    let mut fs = make(5, false);
    let before = fs.buckets().clone();
    assert_eq!(fs.write(INO_STATS, &line("600"), T + 120), Ok(line("600").len()));
    assert_eq!(fs.buckets().clone(), before);
}

#[test]
fn pretty_table_is_centered() {
    let fs = make(5, true);
    let text = String::from_utf8(fs.read(INO_PRETTY_STATS, 0).unwrap()).unwrap();
    let expected = "|       DateTime       |    # HTTP 100    |    # HTTP 200    |    # HTTP 300    |    # HTTP 400    |    # HTTP 500    |\n| 14-11-2023 22:14:00  |        0         |        0         |        0         |        0         |        0         |\n";
    assert_eq!(text, expected);
}

#[test]
fn render_formats_large_counts() {
    let b = vec![bucket(0, [12345, 0, 7, 18446744073709551615, 10])];
    let text = String::from_utf8(render(&b, false)).unwrap();
    assert_eq!(
        text,
        format!("{}|01-01-1970 00:00:00|12345|0|7|18446744073709551615|10|\n", HEADER)
    );
}

#[test]
fn invalid_pattern_is_refused() {
    let r = CounterFS::new("stats".to_string(), false, 10, "(".to_string(), T);
    assert!(matches!(r, Err(ConfigError::InvalidPattern)));
    assert!(matches!(StatusExtractor::new("(["), Err(ConfigError::InvalidPattern)));
}

#[test]
fn empty_window_is_refused() {
    let r = CounterFS::new("stats".to_string(), false, 0, PATTERN.to_string(), T);
    assert!(matches!(r, Err(ConfigError::EmptyWindow)));
}

#[test]
fn writes_elsewhere_are_refused() {
    let mut fs = make(5, true);
    assert_eq!(fs.write(INO_PRETTY_STATS, &line("200"), T), Err(FsError::EntryNotFound));
    assert_eq!(fs.write(INO_DIR, &line("200"), T), Err(FsError::EntryNotFound));
    assert_eq!(fs.write(42, &line("200"), T), Err(FsError::EntryNotFound));
}

#[test]
fn attributes_follow_content() {
    let mut fs = make(5, true);
    let dir = fs.getattr(INO_DIR).unwrap();
    assert_eq!(dir.kind, EntryKind::Directory);
    assert_eq!(dir.size, 0);
    let a = fs.getattr(INO_STATS).unwrap();
    let len = fs.read(INO_STATS, 0).unwrap().len() as u64;
    assert_eq!(a.size, len);
    assert_eq!(a.blocks, 1);
    assert_eq!(a.kind, EntryKind::RegularFile);
    assert_eq!(fs.lookup(INO_DIR, b"stats"), Ok(a));
    let p = fs.lookup(INO_DIR, b"pretty_stats").unwrap();
    assert_eq!(p.ino, INO_PRETTY_STATS);
    assert_eq!(p.size, 2 * 120);
    for i in 0..4u64 {
        fs.write(INO_STATS, &line("200"), T + 60 * i).unwrap();
    }
    let p = fs.getattr(INO_PRETTY_STATS).unwrap();
    assert_eq!(p.size, 5 * 120);
    assert_eq!(p.blocks, 2);
    assert_eq!(p.modified, T + 180);
    assert_eq!(fs.getattr(77), Err(FsError::EntryNotFound));
}

#[test]
fn pretty_file_absent_unless_enabled() {
    let fs = make(5, false);
    assert_eq!(fs.lookup(INO_DIR, b"pretty_stats"), Err(FsError::EntryNotFound));
    assert_eq!(fs.getattr(INO_PRETTY_STATS), Err(FsError::EntryNotFound));
    assert_eq!(fs.read(INO_PRETTY_STATS, 0), Err(FsError::EntryNotFound));
}

#[test]
fn read_from_offset() {
    let fs = make(5, false);
    let all = fs.read(INO_STATS, 0).unwrap();
    assert_eq!(fs.read(INO_STATS, 4).unwrap(), all[4..].to_vec());
    assert_eq!(fs.read(INO_STATS, all.len() as u64).unwrap(), Vec::<u8>::new());
    assert_eq!(fs.read(INO_STATS, 1 << 40).unwrap(), Vec::<u8>::new());
    assert_eq!(fs.read(9, 0), Err(FsError::EntryNotFound));
}

#[test]
fn readdir_lists_and_resumes() {
    let fs = make(5, true);
    let all = fs.readdir(INO_DIR, 0).unwrap();
    let names: Vec<Vec<u8>> = all.iter().map(|e| e.name.clone()).collect();
    assert_eq!(
        names,
        vec![b".".to_vec(), b"..".to_vec(), b"stats".to_vec(), b"pretty_stats".to_vec()]
    );
    assert_eq!(all.iter().map(|e| e.offset).collect::<Vec<i64>>(), vec![1, 2, 3, 4]);
    assert_eq!(all[3].ino, INO_PRETTY_STATS);
    let rest = fs.readdir(INO_DIR, 2).unwrap();
    assert_eq!(rest.len(), 2);
    assert_eq!(rest[0].name, b"stats".to_vec());
    assert_eq!(rest[0].ino, INO_STATS);
    assert_eq!(fs.readdir(INO_DIR, 4).unwrap().len(), 0);
    assert!(fs.readdir(INO_STATS, 0).is_err());
    let plain = make(5, false);
    assert_eq!(plain.readdir(INO_DIR, 0).unwrap().len(), 3);
}

#[test]
fn clock_going_back_merges_into_latest() {
    let mut w = CounterWindow::new(3, T + 60);
    w.push(b'5', T);
    assert_eq!(w.snapshot().clone(), vec![bucket(T + 60, [0, 0, 0, 0, 1])]);
}

#[test]
fn minute_truncation() {
    assert_eq!(get_minute(T + 59), T);
    assert_eq!(get_minute(T + 60), T + 60);
    assert_eq!(Counters::new(T + 7), bucket(T, [0; 5]));
}

#[test]
fn class_digit_selection() {
    assert_eq!(class_digit(&Some(b"200".to_vec())), Some(b'2'));
    assert_eq!(class_digit(&Some(b"5".to_vec())), Some(b'5'));
    assert_eq!(class_digit(&Some(b"600".to_vec())), None);
    assert_eq!(class_digit(&Some(b"0".to_vec())), None);
    assert_eq!(class_digit(&Some(Vec::new())), None);
    assert_eq!(class_digit(&None), None);
}

#[test]
fn extractor_captures_status() {
    let ex = StatusExtractor::new(PATTERN).unwrap();
    assert_eq!(ex.extract(&line("404")), Some(b"404".to_vec()));
    assert_eq!(ex.extract(b"HTTP/1.1 200"), None);
    let no_group = StatusExtractor::new("HTTP").unwrap();
    assert_eq!(no_group.extract(b"HTTP/1.1"), None);
}

#[test]
fn record_counts_given_capture() {
    let mut fs = make(5, false);
    fs.record(&Some(b"301".to_vec()), T + 1);
    fs.record(&Some(b"x01".to_vec()), T + 2);
    assert_eq!(fs.buckets().clone(), vec![bucket(T, [0, 0, 1, 0, 0])]);
}
