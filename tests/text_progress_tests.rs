use light::progress::{RenderProgress, Step};
use light::text::{eq_lit, parse_u32, split_key_value, split_lines, trim_range};

fn chars(s: &str) -> Vec<char> {
    s.chars().collect()
}

fn string(v: &[char]) -> String {
    v.iter().collect()
}

#[test]
fn lines_split_like_str_lines() {
    let lines = split_lines(&chars("a\nbb\n\nc\n"));
    let got: Vec<String> = lines.iter().map(|l| string(l)).collect();
    assert_eq!(got, vec!["a", "bb", "", "c"]);
    let crlf: Vec<String> = split_lines(&chars("a\r\nb\r")).iter().map(|l| string(l)).collect();
    assert_eq!(crlf, vec!["a", "b\r"]);
    assert!(split_lines(&chars("")).is_empty());
    assert_eq!(split_lines(&chars("x")).len(), 1);
}

#[test]
fn trim_and_key_value() {
    let s = chars("  \t key =  value  ");
    assert_eq!(string(&trim_range(&s, 0, s.len())), "key =  value");
    let (k, v) = split_key_value(&s).unwrap();
    assert_eq!((string(&k), string(&v)), ("key".to_string(), "value".to_string()));
    let (k, v) = split_key_value(&chars("a = b = c")).unwrap();
    assert_eq!((string(&k), string(&v)), ("a".to_string(), "b".to_string()));
    assert!(split_key_value(&chars("no value")).is_none());
    assert!(eq_lit(&chars("mesh"), "mesh"));
    assert!(!eq_lit(&chars("mesh "), "mesh"));
}

#[test]
fn u32_parsing() {
    assert_eq!(parse_u32(&chars("400")), Some(400));
    assert_eq!(parse_u32(&chars("+7")), Some(7));
    assert_eq!(parse_u32(&chars("007")), Some(7));
    assert_eq!(parse_u32(&chars("4294967295")), Some(u32::MAX));
    assert_eq!(parse_u32(&chars("4294967296")), None);
    assert_eq!(parse_u32(&chars("")), None);
    assert_eq!(parse_u32(&chars("+")), None);
    assert_eq!(parse_u32(&chars("-1")), None);
    assert_eq!(parse_u32(&chars("1.5")), None);
}

#[test]
fn snapshots_every_k_passes_one_at_a_time() {
    let mut p = RenderProgress::new(5, 2);
    let mut snapshots = Vec::new();
    let mut pass = 0;
    while let Step::RenderSample(s) = p.next_step() {
        assert_eq!(s, pass);
        let start = p.sample_finished(s >= 3, false);
        if start {
            snapshots.push(p.completed);
        }
        pass += 1;
    }
    assert_eq!(p.next_step(), Step::Finish(5));
    // pass 0 starts a snapshot, still in flight at pass 2; pass 4 starts another
    assert_eq!(snapshots, vec![1, 5]);
}

#[test]
fn stop_finishes_with_completed_count() {
    let mut p = RenderProgress::new(100, 40);
    assert_eq!(p.next_step(), Step::RenderSample(0));
    assert!(p.sample_finished(true, false));
    assert_eq!(p.next_step(), Step::RenderSample(1));
    assert!(!p.sample_finished(true, false));
    assert!(!p.sample_finished(true, true));
    assert_eq!(p.next_step(), Step::Finish(3));
}

#[test]
fn trim_removes_unicode_white_space() {
    let s = chars("\u{A0}\u{3000} key\u{2003}\r");
    assert_eq!(string(&trim_range(&s, 0, s.len())), "key");
    assert_eq!(string(&trim_range(&s, 0, 0)), "");
}
