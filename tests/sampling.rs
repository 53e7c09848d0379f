use indentdetect::sample::{classify_line, count_indents, sample_lines, Sample, Sampler, SAMPLE_CAP};

fn reads(lines: &[&str]) -> Vec<Result<String, std::io::Error>> {
    lines.iter().map(|x| Ok(x.to_string())).collect()
}

#[test]
fn count1() {
    let lines = reads(&["    x", "x", "x", "\t\tx", "        x"]);
    assert_eq!(count_indents(lines).unwrap(), (true, vec![4, 8]));
}

#[test]
fn count2() {
    let lines = reads(&["x", "x", "\tx", "\t\tx", "x"]);
    assert_eq!(count_indents(lines).unwrap(), (true, vec![]));
}

#[test]
fn count3() {
    let lines = reads(&["  x", "x", "x", "  x", "    x"]);
    assert_eq!(count_indents(lines).unwrap(), (false, vec![2, 2, 4]));
}

fn sample(tab_count: u32, space_count: u32) -> Sample {
    Sample { tab_count, space_count }
}

#[test]
fn scenario_a_samples() {
    let lines = reads(&["    x", "x", "x", "\t\tx", "        x"]);
    assert_eq!(sample_lines(lines).unwrap(), vec![sample(0, 4), sample(2, 0), sample(0, 8)]);
}

#[test]
fn scenario_b_samples() {
    let lines = reads(&["x", "x", "\tx", "\t\tx", "x"]);
    assert_eq!(sample_lines(lines).unwrap(), vec![sample(1, 0), sample(2, 0)]);
}

#[test]
fn scenario_c_samples() {
    let lines = reads(&["  x", "x", "x", "  x", "    x"]);
    assert_eq!(sample_lines(lines).unwrap(), vec![sample(0, 2), sample(0, 2), sample(0, 4)]);
}

#[test]
fn classify_plain_and_empty_lines() {
    assert_eq!(classify_line("x"), None);
    assert_eq!(classify_line(""), None);
    assert_eq!(classify_line("x    "), None);
}

#[test]
fn classify_tabs_then_spaces() {
    assert_eq!(classify_line("\t\t  x"), Some(sample(2, 2)));
    assert_eq!(classify_line("   "), Some(sample(0, 3)));
    assert_eq!(classify_line("\t"), Some(sample(1, 0)));
}

#[test]
fn classify_stops_at_tab_after_spaces() {
    assert_eq!(classify_line("\t  \tx"), Some(sample(1, 2)));
    assert_eq!(classify_line(" \t x"), Some(sample(0, 1)));
}

#[test]
fn classify_non_ascii_rest() {
    assert_eq!(classify_line("  \u{e9}t\u{e9}"), Some(sample(0, 2)));
}

#[test]
fn cap_of_five_hundred_uniform_lines() {
    let many: Vec<&str> = std::iter::repeat("    x").take(500).collect();
    let samples = sample_lines(reads(&many)).unwrap();
    assert_eq!(samples.len(), 100);
    assert_eq!(SAMPLE_CAP, 100);
    assert!(samples.iter().all(|s| *s == sample(0, 4)));
}

#[test]
fn cap_counts_indented_lines_only() {
    let mut lines = Vec::new();
    for _ in 0..150 {
        lines.push("x");
        lines.push("\tx");
    }
    let samples = sample_lines(reads(&lines)).unwrap();
    assert_eq!(samples.len(), 100);
}

#[test]
fn empty_source_gives_no_samples() {
    let samples = sample_lines(reads(&[])).unwrap();
    assert!(samples.is_empty());
    let samples = sample_lines(reads(&["a", "b"])).unwrap();
    assert!(samples.is_empty());
}

#[test]
fn read_error_before_cap_fails() {
    let mut lines = reads(&["  x", "x"]);
    lines.push(Err(std::io::Error::new(std::io::ErrorKind::InvalidData, "bad")));
    lines.push(Ok("    x".to_string()));
    let e = sample_lines(lines).unwrap_err();
    assert_eq!(e.kind(), std::io::ErrorKind::InvalidData);
}

#[test]
fn first_read_error_is_returned() {
    let lines: Vec<Result<String, u32>> = vec![Ok("x".to_string()), Err(7), Err(9)];
    assert_eq!(count_indents(lines), Err(7));
}

#[test]
fn read_error_after_cap_is_never_seen() {
    let many: Vec<&str> = std::iter::repeat("  x").take(100).collect();
    let mut lines = reads(&many);
    lines.push(Err(std::io::Error::new(std::io::ErrorKind::Other, "late")));
    let samples = sample_lines(lines).unwrap();
    assert_eq!(samples.len(), 100);
}

#[test]
fn sampler_feeds_one_line_at_a_time() {
    let mut sampler = Sampler::new();
    assert!(!sampler.is_full());
    sampler.feed("x");
    sampler.feed("\t x");
    sampler.feed("  y");
    assert_eq!(sampler.samples(), &[sample(1, 1), sample(0, 2)][..]);
    for _ in 0..200 {
        sampler.feed(" z");
    }
    assert!(sampler.is_full());
    let samples = sampler.into_samples();
    assert_eq!(samples.len(), 100);
    assert_eq!(samples[0], sample(1, 1));
}
