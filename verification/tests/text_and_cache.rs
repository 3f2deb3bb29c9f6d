use ir::cache::{cache_cleaner_spawn_error, removed_message, temporary_file_name};
use ir::paths::{file_extension, plan, source_kind, Platform, SourceKind};
use ir::text::{
    decimal_text, int_parse_failure_message, parse_u64_text, sort_texts, split_inclusive_lines,
    split_lines, trimmed, IntParseFailure,
};

fn chars(s: &str) -> Vec<char> {
    s.chars().collect()
}

fn texts(v: Vec<Vec<char>>) -> Vec<String> {
    v.into_iter().map(|l| l.into_iter().collect()).collect()
}

#[test]
fn cache_messages() {
    assert_eq!(removed_message(1, None), "Removed 1 file");
    assert_eq!(removed_message(0, None), "Removed 0 files");
    assert_eq!(removed_message(3, Some("ir cache")), "Removed 3 files from ir cache");
    assert_eq!(removed_message(u64::MAX, None), "Removed 18446744073709551615 files");
    assert_eq!(
        cache_cleaner_spawn_error("Rscript", true, "x"),
        "could not find `Rscript` on PATH. Install R or set IR_RSCRIPT."
    );
    assert_eq!(cache_cleaner_spawn_error("/R/Rscript", false, "denied"), "failed to launch `/R/Rscript`: denied");
    assert_eq!(temporary_file_name("driver.R", 42, 123), ".driver.R.42-123.tmp");
    assert_eq!(temporary_file_name("d", 0, u128::MAX), ".d.0-340282366920938463463374607431768211455.tmp");
}

#[test]
fn integers_parse_as_std_does() {
    let p = |s: &str| parse_u64_text(&chars(s));
    assert_eq!(p("42"), Ok(42));
    assert_eq!(p("+7"), Ok(7));
    assert_eq!(p("007"), Ok(7));
    assert_eq!(p("18446744073709551615"), Ok(u64::MAX));
    for s in ["42", "+7", "007", "18446744073709551615", "0"] {
        assert_eq!(p(s).ok(), s.parse::<u64>().ok(), "{s}");
    }
    assert!(p("") == Err(IntParseFailure::Empty));
    assert!(p("+") == Err(IntParseFailure::InvalidDigit));
    assert!(p("-1") == Err(IntParseFailure::InvalidDigit));
    assert!(p(" 1") == Err(IntParseFailure::InvalidDigit));
    assert!(p("18446744073709551616") == Err(IntParseFailure::PosOverflow));
    assert!(p("99999999999999999999x") == Err(IntParseFailure::PosOverflow));
    assert!(p("9x9999999999999999999") == Err(IntParseFailure::InvalidDigit));
    for s in ["", "+", "-1", "x", "99999999999999999999x", "9x9999999999999999999", "+-1"] {
        let ours = int_parse_failure_message(p(s).unwrap_err());
        assert_eq!(ours, s.parse::<u64>().unwrap_err().to_string(), "{s}");
    }
    for (s, f) in [("", IntParseFailure::Empty), ("x", IntParseFailure::InvalidDigit), ("99999999999999999999", IntParseFailure::PosOverflow)] {
        let std_message = s.parse::<u64>().unwrap_err().to_string();
        assert_eq!(int_parse_failure_message(f), std_message);
    }
    assert_eq!(decimal_text(0).into_iter().collect::<String>(), "0");
    assert_eq!(decimal_text(1203).into_iter().collect::<String>(), "1203");
}

#[test]
fn lines_split_as_str_lines_does() {
    for s in ["a\nb", "a\r\nb\n", "\n\n", "", "x\r", "last\r\n"] {
        let expected: Vec<String> = s.lines().map(str::to_string).collect();
        assert_eq!(texts(split_lines(&chars(s))), expected, "{s:?}");
        let inclusive: Vec<String> = s.split_inclusive('\n').map(str::to_string).collect();
        assert_eq!(texts(split_inclusive_lines(&chars(s))), inclusive, "{s:?}");
    }
    assert_eq!(trimmed(&chars(" \t x y \n")).into_iter().collect::<String>(), "x y");
}

#[test]
fn texts_sort_by_code_point() {
    let v: Vec<String> = ["b", "B", "a", "ab", "", "a"].iter().map(|s| s.to_string()).collect();
    let mut expected = v.clone();
    expected.sort();
    assert_eq!(sort_texts(&v), expected);
}

#[test]
fn extensions_and_kinds() {
    let ext = |s: &str| file_extension(&chars(s), Platform::Linux).map(|e| e.into_iter().collect::<String>());
    assert_eq!(ext("a/b.qmd"), Some("qmd".to_string()));
    assert_eq!(ext("a.tar.gz"), Some("gz".to_string()));
    assert_eq!(ext(".profile"), None);
    assert_eq!(ext("dir.x/file"), None);
    assert_eq!(ext("a.R/"), Some("R".to_string()));
    assert_eq!(ext("..") , None);
    assert_eq!(ext("a."), Some(String::new()));
    assert_eq!(ext("a.qmd/."), Some("qmd".to_string()));
    assert_eq!(ext("a/./b.R/./"), Some("R".to_string()));
    assert_eq!(ext("a.qmd\\"), Some("qmd\\".to_string()));
    assert_eq!(ext("/."), None);
    assert_eq!(ext("a.qmd/.."), None);
    assert_eq!(ext("./"), None);
    let win = |s: &str| file_extension(&chars(s), Platform::Windows).map(|e| e.into_iter().collect::<String>());
    assert_eq!(win("d\\a.qmd\\"), Some("qmd".to_string()));
    assert_eq!(win("C:.qmd"), None);
    assert_eq!(win("C:a.qmd"), Some("qmd".to_string()));
    assert_eq!(win("C:\\x\\a.R\\."), Some("R".to_string()));
    assert!(matches!(source_kind("a.qmd\\", Platform::Linux), SourceKind::Other));
    assert!(matches!(source_kind("a.qmd\\", Platform::Windows), SourceKind::QuartoMarkdown));
    assert!(matches!(source_kind("doc.qmd", Platform::Linux), SourceKind::QuartoMarkdown));
    assert!(matches!(source_kind("doc.RMD", Platform::Linux), SourceKind::RMarkdown));
    assert!(matches!(source_kind("x.r", Platform::Linux), SourceKind::RScript));
    assert!(matches!(source_kind("x.py", Platform::Linux), SourceKind::Other));
    let p = plan("/home", true, &["a", "b"]);
    assert_eq!((p.base.as_str(), p.parent, p.parts.clone()), ("/home", true, vec!["a".to_string(), "b".to_string()]));
}
