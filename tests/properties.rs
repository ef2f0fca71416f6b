use history_grep::batch::{command_at, format_batch_line, select_batch};
use history_grep::histfile::{dedup_entries, display_line, parse_history_file, HistEntry, ParsedLine};
use history_grep::interactive::{render_entry_lines, word_patterns, App, KeyInput, KeyOutcome};
use history_grep::pattern::{magic_pattern_to_regex, process_magic_patterns, raw_pattern_to_regex};
use history_grep::text::{split_lines, split_words};
use history_grep::timestamp::{default_ts, Timestamp, MIN_REASONABLE_UNIXTIME};
use history_grep::{copy_to_clipboard_seq, parse_hex_to_usize, CaseMode};

fn ts(secs: i64) -> Timestamp {
    Timestamp::from_unix(secs).unwrap()
}

fn entry(secs: i64, command: &str) -> HistEntry {
    HistEntry {
        ts: ts(secs),
        command: command.to_owned(),
    }
}

fn lit(p: &str) -> history_grep::pattern::CompiledPattern {
    magic_pattern_to_regex(p, CaseMode::Sensitive).unwrap()
}

#[test]
fn no_timestamps_gives_one_entry_per_line() {
    let res = parse_history_file("ls\ncd /tmp\n#12\necho hi");
    let m = MIN_REASONABLE_UNIXTIME;
    assert_eq!(
        res,
        vec![entry(m, "ls"), entry(m, "cd /tmp"), entry(m, "#12"), entry(m, "echo hi")]
    );
}

#[test]
fn empty_line_without_timestamps_is_an_entry() {
    let m = MIN_REASONABLE_UNIXTIME;
    assert_eq!(
        parse_history_file("a\n\nb\n"),
        vec![entry(m, "a"), entry(m, ""), entry(m, "b")]
    );
}

#[test]
fn empty_input_gives_no_entries() {
    assert_eq!(parse_history_file(""), vec![]);
    assert_eq!(parse_history_file("#1262305001\n"), vec![]);
}

#[test]
fn marker_needs_digits_only() {
    assert_eq!(
        ParsedLine::parse("#+1262304000"),
        ParsedLine::Command("#+1262304000".to_owned())
    );
    assert_eq!(
        ParsedLine::parse("#-1262304000"),
        ParsedLine::Command("#-1262304000".to_owned())
    );
    assert_eq!(ParsedLine::parse("#"), ParsedLine::Command("#".to_owned()));
    assert_eq!(
        ParsedLine::parse("#99999999999999999999"),
        ParsedLine::Command("#99999999999999999999".to_owned())
    );
    assert_eq!(
        ParsedLine::parse("#0001262304001"),
        ParsedLine::Timestamp(ts(1262304001))
    );
}

#[test]
fn consecutive_timestamps_keep_the_first() {
    let res = parse_history_file("#1262305001\n#1262305003\nfoo\n#1262305007\nbar");
    assert_eq!(res, vec![entry(1262305001, "foo"), entry(1262305007, "bar")]);
}

#[test]
fn multi_line_reconstruction() {
    let res = parse_history_file(
        "foo\nfoobar\n#1262305001\nthis is a command\n#1262305003\nmulti line\ncommand\nfoo\n",
    );
    assert_eq!(res.len(), 4);
    assert_eq!(res[3], entry(1262305003, "multi line\ncommand\nfoo"));
}

#[test]
fn crlf_line_endings_are_dropped() {
    let res = parse_history_file("#1262305001\r\nfoo\r\nbar\r\n");
    assert_eq!(res, vec![entry(1262305001, "foo\nbar")]);
    assert_eq!(split_lines("a\r\nb\rc\n\nd\r"), vec!["a", "b\rc", "", "d\r"]);
}

#[test]
fn dedup_only_consecutive_and_idempotent() {
    let input = vec![
        entry(1262305001, "A"),
        entry(1262305002, "B"),
        entry(1262305003, "B"),
        entry(1262305004, "B"),
        entry(1262305005, "A"),
    ];
    let once = dedup_entries(input);
    assert_eq!(
        once,
        vec![entry(1262305001, "A"), entry(1262305002, "B"), entry(1262305005, "A")]
    );
    assert_eq!(dedup_entries(once.clone()), once);
    assert_eq!(dedup_entries(vec![]), vec![]);
}

#[test]
fn more_patterns_match_no_more() {
    let e = entry(1262305001, "git commit -m fix");
    assert!(e.matches(&[lit("git")], &[]));
    assert!(!e.matches(&[lit("git"), lit("push")], &[]));
    assert!(e.matches(&[lit("git")], &[lit("push")]));
    assert!(!e.matches(&[lit("git")], &[lit("push"), lit("commit")]));
}

#[test]
fn literal_pattern_is_literal() {
    let re = lit("asd[12]");
    assert!(re.is_match("asd[12]"));
    assert!(!re.is_match("asd1"));
    let re = lit("/asd[12]/");
    assert!(re.is_match("asd1"));
    assert!(re.is_match("asd2"));
    assert!(!re.is_match("asd[12]"));
    let re = lit("a.b*c");
    assert!(re.is_match("xa.b*cx"));
    assert!(!re.is_match("abbc"));
    let re = lit("/");
    assert!(re.is_match("a/b"));
    let re = lit("//");
    assert!(re.is_match("anything"));
}

#[test]
fn case_modes() {
    let re = magic_pattern_to_regex("Hello", CaseMode::Insensitive).unwrap();
    assert!(re.is_match("hello"));
    assert!(re.is_match("HELLO"));
    assert!(re.is_match("hElLo"));
    let re = magic_pattern_to_regex("Hello", CaseMode::Sensitive).unwrap();
    assert!(re.is_match("Hello"));
    assert!(!re.is_match("hello"));
    assert!(!re.is_match("HELLO"));
}

#[test]
fn bad_regex_is_an_error() {
    assert!(magic_pattern_to_regex("/a[/", CaseMode::Sensitive).is_err());
    // the same text as a literal compiles
    assert!(magic_pattern_to_regex("a[", CaseMode::Sensitive).is_ok());
    let err = process_magic_patterns(
        vec!["ok".to_owned(), "/(/".to_owned(), "/[/".to_owned()],
        CaseMode::Sensitive,
    )
    .unwrap_err();
    assert_eq!(err.pattern, "/(/");
    let all = process_magic_patterns(vec!["a".to_owned(), "/b+/".to_owned()], CaseMode::Sensitive)
        .unwrap();
    assert_eq!(all.len(), 2);
    assert!(all[1].is_match("bbb"));
}

#[test]
fn batch_line_contains_its_parts() {
    let line = format_batch_line(0x1f, "2010-01-01 00:00:00", "ls -la\nfoo");
    assert_eq!(line, "1f 2010-01-01 00:00:00   ls -la\nfoo");
    assert_eq!(format_batch_line(0, "T", "x"), "0 T   x");
    assert_eq!(format_batch_line(4096, "T", ""), "1000 T   ");
    let e = entry(1262305001, "echo hi");
    let t = e.ts_as_string();
    assert_eq!(t.len(), 19);
    let line = format_batch_line(10, &t, &e.command);
    assert!(line.starts_with("a "));
    assert!(line.contains(&t));
    assert!(line.contains("echo hi"));
    assert_eq!(display_line(&t, "echo hi"), format!("{}   echo hi", t));
    assert_eq!(e.to_display_string(), format!("{}   echo hi", t));
}

#[test]
fn batch_selection_and_tail() {
    let es = vec![
        entry(1262305001, "git a"),
        entry(1262305002, "ls"),
        entry(1262305003, "git b"),
        entry(1262305004, "git c"),
    ];
    assert_eq!(select_batch(&es, &[lit("git")], &[], None), vec![0, 2, 3]);
    assert_eq!(select_batch(&es, &[lit("git")], &[], Some(2)), vec![2, 3]);
    assert_eq!(select_batch(&es, &[lit("git")], &[], Some(10)), vec![0, 2, 3]);
    assert_eq!(select_batch(&es, &[lit("git")], &[], Some(0)), Vec::<usize>::new());
    assert_eq!(select_batch(&es, &[], &[lit("b")], None), vec![0, 1, 3]);
}

#[test]
fn copy_index_out_of_range() {
    let es = vec![entry(1262305001, "a"), entry(1262305002, "b")];
    assert_eq!(command_at(&es, 1).unwrap(), "b");
    let err = command_at(&es, 2).unwrap_err();
    assert_eq!(err.requested, 2);
    assert_eq!(err.max_valid, Some(1));
    assert_eq!(command_at(&[], 0).unwrap_err().max_valid, None);
}

#[test]
fn hex_positions() {
    assert_eq!(parse_hex_to_usize("ff").unwrap(), 255);
    assert_eq!(parse_hex_to_usize("1A").unwrap(), 26);
    assert_eq!(parse_hex_to_usize("+10").unwrap(), 16);
    assert!(parse_hex_to_usize("").is_err());
    assert!(parse_hex_to_usize("-1").is_err());
    assert!(parse_hex_to_usize("g").is_err());
    assert!(parse_hex_to_usize("10000000000000000").is_err());
}

#[test]
fn clipboard_sequence() {
    assert_eq!(copy_to_clipboard_seq("hello"), b"\x1b]52;c;aGVsbG8=\x07".to_vec());
    assert_eq!(copy_to_clipboard_seq(""), b"\x1b]52;c;\x07".to_vec());
}

#[test]
fn timestamps() {
    assert_eq!(default_ts().unix_secs(), MIN_REASONABLE_UNIXTIME);
    assert!(Timestamp::from_unix(i64::MAX).is_none());
    assert_eq!(ts(1262305001).unix_secs(), 1262305001);
    assert_eq!(default_ts().to_local_string().len(), 19);
}

#[test]
fn search_words() {
    assert_eq!(split_words("  foo\tbar \n baz  "), vec!["foo", "bar", "baz"]);
    assert_eq!(split_words("   "), Vec::<String>::new());
    assert_eq!(word_patterns("a.b c", CaseMode::Sensitive).unwrap().len(), 2);
    let ps = word_patterns("a.b", CaseMode::Sensitive).unwrap();
    assert!(ps[0].is_match("xa.by"));
    assert!(!ps[0].is_match("axb"));
}

#[test]
fn entry_rendering() {
    assert_eq!(
        render_entry_lines("TS", "first\nsecond\nthird"),
        vec!["TS first", "   second", "   third"]
    );
    assert_eq!(render_entry_lines("TS", "one"), vec!["TS one"]);
    assert_eq!(render_entry_lines("TS", ""), Vec::<String>::new());
}

fn sample() -> Vec<HistEntry> {
    vec![
        entry(1262305001, "git status"),
        entry(1262305002, "ls -la"),
        entry(1262305003, "git log"),
        entry(1262305004, "git push"),
        entry(1262305005, "make"),
    ]
}

fn selected(app: &App) -> Option<String> {
    app.get_selected().map(|e| e.command)
}

#[test]
fn interactive_keys() {
    let mut app = App::new(sample(), "git".to_owned(), Vec::new(), CaseMode::Sensitive).unwrap();
    assert_eq!(app.shown_positions(), &[0, 2, 3]);
    assert_eq!(app.selected_index(), Some(2));
    assert_eq!(selected(&app).as_deref(), Some("git push"));

    assert!(matches!(app.handle_key(KeyInput::Down).unwrap(), KeyOutcome::Continue));
    assert_eq!(app.selected_index(), Some(2));
    app.handle_key(KeyInput::Up).unwrap();
    app.handle_key(KeyInput::Up).unwrap();
    app.handle_key(KeyInput::Up).unwrap();
    assert_eq!(app.selected_index(), Some(0));
    assert_eq!(selected(&app).as_deref(), Some("git status"));

    app.set_viewport_height(5);
    app.handle_key(KeyInput::PageDown).unwrap();
    assert_eq!(app.selected_index(), Some(2));
    app.handle_key(KeyInput::PageUp).unwrap();
    assert_eq!(app.selected_index(), Some(0));

    app.handle_key(KeyInput::Edited("git l".to_owned())).unwrap();
    assert_eq!(app.shown_positions(), &[2]);
    assert_eq!(app.selected_index(), Some(0));

    app.handle_key(KeyInput::Edited("nothing".to_owned())).unwrap();
    assert_eq!(app.shown_positions(), &[] as &[usize]);
    assert_eq!(app.selected_index(), None);
    app.handle_key(KeyInput::Up).unwrap();
    assert_eq!(app.selected_index(), None);
    match app.handle_key(KeyInput::Enter).unwrap() {
        KeyOutcome::Return(sel) => assert!(sel.is_none()),
        KeyOutcome::Continue => panic!("Enter must leave"),
    }

    app.handle_key(KeyInput::Edited(String::new())).unwrap();
    assert_eq!(app.shown_positions(), &[0, 1, 2, 3, 4]);
    match app.handle_key(KeyInput::Enter).unwrap() {
        KeyOutcome::Return(sel) => assert_eq!(sel.unwrap().command, "make"),
        KeyOutcome::Continue => panic!("Enter must leave"),
    }
    assert!(matches!(app.handle_key(KeyInput::Escape).unwrap(), KeyOutcome::Return(None)));
    assert!(matches!(app.handle_key(KeyInput::CtrlC).unwrap(), KeyOutcome::Return(None)));
}

#[test]
fn interactive_case_and_excludes() {
    let app = App::new(sample(), "GIT".to_owned(), Vec::new(), CaseMode::Insensitive).unwrap();
    assert_eq!(app.shown_positions(), &[0, 2, 3]);
    let excl = vec![raw_pattern_to_regex("push", CaseMode::Sensitive).unwrap()];
    let app = App::new(sample(), "git".to_owned(), excl, CaseMode::Sensitive).unwrap();
    assert_eq!(app.master_entries().len(), 4);
    assert_eq!(app.shown_positions(), &[0, 2]);
}

#[test]
fn insensitive_literal_ignores_ascii_case() {
    let re = magic_pattern_to_regex("A-b.C", CaseMode::Insensitive).unwrap();
    assert!(re.is_match("xa-B.cx"));
    assert!(re.is_match("XA-B.CX"));
    assert!(!re.is_match("xa-bxcx"));
    assert!(!re.is_match("a_b.c"));
}

#[test]
fn repeated_timestamp_line_is_dropped() {
    let with = parse_history_file("#1262305001\n#1262305003\nfoo\nbar\n#1262305007\nbaz");
    let without = parse_history_file("#1262305001\nfoo\nbar\n#1262305007\nbaz");
    assert_eq!(with, without);
    assert_eq!(with, vec![entry(1262305001, "foo\nbar"), entry(1262305007, "baz")]);
}

#[test]
fn local_time_text_follows_the_instant() {
    let a = ts(1262305001).to_local_string();
    let b = ts(1262305001 + 40 * 86400).to_local_string();
    let c = ts(1262305001 + 61).to_local_string();
    assert_ne!(a, b);
    assert_ne!(a, c);
    for t in [&a, &b, &c] {
        assert_eq!(t.len(), 19);
        let bytes = t.as_bytes();
        assert_eq!(bytes[4], b'-');
        assert_eq!(bytes[7], b'-');
        assert_eq!(bytes[10], b' ');
        assert_eq!(bytes[13], b':');
        assert_eq!(bytes[16], b':');
    }
    // 61 seconds later the seconds field has moved on by one
    let sec = |t: &str| t[17..19].parse::<u32>().unwrap();
    assert_eq!((sec(&c) + 60 - sec(&a)) % 60, 1);
    assert!(a.starts_with("2009-12-31") || a.starts_with("2010-01-0"));
}

#[test]
fn representable_range_edges() {
    assert!(Timestamp::from_unix(8210266876799).is_some());
    assert!(Timestamp::from_unix(8210266876800).is_none());
    assert!(Timestamp::from_unix(-8334601228800).is_some());
    assert!(Timestamp::from_unix(-8334601228801).is_none());
    assert_eq!(
        ParsedLine::parse("#8210266876799"),
        ParsedLine::Timestamp(ts(8210266876799))
    );
    assert_eq!(
        ParsedLine::parse("#8210266876800"),
        ParsedLine::Command("#8210266876800".to_owned())
    );
    assert!(ts(8210266876799).to_local_string().len() >= 19);
}
