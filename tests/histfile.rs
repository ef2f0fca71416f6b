use history_grep::histfile::{dedup_entries, parse_history_file, HistEntry, ParsedLine};
use history_grep::pattern::raw_pattern_to_regex;
use history_grep::timestamp::{default_ts, Timestamp, MIN_REASONABLE_UNIXTIME};
use history_grep::CaseMode;

fn ts(secs: i64) -> Timestamp {
    Timestamp::from_unix(secs).unwrap()
}

fn newentry(ts: Timestamp, command: &str) -> HistEntry {
    HistEntry {
        ts,
        command: command.to_owned(),
    }
}

#[test]
fn test_parse_line() {
    // Not an integer ==> parsed as command
    assert_eq!(
        ParsedLine::parse("# foo bar"),
        ParsedLine::Command("# foo bar".to_owned())
    );
    // Timestamp before earliest time
    assert_eq!(
        ParsedLine::parse("#1234"),
        ParsedLine::Command("#1234".to_owned())
    );
    assert_eq!(
        ParsedLine::parse("#1262303999"),
        ParsedLine::Command("#1262303999".to_owned())
    );
    // Timestamp at or after the earliest date
    assert_eq!(
        ParsedLine::parse("#1262304000"),
        ParsedLine::Timestamp(ts(1262304000))
    );
    // Trailing and leading whitespace is not accepted
    assert_eq!(
        ParsedLine::parse("#1262304422 "),
        ParsedLine::Command("#1262304422 ".to_owned())
    );
    assert_eq!(
        ParsedLine::parse(" #1262304422"),
        ParsedLine::Command(" #1262304422".to_owned())
    );
    // Not just a timestamp on the line
    assert_eq!(
        ParsedLine::parse("#1262304000 asdf foobar"),
        ParsedLine::Command("#1262304000 asdf foobar".to_owned())
    );
    // Leading and trailing whitespace is retained
    assert_eq!(
        ParsedLine::parse(" foo bar baz "),
        ParsedLine::Command(" foo bar baz ".to_owned())
    );
    // Empty lines or lines with just whitespace
    assert_eq!(
        ParsedLine::parse("  "),
        ParsedLine::Command("  ".to_string())
    );
    assert_eq!(ParsedLine::parse(""), ParsedLine::Command(String::new()));
}

#[test]
fn test_parse_file_no_timestamp() {
    let mkentry = |cmd: &str| HistEntry {
        ts: default_ts(),
        command: cmd.to_owned(),
    };
    let expected = vec![mkentry("foo"), mkentry("bar"), mkentry("foobar baz")];
    let hist = "foo\nbar\nfoobar baz\n";
    assert_eq!(parse_history_file(hist), expected);

    // no trailing newline
    let hist = "foo\nbar\nfoobar baz";
    assert_eq!(parse_history_file(hist), expected);
}

#[test]
fn test_parse_file_timestamps() {
    let mkentry = |t, cmd: &str| newentry(ts(t), cmd);
    let mkmultiline = |t, cmds: &[&str]| newentry(ts(t), &cmds.join("\n"));
    // First commands have no timestamps, then timestamps are used
    let hist = "foo\n\
        foobar\n\
        #1262305001\n\
        this is a command\n\
        #1262305003\n\
        multi line\n\
        command\n\
        foo\n";
    let res = parse_history_file(hist);
    assert_eq!(
        res,
        vec![
            mkentry(MIN_REASONABLE_UNIXTIME, "foo"),
            mkentry(MIN_REASONABLE_UNIXTIME, "foobar"),
            mkentry(1262305001, "this is a command"),
            mkmultiline(1262305003, &["multi line", "command", "foo"]),
        ]
    );

    // Lines that are almost a timestamp
    let hist = "#1262305001\n\
      #12623030\n\
        foo\n\
        #1262305003\n\
        bar";
    let res = parse_history_file(hist);
    assert_eq!(
        res,
        vec![
            mkmultiline(1262305001, &["#12623030", "foo"]),
            mkentry(1262305003, "bar"),
        ]
    );

    // Consecutive timestamps
    let hist = "#1262305001\n\
            #1262305003\n\
            foo\n\
            #1262305007\n\
            bar";
    let res = parse_history_file(hist);
    assert_eq!(
        res,
        vec![mkentry(1262305001, "foo"), mkentry(1262305007, "bar")]
    );
}

#[test]
fn test_parse_file_timestamps_and_whitespace() {
    let mkentry = |t, cmd: &str| newentry(ts(t), cmd);
    let mkmultiline = |t, cmds: &[&str]| newentry(ts(t), &cmds.join("\n"));
    let hist = "#1262305001\nfoobar \n#1262305005\n\nbar bar bar\n\n";
    let res = parse_history_file(hist);
    assert_eq!(
        res,
        vec![
            mkentry(1262305001, "foobar "),
            mkmultiline(1262305005, &["", "bar bar bar", ""]),
        ]
    );
}

#[test]
fn test_matches() {
    let mk_re = |p: &str| raw_pattern_to_regex(p, CaseMode::Sensitive).unwrap();
    let entry = HistEntry {
        ts: default_ts(),
        command: "I am the command\nwith many lines. Foobar".to_owned(),
    };
    assert!(entry.matches(&[mk_re("am the"), mk_re("many")], &[]));
    assert!(entry.matches(&[], &[]));
    assert!(!entry.matches(&[], &[mk_re("many")]));
    assert!(!entry.matches(&[], &[mk_re("many"), mk_re("XXXX")]));
    assert!(!entry.matches(
        &[mk_re("am the"), mk_re("many")],
        &[mk_re("many"), mk_re("XXXX")]
    ));
    assert!(!entry.matches(&[mk_re("am the"), mk_re("XXX")], &[]));
    assert!(entry.matches(&[mk_re("am the"), mk_re("am the")], &[]));
}

#[test]
fn test_dedup_entries() {
    let t0 = default_ts();
    let t1 = ts(MIN_REASONABLE_UNIXTIME + 5 * 60);
    let t2 = ts(MIN_REASONABLE_UNIXTIME + 10 * 60);
    let t3 = ts(MIN_REASONABLE_UNIXTIME + 12 * 60);
    let t4 = ts(MIN_REASONABLE_UNIXTIME + 23 * 60);
    let orig = vec![
        newentry(t0, "ls -la"),
        newentry(t1, "rm foobar"),
        newentry(t2, "rm foobar"),
        newentry(t3, "rm foobar"),
        newentry(t4, "ls -la"),
    ];
    assert_eq!(
        dedup_entries(orig),
        vec![
            newentry(t0, "ls -la"),
            newentry(t1, "rm foobar"),
            newentry(t4, "ls -la"),
        ]
    );
}
