use vstd::prelude::*;

use crate::pattern::{finds, pattern_views, CompiledPattern};
use crate::text::{join_lines, lines_of, push_char, push_str, split_lines, views};
use crate::timestamp::{
    default_ts, is_local_text, utc_representable, Timestamp, MIN_REASONABLE_UNIXTIME,
};

verus! {

/// One command of the history, with the time it was run.
#[derive(Clone, PartialEq, Eq, Debug)]
pub struct HistEntry {
    pub ts: Timestamp,
    pub command: String,
}

impl View for HistEntry {
    type V = (int, Seq<char>);

    open spec fn view(&self) -> (int, Seq<char>) {
        (self.ts.unix(), self.command@)
    }
}

pub open spec fn entry_views(v: Seq<HistEntry>) -> Seq<(int, Seq<char>)> {
    v.map_values(|e: HistEntry| e@)
}

pub open spec fn is_digit(c: char) -> bool {
    '0' <= c && c <= '9'
}

/// The number that a sequence of decimal digits writes.
pub open spec fn digits_value(s: Seq<char>) -> int
    decreases s.len(),
{
    if s.len() == 0 {
        0
    } else {
        digits_value(s.drop_last()) * 10 + (s.last() as int - '0' as int)
    }
}

/// The number on a marker line: `#` followed by one or more ASCII digits and
/// nothing else.
pub open spec fn marker_value(line: Seq<char>) -> Option<int> {
    if line.len() >= 2 && line[0] == '#' && (forall|k: int|
        1 <= k < line.len() ==> is_digit(#[trigger] line[k])) {
        Some(digits_value(line.drop_first()))
    } else {
        None
    }
}

/// The time that a line records, if it is a timestamp line: a marker whose
/// number is at least the minimum reasonable time, fits in an `i64` and is an
/// instant that can be represented.
pub open spec fn line_stamp(line: Seq<char>) -> Option<int> {
    match marker_value(line) {
        Some(v) => if MIN_REASONABLE_UNIXTIME <= v <= i64::MAX && utc_representable(v) {
            Some(v)
        } else {
            None
        },
        None => None,
    }
}

proof fn lemma_digits_step(s: Seq<char>, c: char)
    ensures
        digits_value(s.push(c)) == digits_value(s) * 10 + (c as int - '0' as int),
{
    assert(s.push(c).drop_last() == s);
}

/// The number after `#` on a marker line, when it fits in an `i64`.
fn marker_number(line: &str) -> (r: Option<i64>)
    ensures
        r is Some <==> (marker_value(line@) is Some && marker_value(line@)->0 <= i64::MAX),
        r matches Some(v) ==> v == marker_value(line@)->0,
{
    broadcast use vstd::string::axiom_spec_iter;

    let mut seen_hash = false;
    let mut seen_digit = false;
    let mut shape_ok = true;
    let mut too_big = false;
    let mut val: i64 = 0;
    for c in it: line.chars()
        invariant
            it.seq() == line@,
            seen_hash <==> it.index() >= 1,
            seen_digit <==> it.index() >= 2,
            shape_ok <==> (it.index() == 0 || (line@[0] == '#' && forall|k: int|
                1 <= k < it.index() ==> is_digit(#[trigger] line@[k]))),
            shape_ok && seen_hash ==> (too_big <==> digits_value(
                line@.subrange(1, it.index() as int),
            ) > i64::MAX),
            shape_ok && seen_hash && !too_big ==> val == digits_value(
                line@.subrange(1, it.index() as int),
            ),
            !seen_hash ==> !too_big && val == 0,
            0 <= val,
    {
        let ghost n = it.index();
        if !seen_hash {
            shape_ok = c == '#';
            seen_hash = true;
            proof {
                assert(line@.subrange(1, 1) == Seq::<char>::empty());
            }
        } else {
            seen_digit = true;
            if shape_ok {
                if '0' <= c && c <= '9' {
                    proof {
                        assert(c == line@[n]);
                        assert(line@.subrange(1, n + 1) == line@.subrange(1, n).push(c));
                        lemma_digits_step(line@.subrange(1, n), c);
                    }
                    let d: i64 = (c as u32 - 48) as i64;
                    assert(d == c as int - '0' as int);
                    if !too_big {
                        if val <= (i64::MAX - d) / 10 {
                            proof {
                                assert(val * 10 + d <= i64::MAX) by (nonlinear_arith)
                                    requires
                                        0 <= d <= 9,
                                        0 <= val <= (i64::MAX - d) / 10,
                                ;
                            }
                            val = val * 10 + d;
                        } else {
                            proof {
                                assert(val * 10 + d > i64::MAX) by (nonlinear_arith)
                                    requires
                                        0 <= d <= 9,
                                        val > (i64::MAX - d) / 10,
                                ;
                            }
                            too_big = true;
                        }
                    }
                } else {
                    shape_ok = false;
                }
            }
        }
    }
    proof {
        if seen_digit {
            assert(line@.drop_first() == line@.subrange(1, line@.len() as int));
        }
    }
    if shape_ok && seen_digit && !too_big {
        Some(val)
    } else {
        None
    }
}

/// A single line of a history file, classified.
#[derive(Debug, Clone, PartialEq, Eq)]
pub enum ParsedLine {
    Timestamp(Timestamp),
    Command(String),
}

impl ParsedLine {
    /// A line is a timestamp if it reads `#` and digits only, with a value of
    /// at least the minimum reasonable time; any other line is a command,
    /// kept exactly as it is.
    pub fn parse(line: &str) -> (r: ParsedLine)
        ensures
            line_stamp(line@) is Some ==> (r matches ParsedLine::Timestamp(t) && t.unix()
                == line_stamp(line@)->0),
            line_stamp(line@) is None ==> (r matches ParsedLine::Command(s) && s@ == line@),
    {
        match marker_number(line) {
            Some(v) => {
                if v >= MIN_REASONABLE_UNIXTIME {
                    match Timestamp::from_unix(v) {
                        Some(t) => {
                            return ParsedLine::Timestamp(t);
                        },
                        None => {},
                    }
                }
            },
            None => {},
        }
        ParsedLine::Command(line.to_owned())
    }
}

/// Where the parser stands after the lines read so far.
#[derive(Clone, Copy, Eq, PartialEq, Debug, Structural)]
pub enum FileParseState {
    /// No timestamp has been read yet: each line is a command of its own.
    NoTimestamps,
    /// The previous line was a timestamp.
    LastWasTimestamp,
    /// The previous line was a command.
    LastWasCommand,
}

/// What the parser holds after some lines: the finished entries, its state,
/// the timestamp of the entry in progress and that entry's lines.
pub type ParseAcc = (Seq<(int, Seq<char>)>, FileParseState, int, Seq<Seq<char>>);

/// The parser's step on one line.
pub open spec fn parse_step(acc: ParseAcc, line: Seq<char>) -> ParseAcc {
    let (out, st, ts, cur) = acc;
    match line_stamp(line) {
        None => match st {
            FileParseState::NoTimestamps => (
                out.push((MIN_REASONABLE_UNIXTIME as int, line)),
                st,
                ts,
                cur,
            ),
            _ => (out, FileParseState::LastWasCommand, ts, cur.push(line)),
        },
        Some(t) => match st {
            FileParseState::NoTimestamps => (out, FileParseState::LastWasTimestamp, t, cur),
            FileParseState::LastWasTimestamp => acc,
            FileParseState::LastWasCommand => (
                out.push((ts, join_lines(cur))),
                FileParseState::LastWasTimestamp,
                t,
                Seq::empty(),
            ),
        },
    }
}

/// The parser after reading `lines` in order.
pub open spec fn parse_acc(lines: Seq<Seq<char>>) -> ParseAcc
    decreases lines.len(),
{
    if lines.len() == 0 {
        (
            Seq::empty(),
            FileParseState::NoTimestamps,
            MIN_REASONABLE_UNIXTIME as int,
            Seq::empty(),
        )
    } else {
        parse_step(parse_acc(lines.drop_last()), lines.last())
    }
}

/// The entries of a history made of `lines`: the finished ones, and the entry
/// in progress if it has a command line.
pub open spec fn parse_lines(lines: Seq<Seq<char>>) -> Seq<(int, Seq<char>)> {
    let (out, st, ts, cur) = parse_acc(lines);
    if st == FileParseState::LastWasCommand {
        out.push((ts, join_lines(cur)))
    } else {
        out
    }
}

/// The entries of a history file whose text is `text`.
pub open spec fn parse_history(text: Seq<char>) -> Seq<(int, Seq<char>)> {
    parse_lines(lines_of(text))
}

/// Parses the text of a history file into its entries, in file order.
///
/// Before the first timestamp line each line is a command of its own, with
/// the default timestamp. From then on each entry is a timestamp line followed
/// by one or more command lines, which make a multi-line command. A timestamp
/// line right after another is ignored, and so is a timestamp at the end that
/// no command follows. Empty lines are commands like any other.
pub fn parse_history_file(text: &str) -> (r: Vec<HistEntry>)
    ensures
        entry_views(r@) == parse_history(text@),
{
    let lines = split_lines(text);
    let mut ret: Vec<HistEntry> = Vec::new();
    let mut state = FileParseState::NoTimestamps;
    let mut cur_ts = default_ts();
    let mut cur_cmd = String::new();
    let ghost mut cur: Seq<Seq<char>> = Seq::empty();
    let mut i: usize = 0;
    while i < lines.len()
        invariant
            0 <= i <= lines.len(),
            views(lines@) == lines_of(text@),
            parse_acc(views(lines@).take(i as int)) == (entry_views(ret@), state, cur_ts.unix(), cur),
            cur_cmd@ == join_lines(cur),
            (state == FileParseState::LastWasCommand) <==> cur.len() > 0,
        decreases lines.len() - i,
    {
        let ghost before = views(lines@).take(i as int);
        let ghost line = lines@[i as int]@;
        proof {
            assert(views(lines@).take(i + 1).drop_last() == before);
            assert(views(lines@)[i as int] == line);
        }
        let parsed = ParsedLine::parse(lines[i].as_str());
        match parsed {
            ParsedLine::Command(cmd) => {
                if state == FileParseState::NoTimestamps {
                    let e = HistEntry { ts: default_ts(), command: cmd };
                    proof {
                        assert(entry_views(ret@.push(e)) == entry_views(ret@).push(e@));
                    }
                    ret.push(e);
                } else {
                    proof {
                        assert(cur.push(line).drop_last() == cur);
                    }
                    if state == FileParseState::LastWasCommand {
                        push_char(&mut cur_cmd, '\n');
                        push_str(&mut cur_cmd, cmd.as_str());
                    } else {
                        cur_cmd = cmd;
                    }
                    proof {
                        cur = cur.push(line);
                    }
                    state = FileParseState::LastWasCommand;
                }
            },
            ParsedLine::Timestamp(t) => {
                if state == FileParseState::NoTimestamps {
                    cur_ts = t;
                    state = FileParseState::LastWasTimestamp;
                } else if state == FileParseState::LastWasCommand {
                    let done = cur_cmd;
                    cur_cmd = String::new();
                    let e = HistEntry { ts: cur_ts, command: done };
                    proof {
                        assert(entry_views(ret@.push(e)) == entry_views(ret@).push(e@));
                    }
                    ret.push(e);
                    cur_ts = t;
                    proof {
                        cur = Seq::empty();
                    }
                    state = FileParseState::LastWasTimestamp;
                }
            },
        }
        i = i + 1;
    }
    proof {
        assert(views(lines@).take(lines.len() as int) == views(lines@));
    }
    if state == FileParseState::LastWasCommand {
        let e = HistEntry { ts: cur_ts, command: cur_cmd };
        proof {
            assert(entry_views(ret@.push(e)) == entry_views(ret@).push(e@));
        }
        ret.push(e);
    }
    ret
}

/// An entry with the default timestamp and the command `l`.
pub open spec fn sentinel_entry(l: Seq<char>) -> (int, Seq<char>) {
    (MIN_REASONABLE_UNIXTIME as int, l)
}

proof fn lemma_acc_no_timestamps(lines: Seq<Seq<char>>)
    requires
        forall|k: int| 0 <= k < lines.len() ==> (#[trigger] line_stamp(lines[k])) is None,
    ensures
        parse_acc(lines) == (
            lines.map_values(|l: Seq<char>| sentinel_entry(l)),
            FileParseState::NoTimestamps,
            MIN_REASONABLE_UNIXTIME as int,
            Seq::<Seq<char>>::empty(),
        ),
    decreases lines.len(),
{
    if lines.len() > 0 {
        let front = lines.drop_last();
        assert forall|k: int| 0 <= k < front.len() implies (#[trigger] line_stamp(front[k])) is None by {
            assert(front[k] == lines[k]);
        }
        lemma_acc_no_timestamps(front);
        assert(line_stamp(lines[lines.len() - 1]) is None);
        assert(lines.map_values(|l: Seq<char>| sentinel_entry(l)) == front.map_values(
            |l: Seq<char>| sentinel_entry(l),
        ).push(sentinel_entry(lines.last())));
    }
}

/// A history without timestamp lines has one entry per line, in file order,
/// each with the default timestamp.
pub proof fn lemma_no_timestamps(text: Seq<char>)
    requires
        forall|k: int|
            0 <= k < lines_of(text).len() ==> (#[trigger] line_stamp(lines_of(text)[k])) is None,
    ensures
        parse_history(text) == lines_of(text).map_values(|l: Seq<char>| sentinel_entry(l)),
{
    lemma_acc_no_timestamps(lines_of(text));
}

/// Runs of consecutive entries with the same command, each reduced to its
/// first entry: an entry is dropped exactly when its command repeats that of
/// the entry just before it.
pub open spec fn dedup_spec(s: Seq<(int, Seq<char>)>) -> Seq<(int, Seq<char>)>
    decreases s.len(),
{
    if s.len() == 0 {
        s
    } else if s.len() >= 2 && s[s.len() - 2].1 == s.last().1 {
        dedup_spec(s.drop_last())
    } else {
        dedup_spec(s.drop_last()).push(s.last())
    }
}

/// No two neighbours have the same command.
pub open spec fn no_adjacent_repeats(s: Seq<(int, Seq<char>)>) -> bool {
    forall|i: int| 1 <= i < s.len() ==> #[trigger] s[i].1 != s[i - 1].1
}

proof fn lemma_dedup_last(s: Seq<(int, Seq<char>)>)
    requires
        s.len() > 0,
    ensures
        dedup_spec(s).len() > 0,
        dedup_spec(s).last().1 == s.last().1,
    decreases s.len(),
{
    if s.len() >= 2 && s[s.len() - 2].1 == s.last().1 {
        lemma_dedup_last(s.drop_last());
    }
}

/// No two neighbours in a deduplicated list have the same command.
pub proof fn lemma_dedup_no_adjacent(s: Seq<(int, Seq<char>)>)
    ensures
        no_adjacent_repeats(dedup_spec(s)),
    decreases s.len(),
{
    if s.len() > 0 {
        lemma_dedup_no_adjacent(s.drop_last());
        if !(s.len() >= 2 && s[s.len() - 2].1 == s.last().1) && s.len() >= 2 {
            lemma_dedup_last(s.drop_last());
            let d = dedup_spec(s.drop_last());
            assert forall|i: int| 1 <= i < d.push(s.last()).len() implies #[trigger] d.push(
                s.last(),
            )[i].1 != d.push(s.last())[i - 1].1 by {
                if i < d.len() {
                    assert(d[i].1 != d[i - 1].1);
                }
            }
        }
    }
}

proof fn lemma_dedup_fixed(t: Seq<(int, Seq<char>)>)
    requires
        no_adjacent_repeats(t),
    ensures
        dedup_spec(t) == t,
    decreases t.len(),
{
    if t.len() > 0 {
        let front = t.drop_last();
        assert forall|i: int| 1 <= i < front.len() implies #[trigger] front[i].1 != front[i - 1].1 by {
            assert(t[i].1 != t[i - 1].1);
        }
        lemma_dedup_fixed(front);
        if t.len() >= 2 {
            assert(t[t.len() - 1].1 != t[t.len() - 2].1);
        }
        assert(front.push(t.last()) == t);
    }
}

/// Deduplicating twice gives what deduplicating once gives.
pub proof fn lemma_dedup_idempotent(s: Seq<(int, Seq<char>)>)
    ensures
        dedup_spec(dedup_spec(s)) == dedup_spec(s),
{
    lemma_dedup_no_adjacent(s);
    lemma_dedup_fixed(dedup_spec(s));
}

/// Deduplicates consecutive entries with the same command, keeping the first
/// entry of each run.
pub fn dedup_entries(entries: Vec<HistEntry>) -> (r: Vec<HistEntry>)
    ensures
        entry_views(r@) == dedup_spec(entry_views(entries@)),
{
    broadcast use vstd::std_specs::vec::axiom_spec_into_iter;

    let ghost orig = entries@;
    let ghost all = entry_views(entries@);
    let mut ret: Vec<HistEntry> = Vec::with_capacity(entries.len());
    for e in it: entries.into_iter()
        invariant
            it.seq() == orig,
            all == entry_views(orig),
            entry_views(ret@) == dedup_spec(all.take(it.index())),
    {
        let ghost i = it.index();
        proof {
            assert(all.take(i + 1).drop_last() == all.take(i));
            assert(all.take(i + 1).last() == e@);
            if i > 0 {
                lemma_dedup_last(all.take(i));
                assert(all.take(i).last() == all.take(i + 1)[i - 1]);
            }
        }
        let n = ret.len();
        let repeat = n > 0 && ret[n - 1].command == e.command;
        if !repeat {
            proof {
                assert(entry_views(ret@.push(e)) == entry_views(ret@).push(e@));
            }
            ret.push(e);
        }
    }
    proof {
        assert(all.take(all.len() as int) == all);
    }
    ret
}

/// Every pattern of `inc` matches somewhere in `text`.
pub open spec fn matches_all(text: Seq<char>, inc: Seq<(Seq<char>, bool)>) -> bool {
    forall|k: int| 0 <= k < inc.len() ==> finds(#[trigger] inc[k].0, inc[k].1, text)
}

/// Some pattern of `exc` matches somewhere in `text`.
pub open spec fn matches_any(text: Seq<char>, exc: Seq<(Seq<char>, bool)>) -> bool {
    exists|k: int| 0 <= k < exc.len() && finds(#[trigger] exc[k].0, exc[k].1, text)
}

/// `text` is matched by all of `inc` and by none of `exc`.
pub open spec fn entry_matches(
    text: Seq<char>,
    inc: Seq<(Seq<char>, bool)>,
    exc: Seq<(Seq<char>, bool)>,
) -> bool {
    matches_all(text, inc) && !matches_any(text, exc)
}

/// One more include pattern, or one more exclude pattern, never lets an entry
/// match that did not match before.
pub proof fn lemma_matching_monotonic(
    text: Seq<char>,
    inc: Seq<(Seq<char>, bool)>,
    exc: Seq<(Seq<char>, bool)>,
    p: (Seq<char>, bool),
)
    ensures
        entry_matches(text, inc.push(p), exc) ==> entry_matches(text, inc, exc),
        entry_matches(text, inc, exc.push(p)) ==> entry_matches(text, inc, exc),
{
    if entry_matches(text, inc.push(p), exc) {
        assert forall|k: int| 0 <= k < inc.len() implies finds(#[trigger] inc[k].0, inc[k].1, text) by {
            assert(inc.push(p)[k] == inc[k]);
        }
    }
    if entry_matches(text, inc, exc.push(p)) {
        if matches_any(text, exc) {
            let k = choose|k: int| 0 <= k < exc.len() && finds(#[trigger] exc[k].0, exc[k].1, text);
            assert(exc.push(p)[k] == exc[k]);
        }
    }
}

impl HistEntry {
    /// Whether this entry's command is matched by every pattern of
    /// `include_re` and by none of `exclude_re`, anywhere in its text.
    pub fn matches(&self, include_re: &[CompiledPattern], exclude_re: &[CompiledPattern]) -> (r:
        bool)
        ensures
            r == entry_matches(
                self.command@,
                pattern_views(include_re@),
                pattern_views(exclude_re@),
            ),
    {
        let ghost inc = pattern_views(include_re@);
        let ghost exc = pattern_views(exclude_re@);
        let mut i: usize = 0;
        while i < include_re.len()
            invariant
                0 <= i <= include_re.len(),
                inc == pattern_views(include_re@),
                forall|k: int| 0 <= k < i ==> finds(#[trigger] inc[k].0, inc[k].1, self.command@),
            decreases include_re.len() - i,
        {
            if !include_re[i].is_match(self.command.as_str()) {
                proof {
                    assert(inc[i as int] == include_re@[i as int]@);
                }
                return false;
            }
            i = i + 1;
        }
        let mut j: usize = 0;
        while j < exclude_re.len()
            invariant
                0 <= j <= exclude_re.len(),
                exc == pattern_views(exclude_re@),
                forall|k: int| 0 <= k < j ==> !finds(#[trigger] exc[k].0, exc[k].1, self.command@),
            decreases exclude_re.len() - j,
        {
            if exclude_re[j].is_match(self.command.as_str()) {
                proof {
                    assert(exc[j as int] == exclude_re@[j as int]@);
                }
                return false;
            }
            j = j + 1;
        }
        true
    }

    /// The timestamp in local time, as `YYYY-MM-DD HH:MM:SS`.
    pub fn ts_as_string(&self) -> (r: String)
        ensures
            is_local_text(self.ts.unix(), r@),
            r@.len() >= 19,
    {
        self.ts.to_local_string()
    }

    /// The entry as one text: its local time, three spaces and its command.
    pub fn to_display_string(&self) -> (r: String)
        ensures
            exists|t: Seq<char>|
                is_local_text(self.ts.unix(), t) && t.len() >= 19 && r@ == #[trigger] display_text(
                    t,
                    self.command@,
                ),
    {
        let ts = self.ts_as_string();
        display_line(ts.as_str(), self.command.as_str())
    }
}

/// An entry shown as text: the time, three spaces, then the command.
pub open spec fn display_text(ts: Seq<char>, command: Seq<char>) -> Seq<char> {
    ts + seq![' ', ' ', ' '] + command
}

/// Lays out an entry from its formatted time and its command.
pub fn display_line(ts: &str, command: &str) -> (r: String)
    ensures
        r@ == display_text(ts@, command@),
{
    let mut s = ts.to_owned();
    push_char(&mut s, ' ');
    push_char(&mut s, ' ');
    push_char(&mut s, ' ');
    push_str(&mut s, command);
    s
}

/// The commands of a list of entries.
pub open spec fn commands(es: Seq<(int, Seq<char>)>) -> Seq<Seq<char>> {
    es.map_values(|e: (int, Seq<char>)| e.1)
}

/// The positions below `n` of the texts matched by all of `inc` and none of
/// `exc`, in increasing order.
pub open spec fn matching_indices(
    texts: Seq<Seq<char>>,
    inc: Seq<(Seq<char>, bool)>,
    exc: Seq<(Seq<char>, bool)>,
    n: nat,
) -> Seq<int>
    decreases n,
{
    if n == 0 {
        Seq::empty()
    } else {
        let prev = matching_indices(texts, inc, exc, (n - 1) as nat);
        if entry_matches(texts[n - 1], inc, exc) {
            prev.push(n - 1)
        } else {
            prev
        }
    }
}

/// The entries at the given positions, in that order.
pub open spec fn pick(es: Seq<(int, Seq<char>)>, idx: Seq<int>) -> Seq<(int, Seq<char>)> {
    idx.map_values(|k: int| es[k])
}

pub open spec fn usize_views(v: Seq<usize>) -> Seq<int> {
    v.map_values(|k: usize| k as int)
}

/// The positions of the entries that all of `include_re` and none of
/// `exclude_re` match, in increasing order.
pub fn matching_positions(
    entries: &[HistEntry],
    include_re: &[CompiledPattern],
    exclude_re: &[CompiledPattern],
) -> (r: Vec<usize>)
    ensures
        usize_views(r@) == matching_indices(
            commands(entry_views(entries@)),
            pattern_views(include_re@),
            pattern_views(exclude_re@),
            entries@.len(),
        ),
{
    let ghost texts = commands(entry_views(entries@));
    let ghost inc = pattern_views(include_re@);
    let ghost exc = pattern_views(exclude_re@);
    let mut out: Vec<usize> = Vec::new();
    let mut i: usize = 0;
    while i < entries.len()
        invariant
            0 <= i <= entries.len(),
            texts == commands(entry_views(entries@)),
            inc == pattern_views(include_re@),
            exc == pattern_views(exclude_re@),
            usize_views(out@) == matching_indices(texts, inc, exc, i as nat),
        decreases entries.len() - i,
    {
        proof {
            assert(texts[i as int] == entries@[i as int].command@);
        }
        if entries[i].matches(include_re, exclude_re) {
            proof {
                assert(usize_views(out@.push(i)) == usize_views(out@).push(i as int));
            }
            out.push(i);
        }
        i = i + 1;
    }
    out
}

impl HistEntry {
    /// A copy of this entry.
    pub fn copy_entry(&self) -> (r: HistEntry)
        ensures
            r@ == self@,
    {
        HistEntry { ts: self.ts, command: self.command.clone() }
    }
}

proof fn lemma_acc_extend(a: Seq<Seq<char>>, b: Seq<Seq<char>>, rest: Seq<Seq<char>>)
    requires
        parse_acc(a) == parse_acc(b),
    ensures
        parse_acc(a + rest) == parse_acc(b + rest),
    decreases rest.len(),
{
    if rest.len() == 0 {
        assert(a + rest == a);
        assert(b + rest == b);
    } else {
        lemma_acc_extend(a, b, rest.drop_last());
        assert((a + rest).drop_last() == a + rest.drop_last());
        assert((b + rest).drop_last() == b + rest.drop_last());
    }
}

/// A timestamp line right after another timestamp line changes nothing: the
/// first one stands for the command lines that follow, the second is dropped.
pub proof fn lemma_repeated_timestamp(lines: Seq<Seq<char>>, k: int)
    requires
        0 <= k,
        k + 1 < lines.len(),
        line_stamp(lines[k]) is Some,
        line_stamp(lines[k + 1]) is Some,
    ensures
        parse_lines(lines) == parse_lines(lines.remove(k + 1)),
{
    let first = lines.take(k + 1);
    let both = lines.take(k + 2);
    let rest = lines.skip(k + 2);
    assert(first.drop_last() == lines.take(k));
    assert(both.drop_last() == first);
    assert(first.last() == lines[k]);
    assert(both.last() == lines[k + 1]);
    assert(parse_acc(first).1 == FileParseState::LastWasTimestamp);
    assert(parse_acc(both) == parse_acc(first));
    lemma_acc_extend(both, first, rest);
    assert(both + rest == lines);
    assert(first + rest == lines.remove(k + 1));
}

/// A history text with two timestamp lines in a row parses as the text with
/// the second of them left out.
pub proof fn lemma_repeated_timestamp_text(text: Seq<char>, k: int)
    requires
        0 <= k,
        k + 1 < lines_of(text).len(),
        line_stamp(lines_of(text)[k]) is Some,
        line_stamp(lines_of(text)[k + 1]) is Some,
    ensures
        parse_history(text) == parse_lines(lines_of(text).remove(k + 1)),
{
    lemma_repeated_timestamp(lines_of(text), k);
}

} // verus!
