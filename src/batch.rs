use vstd::prelude::*;

use itertools::Itertools;

use crate::histfile::{
    commands, display_text, entry_views, matching_indices, matching_positions, usize_views,
    HistEntry,
};
use crate::pattern::{contains, pattern_views, CompiledPattern};
use crate::text::{push_char, push_str};

verus! {

/// The last `n` items of `s`, or all of them when there are fewer.
pub open spec fn last_items<T>(s: Seq<T>, n: int) -> Seq<T> {
    if s.len() <= n {
        s
    } else {
        s.subrange(s.len() - n, s.len() as int)
    }
}

/// Relies on itertools::Itertools::tail: the last `n` items, in order.
#[verifier::external_body]
fn tail_of(v: Vec<usize>, n: usize) -> (r: Vec<usize>)
    ensures
        r@ == last_items(v@, n as int),
{
    v.into_iter().tail(n).collect()
}

/// The positions of the entries to print in batch mode: those that all of
/// `include_re` and none of `exclude_re` match, in order, and only the last
/// `tail` of them when a limit is given.
pub fn select_batch(
    entries: &[HistEntry],
    include_re: &[CompiledPattern],
    exclude_re: &[CompiledPattern],
    tail: Option<usize>,
) -> (r: Vec<usize>)
    ensures
        ({
            let all = matching_indices(
                commands(entry_views(entries@)),
                pattern_views(include_re@),
                pattern_views(exclude_re@),
                entries@.len(),
            );
            usize_views(r@) == match tail {
                Some(n) => last_items(all, n as int),
                None => all,
            }
        }),
{
    let all = matching_positions(entries, include_re, exclude_re);
    match tail {
        Some(n) => {
            let r = tail_of(all, n);
            proof {
                if all@.len() > n {
                    assert(usize_views(r@) == usize_views(all@).subrange(
                        all@.len() - n,
                        all@.len() as int,
                    ));
                }
            }
            r
        },
        None => all,
    }
}

/// The digit of value `d`, below 16, in lower-case hexadecimal.
pub open spec fn hex_digit(d: int) -> char {
    seq!['0', '1', '2', '3', '4', '5', '6', '7', '8', '9', 'a', 'b', 'c', 'd', 'e', 'f'][d]
}

/// `n` in lower-case hexadecimal, without leading zeros.
pub open spec fn hex_of(n: nat) -> Seq<char>
    decreases n,
{
    if n < 16 {
        seq![hex_digit(n as int)]
    } else {
        hex_of(n / 16) + seq![hex_digit((n % 16) as int)]
    }
}

fn hex_char(d: usize) -> (c: char)
    requires
        d < 16,
    ensures
        c == hex_digit(d as int),
{
    match d {
        0 => '0',
        1 => '1',
        2 => '2',
        3 => '3',
        4 => '4',
        5 => '5',
        6 => '6',
        7 => '7',
        8 => '8',
        9 => '9',
        10 => 'a',
        11 => 'b',
        12 => 'c',
        13 => 'd',
        14 => 'e',
        _ => 'f',
    }
}

fn push_hex(s: &mut String, n: usize)
    ensures
        final(s)@ == old(s)@ + hex_of(n as nat),
    decreases n,
{
    let ghost start = s@;
    if n >= 16 {
        push_hex(s, n / 16);
    }
    push_char(s, hex_char(n % 16));
    proof {
        if n >= 16 {
            assert(start + hex_of((n / 16) as nat) + seq![hex_digit((n % 16) as int)] == start
                + hex_of(n as nat));
        } else {
            assert(start.push(hex_digit((n % 16) as int)) == start + hex_of(n as nat));
        }
    }
}

/// A line of batch output: the entry's position in hexadecimal, a space, and
/// the entry as text.
pub open spec fn batch_text(idx: nat, ts: Seq<char>, command: Seq<char>) -> Seq<char> {
    hex_of(idx) + seq![' '] + display_text(ts, command)
}

/// Lays out a line of batch output from the entry's position, its formatted
/// time and its command.
pub fn format_batch_line(idx: usize, ts: &str, command: &str) -> (r: String)
    ensures
        r@ == batch_text(idx as nat, ts@, command@),
{
    let mut tail = String::new();
    push_char(&mut tail, ' ');
    push_char(&mut tail, ' ');
    push_char(&mut tail, ' ');
    proof {
        assert(tail@ == seq![' ', ' ', ' ']);
    }
    let mut s = String::new();
    push_hex(&mut s, idx);
    push_char(&mut s, ' ');
    push_str(&mut s, ts);
    push_str(&mut s, tail.as_str());
    push_str(&mut s, command);
    proof {
        assert(s@ == batch_text(idx as nat, ts@, command@));
    }
    s
}

/// A batch line holds the entry's position in hexadecimal, its time and its
/// whole command, each as one contiguous run.
pub proof fn lemma_batch_line_parts(idx: nat, ts: Seq<char>, command: Seq<char>)
    ensures
        contains(batch_text(idx, ts, command), hex_of(idx)),
        contains(batch_text(idx, ts, command), ts),
        contains(batch_text(idx, ts, command), command),
{
    let line = batch_text(idx, ts, command);
    let h = hex_of(idx).len() as int;
    assert(line.subrange(0, 0 + h) == hex_of(idx));
    assert(line.subrange(h + 1, h + 1 + ts.len()) == ts);
    assert(line.subrange(h + 4 + ts.len(), h + 4 + ts.len() + command.len()) == command);
}

/// An entry position past the end of the history.
#[derive(Debug)]
pub struct IndexOutOfRange {
    pub requested: usize,
    /// The largest valid position, none for an empty history.
    pub max_valid: Option<usize>,
}

/// The command of the entry at `idx`.
pub fn command_at(entries: &[HistEntry], idx: usize) -> (r: Result<String, IndexOutOfRange>)
    ensures
        r is Ok <==> idx < entries@.len(),
        r matches Ok(c) ==> c@ == entries@[idx as int].command@,
        r matches Err(e) ==> e.requested == idx && (e.max_valid == if entries@.len() > 0 {
            Some((entries@.len() - 1) as usize)
        } else {
            None::<usize>
        }),
{
    if idx < entries.len() {
        Ok(entries[idx].command.clone())
    } else {
        let n = entries.len();
        let max_valid = if n > 0 {
            Some(n - 1)
        } else {
            None
        };
        Err(IndexOutOfRange { requested: idx, max_valid })
    }
}

} // verus!
