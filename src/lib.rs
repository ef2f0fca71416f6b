//! Search through shell history files: parse a history file into entries,
//! deduplicate them, and filter them by fixed-text or regex patterns, in
//! batch or in an interactive session.
use vstd::prelude::*;

use base64::Engine;
use vstd::string::StringSliceAdditionalSpecFns;

pub mod batch;
pub mod histfile;
pub mod interactive;
pub mod pattern;
pub mod text;
pub mod timestamp;

pub use histfile::{dedup_entries, parse_history_file, HistEntry, ParsedLine};
pub use interactive::{App, KeyInput, KeyOutcome};
pub use pattern::{
    magic_pattern_to_regex, process_magic_patterns, raw_pattern_to_regex, CompiledPattern,
    PatternError,
};
pub use timestamp::{default_ts, Timestamp, MIN_REASONABLE_UNIXTIME};

verus! {

#[verifier::external_type_specification]
#[verifier::external_body]
pub struct ExParseIntError(core::num::ParseIntError);

/// Searches are case-sensitive or case-insensitive.
#[derive(Clone, Copy, PartialEq, Eq, Debug, Structural)]
pub enum CaseMode {
    Sensitive,
    Insensitive,
}

impl CaseMode {
    pub fn from_sensitive(is_sensitive: bool) -> (r: Self)
        ensures
            r == (if is_sensitive {
                CaseMode::Sensitive
            } else {
                CaseMode::Insensitive
            }),
    {
        if is_sensitive {
            CaseMode::Sensitive
        } else {
            CaseMode::Insensitive
        }
    }
}

/// The options of a search through a history file.
pub struct Args {
    /// How much to log.
    pub debug: u8,
    /// The history file to read; when absent, the one that `$HISTFILE` names.
    pub histfile: Option<String>,
    /// Keep repeated commands.
    pub no_dedup: bool,
    /// Print the entry at this position and copy it to the clipboard.
    pub copy: Option<usize>,
    /// Select an entry interactively.
    pub interactive: bool,
    /// Select interactively, seeded from the line being edited, and write the
    /// entry chosen to this file.
    pub bash_readline_mode: Option<String>,
    /// Match case.
    pub case_sensitive: bool,
    /// Leave out the commands that these patterns match.
    pub exclude: Vec<String>,
    /// Print only the last this many matches.
    pub tail: Option<usize>,
    /// Print every match, whatever the height of the terminal.
    pub show_all: bool,
    /// The patterns that a command must all match.
    pub patterns: Vec<String>,
}

pub open spec fn is_hex_digit(c: char) -> bool {
    ('0' <= c && c <= '9') || ('a' <= c && c <= 'f') || ('A' <= c && c <= 'F')
}

pub open spec fn hex_digit_value(c: char) -> int {
    if '0' <= c && c <= '9' {
        c as int - '0' as int
    } else if 'a' <= c && c <= 'f' {
        c as int - 'a' as int + 10
    } else {
        c as int - 'A' as int + 10
    }
}

/// The number that a run of hexadecimal digits writes.
pub open spec fn hex_digits_value(s: Seq<char>) -> int
    decreases s.len(),
{
    if s.len() == 0 {
        0
    } else {
        hex_digits_value(s.drop_last()) * 16 + hex_digit_value(s.last())
    }
}

/// The number that `s` writes in hexadecimal: an optional `+`, then one or
/// more hexadecimal digits of either case, and nothing else.
pub open spec fn hex_number(s: Seq<char>) -> Option<int> {
    let d = if s.len() > 0 && s[0] == '+' {
        s.drop_first()
    } else {
        s
    };
    if d.len() > 0 && (forall|k: int| 0 <= k < d.len() ==> is_hex_digit(#[trigger] d[k])) {
        Some(hex_digits_value(d))
    } else {
        None
    }
}

/// Relies on usize::from_str_radix with radix 16: it accepts an optional `+`
/// followed by hexadecimal digits only, and fails when the value does not fit.
#[verifier::external_body]
fn usize_from_hex(s: &str) -> (r: Result<usize, core::num::ParseIntError>)
    ensures
        r is Ok <==> (hex_number(s@) is Some && hex_number(s@)->0 <= usize::MAX),
        r matches Ok(v) ==> v == hex_number(s@)->0,
{
    usize::from_str_radix(s, 16)
}

/// Reads an entry position written in hexadecimal.
pub fn parse_hex_to_usize(s: &str) -> (r: Result<usize, core::num::ParseIntError>)
    ensures
        r is Ok <==> (hex_number(s@) is Some && hex_number(s@)->0 <= usize::MAX),
        r matches Ok(v) ==> v == hex_number(s@)->0,
{
    usize_from_hex(s)
}

/// The standard, padded base64 encoding of `bytes`, as ASCII bytes.
pub uninterp spec fn base64_standard(bytes: Seq<u8>) -> Seq<u8>;

/// Relies on base64's STANDARD engine: the padded base64 text of `b`.
#[verifier::external_body]
fn base64_encode(b: &[u8]) -> (r: Vec<u8>)
    ensures
        r@ == base64_standard(b@),
        b@.len() == 0 ==> r@.len() == 0,
{
    base64::prelude::BASE64_STANDARD.encode(b).into_bytes()
}

/// The start of the terminal sequence that sets the clipboard: ESC `]52;c;`.
pub open spec fn osc52_prefix() -> Seq<u8> {
    seq![0x1bu8, 0x5du8, 0x35u8, 0x32u8, 0x3bu8, 0x63u8, 0x3bu8]
}

/// The terminal sequence that copies `s` to the clipboard: ESC `]52;c;`, the
/// base64 of the text's UTF-8 bytes, then BEL.
pub fn copy_to_clipboard_seq(s: &str) -> (r: Vec<u8>)
    ensures
        r@ == osc52_prefix() + base64_standard(s.spec_bytes()) + seq![0x07u8],
{
    let mut out: Vec<u8> = Vec::new();
    out.push(0x1b);
    out.push(0x5d);
    out.push(0x35);
    out.push(0x32);
    out.push(0x3b);
    out.push(0x63);
    out.push(0x3b);
    proof {
        assert(out@ == osc52_prefix());
    }
    let mut encoded = base64_encode(s.as_bytes());
    out.append(&mut encoded);
    out.push(0x07);
    out
}

} // verus!
