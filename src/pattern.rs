use vstd::prelude::*;

use crate::text::{pop_char, push_char};
use crate::CaseMode;

verus! {

#[verifier::external_type_specification]
#[verifier::external_body]
pub struct ExRegex(regex::Regex);

#[verifier::external_type_specification]
#[verifier::external_body]
pub struct ExRegexError(regex::Error);

/// The characters that have a meaning of their own in a regex.
pub open spec fn is_meta(c: char) -> bool {
    c == '\\' || c == '.' || c == '+' || c == '*' || c == '?' || c == '(' || c == ')' || c
        == '|' || c == '[' || c == ']' || c == '{' || c == '}' || c == '^' || c == '$' || c
        == '#' || c == '&' || c == '-' || c == '~'
}

pub open spec fn escaped_char(c: char) -> Seq<char> {
    if is_meta(c) {
        seq!['\\', c]
    } else {
        seq![c]
    }
}

/// `s` with a backslash before each meta character.
pub open spec fn escaped(s: Seq<char>) -> Seq<char>
    decreases s.len(),
{
    if s.len() == 0 {
        s
    } else {
        escaped(s.drop_last()) + escaped_char(s.last())
    }
}

/// Whether regex builds a regex from `pattern` with the given case mode and
/// Unicode on.
pub uninterp spec fn regex_builds(pattern: Seq<char>, insensitive: bool) -> bool;

/// Whether the regex built from `pattern` with the given case mode and Unicode
/// on matches somewhere in `haystack`.
pub uninterp spec fn regex_is_match(pattern: Seq<char>, insensitive: bool, haystack: Seq<char>) -> bool;

/// `needle` occurs in `hay` as a contiguous run of characters.
pub open spec fn contains(hay: Seq<char>, needle: Seq<char>) -> bool {
    exists|i: int|
        0 <= i && i + needle.len() <= hay.len() && #[trigger] hay.subrange(i, i + needle.len())
            == needle
}

pub open spec fn is_escaped_literal(pattern: Seq<char>) -> bool {
    exists|lit: Seq<char>| pattern == #[trigger] escaped(lit)
}

/// The text whose escaped form is `pattern`.
pub open spec fn literal_of(pattern: Seq<char>) -> Seq<char> {
    choose|lit: Seq<char>| pattern == #[trigger] escaped(lit)
}

pub open spec fn is_ascii_text(s: Seq<char>) -> bool {
    forall|i: int| 0 <= i < s.len() ==> (#[trigger] s[i] as int) < 128
}

pub open spec fn is_ascii_upper(c: char) -> bool {
    'A' <= c && c <= 'Z'
}

/// The same character, or the same ASCII letter in the other case.
pub open spec fn same_ignoring_case(a: char, b: char) -> bool {
    a == b || (is_ascii_upper(a) && b as int == a as int + 32) || (is_ascii_upper(b) && a as int
        == b as int + 32)
}

/// Two texts that differ at most in the case of ASCII letters.
pub open spec fn equal_ignoring_case(s: Seq<char>, t: Seq<char>) -> bool {
    s.len() == t.len() && forall|i: int| 0 <= i < s.len() ==> same_ignoring_case(#[trigger] s[i], t[i])
}

/// `needle` occurs in `hay`, up to the case of ASCII letters.
pub open spec fn contains_ignoring_case(hay: Seq<char>, needle: Seq<char>) -> bool {
    exists|i: int|
        0 <= i && i + needle.len() <= hay.len() && equal_ignoring_case(
            #[trigger] hay.subrange(i, i + needle.len()),
            needle,
        )
}

/// A compiled pattern whose match is known without the regex engine: an
/// escaped literal matched case-sensitively, or matched case-insensitively
/// with literal and text both ASCII.
pub open spec fn is_plain_literal_case(pattern: Seq<char>, insensitive: bool, hay: Seq<char>) -> bool {
    is_escaped_literal(pattern) && (!insensitive || (is_ascii_text(literal_of(pattern))
        && is_ascii_text(hay)))
}

/// Whether a compiled pattern matches somewhere in `hay`. An escaped literal
/// matches the texts that contain the literal: exactly, when case matters;
/// up to the case of letters, when it does not and all is ASCII.
pub open spec fn finds(pattern: Seq<char>, insensitive: bool, hay: Seq<char>) -> bool {
    if is_plain_literal_case(pattern, insensitive, hay) {
        if insensitive {
            contains_ignoring_case(hay, literal_of(pattern))
        } else {
            contains(hay, literal_of(pattern))
        }
    } else {
        regex_is_match(pattern, insensitive, hay)
    }
}

/// Relies on regex::escape: a backslash before each meta character, as listed
/// by regex_syntax::is_meta_character.
#[verifier::external_body]
pub(crate) fn escape(s: &str) -> (r: String)
    ensures
        r@ == escaped(s@),
{
    regex::escape(s)
}

/// A regex, with the pattern and the case mode that it was built from.
#[derive(Debug)]
pub struct CompiledPattern {
    re: regex::Regex,
    source: String,
    insensitive: bool,
}

impl View for CompiledPattern {
    type V = (Seq<char>, bool);

    /// The pattern, and whether it ignores case.
    closed spec fn view(&self) -> (Seq<char>, bool) {
        (self.source@, self.insensitive)
    }
}

/// Relies on regex::RegexBuilder::build, with Unicode on: whether `pattern`
/// builds depends on the pattern and the case mode alone. This is the only
/// place that makes a `CompiledPattern`, so its regex is always the one built
/// from its view.
#[verifier::external_body]
fn build(pattern: &str, insensitive: bool) -> (r: Result<CompiledPattern, regex::Error>)
    ensures
        r is Ok <==> regex_builds(pattern@, insensitive),
        r matches Ok(p) ==> p@ == (pattern@, insensitive),
{
    match regex::RegexBuilder::new(pattern).case_insensitive(insensitive).unicode(true).build() {
        Ok(re) => Ok(CompiledPattern { re, source: pattern.to_string(), insensitive }),
        Err(e) => Err(e),
    }
}

/// Relies on regex::Regex::is_match: true exactly when the regex, built by
/// `build` from `p@`, matches somewhere in `hay`. The regex built from an
/// escaped text matches that text literally, as regex::escape documents, and
/// with case ignored its letters match both their upper and lower case, as
/// RegexBuilder::case_insensitive documents.
#[verifier::external_body]
fn regex_find(p: &CompiledPattern, hay: &str) -> (r: bool)
    ensures
        r == finds(p@.0, p@.1, hay@),
        !is_plain_literal_case(p@.0, p@.1, hay@) ==> r == regex_is_match(p@.0, p@.1, hay@),
{
    p.re.is_match(hay)
}

impl CompiledPattern {
    /// Whether the pattern matches somewhere in `hay`.
    pub fn is_match(&self, hay: &str) -> (r: bool)
        ensures
            r == finds(self@.0, self@.1, hay@),
    {
        regex_find(self, hay)
    }
}

pub open spec fn insensitive_of(mode: CaseMode) -> bool {
    mode == CaseMode::Insensitive
}

/// A pattern written between slashes, such as `/foo[Bb]ar/`, is a regex.
pub open spec fn is_regex_form(magic: Seq<char>) -> bool {
    magic.len() >= 2 && magic[0] == '/' && magic.last() == '/'
}

/// The regex that a pattern stands for: what lies between the slashes of a
/// regex, and any other pattern escaped so that it matches literally.
pub open spec fn magic_source(magic: Seq<char>) -> Seq<char> {
    if is_regex_form(magic) {
        magic.subrange(1, magic.len() - 1)
    } else {
        escaped(magic)
    }
}

/// What compiling `magic` under `mode` gives, when it builds.
pub open spec fn compiled_view(magic: Seq<char>, mode: CaseMode) -> (Seq<char>, bool) {
    (magic_source(magic), insensitive_of(mode))
}

/// The characters between the surrounding slashes, if `s` has them.
fn slash_interior(s: &str) -> (r: Option<String>)
    ensures
        r is Some <==> is_regex_form(s@),
        r matches Some(t) ==> t@ == s@.subrange(1, s@.len() - 1),
{
    broadcast use vstd::string::axiom_spec_iter;

    let mut first: Option<char> = None;
    let mut rest = String::new();
    for c in it: s.chars()
        invariant
            it.seq() == s@,
            it.index() == 0 ==> first is None && rest@.len() == 0,
            it.index() > 0 ==> first == Some(s@[0]) && rest@ == s@.subrange(1, it.index() as int),
    {
        proof {
            assert(c == s@[it.index() as int]);
        }
        match first {
            None => {
                first = Some(c);
                proof {
                    assert(s@.subrange(1, 1) == Seq::<char>::empty());
                }
            },
            Some(_) => {
                proof {
                    assert(s@.subrange(1, it.index() + 1) == rest@.push(c));
                }
                push_char(&mut rest, c);
            },
        }
    }
    if first == Some('/') {
        let ghost whole = rest@;
        match pop_char(&mut rest) {
            Some(last) => {
                if last == '/' {
                    proof {
                        assert(whole.drop_last() == s@.subrange(1, s@.len() - 1));
                    }
                    return Some(rest);
                }
            },
            None => {},
        }
    }
    None
}

/// Builds the regex `pattern` as it is, with the given case mode and Unicode
/// on.
pub fn raw_pattern_to_regex(pattern: &str, case_mode: CaseMode) -> (r: Result<
    CompiledPattern,
    regex::Error,
>)
    ensures
        r is Ok <==> regex_builds(pattern@, insensitive_of(case_mode)),
        r matches Ok(p) ==> p@ == (pattern@, insensitive_of(case_mode)),
{
    build(pattern, case_mode == CaseMode::Insensitive)
}

/// Compiles a pattern: one between slashes, such as `/foo[Bb]ar/`, is a regex,
/// and may hold further slashes; any other matches as a fixed text.
pub fn magic_pattern_to_regex(magic_pat: &str, case_mode: CaseMode) -> (r: Result<
    CompiledPattern,
    regex::Error,
>)
    ensures
        r is Ok <==> regex_builds(magic_source(magic_pat@), insensitive_of(case_mode)),
        r matches Ok(p) ==> p@ == compiled_view(magic_pat@, case_mode),
{
    match slash_interior(magic_pat) {
        Some(inner) => raw_pattern_to_regex(inner.as_str(), case_mode),
        None => {
            let lit = escape(magic_pat);
            raw_pattern_to_regex(lit.as_str(), case_mode)
        },
    }
}

proof fn lemma_escaped_last(s: Seq<char>)
    requires
        s.len() > 0,
    ensures
        escaped(s).len() > 0,
        escaped(s).last() == s.last(),
{
    assert(escaped(s) == escaped(s.drop_last()) + escaped_char(s.last()));
}

proof fn lemma_escaped_injective(a: Seq<char>, b: Seq<char>)
    requires
        escaped(a) == escaped(b),
    ensures
        a == b,
    decreases a.len(),
{
    if a.len() == 0 {
        if b.len() > 0 {
            lemma_escaped_last(b);
        }
    } else {
        lemma_escaped_last(a);
        if b.len() == 0 {
            assert(escaped(b).len() == 0);
        }
        lemma_escaped_last(b);
        let e = escaped(a);
        let tail = escaped_char(a.last());
        assert(escaped(a.drop_last()) == e.subrange(0, e.len() - tail.len()));
        assert(escaped(b.drop_last()) == e.subrange(0, e.len() - tail.len()));
        lemma_escaped_injective(a.drop_last(), b.drop_last());
        assert(a == a.drop_last().push(a.last()));
        assert(b == b.drop_last().push(b.last()));
    }
}

/// A pattern that is not written between slashes, compiled case-sensitively,
/// matches exactly the texts that contain it, every character taken literally.
pub proof fn lemma_literal_pattern(magic: Seq<char>, hay: Seq<char>)
    requires
        !is_regex_form(magic),
    ensures
        finds(
            compiled_view(magic, CaseMode::Sensitive).0,
            compiled_view(magic, CaseMode::Sensitive).1,
            hay,
        ) == contains(hay, magic),
{
    let pat = escaped(magic);
    assert(is_escaped_literal(pat));
    lemma_escaped_injective(literal_of(pat), magic);
}

/// A pattern that is not written between slashes, compiled case-insensitively,
/// matches ASCII texts that differ only in the case of their letters alike,
/// when the pattern is ASCII too.
pub proof fn lemma_insensitive_pattern(magic: Seq<char>, hay1: Seq<char>, hay2: Seq<char>)
    requires
        !is_regex_form(magic),
        is_ascii_text(magic),
        is_ascii_text(hay1),
        is_ascii_text(hay2),
        equal_ignoring_case(hay1, hay2),
    ensures
        finds(
            compiled_view(magic, CaseMode::Insensitive).0,
            compiled_view(magic, CaseMode::Insensitive).1,
            hay1,
        ) == finds(
            compiled_view(magic, CaseMode::Insensitive).0,
            compiled_view(magic, CaseMode::Insensitive).1,
            hay2,
        ),
        finds(
            compiled_view(magic, CaseMode::Insensitive).0,
            compiled_view(magic, CaseMode::Insensitive).1,
            hay1,
        ) == contains_ignoring_case(hay1, magic),
{
    let pat = escaped(magic);
    assert(is_escaped_literal(pat));
    lemma_escaped_injective(literal_of(pat), magic);
    let n = magic.len();
    if contains_ignoring_case(hay1, magic) {
        let i = choose|i: int|
            0 <= i && i + n <= hay1.len() && equal_ignoring_case(
                #[trigger] hay1.subrange(i, i + n),
                magic,
            );
        assert forall|k: int| 0 <= k < n implies same_ignoring_case(
            #[trigger] hay2.subrange(i, i + n)[k],
            magic[k],
        ) by {
            assert(hay1.subrange(i, i + n)[k] == hay1[i + k]);
            assert(same_ignoring_case(hay1[i + k], hay2[i + k]));
        }
        assert(equal_ignoring_case(hay2.subrange(i, i + n), magic));
    }
    if contains_ignoring_case(hay2, magic) {
        let i = choose|i: int|
            0 <= i && i + n <= hay2.len() && equal_ignoring_case(
                #[trigger] hay2.subrange(i, i + n),
                magic,
            );
        assert forall|k: int| 0 <= k < n implies same_ignoring_case(
            #[trigger] hay1.subrange(i, i + n)[k],
            magic[k],
        ) by {
            assert(hay2.subrange(i, i + n)[k] == hay2[i + k]);
            assert(same_ignoring_case(hay1[i + k], hay2[i + k]));
        }
        assert(equal_ignoring_case(hay1.subrange(i, i + n), magic));
    }
}

/// A pattern that did not compile, with the reason regex gave.
#[derive(Debug)]
pub struct PatternError {
    pub pattern: String,
    pub error: regex::Error,
}

pub open spec fn pattern_views(v: Seq<CompiledPattern>) -> Seq<(Seq<char>, bool)> {
    v.map_values(|p: CompiledPattern| p@)
}

/// Compiles each pattern in turn, and stops at the first that does not compile.
pub fn process_magic_patterns(magic_patterns: Vec<String>, case_mode: CaseMode) -> (r: Result<
    Vec<CompiledPattern>,
    PatternError,
>)
    ensures
        r is Ok <==> forall|k: int|
            0 <= k < magic_patterns@.len() ==> regex_builds(
                magic_source(#[trigger] magic_patterns@[k]@),
                insensitive_of(case_mode),
            ),
        r matches Ok(v) ==> pattern_views(v@) == magic_patterns@.map_values(
            |m: String| compiled_view(m@, case_mode),
        ),
        r matches Err(e) ==> exists|k: int|
            0 <= k < magic_patterns@.len() && e.pattern@ == magic_patterns@[k]@ && !regex_builds(
                magic_source(#[trigger] magic_patterns@[k]@),
                insensitive_of(case_mode),
            ) && forall|j: int|
                0 <= j < k ==> regex_builds(
                    magic_source(#[trigger] magic_patterns@[j]@),
                    insensitive_of(case_mode),
                ),
{
    let mut out: Vec<CompiledPattern> = Vec::new();
    let mut i: usize = 0;
    while i < magic_patterns.len()
        invariant
            0 <= i <= magic_patterns.len(),
            forall|j: int|
                0 <= j < i ==> regex_builds(
                    magic_source(#[trigger] magic_patterns@[j]@),
                    insensitive_of(case_mode),
                ),
            pattern_views(out@) == magic_patterns@.take(i as int).map_values(
                |m: String| compiled_view(m@, case_mode),
            ),
        decreases magic_patterns.len() - i,
    {
        match magic_pattern_to_regex(magic_patterns[i].as_str(), case_mode) {
            Ok(p) => {
                proof {
                    assert(pattern_views(out@.push(p)) == pattern_views(out@).push(p@));
                    assert(magic_patterns@.take(i + 1).map_values(
                        |m: String| compiled_view(m@, case_mode),
                    ) == magic_patterns@.take(i as int).map_values(
                        |m: String| compiled_view(m@, case_mode),
                    ).push(compiled_view(magic_patterns@[i as int]@, case_mode)));
                }
                out.push(p);
            },
            Err(error) => {
                let pattern = magic_patterns[i].clone();
                return Err(PatternError { pattern, error });
            },
        }
        i = i + 1;
    }
    proof {
        assert(magic_patterns@.take(magic_patterns@.len() as int) == magic_patterns@);
    }
    Ok(out)
}

} // verus!
