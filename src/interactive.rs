use vstd::prelude::*;

use crate::histfile::{
    commands, entry_views, matching_indices, matching_positions, pick, usize_views, HistEntry,
};
use crate::pattern::{
    escape, escaped, insensitive_of, pattern_views, raw_pattern_to_regex, regex_builds,
    CompiledPattern, PatternError,
};
use crate::text::{lines_of, push_char, push_str, split_lines, split_words, views, words_of};
use crate::CaseMode;

verus! {

/// The wanted patterns of a search text: each of its words, matched as a
/// fixed text.
pub open spec fn search_patterns(search: Seq<char>, mode: CaseMode) -> Seq<(Seq<char>, bool)> {
    words_of(search).map_values(|w: Seq<char>| (escaped(w), insensitive_of(mode)))
}

/// Every word of the search text compiles.
pub open spec fn search_compiles(search: Seq<char>, mode: CaseMode) -> bool {
    forall|k: int|
        0 <= k < words_of(search).len() ==> regex_builds(
            escaped(#[trigger] words_of(search)[k]),
            insensitive_of(mode),
        )
}

/// Compiles each word of `search` as a fixed text.
pub fn word_patterns(search: &str, case_mode: CaseMode) -> (r: Result<
    Vec<CompiledPattern>,
    PatternError,
>)
    ensures
        r is Ok <==> search_compiles(search@, case_mode),
        r matches Ok(v) ==> pattern_views(v@) == search_patterns(search@, case_mode),
{
    let words = split_words(search);
    let ghost ws = words_of(search@);
    let mut out: Vec<CompiledPattern> = Vec::new();
    let mut i: usize = 0;
    while i < words.len()
        invariant
            0 <= i <= words.len(),
            views(words@) == ws,
            ws == words_of(search@),
            forall|k: int|
                0 <= k < i ==> regex_builds(escaped(#[trigger] ws[k]), insensitive_of(case_mode)),
            pattern_views(out@) == ws.take(i as int).map_values(
                |w: Seq<char>| (escaped(w), insensitive_of(case_mode)),
            ),
        decreases words.len() - i,
    {
        proof {
            assert(ws[i as int] == words@[i as int]@);
        }
        let lit = escape(words[i].as_str());
        match raw_pattern_to_regex(lit.as_str(), case_mode) {
            Ok(p) => {
                proof {
                    assert(pattern_views(out@.push(p)) == pattern_views(out@).push(p@));
                    assert(ws.take(i + 1).map_values(
                        |w: Seq<char>| (escaped(w), insensitive_of(case_mode)),
                    ) == ws.take(i as int).map_values(
                        |w: Seq<char>| (escaped(w), insensitive_of(case_mode)),
                    ).push((escaped(ws[i as int]), insensitive_of(case_mode))));
                }
                out.push(p);
            },
            Err(error) => {
                let pattern = words[i].clone();
                return Err(PatternError { pattern, error });
            },
        }
        i = i + 1;
    }
    proof {
        assert(ws.take(ws.len() as int) == ws);
    }
    Ok(out)
}

/// The selection after a filter: the last entry, if there is one.
pub open spec fn last_of(len: int) -> Option<int> {
    if len > 0 {
        Some(len - 1)
    } else {
        None
    }
}

/// The selection moved `amount` entries up or down, kept within a list of
/// `len` entries.
pub open spec fn moved(sel: Option<int>, len: int, up: bool, amount: int) -> Option<int> {
    match sel {
        None => None,
        Some(i) => if up {
            Some(if i >= amount { i - amount } else { 0 })
        } else {
            Some(if i + amount <= len - 1 { i + amount } else { len - 1 })
        },
    }
}

/// A key event, as far as the interactive search cares. `Edited` carries the
/// search text after a key that the input widget handled.
pub enum KeyInput {
    Escape,
    CtrlC,
    Enter,
    Up,
    Down,
    PageUp,
    PageDown,
    Edited(String),
}

/// What the interactive search does after a key.
pub enum KeyOutcome {
    /// Go on reading keys.
    Continue,
    /// Leave, with the selected entry if any.
    Return(Option<HistEntry>),
}

/// The state of an interactive search: the entries that the exclude patterns
/// left, the search text, the positions of the entries that it matches, the
/// selection among those, and how far a page moves.
pub struct App {
    entries: Vec<HistEntry>,
    filtered: Vec<usize>,
    selected: Option<usize>,
    page: usize,
    case_mode: CaseMode,
    search: String,
}

impl App {
    /// The entries of the session.
    pub closed spec fn master(&self) -> Seq<(int, Seq<char>)> {
        entry_views(self.entries@)
    }

    /// The positions in `master` of the entries that the search matches.
    pub closed spec fn shown(&self) -> Seq<int> {
        usize_views(self.filtered@)
    }

    /// The selected position in `shown`.
    pub closed spec fn selection(&self) -> Option<int> {
        match self.selected {
            Some(i) => Some(i as int),
            None => None,
        }
    }

    pub closed spec fn search_text(&self) -> Seq<char> {
        self.search@
    }

    pub closed spec fn page_lines(&self) -> int {
        self.page as int
    }

    pub closed spec fn mode(&self) -> CaseMode {
        self.case_mode
    }

    /// The shown entries are those that the search matches, and a selection
    /// exists exactly when something is shown.
    pub open spec fn wf(&self) -> bool {
        &&& self.shown() == matching_indices(
            commands(self.master()),
            search_patterns(self.search_text(), self.mode()),
            Seq::empty(),
            self.master().len(),
        )
        &&& (self.selection() is None <==> self.shown().len() == 0)
        &&& (self.selection() matches Some(i) ==> 0 <= i < self.shown().len())
    }

    proof fn lemma_shown_in_range(&self)
        requires
            self.wf(),
        ensures
            forall|k: int| 0 <= k < self.shown().len() ==> 0 <= #[trigger] self.shown()[k] < self.master().len(),
    {
        lemma_matching_indices_bounded(
            commands(self.master()),
            search_patterns(self.search_text(), self.mode()),
            Seq::empty(),
            self.master().len(),
        );
    }

    /// Starts a session: drops the entries that an exclude pattern matches,
    /// once and for all, and filters the rest by the words of
    /// `initial_search`, with the last match selected.
    pub fn new(
        entries: Vec<HistEntry>,
        initial_search: String,
        exclude_re: Vec<CompiledPattern>,
        case_mode: CaseMode,
    ) -> (r: Result<App, PatternError>)
        ensures
            r is Ok <==> search_compiles(initial_search@, case_mode),
            r matches Ok(app) ==> {
                &&& app.wf()
                &&& app.master() == pick(
                    entry_views(entries@),
                    matching_indices(
                        commands(entry_views(entries@)),
                        Seq::empty(),
                        pattern_views(exclude_re@),
                        entries@.len(),
                    ),
                )
                &&& app.search_text() == initial_search@
                &&& app.mode() == case_mode
                &&& app.page_lines() == 1
                &&& app.selection() == last_of(app.shown().len() as int)
            },
    {
        let wanted = match word_patterns(initial_search.as_str(), case_mode) {
            Ok(v) => v,
            Err(e) => {
                return Err(e);
            },
        };
        let ghost all = entry_views(entries@);
        let ghost exc = pattern_views(exclude_re@);
        let no_patterns: Vec<CompiledPattern> = Vec::new();
        proof {
            assert(pattern_views(no_patterns@) =~= Seq::<(Seq<char>, bool)>::empty());
        }
        let keep = matching_positions(entries.as_slice(), no_patterns.as_slice(), exclude_re.as_slice());
        proof {
            let m = matching_indices(commands(all), Seq::empty(), exc, all.len());
            lemma_matching_indices_bounded(commands(all), Seq::empty(), exc, all.len());
            lemma_matching_indices_increasing(commands(all), Seq::empty(), exc, all.len());
            assert forall|k: int| 0 <= k < keep@.len() implies #[trigger] keep@[k] < entries@.len() by {
                assert(usize_views(keep@)[k] == m[k]);
            }
            assert forall|a: int, b: int| 0 <= a < b < keep@.len() implies #[trigger] keep@[a]
                < #[trigger] keep@[b] by {
                assert(usize_views(keep@)[a] == m[a]);
                assert(usize_views(keep@)[b] == m[b]);
            }
        }
        let master = take_positions(entries, &keep);
        let filtered = matching_positions(master.as_slice(), wanted.as_slice(), no_patterns.as_slice());
        proof {
            assert(usize_views(filtered@).len() == filtered@.len());
        }
        let n = filtered.len();
        let selected = if n > 0 {
            Some(n - 1)
        } else {
            None
        };
        Ok(App { entries: master, filtered, selected, page: 1, case_mode, search: initial_search })
    }

    /// The selected entry, if any.
    pub fn get_selected(&self) -> (r: Option<HistEntry>)
        requires
            self.wf(),
        ensures
            r is Some <==> self.selection() is Some,
            r matches Some(e) ==> e@ == self.master()[self.shown()[self.selection()->0]],
    {
        proof {
            self.lemma_shown_in_range();
            if self.selected is Some {
                let i = self.selected->0 as int;
                assert(self.shown()[i] == self.filtered@[i] as int);
            }
        }
        match self.selected {
            Some(i) => Some(self.entries[self.filtered[i]].copy_entry()),
            None => None,
        }
    }

    /// Sets how far a page moves: half the height of the list's area.
    pub fn set_viewport_height(&mut self, height: u16)
        requires
            old(self).wf(),
        ensures
            final(self).wf(),
            final(self).page_lines() == height as int / 2,
            final(self).master() == old(self).master(),
            final(self).shown() == old(self).shown(),
            final(self).selection() == old(self).selection(),
            final(self).search_text() == old(self).search_text(),
            final(self).mode() == old(self).mode(),
    {
        self.page = (height / 2) as usize;
    }

    fn move_selection(&mut self, up: bool, amount: usize)
        requires
            old(self).wf(),
        ensures
            final(self).wf(),
            final(self).selection() == moved(
                old(self).selection(),
                old(self).shown().len() as int,
                up,
                amount as int,
            ),
            final(self).master() == old(self).master(),
            final(self).shown() == old(self).shown(),
            final(self).search_text() == old(self).search_text(),
            final(self).mode() == old(self).mode(),
            final(self).page_lines() == old(self).page_lines(),
    {
        let len = self.filtered.len();
        match self.selected {
            Some(i) => {
                let next = if up {
                    if i >= amount {
                        i - amount
                    } else {
                        0
                    }
                } else {
                    if amount <= len - 1 - i {
                        i + amount
                    } else {
                        len - 1
                    }
                };
                self.selected = Some(next);
            },
            None => {},
        }
    }

    /// Re-filters on a new search text, selecting the last match; leaves the
    /// state as it is when a word of the text does not compile.
    fn set_search(&mut self, search: String) -> (r: Result<(), PatternError>)
        requires
            old(self).wf(),
        ensures
            r is Ok <==> search_compiles(search@, old(self).mode()),
            r is Ok ==> {
                &&& final(self).wf()
                &&& final(self).search_text() == search@
                &&& final(self).selection() == last_of(final(self).shown().len() as int)
                &&& final(self).master() == old(self).master()
                &&& final(self).mode() == old(self).mode()
                &&& final(self).page_lines() == old(self).page_lines()
            },
            r is Err ==> *final(self) == *old(self),
    {
        let wanted = match word_patterns(search.as_str(), self.case_mode) {
            Ok(v) => v,
            Err(e) => {
                return Err(e);
            },
        };
        let no_patterns: Vec<CompiledPattern> = Vec::new();
        proof {
            assert(pattern_views(no_patterns@) =~= Seq::<(Seq<char>, bool)>::empty());
        }
        let filtered = matching_positions(self.entries.as_slice(), wanted.as_slice(), no_patterns.as_slice());
        let n = filtered.len();
        self.selected = if n > 0 {
            Some(n - 1)
        } else {
            None
        };
        self.filtered = filtered;
        self.search = search;
        Ok(())
    }

    /// Handles one key: Escape and Ctrl-C leave with nothing, Enter leaves
    /// with the selected entry, the arrows move the selection by one and the
    /// page keys by a page, within the list; an edit of the search text
    /// re-filters, with the last match selected.
    pub fn handle_key(&mut self, key: KeyInput) -> (r: Result<KeyOutcome, PatternError>)
        requires
            old(self).wf(),
        ensures
            final(self).wf(),
            final(self).master() == old(self).master(),
            final(self).mode() == old(self).mode(),
            final(self).page_lines() == old(self).page_lines(),
            match key {
                KeyInput::Escape | KeyInput::CtrlC => r matches Ok(KeyOutcome::Return(None))
                    && *final(self) == *old(self),
                KeyInput::Enter => *final(self) == *old(self) && (r matches Ok(
                    KeyOutcome::Return(sel),
                ) && (sel is Some <==> old(self).selection() is Some) && (sel matches Some(e)
                    ==> e@ == old(self).master()[old(self).shown()[old(self).selection()->0]])),
                KeyInput::Up | KeyInput::Down | KeyInput::PageUp | KeyInput::PageDown => {
                    &&& r matches Ok(KeyOutcome::Continue)
                    &&& final(self).shown() == old(self).shown()
                    &&& final(self).search_text() == old(self).search_text()
                    &&& final(self).selection() == moved(
                        old(self).selection(),
                        old(self).shown().len() as int,
                        key is Up || key is PageUp,
                        if key is Up || key is Down {
                            1
                        } else {
                            old(self).page_lines()
                        },
                    )
                },
                KeyInput::Edited(text) => if text@ == old(self).search_text() {
                    r matches Ok(KeyOutcome::Continue) && *final(self) == *old(self)
                } else if search_compiles(text@, old(self).mode()) {
                    &&& r matches Ok(KeyOutcome::Continue)
                    &&& final(self).search_text() == text@
                    &&& final(self).selection() == last_of(final(self).shown().len() as int)
                } else {
                    r is Err && *final(self) == *old(self)
                },
            },
    {
        match key {
            KeyInput::Escape => Ok(KeyOutcome::Return(None)),
            KeyInput::CtrlC => Ok(KeyOutcome::Return(None)),
            KeyInput::Enter => Ok(KeyOutcome::Return(self.get_selected())),
            KeyInput::Up => {
                self.move_selection(true, 1);
                Ok(KeyOutcome::Continue)
            },
            KeyInput::Down => {
                self.move_selection(false, 1);
                Ok(KeyOutcome::Continue)
            },
            KeyInput::PageUp => {
                let amount = self.page;
                self.move_selection(true, amount);
                Ok(KeyOutcome::Continue)
            },
            KeyInput::PageDown => {
                let amount = self.page;
                self.move_selection(false, amount);
                Ok(KeyOutcome::Continue)
            },
            KeyInput::Edited(text) => {
                if text == self.search {
                    Ok(KeyOutcome::Continue)
                } else {
                    match self.set_search(text) {
                        Ok(()) => Ok(KeyOutcome::Continue),
                        Err(e) => Err(e),
                    }
                }
            },
        }
    }

    /// The entries of the session.
    pub fn master_entries(&self) -> (r: &[HistEntry])
        ensures
            entry_views(r@) == self.master(),
    {
        self.entries.as_slice()
    }

    /// The positions, among the session's entries, of those shown.
    pub fn shown_positions(&self) -> (r: &[usize])
        ensures
            usize_views(r@) == self.shown(),
    {
        self.filtered.as_slice()
    }

    /// The selected place among the shown entries.
    pub fn selected_index(&self) -> (r: Option<usize>)
        ensures
            r matches Some(i) ==> self.selection() == Some(i as int),
            r is None ==> self.selection() is None,
    {
        self.selected
    }

    /// Copies of the shown entries, in order.
    pub fn filtered_entries(&self) -> (r: Vec<HistEntry>)
        requires
            self.wf(),
        ensures
            entry_views(r@) == pick(self.master(), self.shown()),
    {
        proof {
            self.lemma_shown_in_range();
        }
        let mut out: Vec<HistEntry> = Vec::new();
        let mut i: usize = 0;
        while i < self.filtered.len()
            invariant
                0 <= i <= self.filtered.len(),
                self.wf(),
                forall|k: int| 0 <= k < self.shown().len() ==> 0 <= #[trigger] self.shown()[k] < self.master().len(),
                entry_views(out@) == pick(self.master(), self.shown().take(i as int)),
            decreases self.filtered.len() - i,
        {
            proof {
                assert(self.shown()[i as int] == self.filtered@[i as int] as int);
            }
            let e = self.entries[self.filtered[i]].copy_entry();
            proof {
                assert(entry_views(out@.push(e)) == entry_views(out@).push(e@));
                assert(self.shown().take(i + 1) == self.shown().take(i as int).push(self.shown()[i as int]));
            }
            out.push(e);
            i = i + 1;
        }
        proof {
            assert(self.shown().take(self.shown().len() as int) == self.shown());
        }
        out
    }
}

proof fn lemma_matching_indices_bounded(
    texts: Seq<Seq<char>>,
    inc: Seq<(Seq<char>, bool)>,
    exc: Seq<(Seq<char>, bool)>,
    n: nat,
)
    ensures
        forall|k: int|
            0 <= k < matching_indices(texts, inc, exc, n).len() ==> 0 <= #[trigger] matching_indices(
                texts,
                inc,
                exc,
                n,
            )[k] < n,
    decreases n,
{
    if n > 0 {
        let prev = matching_indices(texts, inc, exc, (n - 1) as nat);
        lemma_matching_indices_bounded(texts, inc, exc, (n - 1) as nat);
        assert forall|k: int| 0 <= k < matching_indices(texts, inc, exc, n).len() implies 0
            <= #[trigger] matching_indices(texts, inc, exc, n)[k] < n by {
            if k < prev.len() {
                assert(matching_indices(texts, inc, exc, n)[k] == prev[k]);
            }
        }
    }
}

proof fn lemma_matching_indices_increasing(
    texts: Seq<Seq<char>>,
    inc: Seq<(Seq<char>, bool)>,
    exc: Seq<(Seq<char>, bool)>,
    n: nat,
)
    ensures
        forall|a: int, b: int|
            0 <= a < b < matching_indices(texts, inc, exc, n).len() ==> #[trigger] matching_indices(
                texts,
                inc,
                exc,
                n,
            )[a] < #[trigger] matching_indices(texts, inc, exc, n)[b],
    decreases n,
{
    if n > 0 {
        let prev = matching_indices(texts, inc, exc, (n - 1) as nat);
        let cur = matching_indices(texts, inc, exc, n);
        lemma_matching_indices_increasing(texts, inc, exc, (n - 1) as nat);
        lemma_matching_indices_bounded(texts, inc, exc, (n - 1) as nat);
        assert forall|a: int, b: int| 0 <= a < b < cur.len() implies #[trigger] cur[a]
            < #[trigger] cur[b] by {
            assert(cur[a] == prev[a]);
            if b < prev.len() {
                assert(cur[b] == prev[b]);
            } else {
                assert(prev[a] < n - 1);
            }
        }
    }
}

/// Moves the entries at the given increasing positions out of `entries`.
fn take_positions(entries: Vec<HistEntry>, keep: &Vec<usize>) -> (r: Vec<HistEntry>)
    requires
        forall|k: int| 0 <= k < keep@.len() ==> #[trigger] keep@[k] < entries@.len(),
        forall|a: int, b: int| 0 <= a < b < keep@.len() ==> #[trigger] keep@[a] < #[trigger] keep@[b],
    ensures
        entry_views(r@) == pick(entry_views(entries@), usize_views(keep@)),
{
    broadcast use vstd::std_specs::vec::axiom_spec_into_iter;

    let ghost orig = entries@;
    let total = entries.len();
    let mut out: Vec<HistEntry> = Vec::new();
    let mut j: usize = 0;
    let mut pos: usize = 0;
    for e in it: entries.into_iter()
        invariant
            it.seq() == orig,
            pos == it.index(),
            total == orig.len(),
            forall|k: int| 0 <= k < keep@.len() ==> #[trigger] keep@[k] < orig.len(),
            forall|a: int, b: int| 0 <= a < b < keep@.len() ==> #[trigger] keep@[a] < #[trigger] keep@[b],
            0 <= j <= keep@.len(),
            j < keep@.len() ==> keep@[j as int] >= it.index(),
            j > 0 ==> keep@[j - 1] < it.index(),
            entry_views(out@) == pick(entry_views(orig), usize_views(keep@).take(j as int)),
    {
        let ghost i = it.index();
        if j < keep.len() && keep[j] == pos {
            proof {
                assert(e == orig[i]);
                assert(entry_views(out@.push(e)) == entry_views(out@).push(e@));
                assert(usize_views(keep@).take(j + 1) == usize_views(keep@).take(j as int).push(
                    keep@[j as int] as int,
                ));
                if j + 1 < keep@.len() {
                    assert(keep@[j as int] < keep@[j + 1]);
                }
            }
            out.push(e);
            j = j + 1;
        }
        pos = pos + 1;
    }
    proof {
        if j < keep@.len() {
            assert(keep@[j as int] < orig.len());
        }
        assert(usize_views(keep@).take(keep@.len() as int) == usize_views(keep@));
    }
    out
}

/// The spaces that line up a continuation line under the command.
pub open spec fn indent(n: nat) -> Seq<char> {
    Seq::new(n, |i: int| ' ')
}

/// How an entry is shown in the list: its first line after the time and a
/// space, each further line indented to start under the first.
pub open spec fn entry_lines(ts: Seq<char>, command: Seq<char>) -> Seq<Seq<char>> {
    lines_of(command).map(
        |i: int, l: Seq<char>|
            if i == 0 {
                ts + seq![' '] + l
            } else {
                indent(ts.len() + 1) + l
            },
    )
}

/// Lays out an entry for the list, from its formatted time and its command.
pub fn render_entry_lines(ts: &str, command: &str) -> (r: Vec<String>)
    ensures
        views(r@) == entry_lines(ts@, command@),
{
    broadcast use vstd::string::axiom_spec_iter;

    let mut pad = String::new();
    push_char(&mut pad, ' ');
    for c in it: ts.chars()
        invariant
            it.seq() == ts@,
            pad@ == indent((it.index() + 1) as nat),
    {
        proof {
            assert(indent((it.index() + 2) as nat) == indent((it.index() + 1) as nat).push(' '));
        }
        push_char(&mut pad, ' ');
    }
    let lines = split_lines(command);
    let ghost ls = lines_of(command@);
    let mut out: Vec<String> = Vec::new();
    let mut i: usize = 0;
    while i < lines.len()
        invariant
            0 <= i <= lines.len(),
            views(lines@) == ls,
            ls == lines_of(command@),
            pad@ == indent(ts@.len() + 1),
            views(out@) == entry_lines(ts@, command@).take(i as int),
        decreases lines.len() - i,
    {
        let mut s = if i == 0 {
            let mut first = ts.to_owned();
            push_char(&mut first, ' ');
            first
        } else {
            pad.clone()
        };
        push_str(&mut s, lines[i].as_str());
        proof {
            assert(ls[i as int] == lines@[i as int]@);
            assert(entry_lines(ts@, command@).len() == ls.len());
            assert(entry_lines(ts@, command@)[i as int] == s@);
            assert(views(out@.push(s)) == views(out@).push(s@));
            assert(entry_lines(ts@, command@).take(i + 1) == entry_lines(ts@, command@).take(
                i as int,
            ).push(s@));
        }
        out.push(s);
        i = i + 1;
    }
    proof {
        assert(entry_lines(ts@, command@).take(ls.len() as int) == entry_lines(ts@, command@));
    }
    out
}

} // verus!
