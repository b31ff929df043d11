//! Icon whitelist: which processes and windows get a custom icon treatment,
//! read from the `whitelist.txt` configuration text.
use vstd::prelude::*;

use crate::text::{index_of, index_of_exec, lemma_index_of_is, unicode_lowercase, to_lowercase, eq_str, eq_ignore_ascii_case, eq_ignore_case_chars, eq_ignore_case, occurs_at, chars_of, string_of, slice_vec, find_chars, has_char, eq_chars, starts_with_chars, ends_with_chars, contains_chars, trim_chars, lines_vec, views, lines_of, trim, starts_with, ends_with, contains, first_occurrence};
use crate::constants::{join_path, joined};

verus! {

/// Process whitelist entry.
#[derive(Debug, Clone, PartialEq)]
pub struct ProcessWhitelistEntry {
    pub name: String,
    pub requires_backplate: bool,
}

/// Window whitelist entry: a class and the titles it matches.
#[derive(Debug, Clone, PartialEq)]
pub struct WindowWhitelistEntry {
    pub class: String,
    pub titles: Vec<String>,
    pub requires_backplate: bool,
}

/// Both whitelists, as loaded from the configuration.
#[derive(Debug, Clone, PartialEq)]
pub struct IconWhitelist {
    pub process: Vec<ProcessWhitelistEntry>,
    pub window: Vec<WindowWhitelistEntry>,
}

pub open spec fn process_view(e: ProcessWhitelistEntry) -> (Seq<char>, bool) {
    (e.name@, e.requires_backplate)
}

pub open spec fn strings_view(v: Seq<String>) -> Seq<Seq<char>> {
    v.map_values(|s: String| s@)
}

pub open spec fn window_view(e: WindowWhitelistEntry) -> (Seq<char>, Seq<Seq<char>>, bool) {
    (e.class@, strings_view(e.titles@), e.requires_backplate)
}

pub open spec fn processes_view(v: Seq<ProcessWhitelistEntry>) -> Seq<(Seq<char>, bool)> {
    v.map_values(|e: ProcessWhitelistEntry| process_view(e))
}

pub open spec fn windows_view(v: Seq<WindowWhitelistEntry>) -> Seq<
    (Seq<char>, Seq<Seq<char>>, bool),
> {
    v.map_values(|e: WindowWhitelistEntry| window_view(e))
}

// ---------------------------------------------------------------------------
// The configuration text
// ---------------------------------------------------------------------------
/// The state of the line-by-line reader of the whitelist configuration.
pub struct WlState {
    pub in_process: bool,
    pub in_window: bool,
    pub in_entry: bool,
    pub process_name: Seq<char>,
    pub process_backplate: bool,
    pub class: Seq<char>,
    pub titles: Seq<Seq<char>>,
    pub window_backplate: bool,
    pub processes: Seq<(Seq<char>, bool)>,
    pub windows: Seq<(Seq<char>, Seq<Seq<char>>, bool)>,
    /// A line asked for the inside of a lone `"`, which has none.
    pub failed: bool,
}

pub open spec fn initial_state() -> WlState {
    WlState {
        in_process: false,
        in_window: false,
        in_entry: false,
        process_name: seq![],
        process_backplate: false,
        class: seq![],
        titles: seq![],
        window_backplate: false,
        processes: seq![],
        windows: seq![],
        failed: false,
    }
}

/// Removes one pair of surrounding double quotes. A lone `"` both starts and
/// ends with a quote and has no inside: `None`.
pub open spec fn unquote(s: Seq<char>) -> Option<Seq<char>> {
    if s.len() > 0 && s[0] == '"' && s.last() == '"' {
        if s.len() >= 2 {
            Some(s.subrange(1, s.len() - 1))
        } else {
            None
        }
    } else {
        Some(s)
    }
}

/// `str::parse::<bool>`, with anything but `true` read as `false`.
pub open spec fn parse_flag(s: Seq<char>) -> bool {
    s == "true"@
}

/// Drops one trailing comma.
pub open spec fn strip_comma(s: Seq<char>) -> Seq<char> {
    if s.len() > 0 && s.last() == ',' {
        s.drop_last()
    } else {
        s
    }
}

/// The text between the first two double quotes of `s`.
pub open spec fn quoted_inner(s: Seq<char>) -> Option<Seq<char>> {
    match index_of(s, '"') {
        Some(q) => match index_of(s.skip(q + 1), '"') {
            Some(e) => Some(s.subrange(q + 1, q + 1 + e)),
            None => None,
        },
        None => None,
    }
}

/// Closes the pending process entry: adds it when it has a name.
pub open spec fn close_process_entry(st: WlState) -> WlState {
    let st1 = if st.process_name.len() > 0 {
        WlState {
            processes: st.processes.push((st.process_name, st.process_backplate)),
            process_name: seq![],
            process_backplate: false,
            ..st
        }
    } else {
        st
    };
    WlState { in_entry: false, ..st1 }
}

/// A process entry written on one line, `{name: x, requires_backplate: y}`.
pub open spec fn inline_process_entry(st: WlState, t: Seq<char>) -> WlState {
    let st1 = match first_occurrence(t, "name:"@) {
        Some(n) => {
            let part = t.skip(n + "name:"@.len());
            let end = match index_of(part, ',') {
                Some(k) => k,
                None => part.len() as int,
            };
            match unquote(trim(part.take(end))) {
                Some(name) => WlState { process_name: name, ..st },
                None => WlState { failed: true, ..st },
            }
        },
        None => st,
    };
    let st2 = match first_occurrence(t, "requires_backplate:"@) {
        Some(r) => {
            let part = t.skip(r + "requires_backplate:"@.len());
            let end = match index_of(part, '}') {
                Some(k) => k,
                None => part.len() as int,
            };
            WlState { process_backplate: parse_flag(trim(part.take(end))), ..st1 }
        },
        None => st1,
    };
    close_process_entry(st2)
}

/// One trimmed line inside `let process = [ ... ]`.
pub open spec fn process_line(st: WlState, t: Seq<char>) -> WlState {
    if t == "];"@ {
        WlState { in_process: false, ..st }
    } else if t.contains('{') {
        if t.contains('}') {
            inline_process_entry(st, t)
        } else {
            WlState { in_entry: true, ..st }
        }
    } else if t.contains('}') {
        close_process_entry(st)
    } else if st.in_entry {
        if starts_with(t, "name:"@) {
            match unquote(strip_comma(trim(t.skip("name:"@.len() as int)))) {
                Some(name) => WlState { process_name: name, ..st },
                None => WlState { failed: true, ..st },
            }
        } else if starts_with(t, "requires_backplate:"@) {
            WlState {
                process_backplate: parse_flag(
                    strip_comma(trim(t.skip("requires_backplate:"@.len() as int))),
                ),
                ..st
            }
        } else {
            st
        }
    } else {
        let e = if ends_with(t, ","@) {
            trim(t.drop_last())
        } else {
            trim(t)
        };
        if e.len() == 0 {
            st
        } else {
            match unquote(e) {
                Some(name) => WlState { processes: st.processes.push((name, false)), ..st },
                None => WlState { failed: true, ..st },
            }
        }
    }
}

/// One trimmed line inside `let window = [ ... ]`.
pub open spec fn window_line(st: WlState, t: Seq<char>) -> WlState {
    if contains(t, "WindowWhitelistEntry"@) && t.contains('{') {
        WlState { class: seq![], titles: seq![], window_backplate: false, ..st }
    } else if starts_with(t, "class:"@) {
        match quoted_inner(t) {
            Some(c) => WlState { class: c, ..st },
            None => st,
        }
    } else if t.contains('"') && !starts_with(t, "requires_backplate:"@) {
        match quoted_inner(t) {
            Some(title) => WlState { titles: st.titles.push(title), ..st },
            None => st,
        }
    } else if starts_with(t, "requires_backplate:"@) {
        WlState {
            window_backplate: parse_flag(
                strip_comma(trim(t.skip("requires_backplate:"@.len() as int))),
            ),
            ..st
        }
    } else if t == "},"@ || t == "}"@ {
        let st1 = if st.class.len() > 0 {
            WlState {
                windows: st.windows.push((st.class, st.titles, st.window_backplate)),
                class: seq![],
                titles: seq![],
                window_backplate: false,
                ..st
            }
        } else {
            st
        };
        if t == "}"@ {
            WlState { in_window: false, ..st1 }
        } else {
            st1
        }
    } else {
        st
    }
}

/// One raw line of the configuration.
pub open spec fn config_line(st: WlState, line: Seq<char>) -> WlState {
    let t = trim(line);
    if st.failed {
        st
    } else if t.len() == 0 || starts_with(t, "//"@) {
        st
    } else if starts_with(t, "let process = ["@) {
        WlState { in_process: true, in_window: false, ..st }
    } else if starts_with(t, "let window = ["@) {
        WlState { in_process: false, in_window: true, ..st }
    } else if st.in_process {
        process_line(st, t)
    } else if st.in_window {
        window_line(st, t)
    } else {
        st
    }
}

/// The reader's state after the given lines.
pub open spec fn run_lines(lines: Seq<Seq<char>>) -> WlState
    decreases lines.len(),
{
    if lines.len() == 0 {
        initial_state()
    } else {
        config_line(run_lines(lines.drop_last()), lines.last())
    }
}

/// The whitelists that a configuration text describes; `None` where a line
/// asks for the inside of a lone `"`.
pub open spec fn parse_config(content: Seq<char>) -> Option<
    (Seq<(Seq<char>, bool)>, Seq<(Seq<char>, Seq<Seq<char>>, bool)>),
> {
    let st = run_lines(lines_of(content));
    if st.failed {
        None
    } else {
        Some((st.processes, st.windows))
    }
}

/// A line of a window entry's title list: one quoted title, with or
/// without a trailing comma, between blanks; the title holds no quote and no
/// brace.
pub open spec fn title_line(line: Seq<char>, title: Seq<char>) -> bool {
    &&& (trim(line) == seq!['"'] + title + seq!['"'] || trim(line) == seq!['"'] + title + seq![
        '"',
        ',',
    ])
    &&& !title.contains('"')
    &&& !title.contains('{')
}

proof fn lemma_title_line_step(st: WlState, line: Seq<char>, title: Seq<char>)
    requires
        title_line(line, title),
        st.in_window,
        !st.in_process,
        !st.failed,
    ensures
        config_line(st, line) == (WlState { titles: st.titles.push(title), ..st }),
{
    reveal_strlit("//");
    reveal_strlit("let process = [");
    reveal_strlit("let window = [");
    reveal_strlit("class:");
    reveal_strlit("requires_backplate:");
    let t = trim(line);
    assert(t[0] == '"');
    assert(t.len() >= 2);
    assert(!starts_with(t, "//"@)) by {
        assert(t.subrange(0, 2)[0] == t[0]);
    }
    assert(!starts_with(t, "let process = ["@)) by {
        if t.len() >= 15 {
            assert(t.subrange(0, 15)[0] == t[0]);
        }
    }
    assert(!starts_with(t, "let window = ["@)) by {
        if t.len() >= 14 {
            assert(t.subrange(0, 14)[0] == t[0]);
        }
    }
    assert(!starts_with(t, "class:"@)) by {
        if t.len() >= 6 {
            assert(t.subrange(0, 6)[0] == t[0]);
        }
    }
    assert(!starts_with(t, "requires_backplate:"@)) by {
        if t.len() >= 19 {
            assert(t.subrange(0, 19)[0] == t[0]);
        }
    }
    assert(!t.contains('{')) by {
        if t.contains('{') {
            let i = choose|i: int| 0 <= i < t.len() && t[i] == '{';
            if 1 <= i <= title.len() {
                assert(t[i] == title[i - 1]);
                assert(title.contains('{'));
            }
        }
    }
    assert(t.contains('"')) by {
        assert(t[0] == '"');
    }
    lemma_index_of_is(t, '"', 0);
    let rest = t.skip(1);
    assert(rest[title.len() as int] == '"');
    assert forall|j: int| 0 <= j < title.len() implies rest[j] != '"' by {
        assert(rest[j] == title[j]);
        if title[j] == '"' {
            assert(title.contains('"'));
        }
    }
    lemma_index_of_is(rest, '"', title.len() as int);
    assert(t.subrange(1, 1 + title.len() as int) =~= title);
}

/// The titles of a window entry: each title line of the entry adds its
/// quoted text, in order, to the entry's titles, and nothing else changes.
pub proof fn lemma_title_lines_collected(
    prefix: Seq<Seq<char>>,
    ls: Seq<Seq<char>>,
    titles: Seq<Seq<char>>,
)
    requires
        ls.len() == titles.len(),
        forall|i: int| 0 <= i < ls.len() ==> title_line(#[trigger] ls[i], titles[i]),
        run_lines(prefix).in_window,
        !run_lines(prefix).in_process,
        !run_lines(prefix).failed,
    ensures
        run_lines(prefix + ls) == (WlState {
            titles: run_lines(prefix).titles + titles,
            ..run_lines(prefix)
        }),
    decreases ls.len(),
{
    if ls.len() == 0 {
        assert(prefix + ls =~= prefix);
        assert(run_lines(prefix).titles + titles =~= run_lines(prefix).titles);
        assert(run_lines(prefix + ls) == (WlState { titles: run_lines(prefix).titles + titles, ..run_lines(prefix) }));
    } else {
        let lp = ls.drop_last();
        let tp = titles.drop_last();
        assert forall|i: int| 0 <= i < lp.len() implies title_line(#[trigger] lp[i], tp[i]) by {
            assert(lp[i] == ls[i] && tp[i] == titles[i]);
        }
        lemma_title_lines_collected(prefix, lp, tp);
        assert((prefix + ls).drop_last() =~= prefix + lp);
        assert((prefix + ls).last() == ls.last());
        let st = run_lines(prefix + lp);
        assert(title_line(ls[ls.len() - 1], titles[titles.len() - 1]));
        lemma_title_line_step(st, ls.last(), titles.last());
        let base = run_lines(prefix);
        assert(tp.push(titles.last()) =~= titles);
        assert((base.titles + tp).push(titles.last()) =~= base.titles + titles);
        assert(run_lines(prefix + ls) == (WlState { titles: (base.titles + tp).push(titles.last()), ..base }));
    }
}

/// A window entry whose title lines follow its class line is recorded with
/// exactly those titles, in order: after the title lines and the closing
/// `},` the entry (class, titles, backplate flag) ends the window list.
pub proof fn lemma_window_entry_titles(
    prefix: Seq<Seq<char>>,
    ls: Seq<Seq<char>>,
    titles: Seq<Seq<char>>,
    close: Seq<char>,
)
    requires
        ls.len() == titles.len(),
        forall|i: int| 0 <= i < ls.len() ==> title_line(#[trigger] ls[i], titles[i]),
        run_lines(prefix).in_window,
        !run_lines(prefix).in_process,
        !run_lines(prefix).failed,
        run_lines(prefix).class.len() > 0,
        run_lines(prefix).titles.len() == 0,
        trim(close) == "},"@,
    ensures
        run_lines(prefix + ls + seq![close]).windows == run_lines(prefix).windows.push(
            (run_lines(prefix).class, titles, run_lines(prefix).window_backplate),
        ),
{
    reveal_strlit("},");
    reveal_strlit("//");
    reveal_strlit("let process = [");
    reveal_strlit("let window = [");
    reveal_strlit("class:");
    reveal_strlit("requires_backplate:");
    reveal_strlit("WindowWhitelistEntry");
    lemma_title_lines_collected(prefix, ls, titles);
    let all = prefix + ls + seq![close];
    assert(all.drop_last() =~= prefix + ls);
    assert(all.last() == close);
    let st = run_lines(prefix + ls);
    assert(st.titles =~= titles);
    let t = trim(close);
    assert(!starts_with(t, "//"@)) by {
        assert(t.subrange(0, 2)[0] == t[0]);
    }
    assert(!starts_with(t, "let process = ["@));
    assert(!starts_with(t, "let window = ["@));
    assert(!starts_with(t, "class:"@));
    assert(!starts_with(t, "requires_backplate:"@));
    assert(!t.contains('"')) by {
        if t.contains('"') {
            let i = choose|i: int| 0 <= i < t.len() && t[i] == '"';
        }
    }
    assert(!contains(t, "WindowWhitelistEntry"@)) by {
        if contains(t, "WindowWhitelistEntry"@) {
            let i = choose|i: int| occurs_at(t, "WindowWhitelistEntry"@, i);
        }
    }
}

/// The executable reader state.
struct Reader {
    in_process: bool,
    in_window: bool,
    in_entry: bool,
    process_name: Vec<char>,
    process_backplate: bool,
    class: Vec<char>,
    titles: Vec<String>,
    window_backplate: bool,
    processes: Vec<ProcessWhitelistEntry>,
    windows: Vec<WindowWhitelistEntry>,
    failed: bool,
}

impl Reader {
    spec fn state(&self) -> WlState {
        WlState {
            in_process: self.in_process,
            in_window: self.in_window,
            in_entry: self.in_entry,
            process_name: self.process_name@,
            process_backplate: self.process_backplate,
            class: self.class@,
            titles: strings_view(self.titles@),
            window_backplate: self.window_backplate,
            processes: processes_view(self.processes@),
            windows: windows_view(self.windows@),
            failed: self.failed,
        }
    }

    fn new() -> (r: Reader)
        ensures
            r.state() == initial_state(),
    {
        let r = Reader {
            in_process: false,
            in_window: false,
            in_entry: false,
            process_name: Vec::new(),
            process_backplate: false,
            class: Vec::new(),
            titles: Vec::new(),
            window_backplate: false,
            processes: Vec::new(),
            windows: Vec::new(),
            failed: false,
        };
        assert(strings_view(r.titles@) =~= Seq::<Seq<char>>::empty());
        assert(processes_view(r.processes@) =~= Seq::<(Seq<char>, bool)>::empty());
        assert(windows_view(r.windows@) =~= Seq::<(Seq<char>, Seq<Seq<char>>, bool)>::empty());
        assert(r.process_name@ =~= Seq::<char>::empty());
        assert(r.class@ =~= Seq::<char>::empty());
        r
    }

    fn close_process_entry(&mut self)
        ensures
            final(self).state() == close_process_entry(old(self).state()),
    {
        if self.process_name.len() > 0 {
            let mut name: Vec<char> = Vec::new();
            std::mem::swap(&mut name, &mut self.process_name);
            let entry = ProcessWhitelistEntry {
                name: string_of(name.as_slice()),
                requires_backplate: self.process_backplate,
            };
            let ghost before = self.processes@;
            self.processes.push(entry);
            assert(processes_view(self.processes@) =~= processes_view(before).push(
                process_view(entry),
            ));
            self.process_backplate = false;
        }
        self.in_entry = false;
        assert(self.state() =~~= close_process_entry(old(self).state()));
    }

    fn inline_name(&mut self, t: &[char])
        ensures
            final(self).state() == (match first_occurrence(t@, "name:"@) {
                Some(n) => {
                    let part = t@.skip(n + "name:"@.len());
                    let end = match index_of(part, ',') {
                        Some(k) => k,
                        None => part.len() as int,
                    };
                    match unquote(trim(part.take(end))) {
                        Some(name) => WlState { process_name: name, ..old(self).state() },
                        None => WlState { failed: true, ..old(self).state() },
                    }
                },
                None => old(self).state(),
            }),
    {
        let key = chars_of("name:");
        match after_first(t, key.as_slice()) {
            Some(part) => {
                let end = match index_of_exec(part.as_slice(), ',') {
                    Some(k) => k,
                    None => part.len(),
                };
                let head = slice_vec(part.as_slice(), 0, end);
                assert(head@ == part@.take(end as int));
                let trimmed = trim_chars(head.as_slice());
                match unquote_vec(trimmed) {
                    Some(name) => {
                        self.process_name = name;
                    },
                    None => {
                        self.failed = true;
                    },
                }
            },
            None => {},
        }
    }

    fn inline_backplate(&mut self, t: &[char])
        ensures
            final(self).state() == (match first_occurrence(t@, "requires_backplate:"@) {
                Some(r) => {
                    let part = t@.skip(r + "requires_backplate:"@.len());
                    let end = match index_of(part, '}') {
                        Some(k) => k,
                        None => part.len() as int,
                    };
                    WlState {
                        process_backplate: parse_flag(trim(part.take(end))),
                        ..old(self).state()
                    }
                },
                None => old(self).state(),
            }),
    {
        let key = chars_of("requires_backplate:");
        match after_first(t, key.as_slice()) {
            Some(part) => {
                let end = match index_of_exec(part.as_slice(), '}') {
                    Some(k) => k,
                    None => part.len(),
                };
                let head = slice_vec(part.as_slice(), 0, end);
                assert(head@ == part@.take(end as int));
                let trimmed = trim_chars(head.as_slice());
                self.process_backplate = is_true_literal(trimmed.as_slice());
            },
            None => {},
        }
    }

    fn inline_process_entry(&mut self, t: &[char])
        ensures
            final(self).state() == inline_process_entry(old(self).state(), t@),
    {
        self.inline_name(t);
        self.inline_backplate(t);
        self.close_process_entry();
    }

    fn process_line(&mut self, t: &[char])
        ensures
            final(self).state() == process_line(old(self).state(), t@),
    {
        let ghost st = self.state();
        let close = chars_of("];");
        if eq_chars(t, close.as_slice()) {
            self.in_process = false;
            assert(self.state() =~~= process_line(st, t@));
            return ;
        }
        if has_char(t, '{') {
            if has_char(t, '}') {
                self.inline_process_entry(t);
            } else {
                self.in_entry = true;
                assert(self.state() =~~= process_line(st, t@));
            }
            return ;
        }
        if has_char(t, '}') {
            self.close_process_entry();
            return ;
        }
        if self.in_entry {
            let name_key = chars_of("name:");
            let rb_key = chars_of("requires_backplate:");
            if starts_with_chars(t, name_key.as_slice()) {
                let rest = slice_vec(t, name_key.len(), t.len());
                assert(rest@ == t@.skip("name:"@.len() as int));
                let trimmed = trim_chars(rest.as_slice());
                let stripped = strip_comma_vec(trimmed);
                match unquote_vec(stripped) {
                    Some(name) => {
                        self.process_name = name;
                    },
                    None => {
                        self.failed = true;
                    },
                }
            } else if starts_with_chars(t, rb_key.as_slice()) {
                let rest = slice_vec(t, rb_key.len(), t.len());
                assert(rest@ == t@.skip("requires_backplate:"@.len() as int));
                let trimmed = trim_chars(rest.as_slice());
                let stripped = strip_comma_vec(trimmed);
                self.process_backplate = is_true_literal(stripped.as_slice());
            }
            assert(self.state() =~~= process_line(st, t@));
        } else {
            let comma = chars_of(",");
            let e = if ends_with_chars(t, comma.as_slice()) {
                proof {
                    reveal_strlit(",");
                }
                let head = slice_vec(t, 0, t.len() - 1);
                assert(head@ == t@.drop_last());
                trim_chars(head.as_slice())
            } else {
                trim_chars(t)
            };
            if e.len() == 0 {
                assert(self.state() =~~= process_line(st, t@));
                return ;
            }
            match unquote_vec(e) {
                Some(name) => {
                    let entry = ProcessWhitelistEntry {
                        name: string_of(name.as_slice()),
                        requires_backplate: false,
                    };
                    let ghost before = self.processes@;
                    self.processes.push(entry);
                    assert(processes_view(self.processes@) =~= processes_view(before).push(
                        process_view(entry),
                    ));
                },
                None => {
                    self.failed = true;
                },
            }
            assert(self.state() =~~= process_line(st, t@));
        }
    }

    fn window_line(&mut self, t: &[char])
        ensures
            final(self).state() == window_line(old(self).state(), t@),
    {
        let ghost st = self.state();
        let entry_key = chars_of("WindowWhitelistEntry");
        let class_key = chars_of("class:");
        let rb_key = chars_of("requires_backplate:");
        if contains_chars(t, entry_key.as_slice()) && has_char(t, '{') {
            self.class = Vec::new();
            self.titles = Vec::new();
            self.window_backplate = false;
            assert(strings_view(self.titles@) =~= Seq::<Seq<char>>::empty());
            assert(self.class@ =~= Seq::<char>::empty());
            assert(self.state() =~~= window_line(st, t@));
        } else if starts_with_chars(t, class_key.as_slice()) {
            match quoted_inner_vec(t) {
                Some(c) => {
                    self.class = c;
                },
                None => {},
            }
            assert(self.state() =~~= window_line(st, t@));
        } else if has_char(t, '"') && !starts_with_chars(t, rb_key.as_slice()) {
            match quoted_inner_vec(t) {
                Some(title) => {
                    let s = string_of(title.as_slice());
                    let ghost before = self.titles@;
                    self.titles.push(s);
                    assert(strings_view(self.titles@) =~= strings_view(before).push(title@));
                },
                None => {},
            }
            assert(self.state() =~~= window_line(st, t@));
        } else if starts_with_chars(t, rb_key.as_slice()) {
            let rest = slice_vec(t, rb_key.len(), t.len());
            assert(rest@ == t@.skip("requires_backplate:"@.len() as int));
            let trimmed = trim_chars(rest.as_slice());
            let stripped = strip_comma_vec(trimmed);
            self.window_backplate = is_true_literal(stripped.as_slice());
            assert(self.state() =~~= window_line(st, t@));
        } else {
            let close_comma = chars_of("},");
            let close = chars_of("}");
            let is_close_comma = eq_chars(t, close_comma.as_slice());
            let is_close = eq_chars(t, close.as_slice());
            if is_close_comma || is_close {
                if self.class.len() > 0 {
                    let mut class: Vec<char> = Vec::new();
                    std::mem::swap(&mut class, &mut self.class);
                    let mut titles: Vec<String> = Vec::new();
                    std::mem::swap(&mut titles, &mut self.titles);
                    let entry = WindowWhitelistEntry {
                        class: string_of(class.as_slice()),
                        titles,
                        requires_backplate: self.window_backplate,
                    };
                    let ghost before = self.windows@;
                    self.windows.push(entry);
                    assert(windows_view(self.windows@) =~~= windows_view(before).push(
                        window_view(entry),
                    ));
                    self.window_backplate = false;
                    assert(strings_view(self.titles@) =~= Seq::<Seq<char>>::empty());
                    assert(self.class@ =~= Seq::<char>::empty());
                }
                if is_close {
                    self.in_window = false;
                }
            }
            assert(self.state() =~~= window_line(st, t@));
        }
    }

    fn config_line(&mut self, line: &[char])
        ensures
            final(self).state() == config_line(old(self).state(), line@),
    {
        let ghost st = self.state();
        if self.failed {
            return ;
        }
        let t = trim_chars(line);
        let comment = chars_of("//");
        let process_start = chars_of("let process = [");
        let window_start = chars_of("let window = [");
        if t.len() == 0 || starts_with_chars(t.as_slice(), comment.as_slice()) {
            return ;
        }
        if starts_with_chars(t.as_slice(), process_start.as_slice()) {
            self.in_process = true;
            self.in_window = false;
            assert(self.state() =~~= config_line(st, line@));
            return ;
        }
        if starts_with_chars(t.as_slice(), window_start.as_slice()) {
            self.in_process = false;
            self.in_window = true;
            assert(self.state() =~~= config_line(st, line@));
            return ;
        }
        if self.in_process {
            self.process_line(t.as_slice());
        } else if self.in_window {
            self.window_line(t.as_slice());
        }
    }
}

/// What follows the first occurrence of `key` in `t`.
fn after_first(t: &[char], key: &[char]) -> (r: Option<Vec<char>>)
    ensures
        match first_occurrence(t@, key@) {
            Some(n) => r matches Some(v) && v@ == t@.skip(n + key@.len()),
            None => r is None,
        },
{
    match find_chars(t, key) {
        Some(n) => {
            assert(occurs_at(t@, key@, n as int));
            assert(n + key@.len() <= t@.len());
            assert(key@.len() == key.len());
            assert(t@.len() == t.len());
            let part = slice_vec(t, n + key.len(), t.len());
            Some(part)
        },
        None => None,
    }
}

fn unquote_vec(s: Vec<char>) -> (r: Option<Vec<char>>)
    ensures
        r matches Some(v) ==> unquote(s@) == Some(v@),
        r is None ==> unquote(s@) is None,
{
    if s.len() > 0 && s[0] == '"' && s[s.len() - 1] == '"' {
        if s.len() >= 2 {
            Some(slice_vec(s.as_slice(), 1, s.len() - 1))
        } else {
            None
        }
    } else {
        Some(s)
    }
}

fn strip_comma_vec(s: Vec<char>) -> (r: Vec<char>)
    ensures
        r@ == strip_comma(s@),
{
    let mut s = s;
    if s.len() > 0 && s[s.len() - 1] == ',' {
        s.pop();
    }
    s
}

fn is_true_literal(s: &[char]) -> (r: bool)
    ensures
        r == parse_flag(s@),
{
    let lit = chars_of("true");
    eq_chars(s, lit.as_slice())
}

fn quoted_inner_vec(s: &[char]) -> (r: Option<Vec<char>>)
    ensures
        r matches Some(v) ==> quoted_inner(s@) == Some(v@),
        r is None ==> quoted_inner(s@) is None,
{
    match index_of_exec(s, '"') {
        Some(q) => {
            let rest = slice_vec(s, q + 1, s.len());
            assert(rest@ == s@.skip(q + 1));
            match index_of_exec(rest.as_slice(), '"') {
                Some(e) => Some(slice_vec(s, q + 1, q + 1 + e)),
                None => None,
            }
        },
        None => None,
    }
}

/// Reads the whitelist configuration text. `None` exactly where a line asks
/// for the inside of a lone `"`.
pub fn parse_whitelist_config(content: &str) -> (r: Option<IconWhitelist>)
    ensures
        r matches Some(w) ==> parse_config(content@) == Some(
            (processes_view(w.process@), windows_view(w.window@)),
        ),
        r is None ==> parse_config(content@) is None,
{
    let chars = chars_of(content);
    let lines = lines_vec(chars.as_slice());
    let mut reader = Reader::new();
    let mut i: usize = 0;
    while i < lines.len()
        invariant
            i <= lines.len(),
            views(lines@) == lines_of(content@),
            reader.state() == run_lines(views(lines@).take(i as int)),
        decreases lines.len() - i,
    {
        reader.config_line(lines[i].as_slice());
        proof {
            let ls = views(lines@);
            assert(ls.take(i + 1).drop_last() == ls.take(i as int));
            assert(ls.take(i + 1).last() == lines@[i as int]@);
        }
        i = i + 1;
    }
    assert(views(lines@).take(lines.len() as int) == views(lines@));
    if reader.failed {
        None
    } else {
        Some(IconWhitelist { process: reader.processes, window: reader.windows })
    }
}


// ---------------------------------------------------------------------------
// Lookups
// ---------------------------------------------------------------------------
/// The first index at which `p` holds.
pub open spec fn first_index<A>(s: Seq<A>, p: spec_fn(A) -> bool) -> Option<int> {
    if exists|i: int| 0 <= i < s.len() && p(s[i]) {
        Some(choose|i: int| 0 <= i < s.len() && p(s[i]) && forall|j: int| 0 <= j < i ==> !p(s[j]))
    } else {
        None
    }
}

pub proof fn lemma_first_index_is<A>(s: Seq<A>, p: spec_fn(A) -> bool, i: int)
    requires
        0 <= i < s.len(),
        p(s[i]),
        forall|j: int| 0 <= j < i ==> !p(s[j]),
    ensures
        first_index(s, p) == Some(i),
{
    let k = choose|k: int| 0 <= k < s.len() && p(s[k]) && forall|j: int| 0 <= j < k ==> !p(s[j]);
    assert(0 <= k < s.len() && p(s[k]) && forall|j: int| 0 <= j < k ==> !p(s[j]));
    if k < i {
        assert(!p(s[k]));
    }
    if i < k {
        assert(!p(s[i]));
    }
}

proof fn lemma_least_witness<A>(s: Seq<A>, p: spec_fn(A) -> bool, i: int)
    requires
        0 <= i < s.len(),
        p(s[i]),
    ensures
        exists|k: int| 0 <= k < s.len() && p(s[k]) && forall|j: int| 0 <= j < k ==> !p(s[j]),
    decreases i,
{
    if exists|j: int| 0 <= j < i && p(s[j]) {
        let j = choose|j: int| 0 <= j < i && p(s[j]);
        lemma_least_witness(s, p, j);
    } else {
        assert(forall|j: int| 0 <= j < i ==> !p(s[j]));
    }
}

pub proof fn lemma_first_index_bounds<A>(s: Seq<A>, p: spec_fn(A) -> bool)
    ensures
        first_index(s, p) matches Some(i) ==> 0 <= i < s.len() && p(s[i]) && forall|j: int|
            0 <= j < i ==> !p(#[trigger] s[j]),
{
    if exists|i: int| 0 <= i < s.len() && p(s[i]) {
        let i = choose|i: int| 0 <= i < s.len() && p(s[i]);
        lemma_least_witness(s, p, i);
    }
}

pub proof fn lemma_first_index_none<A>(s: Seq<A>, p: spec_fn(A) -> bool)
    requires
        forall|j: int| 0 <= j < s.len() ==> !p(s[j]),
    ensures
        first_index(s, p) is None,
{
}

/// A process entry names the process when both lowercase alike.
pub open spec fn process_name_matches(entry: (Seq<char>, bool), name: Seq<char>) -> bool {
    unicode_lowercase(entry.0) == unicode_lowercase(name)
}

pub open spec fn process_pred(name: Seq<char>) -> spec_fn((Seq<char>, bool)) -> bool {
    |e: (Seq<char>, bool)| process_name_matches(e, name)
}

pub open spec fn window_pred(class: Seq<char>, title: Seq<char>) -> spec_fn(
    (Seq<char>, Seq<Seq<char>>, bool),
) -> bool {
    |e: (Seq<char>, Seq<Seq<char>>, bool)| window_entry_matches(e, class, title)
}

/// (listed, requires backplate) for a process name: the first entry whose
/// name equals the process name in lowercase decides.
pub open spec fn process_lookup(entries: Seq<(Seq<char>, bool)>, name: Seq<char>) -> (bool, bool) {
    match first_index(entries, process_pred(name)) {
        Some(i) => (true, entries[i].1),
        None => (false, false),
    }
}

/// A whitelisted title matches a window title when it is empty, equal up to
/// ASCII case, or either contains the other.
pub open spec fn title_matches(listed: Seq<char>, title: Seq<char>) -> bool {
    ||| listed.len() == 0
    ||| listed == title
    ||| eq_ignore_case(listed, title)
    ||| contains(title, listed)
    ||| contains(listed, title)
}

pub open spec fn window_entry_matches(
    entry: (Seq<char>, Seq<Seq<char>>, bool),
    class: Seq<char>,
    title: Seq<char>,
) -> bool {
    &&& eq_ignore_case(entry.0, class)
    &&& exists|j: int| 0 <= j < entry.1.len() && title_matches(#[trigger] entry.1[j], title)
}

/// (listed, requires backplate) for a window: the first entry whose class
/// equals the window class up to ASCII case and one of whose titles matches.
pub open spec fn window_lookup(
    entries: Seq<(Seq<char>, Seq<Seq<char>>, bool)>,
    class: Seq<char>,
    title: Seq<char>,
) -> (bool, bool) {
    match first_index(entries, window_pred(class, title)) {
        Some(i) => (true, entries[i].2),
        None => (false, false),
    }
}

impl IconWhitelist {
    pub open spec fn processes(&self) -> Seq<(Seq<char>, bool)> {
        processes_view(self.process@)
    }

    pub open spec fn windows(&self) -> Seq<(Seq<char>, Seq<Seq<char>>, bool)> {
        windows_view(self.window@)
    }

    /// An empty whitelist.
    pub fn empty() -> (r: IconWhitelist)
        ensures
            r.processes().len() == 0,
            r.windows().len() == 0,
    {
        IconWhitelist { process: Vec::new(), window: Vec::new() }
    }
}

/// The whitelists to use: those the configuration text describes, or empty
/// ones where the text could not be read (`None`). `None` is returned where
/// the text asks for the inside of a lone `"`.
pub fn init_icon_whitelist(content: Option<&str>) -> (r: Option<IconWhitelist>)
    ensures
        content is None ==> (r matches Some(w) && w.processes().len() == 0 && w.windows().len()
            == 0),
        content matches Some(c) ==> match parse_config(c@) {
            Some((p, w)) => (r matches Some(x) && x.processes() == p && x.windows() == w),
            None => r is None,
        },
{
    match content {
        None => Some(IconWhitelist::empty()),
        Some(c) => parse_whitelist_config(c),
    }
}

/// Whether the process is in the process whitelist, and whether it wants a
/// backplate.
pub fn is_process_whitelisted(whitelist: &IconWhitelist, process_name: &str) -> (r: (bool, bool))
    ensures
        r == process_lookup(whitelist.processes(), process_name@),
{
    let lowered = to_lowercase(process_name);
    let entries = &whitelist.process;
    let ghost es = whitelist.processes();
    let mut i: usize = 0;
    while i < entries.len()
        invariant
            i <= entries.len(),
            es == processes_view(entries@),
            es == whitelist.processes(),
            es.len() == entries.len(),
            lowered@ == unicode_lowercase(process_name@),
            forall|j: int| 0 <= j < i ==> !process_name_matches(#[trigger] es[j], process_name@),
        decreases entries.len() - i,
    {
        let name_lower = to_lowercase(entries[i].name.as_str());
        if eq_str(name_lower.as_str(), lowered.as_str()) {
            proof {
                assert(es[i as int] == process_view(entries@[i as int]));
                lemma_first_index_is(es, process_pred(process_name@), i as int);
                assert(first_index(es, process_pred(process_name@)) == Some(i as int));
                assert(process_lookup(es, process_name@) == (true, es[i as int].1));
            }
            return (true, entries[i].requires_backplate);
        }
        assert(es[i as int] == process_view(entries@[i as int]));
        i = i + 1;
    }
    proof {
        lemma_first_index_none(es, process_pred(process_name@));
    }
    (false, false)
}

pub fn title_matches_exec(listed: &str, title: &str) -> (r: bool)
    ensures
        r == title_matches(listed@, title@),
{
    let l = chars_of(listed);
    let t = chars_of(title);
    l.len() == 0 || eq_chars(l.as_slice(), t.as_slice()) || eq_ignore_case_chars(
        l.as_slice(),
        t.as_slice(),
    ) || contains_chars(t.as_slice(), l.as_slice()) || contains_chars(l.as_slice(), t.as_slice())
}

fn window_entry_matches_exec(entry: &WindowWhitelistEntry, class: &str, title: &str) -> (r: bool)
    ensures
        r == window_entry_matches(window_view(*entry), class@, title@),
{
    if !eq_ignore_ascii_case(entry.class.as_str(), class) {
        return false;
    }
    let ghost ts = strings_view(entry.titles@);
    let mut j: usize = 0;
    while j < entry.titles.len()
        invariant
            j <= entry.titles.len(),
            ts == strings_view(entry.titles@),
            eq_ignore_case(entry.class@, class@),
            forall|k: int| 0 <= k < j ==> !title_matches(#[trigger] ts[k], title@),
        decreases entry.titles.len() - j,
    {
        if title_matches_exec(entry.titles[j].as_str(), title) {
            assert(ts[j as int] == entry.titles@[j as int]@);
            assert(title_matches(ts[j as int], title@));
            assert(window_view(*entry).1 == ts);
            assert(window_view(*entry).0 == entry.class@);
            assert(eq_ignore_case(entry.class@, class@));
            assert(window_entry_matches(window_view(*entry), class@, title@));
            return true;
        }
        assert(ts[j as int] == entry.titles@[j as int]@);
        j = j + 1;
    }
    false
}

/// Whether the window is in the window whitelist, and whether it wants a
/// backplate.
pub fn is_window_whitelisted(whitelist: &IconWhitelist, class: &str, title: &str) -> (r: (
    bool,
    bool,
))
    ensures
        r == window_lookup(whitelist.windows(), class@, title@),
{
    let entries = &whitelist.window;
    let ghost es = whitelist.windows();
    let mut i: usize = 0;
    while i < entries.len()
        invariant
            i <= entries.len(),
            es == windows_view(entries@),
            es == whitelist.windows(),
            es.len() == entries.len(),
            forall|j: int| 0 <= j < i ==> !window_entry_matches(#[trigger] es[j], class@, title@),
        decreases entries.len() - i,
    {
        if window_entry_matches_exec(&entries[i], class, title) {
            proof {
                assert(es[i as int] == window_view(entries@[i as int]));
                lemma_first_index_is(es, window_pred(class@, title@), i as int);
            }
            return (true, entries[i].requires_backplate);
        }
        assert(es[i as int] == window_view(entries@[i as int]));
        i = i + 1;
    }
    proof {
        lemma_first_index_none(es, window_pred(class@, title@));
    }
    (false, false)
}

/// Whether the process is in the process whitelist.
pub fn is_app_whitelisted(whitelist: &IconWhitelist, process_name: &str) -> (r: bool)
    ensures
        r == process_lookup(whitelist.processes(), process_name@).0,
{
    is_process_whitelisted(whitelist, process_name).0
}

/// The process whitelist decides first; the window whitelist only for
/// processes it does not list.
pub open spec fn app_or_window_lookup(
    whitelist: IconWhitelist,
    process_name: Seq<char>,
    class: Seq<char>,
    title: Seq<char>,
) -> (bool, bool) {
    let p = process_lookup(whitelist.processes(), process_name);
    if p.0 {
        p
    } else {
        window_lookup(whitelist.windows(), class, title)
    }
}

pub fn is_app_or_window_whitelisted(
    whitelist: &IconWhitelist,
    process_name: &str,
    class: &str,
    title: &str,
) -> (r: (bool, bool))
    ensures
        r == app_or_window_lookup(*whitelist, process_name@, class@, title@),
{
    let (listed, backplate) = is_process_whitelisted(whitelist, process_name);
    if listed {
        return (true, backplate);
    }
    is_window_whitelisted(whitelist, class, title)
}

/// Whether a listed title and a window title match does not depend on which
/// of the two is the listed one.
pub proof fn lemma_title_match_symmetric(a: Seq<char>, b: Seq<char>)
    ensures
        title_matches(a, b) == title_matches(b, a),
{
    if a.len() == 0 {
        assert(occurs_at(b, a, 0)) by {
            assert(b.subrange(0, 0) =~= a);
        }
    }
    if b.len() == 0 {
        assert(occurs_at(a, b, 0)) by {
            assert(a.subrange(0, 0) =~= b);
        }
    }
}

/// The window whitelist compares classes without regard to ASCII case.
pub proof fn lemma_window_lookup_class_case(
    entries: Seq<(Seq<char>, Seq<Seq<char>>, bool)>,
    class1: Seq<char>,
    class2: Seq<char>,
    title: Seq<char>,
)
    requires
        eq_ignore_case(class1, class2),
    ensures
        window_lookup(entries, class1, title) == window_lookup(entries, class2, title),
{
    assert(window_pred(class1, title) =~= window_pred(class2, title));
}

/// A process listed in the process whitelist is reported whatever its
/// window looks like.
pub proof fn lemma_listed_process_wins(
    whitelist: IconWhitelist,
    process_name: Seq<char>,
    class: Seq<char>,
    title: Seq<char>,
)
    requires
        process_lookup(whitelist.processes(), process_name).0,
    ensures
        app_or_window_lookup(whitelist, process_name, class, title) == process_lookup(
            whitelist.processes(),
            process_name,
        ),
{
}

// ---------------------------------------------------------------------------
// Process names
// ---------------------------------------------------------------------------
/// Installer executables whose names are too common to identify an app.
pub open spec fn is_generic_installer_name(lower: Seq<char>) -> bool {
    ||| lower == "setup.exe"@
    ||| lower == "install.exe"@
    ||| lower == "uninstall.exe"@
    ||| lower == "launcher.exe"@
    ||| lower == "browser.exe"@
}

/// Whether the file name, in lowercase, is one of the generic installer
/// names.
pub fn is_generic_installer(filename: &str) -> (r: bool)
    ensures
        r == is_generic_installer_name(unicode_lowercase(filename@)),
{
    let lower = to_lowercase(filename);
    let l = lower.as_str();
    eq_str(l, "setup.exe") || eq_str(l, "install.exe") || eq_str(l, "uninstall.exe") || eq_str(
        l,
        "launcher.exe",
    ) || eq_str(l, "browser.exe")
}

/// Common file names that are shipped under another icon name.
pub open spec fn mapped_process_name(name: Seq<char>) -> Seq<char> {
    let lower = unicode_lowercase(name);
    if lower == "microsoft edge"@ || lower == "msedge"@ {
        "msedge"@
    } else {
        name
    }
}

pub fn get_mapped_process_name(process_name: &str) -> (r: String)
    ensures
        r@ == mapped_process_name(process_name@),
{
    let lower = to_lowercase(process_name);
    if eq_str(lower.as_str(), "microsoft edge") || eq_str(lower.as_str(), "msedge") {
        let v = chars_of("msedge");
        string_of(v.as_slice())
    } else {
        let v = chars_of(process_name);
        string_of(v.as_slice())
    }
}

/// The icon file stem of a process name: up to its first dot, unless the
/// name starts with the dot.
pub open spec fn icon_stem(name: Seq<char>) -> Seq<char> {
    match index_of(name, '.') {
        Some(pos) => if pos == 0 {
            name
        } else {
            name.take(pos)
        },
        None => name,
    }
}

pub fn icon_stem_of(process_name: &str) -> (r: String)
    ensures
        r@ == icon_stem(process_name@),
{
    let v = chars_of(process_name);
    match index_of_exec(v.as_slice(), '.') {
        Some(pos) => {
            if pos == 0 {
                string_of(v.as_slice())
            } else {
                let head = slice_vec(v.as_slice(), 0, pos);
                assert(head@ == v@.take(pos as int));
                string_of(head.as_slice())
            }
        },
        None => string_of(v.as_slice()),
    }
}

/// The backplate an icon is drawn for.
#[derive(Debug, Clone, Copy, PartialEq, Eq, Structural)]
pub enum IconBackplateStyle {
    Transparent,
    White,
}

/// The folder of the local icons for a backplate.
pub open spec fn local_icon_dir_name(mode: IconBackplateStyle) -> Seq<char> {
    match mode {
        IconBackplateStyle::Transparent => "DockIcon"@,
        IconBackplateStyle::White => "DockIconWhite"@,
    }
}

/// `res\drawable\{folder}` under a base folder.
pub open spec fn drawable_dir(base: Seq<char>, mode: IconBackplateStyle) -> Seq<char> {
    joined(joined(joined(base, "res"@), "drawable"@), local_icon_dir_name(mode))
}

fn drawable_dir_exec(base: &str, mode: IconBackplateStyle) -> (r: String)
    ensures
        r@ == drawable_dir(base@, mode),
{
    let a = join_path(base, "res");
    let b = join_path(a.as_str(), "drawable");
    let name = match mode {
        IconBackplateStyle::Transparent => "DockIcon",
        IconBackplateStyle::White => "DockIconWhite",
    };
    join_path(b.as_str(), name)
}

/// Where the local icons may be, in the order they are looked for: beside
/// the program, then two and three folders above it.
pub fn local_icon_dir_candidates(exe_dir: &str, mode: IconBackplateStyle) -> (r: Vec<String>)
    ensures
        r@.len() == 3,
        r@[0]@ == drawable_dir(exe_dir@, mode),
        r@[1]@ == drawable_dir(joined(joined(exe_dir@, ".."@), ".."@), mode),
        r@[2]@ == drawable_dir(joined(joined(joined(exe_dir@, ".."@), ".."@), ".."@), mode),
{
    let up1 = join_path(exe_dir, "..");
    let up2 = join_path(up1.as_str(), "..");
    let up3 = join_path(up2.as_str(), "..");
    let mut r: Vec<String> = Vec::new();
    r.push(drawable_dir_exec(exe_dir, mode));
    r.push(drawable_dir_exec(up2.as_str(), mode));
    r.push(drawable_dir_exec(up3.as_str(), mode));
    r
}

/// `{name}.png`
pub open spec fn png_name(name: Seq<char>) -> Seq<char> {
    name + seq!['.', 'p', 'n', 'g']
}

fn png_name_exec(name: &str) -> (r: String)
    ensures
        r@ == png_name(name@),
{
    let mut v = chars_of(name);
    v.push('.');
    v.push('p');
    v.push('n');
    v.push('g');
    assert(v@ =~= png_name(name@));
    string_of(v.as_slice())
}

/// The local icon files tried for a process, in order: its icon stem, then
/// the stem's mapped name when that differs.
pub fn local_icon_file_names(process_name: &str) -> (r: Vec<String>)
    ensures
        ({
            let stem = icon_stem(process_name@);
            let mapped = mapped_process_name(stem);
            &&& r@.len() == if mapped == stem {
                1int
            } else {
                2int
            }
            &&& r@[0]@ == png_name(stem)
            &&& mapped != stem ==> r@[1]@ == png_name(mapped)
        }),
{
    let stem = icon_stem_of(process_name);
    let mapped = get_mapped_process_name(stem.as_str());
    let mut r: Vec<String> = Vec::new();
    r.push(png_name_exec(stem.as_str()));
    if !eq_str(mapped.as_str(), stem.as_str()) {
        r.push(png_name_exec(mapped.as_str()));
    }
    r
}

/// Where the icon whitelist is read from: `static\\whitelist.txt` in the
/// application's folder.
pub fn whitelist_config_path(app_dir: &str) -> (r: String)
    ensures
        r@ == joined(joined(app_dir@, "static"@), "whitelist.txt"@),
{
    let s = join_path(app_dir, "static");
    join_path(s.as_str(), "whitelist.txt")
}

} // verus!
