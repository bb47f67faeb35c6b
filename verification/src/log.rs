//! Reading the game's log: which lines get a colored flag, which file events
//! matter, and how far the log has been read.
use vstd::prelude::*;
use crate::text::{
    chars_of, eq_ignore_ascii_case, eq_ignore_case, find, find_char, string_of, sub_chars,
};

verus! {

#[verifier::external_type_specification]
#[verifier::external_body]
pub struct ExRegex(regex::Regex);

/// The style a log line's leading flag is shown in.
#[derive(Clone, Copy, Debug, PartialEq, Eq, Structural)]
pub enum LogFlagStyle {
    Info,
    Warning,
    Error,
    Trace,
    Stack,
}

/// A terminal colour a log flag is drawn in.
#[derive(Clone, Copy, Debug, PartialEq, Eq, Structural)]
pub enum FlagColor {
    Red,
    Yellow,
    Cyan,
    BrightBlack,
}

/// How a flag of each style is drawn: its colour, and whether it is bold.
/// Errors are bold red, warnings bold yellow, information cyan; debug lines
/// and stack frames are grey.
pub open spec fn look_of(style: LogFlagStyle) -> (FlagColor, bool) {
    match style {
        LogFlagStyle::Error => (FlagColor::Red, true),
        LogFlagStyle::Warning => (FlagColor::Yellow, true),
        LogFlagStyle::Info => (FlagColor::Cyan, false),
        LogFlagStyle::Trace => (FlagColor::BrightBlack, false),
        LogFlagStyle::Stack => (FlagColor::BrightBlack, false),
    }
}

/// The colour and weight a flag of `style` is drawn in.
pub fn flag_look(style: LogFlagStyle) -> (res: (FlagColor, bool))
    ensures
        res == look_of(style),
{
    match style {
        LogFlagStyle::Error => (FlagColor::Red, true),
        LogFlagStyle::Warning => (FlagColor::Yellow, true),
        LogFlagStyle::Info => (FlagColor::Cyan, false),
        LogFlagStyle::Trace => (FlagColor::BrightBlack, false),
        LogFlagStyle::Stack => (FlagColor::BrightBlack, false),
    }
}

/// A compiled regular expression together with its source text.
pub struct Pattern {
    text: String,
    re: regex::Regex,
}

impl Pattern {
    pub closed spec fn source(&self) -> Seq<char> {
        self.text@
    }
}

/// Whether the `regex` crate compiles `pattern`.
pub uninterp spec fn regex_compiles(pattern: Seq<char>) -> bool;

/// The leftmost-first match of `pattern` in `haystack` as the `regex` crate
/// finds it: its start (a byte offset), the matched text, and the text after
/// the match.
pub uninterp spec fn regex_leftmost(pattern: Seq<char>, haystack: Seq<char>) -> Option<
    (int, Seq<char>, Seq<char>),
>;

/// `regex::Regex::new`. Claimed: it succeeds exactly when `regex_compiles`
/// says so, and the compiled expression keeps its source text.
#[verifier::external_body]
fn compile(pattern: &str) -> (res: Option<Pattern>)
    ensures
        res is Some == regex_compiles(pattern@),
        res matches Some(p) ==> p.source() == pattern@,
{
    match regex::Regex::new(pattern) {
        Ok(re) => Some(Pattern { text: pattern.to_string(), re }),
        Err(_) => None,
    }
}

pub open spec fn match_view(m: Option<(usize, String, String)>) -> Option<(int, Seq<char>, Seq<char>)> {
    match m {
        Some((s, a, b)) => Some((s as int, a@, b@)),
        None => None,
    }
}

/// `regex::Regex::find`. Claimed: the result is the match `regex_leftmost`
/// names for the expression's source text; a match is a contiguous piece of
/// the haystack, so one that starts at offset 0 followed by the rest of the
/// haystack is the whole haystack.
#[verifier::external_body]
fn find_match(p: &Pattern, haystack: &str) -> (res: Option<(usize, String, String)>)
    ensures
        match_view(res) == regex_leftmost(p.source(), haystack@),
        res matches Some((start, m, rest)) ==> (start == 0 ==> m@ + rest@ == haystack@),
{
    p.re.find(haystack).map(|m| (m.start(), m.as_str().to_string(), haystack[m.end()..].to_string()))
}

/// The patterns that recognise a flag at the start of a log line, in the
/// order they are tried.
pub open spec fn rule_pattern(i: int) -> Seq<char> {
    if i == 0 {
        "(?i)^(\\[.+\\])*\\[(info)\\]"@
    } else if i == 1 {
        "(?i)^(\\[.+\\])\\s*info:"@
    } else if i == 2 {
        "(?i)^(\\[.+\\])*\\[(warning)\\]"@
    } else if i == 3 {
        "(?i)^(\\[.+\\])*\\s*warning:"@
    } else if i == 4 {
        "(?i)^(\\[.+\\])*\\[(error|critical)\\]"@
    } else if i == 5 {
        "(?i)^(\\[.+\\])*\\s*(error|critical|script error):"@
    } else if i == 6 {
        "(?i)^(\\[.+\\])*\\[(debug)\\]"@
    } else if i == 7 {
        "(?i)^(\\[.+\\])*\\s*debug:"@
    } else {
        "^[^\\S\\r\\n]{3,}at:\\s+.*"@
    }
}

/// The style of the flag each pattern recognises.
pub open spec fn rule_style(i: int) -> LogFlagStyle {
    if i <= 1 {
        LogFlagStyle::Info
    } else if i <= 3 {
        LogFlagStyle::Warning
    } else if i <= 5 {
        LogFlagStyle::Error
    } else if i <= 7 {
        LogFlagStyle::Trace
    } else {
        LogFlagStyle::Stack
    }
}

pub open spec fn rule_count() -> int {
    9
}

/// The flag of a log line from the `i`-th pattern on: the first pattern whose
/// match starts the line gives the style, the flag (the matched text) and the
/// rest of the line.
pub open spec fn flag_from(line: Seq<char>, i: int) -> Option<(LogFlagStyle, Seq<char>, Seq<char>)>
    decreases rule_count() - i,
{
    if i < 0 || i >= rule_count() {
        None
    } else {
        match regex_leftmost(rule_pattern(i), line) {
            Some((start, m, rest)) => if start == 0 {
                Some((rule_style(i), m, rest))
            } else {
                flag_from(line, i + 1)
            },
            None => flag_from(line, i + 1),
        }
    }
}

/// The flag of a log line, if it has one.
pub open spec fn log_flag(line: Seq<char>) -> Option<(LogFlagStyle, Seq<char>, Seq<char>)> {
    flag_from(line, 0)
}

/// The compiled flag patterns.
pub struct LogRules {
    rules: Vec<(Pattern, LogFlagStyle)>,
}

impl LogRules {
    #[verifier::type_invariant]
    closed spec fn wf(self) -> bool {
        &&& self.rules@.len() == rule_count()
        &&& forall|i: int|
            0 <= i < rule_count() ==> (#[trigger] self.rules@[i]).0.source() == rule_pattern(i)
                && self.rules@[i].1 == rule_style(i)
    }

    fn add(rules: &mut Vec<(Pattern, LogFlagStyle)>, pattern: &str, style: LogFlagStyle) -> (ok: bool)
        ensures
            ok == regex_compiles(pattern@),
            ok ==> final(rules)@.len() == old(rules)@.len() + 1,
            ok ==> final(rules)@.take(old(rules)@.len() as int) == old(rules)@,
            ok ==> final(rules)@.last().0.source() == pattern@,
            ok ==> final(rules)@.last().1 == style,
    {
        match compile(pattern) {
            Some(p) => {
                rules.push((p, style));
                assert(rules@.take(old(rules)@.len() as int) =~= old(rules)@);
                true
            },
            None => false,
        }
    }

    /// Compiles the flag patterns; `None` when the `regex` crate rejects one.
    pub fn new() -> (res: Option<LogRules>)
        ensures
            res is Some == (forall|i: int| 0 <= i < rule_count() ==> regex_compiles(#[trigger] rule_pattern(i))),
    {
        let mut rules: Vec<(Pattern, LogFlagStyle)> = Vec::new();
        let ghost all = forall|i: int| 0 <= i < rule_count() ==> regex_compiles(#[trigger] rule_pattern(i));
        if !Self::add(&mut rules, "(?i)^(\\[.+\\])*\\[(info)\\]", LogFlagStyle::Info) {
            assert(!regex_compiles(rule_pattern(0)));
            return None;
        }
        if !Self::add(&mut rules, "(?i)^(\\[.+\\])\\s*info:", LogFlagStyle::Info) {
            assert(!regex_compiles(rule_pattern(1)));
            return None;
        }
        if !Self::add(&mut rules, "(?i)^(\\[.+\\])*\\[(warning)\\]", LogFlagStyle::Warning) {
            assert(!regex_compiles(rule_pattern(2)));
            return None;
        }
        if !Self::add(&mut rules, "(?i)^(\\[.+\\])*\\s*warning:", LogFlagStyle::Warning) {
            assert(!regex_compiles(rule_pattern(3)));
            return None;
        }
        if !Self::add(&mut rules, "(?i)^(\\[.+\\])*\\[(error|critical)\\]", LogFlagStyle::Error) {
            assert(!regex_compiles(rule_pattern(4)));
            return None;
        }
        if !Self::add(
            &mut rules,
            "(?i)^(\\[.+\\])*\\s*(error|critical|script error):",
            LogFlagStyle::Error,
        ) {
            assert(!regex_compiles(rule_pattern(5)));
            return None;
        }
        if !Self::add(&mut rules, "(?i)^(\\[.+\\])*\\[(debug)\\]", LogFlagStyle::Trace) {
            assert(!regex_compiles(rule_pattern(6)));
            return None;
        }
        if !Self::add(&mut rules, "(?i)^(\\[.+\\])*\\s*debug:", LogFlagStyle::Trace) {
            assert(!regex_compiles(rule_pattern(7)));
            return None;
        }
        if !Self::add(&mut rules, "^[^\\S\\r\\n]{3,}at:\\s+.*", LogFlagStyle::Stack) {
            assert(!regex_compiles(rule_pattern(8)));
            return None;
        }
        assert forall|i: int| 0 <= i < rule_count() implies (#[trigger] rules@[i]).0.source()
            == rule_pattern(i) && rules@[i].1 == rule_style(i) by {
            if i == 0 {
                assert(rules@[0] == rules@.take(1)[0]);
            }
        }
        Some(LogRules { rules })
    }

    /// The flag of a log line: the style, the flag text and the rest of the line.
    pub fn classify(&self, line: &str) -> (res: Option<(LogFlagStyle, String, String)>)
        ensures
            match res {
                Some((style, flag, rest)) => log_flag(line@) == Some((style, flag@, rest@)),
                None => log_flag(line@) is None,
            },
            res matches Some((_, flag, rest)) ==> flag@ + rest@ == line@,
    {
        proof {
            use_type_invariant(self);
        }
        for i in 0..self.rules.len()
            invariant
                self.rules@.len() == rule_count(),
                forall|j: int|
                    0 <= j < rule_count() ==> (#[trigger] self.rules@[j]).0.source() == rule_pattern(j)
                        && self.rules@[j].1 == rule_style(j),
                log_flag(line@) == flag_from(line@, i as int),
        {
            let rule = &self.rules[i];
            assert(rule.0.source() == rule_pattern(i as int));
            match find_match(&rule.0, line) {
                Some((start, m, rest)) => {
                    if start == 0 {
                        return Some((rule.1, m, rest));
                    }
                },
                None => {},
            }
        }
        None
    }
}

/// `str::split_inclusive('\n')`: the pieces of `s`, each ending with its `\n`
/// except perhaps the last.
pub open spec fn split_inclusive(s: Seq<char>) -> Seq<Seq<char>>
    decreases s.len(),
{
    if s.len() == 0 {
        Seq::empty()
    } else {
        match find_char(s, '\n') {
            Some(i) => if 0 <= i < s.len() {
                seq![s.take(i + 1)] + split_inclusive(s.skip(i + 1))
            } else {
                Seq::empty()
            },
            None => seq![s],
        }
    }
}

pub open spec fn string_views(s: Seq<String>) -> Seq<Seq<char>> {
    s.map_values(|x: String| x@)
}

/// Splits log text into lines that keep their line feed.
pub fn split_inclusive_lines(text: &str) -> (res: Vec<String>)
    ensures
        string_views(res@) == split_inclusive(text@),
{
    let chars = chars_of(text);
    let mut res: Vec<String> = Vec::new();
    let mut start: usize = 0;
    assert(chars@.skip(0) == chars@);
    assert(string_views(res@) =~= Seq::<Seq<char>>::empty());
    while start < chars.len()
        invariant
            start <= chars@.len(),
            chars@ == text@,
            split_inclusive(text@) == string_views(res@) + split_inclusive(chars@.skip(start as int)),
        decreases chars.len() - start,
    {
        let rest = sub_chars(&chars, start, chars.len());
        assert(rest@ == chars@.skip(start as int));
        let ghost before = string_views(res@);
        match find(&rest, '\n') {
            Some(i) => {
                proof {
                    crate::text::lemma_find_char_range(rest@, '\n');
                }
                let piece = sub_chars(&rest, 0, i + 1);
                res.push(string_of(&piece));
                assert(rest@.skip(i + 1) == chars@.skip(start + i + 1));
                assert(string_views(res@) == before.push(rest@.take(i + 1)));
                start = start + i + 1;
            },
            None => {
                res.push(string_of(&rest));
                assert(string_views(res@) == before.push(rest@));
                start = chars.len();
                assert(chars@.skip(start as int) =~= Seq::<char>::empty());
            },
        }
    }
    res
}

/// The kind of a file-system event, as `notify` reports it.
#[derive(Clone, Copy, Debug, PartialEq, Eq, Structural)]
pub enum LogEventKind {
    Any,
    Access,
    Create,
    Modify,
    Remove,
    Other,
}

/// A path an event names: whether it is the log file itself, and its file
/// name when that is UTF-8.
pub struct EventPath {
    pub is_log_file: bool,
    pub file_name: Option<String>,
}

/// The log file's name.
pub open spec fn log_name() -> Seq<char> {
    "godot.log"@
}

pub open spec fn names_log(p: EventPath) -> bool {
    p.is_log_file || (p.file_name matches Some(n) && eq_ignore_ascii_case(n@, log_name()))
}

/// Whether an event concerns the log: one of its paths is the log file, or has
/// the log's file name in any ASCII case.
pub fn is_log_event(paths: &Vec<EventPath>) -> (res: bool)
    ensures
        res == exists|i: int| 0 <= i < paths@.len() && #[trigger] names_log(paths@[i]),
{
    let log = chars_of("godot.log");
    for i in 0..paths.len()
        invariant
            log@ == log_name(),
            forall|j: int| 0 <= j < i ==> !#[trigger] names_log(paths@[j]),
    {
        let p = &paths[i];
        if p.is_log_file {
            assert(names_log(paths@[i as int]));
            return true;
        }
        match &p.file_name {
            Some(n) => {
                let c = chars_of(n.as_str());
                if eq_ignore_case(&c, &log) {
                    assert(names_log(paths@[i as int]));
                    return true;
                }
            },
            None => {},
        }
    }
    false
}

/// Whether an event calls for reading the log again: it concerns the log and
/// is not a mere access.
pub fn should_refresh_log(kind: LogEventKind, paths: &Vec<EventPath>) -> (res: bool)
    ensures
        res == ((exists|i: int| 0 <= i < paths@.len() && #[trigger] names_log(paths@[i])) && kind
            != LogEventKind::Access),
{
    if !is_log_event(paths) {
        return false;
    }
    match kind {
        LogEventKind::Access => false,
        _ => true,
    }
}

/// What watching the log does after an event.
#[derive(Clone, Copy, Debug, PartialEq, Eq, Structural)]
pub enum LogAction {
    /// Nothing to show.
    Nothing,
    /// Show the log from this byte offset on.
    Print { from: u64 },
    /// Tell the user the log is unavailable for now.
    ReportMissing,
}

/// How far the watched log has been shown, and whether it went missing.
pub struct LogWatch {
    read_offset: u64,
    was_missing: bool,
}

impl View for LogWatch {
    type V = (u64, bool);

    closed spec fn view(&self) -> (u64, bool) {
        (self.read_offset, self.was_missing)
    }
}

/// The watch state and action after the log was found with length `state`
/// (or not found, `None`): a shorter log was truncated and is shown from its
/// start; a longer one, or one that reappeared, is shown from the offset read
/// so far; a missing log is reported once.
pub open spec fn log_step(w: (u64, bool), state: Option<u64>) -> ((u64, bool), LogAction) {
    match state {
        Some(len) => {
            let offset = if len < w.0 {
                0
            } else {
                w.0
            };
            if len > offset || w.1 {
                ((offset, false), LogAction::Print { from: offset })
            } else {
                ((offset, w.1), LogAction::Nothing)
            }
        },
        None => if !w.1 {
            ((0, true), LogAction::ReportMissing)
        } else {
            ((0, w.1), LogAction::Nothing)
        },
    }
}

impl LogWatch {
    /// Starts watching a log that has already been shown up to `len` bytes.
    pub fn new(len: u64) -> (res: LogWatch)
        ensures
            res@ == (len, false),
    {
        LogWatch { read_offset: len, was_missing: false }
    }

    pub fn read_offset(&self) -> (res: u64)
        ensures
            res == self@.0,
    {
        self.read_offset
    }

    /// Takes in the log's current length, or `None` when it cannot be read.
    pub fn on_refresh(&mut self, state: Option<u64>) -> (res: LogAction)
        ensures
            (final(self)@, res) == log_step(old(self)@, state),
    {
        match state {
            Some(len) => {
                if len < self.read_offset {
                    self.read_offset = 0;
                }
                if len > self.read_offset || self.was_missing {
                    self.was_missing = false;
                    LogAction::Print { from: self.read_offset }
                } else {
                    LogAction::Nothing
                }
            },
            None => {
                self.read_offset = 0;
                if !self.was_missing {
                    self.was_missing = true;
                    LogAction::ReportMissing
                } else {
                    LogAction::Nothing
                }
            },
        }
    }

    /// Records that `appended` more bytes were shown.
    pub fn on_printed(&mut self, appended: u64)
        requires
            old(self)@.0 + appended <= u64::MAX,
        ensures
            final(self)@.0 == old(self)@.0 + appended,
            final(self)@.1 == old(self)@.1,
    {
        self.read_offset = self.read_offset + appended;
    }
}


/// Watching the log through a run of refreshes, each finding the log with the
/// given length (or missing): the watch state at the end, and the byte ranges
/// shown, in order. Each `Print` shows the log from its offset to the length
/// found, and `on_printed` then moves the offset to that length.
pub open spec fn watch_run(w: (u64, bool), states: Seq<Option<u64>>) -> ((u64, bool), Seq<(int, int)>)
    decreases states.len(),
{
    if states.len() == 0 {
        (w, Seq::empty())
    } else {
        let (w1, shown) = watch_run(w, states.drop_last());
        let (w2, action) = log_step(w1, states.last());
        match (action, states.last()) {
            (LogAction::Print { from }, Some(len)) => ((len, w2.1), shown.push((from as int, len as int))),
            _ => (w2, shown),
        }
    }
}

/// `shown` is a run of non-empty byte ranges, each starting where the one
/// before ended, that together cover the bytes from `a` to `b`.
pub open spec fn covers(shown: Seq<(int, int)>, a: int, b: int) -> bool {
    &&& shown.len() == 0 ==> a == b
    &&& shown.len() > 0 ==> shown[0].0 == a && shown.last().1 == b
    &&& forall|i: int| 0 <= i < shown.len() - 1 ==> (#[trigger] shown[i]).1 == shown[i + 1].0
    &&& forall|i: int| 0 <= i < shown.len() ==> (#[trigger] shown[i]).0 < shown[i].1
}

/// The log only grows from `start` bytes: each refresh finds it, no shorter
/// than before.
pub open spec fn grows_from(start: u64, states: Seq<Option<u64>>) -> bool {
    &&& forall|i: int| 0 <= i < states.len() ==> (#[trigger] states[i]) is Some
    &&& forall|i: int| 0 <= i < states.len() ==> start <= (#[trigger] states[i])->0
    &&& forall|i: int, j: int| 0 <= i < j < states.len() ==> (#[trigger] states[i])->0 <= (
        #[trigger] states[j])->0
}

/// While a watched log only grows, every byte appended to it after watching
/// began is shown exactly once, in order: the ranges shown run without gap or
/// overlap from where watching began to the log's last length, and the offset
/// ends there.
pub proof fn law_watch_shows_appended_once(start: u64, states: Seq<Option<u64>>)
    requires
        grows_from(start, states),
    ensures
        ({
            let end: u64 = if states.len() == 0 { start } else { states.last()->0 };
            &&& watch_run((start, false), states).0 == (end, false)
            &&& covers(watch_run((start, false), states).1, start as int, end as int)
        }),
    decreases states.len(),
{
    if states.len() > 0 {
        let d = states.drop_last();
        assert(grows_from(start, d)) by {
            assert forall|i: int, j: int| 0 <= i < j < d.len() implies (#[trigger] d[i])->0 <= (
                #[trigger] d[j])->0 by {
                assert(d[i] == states[i] && d[j] == states[j]);
            }
            assert forall|i: int| 0 <= i < d.len() implies start <= (#[trigger] d[i])->0 && d[i] is Some by {
                assert(d[i] == states[i]);
            }
        }
        law_watch_shows_appended_once(start, d);
        let prev: u64 = if d.len() == 0 { start } else { d.last()->0 };
        let len = states.last()->0;
        assert(states.last() is Some);
        assert(prev <= len) by {
            if d.len() > 0 {
                assert(d.last() == states[states.len() - 2]);
            }
        }
        let shown = watch_run((start, false), d).1;
        if len > prev {
            let r = shown.push((prev as int, len as int));
            assert forall|i: int| 0 <= i < r.len() - 1 implies (#[trigger] r[i]).1 == r[i + 1].0 by {
                if i < shown.len() - 1 {
                    assert(r[i] == shown[i] && r[i + 1] == shown[i + 1]);
                } else {
                    assert(r[i] == shown.last());
                }
            }
            assert forall|i: int| 0 <= i < r.len() implies (#[trigger] r[i]).0 < r[i].1 by {
                if i < shown.len() {
                    assert(r[i] == shown[i]);
                }
            }
        }
    }
}

/// After the watched log went missing, or was found shorter than what was
/// shown (truncated), the next refresh that finds it with content shows it from
/// its first byte and moves the offset to its length.
pub proof fn law_watch_restarts(w: (u64, bool), states: Seq<Option<u64>>, len: u64)
    requires
        (states.len() > 0 && states.last() is None) || (len < watch_run(w, states).0.0 && (len > 0
            || watch_run(w, states).0.1)),
    ensures
        watch_run(w, states.push(Some(len))) == ((len, false), watch_run(w, states).1.push((0int, len as int))),
{
    let next = states.push(Some(len));
    assert(next.drop_last() =~= states);
    if states.len() > 0 && states.last() is None {
        let d = states.drop_last();
        assert(watch_run(w, states).0 == (0u64, true)) by {
            let w1 = watch_run(w, d).0;
            assert(log_step(w1, None::<u64>).0.0 == 0);
        }
    }
}

/// A refresh that finds the log shorter than what was shown so far (any
/// length, empty too) starts reading it over: the offset drops to 0, the log
/// is shown from its first byte when it has any, and when it was found empty
/// the next refresh that finds bytes in it shows them all, from byte 0.
pub proof fn law_shorter_log_reads_from_start(w: (u64, bool), len: u64, later: u64)
    requires
        len < w.0,
    ensures
        log_step(w, Some(len)).0.0 == 0,
        len > 0 ==> log_step(w, Some(len)).1 == (LogAction::Print { from: 0 }),
        len == 0 && later > 0 ==> log_step(log_step(w, Some(len)).0, Some(later)).1 == (LogAction::Print {
            from: 0,
        }),
{
}


/// `t` occurs in `s` as one contiguous piece.
pub open spec fn mentions(s: Seq<char>, t: Seq<char>) -> bool {
    exists|k: int| 0 <= k && k + t.len() <= s.len() && #[trigger] s.subrange(k, k + t.len()) == t
}

/// `style` is the one the pattern's text names: `error` for errors,
/// `warning` for warnings, `info` for information, `debug` for debug lines,
/// and none of these for any other style.
pub open spec fn style_named(style: LogFlagStyle, pattern: Seq<char>) -> bool {
    &&& (style == LogFlagStyle::Error) == mentions(pattern, "error"@)
    &&& (style == LogFlagStyle::Warning) == mentions(pattern, "warning"@)
    &&& (style == LogFlagStyle::Info) == mentions(pattern, "info"@)
    &&& (style == LogFlagStyle::Trace) == mentions(pattern, "debug"@)
}

proof fn lemma_lacks_char(s: Seq<char>, t: Seq<char>, j: int)
    requires
        0 <= j < t.len(),
        forall|i: int| 0 <= i < s.len() ==> s[i] != t[j],
    ensures
        !mentions(s, t),
{
    if mentions(s, t) {
        let k = choose|k: int| 0 <= k && k + t.len() <= s.len() && #[trigger] s.subrange(k, k + t.len()) == t;
        assert(s.subrange(k, k + t.len())[j] == s[k + j]);
    }
}

proof fn lemma_mentions_at(s: Seq<char>, t: Seq<char>, k: int)
    requires
        0 <= k,
        k + t.len() <= s.len(),
        s.subrange(k, k + t.len()) =~= t,
    ensures
        mentions(s, t),
{
}

/// Each flag pattern's style is the one its text names.
proof fn lemma_rule_style_named(i: int)
    requires
        0 <= i < rule_count(),
    ensures
        style_named(rule_style(i), rule_pattern(i)),
{
    reveal_strlit("(?i)^(\\[.+\\])*\\[(info)\\]");
    reveal_strlit("(?i)^(\\[.+\\])\\s*info:");
    reveal_strlit("(?i)^(\\[.+\\])*\\[(warning)\\]");
    reveal_strlit("(?i)^(\\[.+\\])*\\s*warning:");
    reveal_strlit("(?i)^(\\[.+\\])*\\[(error|critical)\\]");
    reveal_strlit("(?i)^(\\[.+\\])*\\s*(error|critical|script error):");
    reveal_strlit("(?i)^(\\[.+\\])*\\[(debug)\\]");
    reveal_strlit("(?i)^(\\[.+\\])*\\s*debug:");
    reveal_strlit("^[^\\S\\r\\n]{3,}at:\\s+.*");
    reveal_strlit("error");
    reveal_strlit("warning");
    reveal_strlit("info");
    reveal_strlit("debug");
    if i == 0 {
        lemma_lacks_char(rule_pattern(0), "error"@, 0);
        lemma_lacks_char(rule_pattern(0), "warning"@, 0);
        lemma_mentions_at(rule_pattern(0), "info"@, 17);
        lemma_lacks_char(rule_pattern(0), "debug"@, 0);
    } else if i == 1 {
        lemma_lacks_char(rule_pattern(1), "error"@, 0);
        lemma_lacks_char(rule_pattern(1), "warning"@, 0);
        lemma_mentions_at(rule_pattern(1), "info"@, 16);
        lemma_lacks_char(rule_pattern(1), "debug"@, 0);
    } else if i == 2 {
        lemma_lacks_char(rule_pattern(2), "error"@, 0);
        lemma_mentions_at(rule_pattern(2), "warning"@, 17);
        lemma_lacks_char(rule_pattern(2), "info"@, 2);
        lemma_lacks_char(rule_pattern(2), "debug"@, 0);
    } else if i == 3 {
        lemma_lacks_char(rule_pattern(3), "error"@, 0);
        lemma_mentions_at(rule_pattern(3), "warning"@, 17);
        lemma_lacks_char(rule_pattern(3), "info"@, 2);
        lemma_lacks_char(rule_pattern(3), "debug"@, 0);
    } else if i == 4 {
        lemma_mentions_at(rule_pattern(4), "error"@, 17);
        lemma_lacks_char(rule_pattern(4), "warning"@, 0);
        lemma_lacks_char(rule_pattern(4), "info"@, 1);
        lemma_lacks_char(rule_pattern(4), "debug"@, 0);
    } else if i == 5 {
        lemma_mentions_at(rule_pattern(5), "error"@, 18);
        lemma_lacks_char(rule_pattern(5), "warning"@, 0);
        lemma_lacks_char(rule_pattern(5), "info"@, 1);
        lemma_lacks_char(rule_pattern(5), "debug"@, 0);
    } else if i == 6 {
        lemma_lacks_char(rule_pattern(6), "error"@, 1);
        lemma_lacks_char(rule_pattern(6), "warning"@, 0);
        lemma_lacks_char(rule_pattern(6), "info"@, 1);
        lemma_mentions_at(rule_pattern(6), "debug"@, 17);
    } else if i == 7 {
        lemma_lacks_char(rule_pattern(7), "error"@, 1);
        lemma_lacks_char(rule_pattern(7), "warning"@, 0);
        lemma_lacks_char(rule_pattern(7), "info"@, 1);
        lemma_mentions_at(rule_pattern(7), "debug"@, 17);
    } else if i == 8 {
        lemma_lacks_char(rule_pattern(8), "error"@, 0);
        lemma_lacks_char(rule_pattern(8), "warning"@, 0);
        lemma_lacks_char(rule_pattern(8), "info"@, 0);
        lemma_lacks_char(rule_pattern(8), "debug"@, 0);
    }
}

proof fn lemma_flag_from_skips(line: Seq<char>, j: int, i: int)
    requires
        0 <= j <= i < rule_count(),
        forall|k: int|
            0 <= k < i ==> !(#[trigger] regex_leftmost(rule_pattern(k), line) matches Some((s0, _, _)) && s0
                == 0),
    ensures
        flag_from(line, j) == flag_from(line, i),
    decreases i - j,
{
    if j < i {
        lemma_flag_from_skips(line, j + 1, i);
        assert(!(regex_leftmost(rule_pattern(j), line) matches Some((s0, _, _)) && s0 == 0));
    }
}

/// The first flag pattern that matches at the start of a line decides its
/// flag, and the line is drawn in the style that pattern names: a flag
/// recognised by a pattern for `error`/`critical` is an error, one for
/// `warning` a warning, one for `info` information, one for `debug` a debug
/// line.
pub proof fn law_flag_style_is_named_by_its_pattern(line: Seq<char>, i: int, m: Seq<char>, rest: Seq<char>)
    requires
        0 <= i < rule_count(),
        regex_leftmost(rule_pattern(i), line) == Some((0int, m, rest)),
        forall|k: int|
            0 <= k < i ==> !(#[trigger] regex_leftmost(rule_pattern(k), line) matches Some((s0, _, _)) && s0
                == 0),
    ensures
        log_flag(line) matches Some((style, flag, after)) && flag == m && after == rest && style_named(
            style,
            rule_pattern(i),
        ),
{
    lemma_flag_from_skips(line, 0, i);
    lemma_rule_style_named(i);
}

} // verus!
