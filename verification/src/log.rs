//! Ring log buffer: time stamp, level and text of each line, for display and export.
use std::collections::VecDeque;
use vstd::prelude::*;

use crate::text::chars_of;
use vstd::string::StrSliceExecFns;
use vstd::string::StringExecFns;

verus! {

#[derive(Debug, Clone, Copy, PartialEq, Eq, Structural)]
pub enum Level {
    Info,
    Success,
    Warn,
    Error,
}

#[derive(Debug, Clone)]
pub struct LogEntry {
    pub time: String,
    pub level: Level,
    pub text: String,
}

impl View for LogEntry {
    type V = (Seq<char>, Level, Seq<char>);

    open spec fn view(&self) -> (Seq<char>, Level, Seq<char>) {
        (self.time@, self.level, self.text@)
    }
}

/// The most lines the buffer keeps; older ones are dropped first.
pub const MAX_LINES: usize = 1000;

/// `HH:MM:SS` with two decimal digits in each field.
pub open spec fn is_clock_time(s: Seq<char>) -> bool {
    &&& s.len() == 8
    &&& s[2] == ':' && s[5] == ':'
    &&& forall|i: int|
        0 <= i < 8 && i != 2 && i != 5 ==> '0' <= #[trigger] s[i] && s[i] <= '9'
}

/// The local wall-clock time, formatted by chrono as `%H:%M:%S`.
/// Claims only the shape chrono documents for that format: hour, minute and second,
/// each zero-padded to two digits, separated by colons. Which time it is, is not stated.
#[verifier::external_body]
fn local_clock_time() -> (r: String)
    ensures
        is_clock_time(r@),
{
    chrono::Local::now().format("%H:%M:%S").to_string()
}

/// `t` is a value that a call of the clock `local_clock_time` returned: a reading of the
/// clock, not a time stamp made up elsewhere.
pub closed spec fn read_from_clock(t: String) -> bool {
    call_ensures(local_clock_time, (), t)
}

/// The time column of the second and later lines of one message: eight spaces.
pub open spec fn blank_time() -> Seq<char> {
    seq![' ', ' ', ' ', ' ', ' ', ' ', ' ', ' ']
}

/// `line` without one trailing carriage return.
pub open spec fn strip_cr(line: Seq<char>) -> Seq<char> {
    if line.len() > 0 && line.last() == '\r' {
        line.drop_last()
    } else {
        line
    }
}

/// Reading `s` from the left: the lines ended by `\n` so far (each without a trailing
/// `\r`), and the characters after the last `\n`.
pub open spec fn scan_lines(s: Seq<char>) -> (Seq<Seq<char>>, Seq<char>)
    decreases s.len(),
{
    if s.len() == 0 {
        (Seq::empty(), Seq::empty())
    } else {
        let (done, cur) = scan_lines(s.drop_last());
        if s.last() == '\n' {
            (done.push(strip_cr(cur)), Seq::empty())
        } else {
            (done, cur.push(s.last()))
        }
    }
}

/// `str::lines`: split at `\n` or `\r\n`; a final line ending adds no empty line.
pub open spec fn text_lines(s: Seq<char>) -> Seq<Seq<char>> {
    let (done, cur) = scan_lines(s);
    if cur.len() > 0 {
        done.push(cur)
    } else {
        done
    }
}

/// The entries that one message adds: one per line, the time on the first only.
pub open spec fn message_entries(level: Level, text: Seq<char>, time: Seq<char>) -> Seq<
    (Seq<char>, Level, Seq<char>),
> {
    let lines = text_lines(text);
    Seq::new(
        lines.len(),
        |i: int| (if i == 0 { time } else { blank_time() }, level, lines[i]),
    )
}

/// The last `n` elements of `s` (all of it when it is shorter).
pub open spec fn keep_last<A>(s: Seq<A>, n: nat) -> Seq<A> {
    if s.len() > n {
        s.skip(s.len() - n)
    } else {
        s
    }
}

/// The export tag of a level.
pub open spec fn level_tag(level: Level) -> Seq<char> {
    match level {
        Level::Info => seq!['I', 'N', 'F', 'O'],
        Level::Success => seq![' ', 'O', 'K', ' '],
        Level::Warn => seq!['W', 'A', 'R', 'N'],
        Level::Error => seq!['E', 'R', 'R', ' '],
    }
}

/// One exported line: `time [TAG] text`.
pub open spec fn export_line(e: (Seq<char>, Level, Seq<char>)) -> Seq<char> {
    e.0 + seq![' ', '['] + level_tag(e.1) + seq![']', ' '] + e.2
}

/// The lines joined by `\n`.
pub open spec fn join_lines(lines: Seq<Seq<char>>) -> Seq<char>
    decreases lines.len(),
{
    if lines.len() == 0 {
        Seq::empty()
    } else if lines.len() == 1 {
        lines[0]
    } else {
        join_lines(lines.drop_last()) + seq!['\n'] + lines.last()
    }
}

proof fn lemma_scan_without_newline(s: Seq<char>)
    requires
        !s.contains('\n'),
    ensures
        scan_lines(s) == (Seq::<Seq<char>>::empty(), s),
    decreases s.len(),
{
    if s.len() > 0 {
        assert(s.drop_last().contains('\n') ==> s.contains('\n')) by {
            if s.drop_last().contains('\n') {
                let i = choose|i: int| 0 <= i < s.drop_last().len() && s.drop_last()[i] == '\n';
                assert(s[i] == '\n');
            }
        }
        assert(s[s.len() - 1] == s.last());
        lemma_scan_without_newline(s.drop_last());
        assert(s.drop_last().push(s.last()) =~= s);
    }
}

/// A message of one line (not empty, no `\n`) adds exactly one entry: the time, the
/// level and the text as given.
pub proof fn lemma_one_line_message(level: Level, text: Seq<char>, time: Seq<char>)
    requires
        text.len() > 0,
        !text.contains('\n'),
    ensures
        message_entries(level, text, time) == seq![(time, level, text)],
{
    lemma_scan_without_newline(text);
    assert(text_lines(text) =~= seq![text]);
    assert(message_entries(level, text, time) =~= seq![(time, level, text)]);
}

/// The log: its entries, oldest first.
#[derive(Debug)]
pub struct LogBuffer {
    entries: VecDeque<LogEntry>,
}

impl View for LogBuffer {
    type V = Seq<(Seq<char>, Level, Seq<char>)>;

    closed spec fn view(&self) -> Seq<(Seq<char>, Level, Seq<char>)> {
        self.entries@.map_values(|e: LogEntry| e@)
    }
}

impl Default for LogBuffer {
    fn default() -> (r: Self)
        ensures
            r@ == Seq::<(Seq<char>, Level, Seq<char>)>::empty(),
    {
        let r = LogBuffer { entries: VecDeque::with_capacity(MAX_LINES) };
        assert(r@ =~= Seq::<(Seq<char>, Level, Seq<char>)>::empty());
        r
    }
}

impl LogBuffer {
    /// Appends `text` with the time stamp `time`: one entry per line of the text, the
    /// time on the first only (eight spaces on the others); then drops the oldest entries
    /// until at most `MAX_LINES` are left.
    pub fn push_stamped(&mut self, level: Level, text: &str, time: String)
        ensures
            final(self)@ == keep_last(old(self)@ + message_entries(level, text@, time@), MAX_LINES as nat),
            final(self)@.len() <= MAX_LINES,
    {
        let cs = chars_of(text);
        let n = cs.len();
        let ghost old_view = self@;
        let mut added: usize = 0;
        let mut start: usize = 0;
        let mut i: usize = 0;
        let ghost mut produced: Seq<(Seq<char>, Level, Seq<char>)> = Seq::empty();
        assert(cs@.subrange(0, 0) =~= Seq::<char>::empty());
        while i < n
            invariant
                start <= i <= n == cs.len(),
                added <= i,
                cs@ == text@,
                scan_lines(cs@.subrange(0, i as int)).1 == cs@.subrange(start as int, i as int),
                added as nat == scan_lines(cs@.subrange(0, i as int)).0.len(),
                produced == Seq::new(
                    added as nat,
                    |k: int|
                        (
                            if k == 0 {
                                time@
                            } else {
                                blank_time()
                            },
                            level,
                            scan_lines(cs@.subrange(0, i as int)).0[k],
                        ),
                ),
                self.entries@.map_values(|e: LogEntry| e@) == old_view + produced,
            decreases n - i,
        {
            let ghost before = cs@.subrange(0, i as int);
            let ghost after = cs@.subrange(0, i + 1);
            assert(after.drop_last() =~= before);
            assert(after.last() == cs@[i as int]);
            if cs[i] == '\n' {
                let mut end = i;
                if end > start && cs[end - 1] == '\r' {
                    end = end - 1;
                }
                let line = String::from_str(text.substring_char(start, end));
                assert(line@ =~= strip_cr(cs@.subrange(start as int, i as int)));
                let t = if added == 0 {
                    time.clone()
                } else {
                    let b = String::from_str("        ");
                    proof {
                        reveal_strlit("        ");
                    }
                    assert(b@ =~= blank_time());
                    b
                };
                let entry = LogEntry { time: t, level, text: line };
                let ghost prev = self.entries@;
                self.entries.push_back(entry);
                assert(self.entries@.map_values(|e: LogEntry| e@) =~= prev.map_values(
                    |e: LogEntry| e@,
                ).push(entry@));
                proof {
                    let ghost p2 = produced.push(entry@);
                    assert(p2 =~= Seq::new(
                        (added + 1) as nat,
                        |k: int|
                            (
                                if k == 0 {
                                    time@
                                } else {
                                    blank_time()
                                },
                                level,
                                scan_lines(after).0[k],
                            ),
                    ));
                    produced = p2;
                    assert(self.entries@.map_values(|e: LogEntry| e@) =~= old_view + produced);
                }
                added = added + 1;
                start = i + 1;
                assert(cs@.subrange(start as int, i + 1) =~= Seq::<char>::empty());
            } else {
                assert(cs@.subrange(start as int, i + 1) =~= cs@.subrange(
                    start as int,
                    i as int,
                ).push(cs@[i as int]));
            }
            i = i + 1;
        }
        assert(cs@.subrange(0, n as int) =~= cs@);
        if start < n {
            let line = String::from_str(text.substring_char(start, n));
            let t = if added == 0 {
                time.clone()
            } else {
                let b = String::from_str("        ");
                proof {
                    reveal_strlit("        ");
                }
                assert(b@ =~= blank_time());
                b
            };
            let entry = LogEntry { time: t, level, text: line };
            let ghost prev = self.entries@;
            self.entries.push_back(entry);
            assert(self.entries@.map_values(|e: LogEntry| e@) =~= prev.map_values(
                |e: LogEntry| e@,
            ).push(entry@));
            proof {
                produced = produced.push(entry@);
            }
        }
        assert(produced =~= message_entries(level, text@, time@));
        assert(self.entries@.map_values(|e: LogEntry| e@) =~= old_view + produced);
        let ghost all = old_view + produced;
        let total = self.entries.len();
        assert(all.len() == total);
        let mut dropped: usize = 0;
        while self.entries.len() > MAX_LINES
            invariant
                self.entries@.map_values(|e: LogEntry| e@) == all.skip(dropped as int),
                dropped <= all.len(),
                all.len() <= usize::MAX,
                dropped + self.entries@.len() == all.len(),
                dropped > 0 ==> all.len() - dropped >= MAX_LINES,
            decreases self.entries@.len(),
        {
            let ghost prev = self.entries@;
            self.entries.pop_front();
            assert(self.entries@.map_values(|e: LogEntry| e@) =~= prev.map_values(
                |e: LogEntry| e@,
            ).skip(1));
            assert(all.skip(dropped as int).skip(1) =~= all.skip(dropped + 1));
            dropped = dropped + 1;
        }
        assert(self@ == keep_last(all, MAX_LINES as nat)) by {
            if all.len() > MAX_LINES {
                assert(dropped == all.len() - MAX_LINES);
            } else {
                assert(dropped == 0);
                assert(all.skip(0) =~= all);
            }
        }
    }

    /// Appends `text` at level `level`, stamped with the local time (`HH:MM:SS`): the
    /// stamp is a value that the clock `local_clock_time` returned during the call.
    pub fn push(&mut self, level: Level, text: &str)
        ensures
            exists|t: Seq<char>|
                is_clock_time(t) && final(self)@ == keep_last(
                    old(self)@ + message_entries(level, text@, t),
                    MAX_LINES as nat,
                ),
            exists|t: String|
                read_from_clock(t) && final(self)@ == keep_last(
                    old(self)@ + message_entries(level, text@, t@),
                    MAX_LINES as nat,
                ),
            final(self)@.len() <= MAX_LINES,
    {
        let clock = local_clock_time;
        let time = clock();
        let ghost t = time;
        self.push_stamped(level, text, time);
        assert(is_clock_time(t@));
        assert(read_from_clock(t));
    }

    /// `push` at level `Info`.
    pub fn info(&mut self, text: &str)
        ensures
            exists|t: Seq<char>|
                is_clock_time(t) && final(self)@ == keep_last(
                    old(self)@ + message_entries(Level::Info, text@, t),
                    MAX_LINES as nat,
                ),
            exists|t: String|
                read_from_clock(t) && final(self)@ == keep_last(
                    old(self)@ + message_entries(Level::Info, text@, t@),
                    MAX_LINES as nat,
                ),
            final(self)@.len() <= MAX_LINES,
    {
        self.push(Level::Info, text);
    }

    /// `push` at level `Success`.
    pub fn ok(&mut self, text: &str)
        ensures
            exists|t: Seq<char>|
                is_clock_time(t) && final(self)@ == keep_last(
                    old(self)@ + message_entries(Level::Success, text@, t),
                    MAX_LINES as nat,
                ),
            exists|t: String|
                read_from_clock(t) && final(self)@ == keep_last(
                    old(self)@ + message_entries(Level::Success, text@, t@),
                    MAX_LINES as nat,
                ),
            final(self)@.len() <= MAX_LINES,
    {
        self.push(Level::Success, text);
    }

    /// `push` at level `Error`.
    pub fn error(&mut self, text: &str)
        ensures
            exists|t: Seq<char>|
                is_clock_time(t) && final(self)@ == keep_last(
                    old(self)@ + message_entries(Level::Error, text@, t),
                    MAX_LINES as nat,
                ),
            exists|t: String|
                read_from_clock(t) && final(self)@ == keep_last(
                    old(self)@ + message_entries(Level::Error, text@, t@),
                    MAX_LINES as nat,
                ),
            final(self)@.len() <= MAX_LINES,
    {
        self.push(Level::Error, text);
    }

    /// The entries, oldest first.
    pub fn iter(&self) -> (r: std::collections::vec_deque::Iter<'_, LogEntry>)
        ensures
            vstd::std_specs::iter::IteratorSpec::remaining(&r).map_values(|e: &LogEntry| e@) == self@,
    {
        let r = self.entries.iter();
        assert(vstd::std_specs::iter::IteratorSpec::remaining(&r).map_values(|e: &LogEntry| e@) =~= self@);
        r
    }

    /// Removes every entry.
    pub fn clear(&mut self)
        ensures
            final(self)@ == Seq::<(Seq<char>, Level, Seq<char>)>::empty(),
    {
        self.entries.clear();
        assert(self@ =~= Seq::<(Seq<char>, Level, Seq<char>)>::empty());
    }

    /// The entries as text: one `time [TAG] text` line each, joined by `\n`.
    pub fn export(&self) -> (r: String)
        ensures
            r@ == join_lines(self@.map_values(|e: (Seq<char>, Level, Seq<char>)| export_line(e))),
    {
        let ghost lines = self@.map_values(|e: (Seq<char>, Level, Seq<char>)| export_line(e));
        let mut r = String::new();
        let n = self.entries.len();
        let mut i: usize = 0;
        while i < n
            invariant
                i <= n == self.entries@.len(),
                lines == self@.map_values(|e: (Seq<char>, Level, Seq<char>)| export_line(e)),
                self@ == self.entries@.map_values(|e: LogEntry| e@),
                r@ == join_lines(lines.take(i as int)),
            decreases n - i,
        {
            let e = &self.entries[i];
            let ghost before = r@;
            if i > 0 {
                r.append("\n");
                proof {
                    reveal_strlit("\n");
                }
            }
            r.append(e.time.as_str());
            r.append(" [");
            let tag = match e.level {
                Level::Info => "INFO",
                Level::Success => " OK ",
                Level::Warn => "WARN",
                Level::Error => "ERR ",
            };
            r.append(tag);
            r.append("] ");
            r.append(e.text.as_str());
            proof {
                reveal_strlit(" [");
                reveal_strlit("] ");
                reveal_strlit("INFO");
                reveal_strlit(" OK ");
                reveal_strlit("WARN");
                reveal_strlit("ERR ");
                assert(tag@ =~= level_tag(e.level));
                assert(self@[i as int] == e@);
                assert(lines[i as int] == export_line(e@));
                assert(lines.take(i + 1).drop_last() =~= lines.take(i as int));
                if i > 0 {
                    assert(r@ =~= before + seq!['\n'] + export_line(e@));
                } else {
                    assert(r@ =~= export_line(e@));
                    assert(lines.take(1) =~= seq![export_line(e@)]);
                }
            }
            i = i + 1;
        }
        assert(lines.take(n as int) =~= lines);
        r
    }
}

} // verus!
