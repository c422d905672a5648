//! The log of the running server: lines for the terminal and for a file, and
//! the last entries for whoever asks.

use std::collections::VecDeque;

use vstd::prelude::*;

use crate::text;

verus! {

/// So many entries are kept.
pub const BUFFER_CAPACITY: usize = 2000;

/// The size at which a file is put away, in bytes.
pub const MAX_FILE_SIZE: u64 = 10_485_760;

/// So many files that were put away are kept.
pub const MAX_HISTORY_FILES: u64 = 3;

/// One entry of the log.
#[derive(Debug)]
pub struct RuntimeLogEntry {
    pub timestamp: String,
    pub level: String,
    pub target: String,
    pub message: String,
}

/// The model of a `RuntimeLogEntry`.
#[verifier::ext_equal]
pub struct LineV {
    pub timestamp: Seq<char>,
    pub level: Seq<char>,
    pub target: Seq<char>,
    pub message: Seq<char>,
}

impl View for RuntimeLogEntry {
    type V = LineV;

    open spec fn view(&self) -> LineV {
        LineV {
            timestamp: self.timestamp@,
            level: self.level@,
            target: self.target@,
            message: self.message@,
        }
    }
}

/// Entries as models.
pub open spec fn line_views(v: Seq<RuntimeLogEntry>) -> Seq<LineV> {
    Seq::new(v.len(), |i: int| v[i]@)
}

impl RuntimeLogEntry {
    /// A copy.
    pub fn copy(&self) -> (r: RuntimeLogEntry)
        ensures
            r@ == self@,
    {
        RuntimeLogEntry {
            timestamp: self.timestamp.clone(),
            level: self.level.clone(),
            target: self.target.clone(),
            message: self.message.clone(),
        }
    }

    /// The entry as a line of the file.
    pub fn plain_line(&self) -> (r: String)
        ensures
            r@ == plain(self@),
    {
        let level = pad_level(self.level.as_str());
        text::cat7(
            "[",
            self.timestamp.as_str(),
            " ",
            level.as_str(),
            "  ",
            self.target.as_str(),
            text::cat2("] ", self.message.as_str()).as_str(),
        )
    }

    /// The entry as a line of a terminal with colours.
    pub fn coloured_line(&self) -> (r: String)
        ensures
            r@ == coloured(self@),
    {
        let head = text::cat5(
            "[\u{1b}[2m",
            self.timestamp.as_str(),
            " \u{1b}[0m",
            color_for_level(self.level.as_str()),
            self.level.as_str(),
        );
        text::cat5(
            head.as_str(),
            "\u{1b}[0m\u{1b}[2m  ",
            self.target.as_str(),
            "\u{1b}[0m] ",
            self.message.as_str(),
        )
    }
}

/// So many spaces.
pub open spec fn spaces(n: int) -> Seq<char> {
    Seq::new(n as nat, |i: int| ' ')
}

/// A level, filled up to five characters.
pub open spec fn padded(level: Seq<char>) -> Seq<char> {
    if level.len() < 5 {
        level + spaces(5 - level.len())
    } else {
        level
    }
}

/// A level, filled up to five characters.
fn pad_level(level: &str) -> (r: String)
    ensures
        r@ == padded(level@),
{
    let mut r = level.to_owned();
    let mut n: usize = text::char_count(level);
    assert(level@ + spaces(0) =~= level@);
    while n < 5
        invariant
            level@.len() <= n,
            r@ == level@ + spaces(n - level@.len()),
            level@.len() < 5 ==> n <= 5,
            level@.len() >= 5 ==> n == level@.len(),
        decreases 5 - n,
    {
        r.push(' ');
        n += 1;
        assert(r@ =~= level@ + spaces(n - level@.len()));
    }
    r
}

/// An entry as a line of the file.
pub open spec fn plain(e: LineV) -> Seq<char> {
    "["@ + e.timestamp + " "@ + padded(e.level) + "  "@ + e.target + ("] "@ + e.message)
}

/// An entry as a line of a terminal with colours.
pub open spec fn coloured(e: LineV) -> Seq<char> {
    ("[\u{1b}[2m"@ + e.timestamp + " \u{1b}[0m"@ + color_of(e.level) + e.level)
        + "\u{1b}[0m\u{1b}[2m  "@ + e.target + "\u{1b}[0m] "@ + e.message
}

/// What begins the colour of a level.
pub open spec fn color_of(level: Seq<char>) -> Seq<char> {
    if level == "ERROR"@ {
        "\u{1b}[31m"@
    } else if level == "WARN"@ {
        "\u{1b}[33m"@
    } else if level == "INFO"@ {
        "\u{1b}[32m"@
    } else if level == "DEBUG"@ {
        "\u{1b}[34m"@
    } else if level == "TRACE"@ {
        "\u{1b}[35m"@
    } else {
        "\u{1b}[0m"@
    }
}

/// What begins the colour of a level.
pub fn color_for_level(level: &str) -> (r: &'static str)
    ensures
        r@ == color_of(level@),
{
    if text::same(level, "ERROR") {
        "\u{1b}[31m"
    } else if text::same(level, "WARN") {
        "\u{1b}[33m"
    } else if text::same(level, "INFO") {
        "\u{1b}[32m"
    } else if text::same(level, "DEBUG") {
        "\u{1b}[34m"
    } else if text::same(level, "TRACE") {
        "\u{1b}[35m"
    } else {
        "\u{1b}[0m"
    }
}

/// How much is logged.
#[derive(Debug, Clone, Copy, PartialEq, Eq, Structural)]
pub enum LevelFilter {
    Off,
    Error,
    Warn,
    Info,
    Debug,
    Trace,
}

/// The rank of a level: the more is logged, the higher.
pub open spec fn rank(l: LevelFilter) -> int {
    match l {
        LevelFilter::Off => 0,
        LevelFilter::Error => 1,
        LevelFilter::Warn => 2,
        LevelFilter::Info => 3,
        LevelFilter::Debug => 4,
        LevelFilter::Trace => 5,
    }
}

impl LevelFilter {
    fn number(self) -> (r: u8)
        ensures
            r == rank(self),
    {
        match self {
            LevelFilter::Off => 0,
            LevelFilter::Error => 1,
            LevelFilter::Warn => 2,
            LevelFilter::Info => 3,
            LevelFilter::Debug => 4,
            LevelFilter::Trace => 5,
        }
    }
}

/// The level with a name.
pub open spec fn level_named(name: Seq<char>) -> Option<LevelFilter> {
    if name == "trace"@ {
        Some(LevelFilter::Trace)
    } else if name == "debug"@ {
        Some(LevelFilter::Debug)
    } else if name == "warn"@ {
        Some(LevelFilter::Warn)
    } else if name == "error"@ {
        Some(LevelFilter::Error)
    } else if name == "off"@ {
        Some(LevelFilter::Off)
    } else {
        None
    }
}

/// The level that a part of a setting names: what follows its last `=`.
pub open spec fn level_in(part: Seq<char>) -> Option<LevelFilter> {
    level_named(text::trimmed(text::split_from(part, "="@, 0).last()))
}

/// The highest level among the first `n` parts, and at least the usual one.
pub open spec fn highest(parts: Seq<Seq<char>>, n: int) -> LevelFilter
    decreases n,
{
    if n <= 0 {
        LevelFilter::Info
    } else {
        let before = highest(parts, n - 1);
        match level_in(parts[n - 1]) {
            Some(l) => if rank(l) > rank(before) {
                l
            } else {
                before
            },
            None => before,
        }
    }
}

/// The level that a setting asks for: the highest that it names for anything.
/// Less than usual cannot be asked for.
pub fn parse_level(s: &str) -> (r: LevelFilter)
    ensures
        r == highest(
            text::split_from(s@, ","@, 0),
            text::split_from(s@, ","@, 0).len() as int,
        ),
{
    proof {
        reveal_strlit(",");
        reveal_strlit("=");
    }
    let segments = text::split(s, ",");
    let ghost parts = text::strs(segments@);
    let mut max_level = LevelFilter::Info;
    let mut i: usize = 0;
    while i < segments.len()
        invariant
            i <= segments@.len(),
            parts == text::strs(segments@),
            max_level == highest(parts, i as int),
            "="@.len() > 0,
        decreases segments@.len() - i,
    {
        let pieces = text::split(segments[i].as_str(), "=");
        let ghost p = text::strs(pieces@);
        let last: usize = pieces.len() - 1;
        assert(p.last() == pieces@[last as int]@);
        assert(segments@[i as int]@ == parts[i as int]);
        let name = text::trim(pieces[last].as_str());
        let level = if text::same(name.as_str(), "trace") {
            Some(LevelFilter::Trace)
        } else if text::same(name.as_str(), "debug") {
            Some(LevelFilter::Debug)
        } else if text::same(name.as_str(), "warn") {
            Some(LevelFilter::Warn)
        } else if text::same(name.as_str(), "error") {
            Some(LevelFilter::Error)
        } else if text::same(name.as_str(), "off") {
            Some(LevelFilter::Off)
        } else {
            None
        };
        if let Some(l) = level {
            if l.number() > max_level.number() {
                max_level = l;
            }
        }
        i += 1;
    }
    max_level
}

/// The level of a setting, if there is one, else the usual one.
pub fn level_of_setting(setting: Option<&str>) -> (r: LevelFilter)
    ensures
        r == match setting {
            Some(s) => if s@.len() == 0 {
                LevelFilter::Info
            } else {
                highest(
                    text::split_from(s@, ","@, 0),
                    text::split_from(s@, ","@, 0).len() as int,
                )
            },
            None => LevelFilter::Info,
        },
{
    match setting {
        Some(s) => if s.is_empty() {
            LevelFilter::Info
        } else {
            parse_level(s)
        },
        None => LevelFilter::Info,
    }
}

/// What to do with the files when the present one is full.
#[derive(Debug)]
pub enum FileStep {
    Remove(String),
    Rename(String, String),
}

/// The model of a `FileStep`.
#[verifier::ext_equal]
pub enum StepV {
    Remove(Seq<char>),
    Rename(Seq<char>, Seq<char>),
}

impl View for FileStep {
    type V = StepV;

    open spec fn view(&self) -> StepV {
        match *self {
            FileStep::Remove(a) => StepV::Remove(a@),
            FileStep::Rename(a, b) => StepV::Rename(a@, b@),
        }
    }
}

/// Steps as models.
pub open spec fn step_views(v: Seq<FileStep>) -> Seq<StepV> {
    Seq::new(v.len(), |i: int| v[i]@)
}

/// The path of the file that was put away `n` files ago.
pub open spec fn history_path(path: Seq<char>, n: nat) -> Seq<char> {
    path + "."@ + text::decimal(n)
}

/// What happens to the file that was put away `n` files ago.
pub open spec fn history_step(path: Seq<char>, n: nat) -> StepV {
    if n == MAX_HISTORY_FILES {
        StepV::Remove(history_path(path, n))
    } else {
        StepV::Rename(history_path(path, n), history_path(path, n + 1))
    }
}

/// What happens to the files put away, from the oldest on down to the one `n`
/// files ago.
pub open spec fn history_steps(path: Seq<char>, n: nat) -> Seq<StepV>
    decreases MAX_HISTORY_FILES + 1 - n,
{
    if n > MAX_HISTORY_FILES {
        Seq::empty()
    } else {
        history_steps(path, n + 1).push(history_step(path, n))
    }
}

/// What happens to the files: nothing until the present one is full; then the
/// oldest goes, the others move up, and the present one is put away.
pub open spec fn rotation(path: Seq<char>, size: u64) -> Seq<StepV> {
    if size < MAX_FILE_SIZE {
        Seq::empty()
    } else {
        history_steps(path, 1).push(StepV::Rename(path, history_path(path, 1)))
    }
}

fn path_of(path: &str, n: u64) -> (r: String)
    ensures
        r@ == history_path(path@, n as nat),
{
    let d = text::decimal_of(n);
    text::cat3(path, ".", d.as_str())
}

/// The log of the running server.
pub struct DualLogger {
    /// From the oldest to the newest.
    pub buffer: VecDeque<RuntimeLogEntry>,
    pub log_path: String,
    pub max_level: LevelFilter,
    pub use_color: bool,
}

/// The entries with one more; the oldest goes where there is no room.
pub open spec fn with_line(lines: Seq<LineV>, e: LineV) -> Seq<LineV> {
    if lines.len() >= BUFFER_CAPACITY {
        lines.subrange(1, lines.len() as int).push(e)
    } else {
        lines.push(e)
    }
}

/// At most `limit` entries, from the newest on but for the `offset` newest.
pub open spec fn page(lines: Seq<LineV>, offset: int, limit: int) -> Seq<LineV> {
    let left = if offset < lines.len() {
        lines.len() - offset
    } else {
        0
    };
    Seq::new(
        if limit < left {
            limit as nat
        } else {
            left as nat
        },
        |i: int| lines[lines.len() - 1 - offset - i],
    )
}

impl DualLogger {
    /// No more entries are kept than there is room for.
    pub open spec fn wf(&self) -> bool {
        self.buffer@.len() <= BUFFER_CAPACITY
    }

    /// The entries that are kept.
    pub open spec fn lines(&self) -> Seq<LineV> {
        line_views(self.buffer@)
    }

    /// A log without entries.
    pub fn new(log_path: &str, max_level: LevelFilter, use_color: bool) -> (r: DualLogger)
        ensures
            r.wf(),
            r.lines() == Seq::<LineV>::empty(),
            r.log_path@ == log_path@,
            r.max_level == max_level,
            r.use_color == use_color,
    {
        let r = DualLogger {
            buffer: VecDeque::new(),
            log_path: log_path.to_owned(),
            max_level,
            use_color,
        };
        assert(r.lines() =~= Seq::<LineV>::empty());
        r
    }

    /// Whether entries of a level are logged.
    pub fn enabled(&self, level: LevelFilter) -> (r: bool)
        ensures
            r == (rank(level) <= rank(self.max_level)),
    {
        level.number() <= self.max_level.number()
    }

    /// What to do with the files, given the size of the present one.
    pub fn rotate_if_needed(&self, size: u64) -> (r: Vec<FileStep>)
        ensures
            step_views(r@) == rotation(self.log_path@, size),
    {
        let mut steps: Vec<FileStep> = Vec::new();
        assert(step_views(steps@) =~= Seq::empty());
        if size < MAX_FILE_SIZE {
            return steps;
        }
        let path = self.log_path.as_str();
        let mut i: u64 = MAX_HISTORY_FILES;
        assert(history_steps(path@, (i + 1) as nat) =~= Seq::empty());
        while i >= 1
            invariant
                i <= MAX_HISTORY_FILES,
                step_views(steps@) == history_steps(path@, (i + 1) as nat),
            decreases i,
        {
            let ghost was = step_views(steps@);
            let old_path = path_of(path, i);
            let step = if i == MAX_HISTORY_FILES {
                FileStep::Remove(old_path)
            } else {
                FileStep::Rename(old_path, path_of(path, i + 1))
            };
            assert(step@ == history_step(path@, i as nat));
            steps.push(step);
            assert(step_views(steps@) =~= was.push(step@));
            i -= 1;
        }
        let ghost was = step_views(steps@);
        let last = FileStep::Rename(self.log_path.clone(), path_of(path, 1));
        steps.push(last);
        assert(step_views(steps@) =~= was.push(last@));
        steps
    }

    /// The line for the terminal.
    pub fn terminal_line(&self, entry: &RuntimeLogEntry) -> (r: String)
        ensures
            r@ == if self.use_color {
                coloured(entry@)
            } else {
                plain(entry@)
            },
    {
        if self.use_color {
            entry.coloured_line()
        } else {
            entry.plain_line()
        }
    }

    /// Keeps an entry; the oldest goes where there is no room.
    pub fn log(&mut self, entry: RuntimeLogEntry)
        requires
            old(self).wf(),
        ensures
            final(self).wf(),
            final(self).lines() == with_line(old(self).lines(), entry@),
            final(self).log_path == old(self).log_path,
            final(self).max_level == old(self).max_level,
            final(self).use_color == old(self).use_color,
    {
        let ghost before = self.lines();
        if self.buffer.len() >= BUFFER_CAPACITY {
            self.buffer.pop_front();
            assert(self.lines() =~= before.subrange(1, before.len() as int));
        }
        let ghost mid = self.lines();
        self.buffer.push_back(entry);
        assert(self.lines() =~= mid.push(entry@));
    }

    /// How many entries are kept, and a page of them, the newest first.
    pub fn query_logs(&self, offset: usize, limit: usize) -> (r: (usize, Vec<RuntimeLogEntry>))
        ensures
            r.0 == self.lines().len(),
            line_views(r.1@) == page(self.lines(), offset as int, limit as int),
    {
        let n: usize = self.buffer.len();
        let ghost lines = self.lines();
        let left: usize = if offset < n {
            n - offset
        } else {
            0
        };
        let count: usize = if limit < left {
            limit
        } else {
            left
        };
        let mut out: Vec<RuntimeLogEntry> = Vec::new();
        let mut i: usize = 0;
        while i < count
            invariant
                i <= count <= left,
                left == (if offset < n { n - offset } else { 0 }),
                n == self.buffer@.len(),
                lines == self.lines(),
                out@.len() == i,
                forall|k: int| 0 <= k < i ==> (#[trigger] out@[k])@ == lines[n - 1 - offset - k],
            decreases count - i,
        {
            let copy = self.buffer[n - 1 - offset - i].copy();
            assert(copy@ == lines[n - 1 - offset - i]);
            out.push(copy);
            i += 1;
        }
        assert(line_views(out@) =~= page(lines, offset as int, limit as int));
        (n, out)
    }
}

/// An entry that was just logged stands first on the first page, and no more are
/// kept than there is room for.
pub proof fn law_newest_entry_comes_first(lines: Seq<LineV>, e: LineV)
    requires
        lines.len() <= BUFFER_CAPACITY,
    ensures
        with_line(lines, e).len() <= BUFFER_CAPACITY,
        page(with_line(lines, e), 0, 1) == seq![e],
{
    assert(page(with_line(lines, e), 0, 1) =~= seq![e]);
}

/// Pages follow on each other: two neighbouring pages are one page of both
/// sizes.
pub proof fn law_pages_follow_on(lines: Seq<LineV>, offset: int, first: int, second: int)
    requires
        0 <= offset,
        0 <= first,
        0 <= second,
        offset + first <= lines.len(),
    ensures
        page(lines, offset, first) + page(lines, offset + first, second) == page(
            lines,
            offset,
            first + second,
        ),
{
    assert(page(lines, offset, first) + page(lines, offset + first, second) =~= page(
        lines,
        offset,
        first + second,
    ));
}

/// A setting never makes the log say less than usual.
pub proof fn law_level_is_at_least_usual(parts: Seq<Seq<char>>, n: int)
    ensures
        rank(highest(parts, n)) >= rank(LevelFilter::Info),
    decreases n,
{
    if n > 0 {
        law_level_is_at_least_usual(parts, n - 1);
    }
}

/// The level of a setting is the highest that any of its parts names, or the
/// usual one where none names a higher.
pub proof fn law_highest_named_level_counts(parts: Seq<Seq<char>>, n: int, i: int)
    requires
        0 <= i < n <= parts.len(),
    ensures
        level_in(parts[i]) matches Some(l) ==> rank(highest(parts, n)) >= rank(l),
        highest(parts, n) == LevelFilter::Info || exists|k: int|
            0 <= k < n && level_in(#[trigger] parts[k]) == Some(highest(parts, n)),
    decreases n,
{
    if n - 1 > 0 {
        let j = if i < n - 1 {
            i
        } else {
            0
        };
        law_highest_named_level_counts(parts, n - 1, j);
    }
    if highest(parts, n) != LevelFilter::Info {
        if highest(parts, n) == highest(parts, n - 1) {
            let k = choose|k: int|
                0 <= k < n - 1 && level_in(#[trigger] parts[k]) == Some(highest(parts, n - 1));
            assert(level_in(parts[k]) == Some(highest(parts, n)));
        } else {
            assert(level_in(parts[n - 1]) == Some(highest(parts, n)));
        }
    }
}

proof fn lemma_last_piece(s: Seq<char>, at: int, start: int)
    requires
        0 <= start <= at < s.len(),
        s[at] == '=',
        forall|i: int| at < i < s.len() ==> s[i] != '=',
    ensures
        text::split_from(s, "="@, start).last() == s.subrange(at + 1, s.len() as int),
    decreases s.len() - start,
{
    reveal_strlit("=");
    assert("="@ =~= seq!['=']);
    assert(s.subrange(at, at + 1) =~= "="@);
    assert(text::stands_at(s, "="@, at));
    text::lemma_find_bounds(s, "="@, start);
    text::lemma_find_is_first(s, "="@, start, at);
    let i = text::find_from(s, "="@, start)->0;
    let rest = text::split_from(s, "="@, i + 1);
    text::law_split_joins_back(s, "="@, i + 1);
    assert(text::split_from(s, "="@, start) == seq![s.subrange(start, i)] + rest);
    if i < at {
        lemma_last_piece(s, at, i + 1);
    } else {
        text::lemma_find_bounds(s, "="@, at + 1);
        if text::find_from(s, "="@, at + 1) is Some {
            let j = text::find_from(s, "="@, at + 1)->0;
            assert(s.subrange(j, j + 1)[0] == s[j]);
        }
        assert(rest == seq![s.subrange(at + 1, s.len() as int)]);
    }
}

/// What a part of a setting is for does not matter, only the level after its last
/// equals sign does; and space around the level does not.
pub proof fn law_level_stands_after_the_sign(name: Seq<char>, level: Seq<char>)
    requires
        forall|i: int| 0 <= i < level.len() ==> level[i] != '=',
    ensures
        level_in(name + "="@ + level) == level_named(text::trimmed(level)),
{
    reveal_strlit("=");
    assert("="@ =~= seq!['=']);
    let s = name + "="@ + level;
    let at = name.len() as int;
    assert forall|i: int| at < i < s.len() implies s[i] != '=' by {
        assert(s[i] == level[i - at - 1]);
    }
    lemma_last_piece(s, at, 0);
    assert(s.subrange(at + 1, s.len() as int) =~= level);
}

/// Different names of levels are different levels.
pub proof fn law_level_names_differ(a: Seq<char>, b: Seq<char>)
    requires
        level_named(a) is Some,
        level_named(a) == level_named(b),
    ensures
        a == b,
        level_named(a) != Some(LevelFilter::Info),
{
}

/// A level is filled up with spaces to five characters, and never cut.
pub proof fn law_level_is_filled_up(level: Seq<char>)
    ensures
        padded(level).len() >= 5 && padded(level).len() >= level.len(),
        padded(level).len() == 5 || padded(level) == level,
        text::stands_at(padded(level), level, 0),
        forall|i: int| level.len() <= i < padded(level).len() ==> #[trigger] padded(level)[i] == ' ',
{
    assert(padded(level).subrange(0, level.len() as int) =~= level);
}

/// Both lines of an entry tell its time, its level and what it comes from, and end
/// with its message.
pub proof fn law_lines_tell_the_entry(e: LineV)
    ensures
        text::occurs(plain(e), e.timestamp),
        text::occurs(plain(e), padded(e.level)),
        text::occurs(plain(e), e.target),
        text::stands_at(plain(e), e.message, plain(e).len() - e.message.len()),
        text::occurs(coloured(e), e.timestamp),
        text::occurs(coloured(e), color_of(e.level) + e.level),
        text::occurs(coloured(e), e.target),
        text::stands_at(coloured(e), e.message, coloured(e).len() - e.message.len()),
{
    let p = plain(e);
    assert(p =~= "["@ + e.timestamp + (" "@ + padded(e.level) + "  "@ + e.target + "] "@
        + e.message));
    text::lemma_occurs_between(
        "["@,
        e.timestamp,
        " "@ + padded(e.level) + "  "@ + e.target + "] "@ + e.message,
    );
    assert(p =~= ("["@ + e.timestamp + " "@) + padded(e.level) + ("  "@ + e.target + "] "@
        + e.message));
    text::lemma_occurs_between(
        "["@ + e.timestamp + " "@,
        padded(e.level),
        "  "@ + e.target + "] "@ + e.message,
    );
    assert(p =~= ("["@ + e.timestamp + " "@ + padded(e.level) + "  "@) + e.target + ("] "@
        + e.message));
    text::lemma_occurs_between(
        "["@ + e.timestamp + " "@ + padded(e.level) + "  "@,
        e.target,
        "] "@ + e.message,
    );
    assert(p.subrange(p.len() - e.message.len(), p.len() as int) =~= e.message);
    let c = coloured(e);
    let rest = "\u{1b}[0m\u{1b}[2m  "@ + e.target + "\u{1b}[0m] "@ + e.message;
    assert(c =~= "[\u{1b}[2m"@ + e.timestamp + (" \u{1b}[0m"@ + color_of(e.level) + e.level
        + rest));
    text::lemma_occurs_between(
        "[\u{1b}[2m"@,
        e.timestamp,
        " \u{1b}[0m"@ + color_of(e.level) + e.level + rest,
    );
    assert(c =~= ("[\u{1b}[2m"@ + e.timestamp + " \u{1b}[0m"@) + (color_of(e.level) + e.level)
        + rest);
    text::lemma_occurs_between(
        "[\u{1b}[2m"@ + e.timestamp + " \u{1b}[0m"@,
        color_of(e.level) + e.level,
        rest,
    );
    let head = "[\u{1b}[2m"@ + e.timestamp + " \u{1b}[0m"@ + color_of(e.level) + e.level
        + "\u{1b}[0m\u{1b}[2m  "@;
    assert(c =~= head + e.target + ("\u{1b}[0m] "@ + e.message));
    text::lemma_occurs_between(head, e.target, "\u{1b}[0m] "@ + e.message);
    assert(c.subrange(c.len() - e.message.len(), c.len() as int) =~= e.message);
}

/// An entry is kept until there are too many newer ones: a new one leaves all
/// others in their places, but for the oldest where there is no room.
pub proof fn law_entries_stay_in_order(lines: Seq<LineV>, e: LineV)
    requires
        lines.len() <= BUFFER_CAPACITY,
    ensures
        lines.len() < BUFFER_CAPACITY ==> with_line(lines, e) == lines + seq![e],
        lines.len() == BUFFER_CAPACITY ==> seq![lines[0]] + with_line(lines, e) == lines
            + seq![e],
{
    if lines.len() < BUFFER_CAPACITY {
        assert(with_line(lines, e) =~= lines + seq![e]);
    } else {
        assert(seq![lines[0]] + with_line(lines, e) =~= lines + seq![e]);
    }
}

/// A page goes from newer to older entries, and the page of all entries is all of
/// them from the newest on.
pub proof fn law_pages_go_back(lines: Seq<LineV>, offset: int, limit: int)
    requires
        0 <= offset,
        0 <= limit,
    ensures
        page(lines, offset, limit).len() <= limit,
        offset >= lines.len() ==> page(lines, offset, limit).len() == 0,
        offset + limit <= lines.len() ==> page(lines, offset, limit).len() == limit,
        page(lines, 0, lines.len() as int) == lines.reverse(),
{
    assert(page(lines, 0, lines.len() as int) =~= lines.reverse());
}

/// What the files hold after one step. A file that is not there is passed over.
pub open spec fn after_step(files: Map<Seq<char>, Seq<u8>>, step: StepV) -> Map<
    Seq<char>,
    Seq<u8>,
> {
    match step {
        StepV::Remove(p) => files.remove(p),
        StepV::Rename(a, b) => if files.dom().contains(a) {
            files.remove(a).insert(b, files[a])
        } else {
            files
        },
    }
}

/// What the files hold after the first `n` steps.
pub open spec fn after_steps(files: Map<Seq<char>, Seq<u8>>, steps: Seq<StepV>, n: int) -> Map<
    Seq<char>,
    Seq<u8>,
>
    decreases n,
{
    if n <= 0 {
        files
    } else {
        after_step(after_steps(files, steps, n - 1), steps[n - 1])
    }
}

/// When the present file is full, it is put away, and each file that was put away
/// before moves on by one, so that none is lost but the oldest; no other file is
/// touched. While it is not full nothing happens.
pub proof fn law_full_files_are_put_away(
    files: Map<Seq<char>, Seq<u8>>,
    path: Seq<char>,
    size: u64,
    other: Seq<char>,
)
    requires
        files.dom().contains(path),
        files.dom().contains(history_path(path, 1)),
        files.dom().contains(history_path(path, 2)),
    ensures
        size < MAX_FILE_SIZE ==> rotation(path, size).len() == 0,
        size >= MAX_FILE_SIZE ==> ({
            let r = after_steps(files, rotation(path, size), rotation(path, size).len() as int);
            &&& !r.dom().contains(path)
            &&& r.dom().contains(history_path(path, 1)) && r[history_path(path, 1)] == files[path]
            &&& r.dom().contains(history_path(path, 2)) && r[history_path(path, 2)]
                == files[history_path(path, 1)]
            &&& r.dom().contains(history_path(path, 3)) && r[history_path(path, 3)]
                == files[history_path(path, 2)]
            &&& other != path && other != history_path(path, 1) && other != history_path(path, 2)
                && other != history_path(path, 3) ==> (r.dom().contains(other)
                <==> files.dom().contains(other)) && (files.dom().contains(other) ==> r[other]
                == files[other])
        }),
{
    reveal_strlit(".");
    let p1 = history_path(path, 1);
    let p2 = history_path(path, 2);
    let p3 = history_path(path, 3);
    assert(p1.len() == path.len() + 2 && p2.len() == path.len() + 2 && p3.len() == path.len() + 2);
    assert(p1.last() == '1' && p2.last() == '2' && p3.last() == '3');
    if size >= MAX_FILE_SIZE {
        reveal_with_fuel(history_steps, 5);
        let steps = rotation(path, size);
        assert(steps =~= seq![
            StepV::Remove(p3),
            StepV::Rename(p2, p3),
            StepV::Rename(p1, p2),
            StepV::Rename(path, p1),
        ]);
        reveal_with_fuel(after_steps, 5);
    }
}

} // verus!
