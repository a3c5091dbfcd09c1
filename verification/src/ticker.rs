//! The one-line player display: which track name it shows, how the name
//! scrolls, how long the track has played, and the terminal line printed on
//! each refresh. The program around it polls whether `play` runs, reads the
//! name file, keeps the clock, prints, and sleeps; each refresh is one
//! [`Ticker::tick`].

use vstd::prelude::*;
use crate::lines::{lines_of, clean_line, lemma_scan_no_newline, law_prepend_line};
use crate::text::{
    trim, trim_start, trim_end, trimmed, chars_of, append_str, white_space, lemma_trim_end_concat,
    lemma_trim_end_prefix, lemma_trimmed_ends,
};

verus! {

/// Number of characters of the scrolling name shown at once.
pub const TICKER_WIDTH: usize = 25;

/// The text that scrolls for a track name: the name and four spaces.
pub open spec fn padded(name: Seq<char>) -> Seq<char> {
    name + seq![' ', ' ', ' ', ' ']
}

/// One scroll step: the first character moves to the end. An empty text
/// becomes a single space.
pub open spec fn rotate_left(d: Seq<char>) -> Seq<char> {
    if d.len() == 0 {
        seq![' ']
    } else {
        d.drop_first().push(d[0])
    }
}

/// The text `d` scrolled by `k` places, for `0 <= k <= d.len()`.
pub open spec fn rotation(d: Seq<char>, k: int) -> Seq<char> {
    d.subrange(k, d.len() as int) + d.subrange(0, k)
}

/// The part of the scrolling text that is shown: its first
/// [`TICKER_WIDTH`] characters, or all of it when it is shorter.
pub open spec fn visible_part(d: Seq<char>) -> Seq<char> {
    if d.len() < TICKER_WIDTH {
        d
    } else {
        d.take(TICKER_WIDTH as int)
    }
}

/// The decimal digit character for `d < 10`.
pub open spec fn digit_char(d: nat) -> char {
    seq!['0', '1', '2', '3', '4', '5', '6', '7', '8', '9'][d as int]
}

/// The decimal notation of `n`, without leading zeros.
pub open spec fn decimal(n: nat) -> Seq<char>
    decreases n,
{
    if n < 10 {
        seq![digit_char(n)]
    } else {
        decimal(n / 10).push(digit_char(n % 10))
    }
}

/// The decimal notation of `n` padded with zeros to two characters, as the
/// format `{:02}` writes it.
pub open spec fn two_digits(n: nat) -> Seq<char> {
    if n < 10 {
        seq!['0', digit_char(n)]
    } else {
        decimal(n)
    }
}

/// Elapsed seconds as minutes and seconds, `MM:SS`.
pub open spec fn clock_text(secs: nat) -> Seq<char> {
    two_digits(secs / 60) + seq![':'] + two_digits(secs % 60)
}

/// The refresh line while a track plays: the visible part of the name in
/// green, the elapsed time in blue.
pub open spec fn playing_line(view: Seq<char>, secs: nat) -> Seq<char> {
    "\r\x1b[32mИМЯ: "@ + view + "\x1b[0m \x1b[34m"@ + clock_text(secs) + "\x1b[0m\x1b[K"@
}

/// The refresh line while `play` runs but the name file holds no name.
pub open spec fn waiting_line() -> Seq<char> {
    "\r\x1b[33mОЖИДАНИЕ ТРЕКА В ФАЙЛЕ...\x1b[0m\x1b[K"@
}

/// The refresh line while `play` does not run.
pub open spec fn stopped_line() -> Seq<char> {
    "\r\x1b[31mSTOPPED: play\x1b[0m\x1b[K"@
}

/// What to do with the play clock after a refresh.
#[derive(Debug, Clone, Copy, PartialEq, Eq, Structural)]
pub enum TimerCommand {
    /// Leave the clock as it is.
    Keep,
    /// Start the clock from zero now.
    Restart,
    /// Stop the clock: no track plays.
    Stop,
}

/// The abstract state of a [`Ticker`].
pub struct TickerView {
    /// The name of the track shown, empty when none.
    pub name: Seq<char>,
    /// The scrolling text, its first characters being the visible ones.
    pub display: Seq<char>,
    /// Whether the clock runs.
    pub timing: bool,
}

/// The state of the player display between refreshes.
pub struct Ticker {
    name: String,
    display: Vec<char>,
    timing: bool,
}

impl View for Ticker {
    type V = TickerView;

    closed spec fn view(&self) -> TickerView {
        TickerView { name: self.name@, display: self.display@, timing: self.timing }
    }
}

/// The result of one refresh: what to do with the clock, and the line to
/// print.
pub struct Tick {
    pub timer: TimerCommand,
    pub line: String,
}

/// One refresh of the display, given whether `play` runs, the track name
/// read from the name file, and the seconds on the clock.
///
/// When `play` does not run, the name is forgotten and the clock stops.
/// Otherwise the clock starts if it did not run; a name that differs from
/// the one shown restarts the clock and the scrolling; the first
/// [`TICKER_WIDTH`] characters of the scrolling text are printed with the
/// time (zero when the clock has just started), and the text scrolls by one.
pub open spec fn tick_spec(s: TickerView, playing: bool, name: Seq<char>, secs: u64) -> (
    TickerView,
    TimerCommand,
    Seq<char>,
) {
    if !playing {
        (TickerView { name: seq![], display: s.display, timing: false }, TimerCommand::Stop, stopped_line())
    } else if name.len() == 0 {
        (
            TickerView { name: s.name, display: s.display, timing: true },
            if s.timing {
                TimerCommand::Keep
            } else {
                TimerCommand::Restart
            },
            waiting_line(),
        )
    } else {
        let changed = name != s.name;
        let d = if changed {
            padded(name)
        } else {
            s.display
        };
        let restart = changed || !s.timing;
        let shown = if restart {
            0
        } else {
            secs as nat
        };
        let visible = visible_part(d);
        (
            TickerView { name, display: rotate_left(d), timing: true },
            if restart {
                TimerCommand::Restart
            } else {
                TimerCommand::Keep
            },
            playing_line(visible, shown),
        )
    }
}

/// The character of a decimal digit.
fn digit(d: u64) -> (c: char)
    requires
        d < 10,
    ensures
        c == digit_char(d as nat),
        c as u32 == 48 + d,
{
    proof {
        lemma_digit_code(d as nat);
    }
    let digits: [char; 10] = ['0', '1', '2', '3', '4', '5', '6', '7', '8', '9'];
    assert(digits@ =~= seq!['0', '1', '2', '3', '4', '5', '6', '7', '8', '9']);
    digits[d as usize]
}

/// Appends the decimal notation of `n`.
fn push_decimal(s: &mut String, n: u64)
    ensures
        final(s)@ == old(s)@ + decimal(n as nat),
    decreases n,
{
    if n < 10 {
        push_digit(s, n);
        assert(decimal(n as nat) =~= seq![digit_char(n as nat)]);
    } else {
        push_decimal(s, n / 10);
        push_digit(s, n % 10);
        assert(old(s)@ + decimal((n / 10) as nat) + seq![digit_char((n % 10) as nat)] =~= old(s)@
            + decimal(n as nat));
    }
}

/// Appends one decimal digit.
fn push_digit(s: &mut String, d: u64)
    requires
        d < 10,
    ensures
        final(s)@ == old(s)@ + seq![digit_char(d as nat)],
{
    let v: Vec<char> = vec![digit(d)];
    let t = crate::text::string_of(&v);
    append_str(s, t.as_str());
}

/// Appends `n` with at least two digits.
fn push_two_digits(s: &mut String, n: u64)
    ensures
        final(s)@ == old(s)@ + two_digits(n as nat),
{
    if n < 10 {
        push_digit(s, 0);
        push_digit(s, n);
        assert(old(s)@ + seq![digit_char(0)] + seq![digit_char(n as nat)] =~= old(s)@ + two_digits(
            n as nat,
        )) by {
            assert(digit_char(0) == '0');
        }
    } else {
        push_decimal(s, n);
    }
}

/// The elapsed time as `MM:SS`.
pub fn format_clock(secs: u64) -> (t: String)
    ensures
        t@ == clock_text(secs as nat),
{
    let mut t = String::new();
    push_two_digits(&mut t, secs / 60);
    append_str(&mut t, ":");
    proof {
        reveal_strlit(":");
    }
    push_two_digits(&mut t, secs % 60);
    assert(t@ =~= clock_text(secs as nat));
    t
}

/// The refresh line for a playing track.
pub fn format_playing_line(visible: &str, secs: u64) -> (line: String)
    ensures
        line@ == playing_line(visible@, secs as nat),
{
    let mut line = String::new();
    append_str(&mut line, "\r\x1b[32mИМЯ: ");
    append_str(&mut line, visible);
    append_str(&mut line, "\x1b[0m \x1b[34m");
    let clock = format_clock(secs);
    append_str(&mut line, clock.as_str());
    append_str(&mut line, "\x1b[0m\x1b[K");
    assert(line@ =~= playing_line(visible@, secs as nat));
    line
}

impl Ticker {
    /// The display before the first refresh: no name, no scrolling text, no
    /// clock.
    pub fn new() -> (t: Ticker)
        ensures
            t@ == (TickerView { name: seq![], display: seq![], timing: false }),
    {
        Ticker { name: String::new(), display: Vec::new(), timing: false }
    }

    /// The name of the track shown.
    pub fn name(&self) -> (n: &String)
        ensures
            n@ == self@.name,
    {
        &self.name
    }

    /// Whether the clock runs.
    pub fn is_timing(&self) -> (b: bool)
        ensures
            b == self@.timing,
    {
        self.timing
    }

    /// One refresh; see [`tick_spec`].
    pub fn tick(&mut self, playing: bool, name: &str, secs: u64) -> (t: Tick)
        ensures
            (final(self)@, t.timer, t.line@) == tick_spec(old(self)@, playing, name@, secs),
            playing && name@.len() > 0 && name@ == old(self)@.name && old(self)@.timing ==> {
                &&& t.timer == TimerCommand::Keep
                &&& t.line@ == playing_line(visible_part(old(self)@.display), secs as nat)
            },
    {
        if !playing {
            self.name = String::new();
            self.timing = false;
            let mut line = String::new();
            append_str(&mut line, "\r\x1b[31mSTOPPED: play\x1b[0m\x1b[K");
            assert(line@ =~= stopped_line());
            return Tick { timer: TimerCommand::Stop, line };
        }
        let was_timing = self.timing;
        self.timing = true;
        let name_chars = chars_of(name);
        if name_chars.len() == 0 {
            let mut line = String::new();
            append_str(&mut line, "\r\x1b[33mОЖИДАНИЕ ТРЕКА В ФАЙЛЕ...\x1b[0m\x1b[K");
            assert(line@ =~= waiting_line());
            let timer = if was_timing {
                TimerCommand::Keep
            } else {
                TimerCommand::Restart
            };
            return Tick { timer, line };
        }
        let current = chars_of(self.name.as_str());
        let changed = !same_chars(&name_chars, &current);
        if changed {
            let mut d = name_chars.clone();
            d.push(' ');
            d.push(' ');
            d.push(' ');
            d.push(' ');
            assert(d@ =~= padded(name@));
            self.display = d;
            self.name = crate::text::string_of(&name_chars);
        }
        let restart = changed || !was_timing;
        let shown: u64 = if restart {
            0
        } else {
            secs
        };
        let k = if self.display.len() < TICKER_WIDTH {
            self.display.len()
        } else {
            TICKER_WIDTH
        };
        let visible = crate::text::string_of_range(&self.display, 0, k);
        assert(self.display@.subrange(0, k as int) =~= visible_part(self.display@));
        let line = format_playing_line(visible.as_str(), shown);
        let ghost before = self.display@;
        self.display = rotated(&self.display);
        assert(self.display@ == rotate_left(before));
        let timer = if restart {
            TimerCommand::Restart
        } else {
            TimerCommand::Keep
        };
        Tick { timer, line }
    }
}

/// Whether two character vectors are equal.
fn same_chars(a: &Vec<char>, b: &Vec<char>) -> (r: bool)
    ensures
        r == (a@ == b@),
{
    if a.len() != b.len() {
        return false;
    }
    let mut i: usize = 0;
    while i < a.len()
        invariant
            i <= a.len() == b.len(),
            forall|j: int| 0 <= j < i ==> a@[j] == b@[j],
        decreases a.len() - i,
    {
        if a[i] != b[i] {
            return false;
        }
        i = i + 1;
    }
    assert(a@ =~= b@);
    true
}

/// The text scrolled by one step.
fn rotated(d: &Vec<char>) -> (r: Vec<char>)
    ensures
        r@ == rotate_left(d@),
{
    if d.len() == 0 {
        let r: Vec<char> = vec![' '];
        assert(r@ =~= seq![' ']);
        return r;
    }
    let mut r: Vec<char> = Vec::new();
    let mut i: usize = 1;
    while i < d.len()
        invariant
            1 <= i <= d.len(),
            r@ == d@.subrange(1, i as int),
        decreases d.len() - i,
    {
        r.push(d[i]);
        assert(d@.subrange(1, i + 1) =~= d@.subrange(1, i as int).push(d@[i as int]));
        i = i + 1;
    }
    r.push(d[0]);
    assert(r@ =~= d@.drop_first().push(d@[0]));
    r
}

/// The final component of a path, as `Path::file_name` returns it, taken
/// as a string; `None` when the path has none (it is empty, a root, or ends
/// in `..`).
pub uninterp spec fn path_file_name(path: Seq<char>) -> Option<Seq<char>>;

/// What a file name found in a path is: a non-empty run of characters of
/// the path, without a slash, and neither `.` nor `..`.
pub open spec fn is_file_name_of(name: Seq<char>, path: Seq<char>) -> bool {
    &&& name.len() > 0
    &&& !name.contains('/')
    &&& name != seq!['.']
    &&& name != seq!['.', '.']
    &&& exists|i: int| 0 <= i && i + name.len() <= path.len() && #[trigger] path.subrange(i, i + name.len()) == name
}

/// Calls `std::path::Path::file_name` on `path` and turns the component
/// into a `String` (the conversion cannot fail on a component of a `&str`).
/// The contract claims that the result is a function of the path, named
/// `path_file_name`, and that a name it gives is a path component: non-empty,
/// without a slash, neither `.` nor `..`, and a run of characters of the
/// path. Which component it is, is not stated.
#[verifier::external_body]
fn file_name_of(path: &str) -> (r: Option<String>)
    ensures
        match r {
            Some(n) => path_file_name(path@) == Some(n@) && is_file_name_of(n@, path@),
            None => path_file_name(path@) is None,
        },
{
    std::path::Path::new(path).file_name().and_then(|n| n.to_str()).map(|n| n.to_string())
}

/// The name shown for a first line, given what `Path::file_name` found in
/// it: the file name when there is one, else the whole line.
pub fn shown_name(line: &str, file_name: Option<String>) -> (n: String)
    ensures
        n@ == match file_name {
            Some(f) => f@,
            None => line@,
        },
{
    match file_name {
        Some(f) => f,
        None => line.to_owned(),
    }
}

/// The first line of a text, empty when it has none.
pub open spec fn first_line(s: Seq<char>) -> Seq<char> {
    if lines_of(s).len() == 0 {
        seq![]
    } else {
        lines_of(s)[0]
    }
}

/// The track name shown for the content of the name file: the first line
/// of the content without surrounding whitespace, reduced to its file name
/// when it has one; empty when that line is empty.
pub open spec fn track_name_spec(content: Seq<char>) -> Seq<char> {
    let line = first_line(trim(content));
    if line.len() == 0 {
        seq![]
    } else {
        match path_file_name(line) {
            Some(n) => n,
            None => line,
        }
    }
}

/// The track name shown for the content of the name file. When the first
/// line has a file name, the name shown is a non-empty run of characters of
/// that line without a slash.
pub fn track_name(content: &str) -> (name: String)
    ensures
        name@ == track_name_spec(content@),
        ({
            let line = first_line(trim(content@));
            line.len() > 0 && path_file_name(line) is Some ==> is_file_name_of(name@, line)
        }),
{
    let t = trimmed(content);
    let lines = crate::lines::split_lines(t.as_str());
    if lines.len() == 0 {
        return String::new();
    }
    let line = &lines[0];
    assert(lines.deep_view()[0] == line@);
    if line.as_str().is_empty() {
        return String::new();
    }
    let found = file_name_of(line.as_str());
    shown_name(line.as_str(), found)
}

/// The scrolling text is always the padded name scrolled by some number of
/// places, while a name is shown.
pub open spec fn scrolls_name(v: TickerView) -> bool {
    v.name.len() > 0 ==> exists|k: int|
        0 <= k < padded(v.name).len() && v.display == #[trigger] rotation(padded(v.name), k)
}

/// Scrolling by zero places, or by the whole length, leaves the text as it
/// is.
pub proof fn lemma_rotation_ends(d: Seq<char>)
    ensures
        rotation(d, 0) == d,
        rotation(d, d.len() as int) == d,
{
    assert(rotation(d, 0) =~= d);
    assert(rotation(d, d.len() as int) =~= d);
}

/// One scroll step of a text scrolled by `k` places scrolls it by `k + 1`.
pub proof fn lemma_rotate_step(d: Seq<char>, k: int)
    requires
        0 <= k < d.len(),
    ensures
        rotate_left(rotation(d, k)) == rotation(d, k + 1),
{
    let r = rotation(d, k);
    assert(r.len() == d.len());
    assert(r[0] == d[k]);
    assert(r.drop_first().push(r[0]) =~= rotation(d, k + 1));
}

/// Every refresh keeps the scrolling text a scrolled copy of the padded
/// name that is shown.
pub proof fn law_tick_keeps_scrolling(s: TickerView, playing: bool, name: Seq<char>, secs: u64)
    requires
        scrolls_name(s),
    ensures
        scrolls_name(tick_spec(s, playing, name, secs).0),
{
    if playing && name.len() > 0 {
        let p = padded(name);
        let n = tick_spec(s, playing, name, secs).0;
        if name != s.name {
            lemma_rotation_ends(p);
            lemma_rotate_step(p, 0);
            assert(n.display == rotation(p, 1));
        } else {
            let k = choose|k: int| 0 <= k < p.len() && s.display == #[trigger] rotation(p, k);
            lemma_rotate_step(p, k);
            if k + 1 == p.len() {
                lemma_rotation_ends(p);
                assert(n.display == rotation(p, 0));
            } else {
                assert(n.display == rotation(p, k + 1));
            }
        }
    }
}

/// The display after `n` refreshes while `play` runs and the name file
/// holds `name`.
pub open spec fn steady_ticks(s: TickerView, name: Seq<char>, n: nat) -> TickerView
    decreases n,
{
    if n == 0 {
        s
    } else {
        steady_ticks(tick_spec(s, true, name, 0).0, name, (n - 1) as nat)
    }
}

/// While the same name stays, each refresh scrolls the text by one place.
pub proof fn lemma_steady_scrolls(s: TickerView, name: Seq<char>, k: int, j: nat)
    requires
        name.len() > 0,
        s.name == name,
        0 <= k,
        k + j <= padded(name).len(),
        s.display == rotation(padded(name), k),
    ensures
        steady_ticks(s, name, j).display == rotation(padded(name), k + j),
        steady_ticks(s, name, j).name == name,
    decreases j,
{
    if j > 0 {
        let p = padded(name);
        lemma_rotate_step(p, k);
        let n = tick_spec(s, true, name, 0).0;
        assert(n.display == rotation(p, k + 1));
        lemma_steady_scrolls(n, name, k + 1, (j - 1) as nat);
    }
}

/// The scrolling comes back to the start of the padded name after as many
/// refreshes as it has characters.
pub proof fn law_scroll_period(s: TickerView, name: Seq<char>)
    requires
        name.len() > 0,
        s.name == name,
        s.display == padded(name),
    ensures
        steady_ticks(s, name, padded(name).len()).display == padded(name),
{
    lemma_rotation_ends(padded(name));
    lemma_steady_scrolls(s, name, 0, padded(name).len());
}

/// After `play` stops, the next refresh that finds a name restarts the
/// clock, shows zero seconds, and shows the name from its start.
pub proof fn law_restart_after_stop(
    s: TickerView,
    stale: Seq<char>,
    stale_secs: u64,
    name: Seq<char>,
    secs: u64,
)
    requires
        name.len() > 0,
    ensures
        ({
            let stopped = tick_spec(s, false, stale, stale_secs).0;
            let (next, timer, line) = tick_spec(stopped, true, name, secs);
            &&& timer == TimerCommand::Restart
            &&& line == playing_line(visible_part(padded(name)), 0)
            &&& next.display == rotate_left(padded(name))
        }),
{
    let stopped = tick_spec(s, false, stale, stale_secs).0;
    assert(stopped.name.len() == 0);
    assert(name != stopped.name);
}

/// The name shown depends only on the first line that is not blank: a
/// non-empty line without a newline and without surrounding whitespace
/// gives the same name alone as with a newline and any text after it.
pub proof fn law_name_from_first_line(line: Seq<char>, rest: Seq<char>)
    requires
        line.len() > 0,
        trim(line) == line,
        !line.contains('\n'),
    ensures
        track_name_spec(line) == track_name_spec(line + seq!['\n'] + rest),
{
    lemma_trimmed_ends(line);
    let tail = seq!['\n'] + rest;
    let whole = line + tail;
    assert(line + seq!['\n'] + rest =~= whole);
    // trimming the start changes nothing: the line starts with a non-blank
    assert(whole[0] == line[0]);
    assert(trim_start(whole) == whole);
    lemma_trim_end_concat(line, tail);
    let t = trim_end(tail);
    assert(trim(whole) == line + t);
    // the line is clean: no newline, and it does not end in '\r'
    assert(white_space('\r'));
    assert(clean_line(line));
    lemma_scan_no_newline(line);
    assert(lines_of(line) =~= seq![line]);
    assert(first_line(line) == line);
    lemma_trim_end_prefix(tail);
    if t.len() == 0 {
        assert(line + t =~= line);
    } else {
        assert(t[0] == '\n');
        let after = t.drop_first();
        assert(line + t =~= line.push('\n') + after);
        law_prepend_line(line, after);
        assert((seq![line] + lines_of(after))[0] == line);
    }
}

/// The number that a run of decimal digit characters stands for, read from
/// the left.
pub open spec fn digits_value(s: Seq<char>) -> int
    decreases s.len(),
{
    if s.len() == 0 {
        0
    } else {
        digits_value(s.drop_last()) * 10 + (s.last() as u32 - 48)
    }
}

/// Every character is one of `0` to `9`.
pub open spec fn all_digits(s: Seq<char>) -> bool {
    forall|i: int| 0 <= i < s.len() ==> 48 <= #[trigger] s[i] as u32 <= 57
}

/// The digit character of `d` is the character `'0'` moved up by `d`.
pub proof fn lemma_digit_code(d: nat)
    requires
        d < 10,
    ensures
        digit_char(d) as u32 == 48 + d,
{
    assert('0' as u32 == 48);
    assert('1' as u32 == 49);
    assert('2' as u32 == 50);
    assert('3' as u32 == 51);
    assert('4' as u32 == 52);
    assert('5' as u32 == 53);
    assert('6' as u32 == 54);
    assert('7' as u32 == 55);
    assert('8' as u32 == 56);
    assert('9' as u32 == 57);
}

/// The decimal notation of `n` is made of digits and reads back as `n`.
pub proof fn law_decimal_reads_back(n: nat)
    ensures
        all_digits(decimal(n)),
        digits_value(decimal(n)) == n,
        decimal(n).len() >= 1,
    decreases n,
{
    if n < 10 {
        lemma_digit_code(n);
        let d = decimal(n);
        assert(d.drop_last() =~= Seq::<char>::empty());
        assert(d.last() == digit_char(n));
        assert(digits_value(d) == digits_value(d.drop_last()) * 10 + (d.last() as u32 - 48));
    } else {
        law_decimal_reads_back(n / 10);
        lemma_digit_code(n % 10);
        let d = decimal(n);
        assert(d.drop_last() =~= decimal(n / 10));
        assert(d.last() == digit_char(n % 10));
        assert(digits_value(d) == digits_value(d.drop_last()) * 10 + (d.last() as u32 - 48));
        assert((n / 10) * 10 + n % 10 == n);
        assert(all_digits(d)) by {
            assert forall|i: int| 0 <= i < d.len() implies 48 <= #[trigger] d[i] as u32 <= 57 by {
                if i < d.len() - 1 {
                    assert(d[i] == decimal(n / 10)[i]);
                }
            }
        }
    }
}

/// Two-digit notation is made of at least two digits and reads back as the
/// number; below 100 it has exactly two.
pub proof fn law_two_digits_reads_back(n: nat)
    ensures
        all_digits(two_digits(n)),
        digits_value(two_digits(n)) == n,
        two_digits(n).len() >= 2,
        n < 100 ==> two_digits(n).len() == 2,
{
    if n < 10 {
        lemma_digit_code(n);
        lemma_digit_code(0);
        let t = two_digits(n);
        assert(t.drop_last() =~= seq!['0']);
        assert(seq!['0'].drop_last() =~= Seq::<char>::empty());
        assert(seq!['0'].last() == '0');
        assert(digits_value(seq!['0']) == digits_value(Seq::<char>::empty()) * 10 + ('0' as u32 - 48));
        assert(digits_value(seq!['0']) == 0);
        assert(t.last() == digit_char(n));
        assert(digits_value(t) == digits_value(t.drop_last()) * 10 + (t.last() as u32 - 48));
    } else {
        law_decimal_reads_back(n);
        law_decimal_reads_back(n / 10);
        if n < 100 {
            assert(decimal(n / 10) == seq![digit_char(n / 10)]);
        }
    }
}

/// The clock text reads back as the elapsed time: minutes before the colon,
/// then exactly two digits of seconds, for every number of seconds.
pub proof fn law_clock_reads_back(secs: nat)
    ensures
        ({
            let c = clock_text(secs);
            &&& c.len() >= 5
            &&& c[c.len() - 3] == ':'
            &&& all_digits(c.take(c.len() - 3))
            &&& all_digits(c.skip(c.len() - 2))
            &&& digits_value(c.take(c.len() - 3)) == secs / 60
            &&& digits_value(c.skip(c.len() - 2)) == secs % 60
        }),
{
    let m = two_digits(secs / 60);
    let r = two_digits(secs % 60);
    law_two_digits_reads_back(secs / 60);
    law_two_digits_reads_back(secs % 60);
    let c = clock_text(secs);
    assert(c.take(c.len() - 3) =~= m);
    assert(c.skip(c.len() - 2) =~= r);
}

/// While the same name plays and the clock runs, a refresh keeps the clock
/// and prints the visible part of the scrolling text with the seconds it
/// was given, whole minutes included.
pub proof fn law_tick_shows_elapsed(s: TickerView, name: Seq<char>, secs: u64)
    requires
        name.len() > 0,
        s.name == name,
        s.timing,
    ensures
        ({
            let (next, timer, line) = tick_spec(s, true, name, secs);
            &&& timer == TimerCommand::Keep
            &&& line == "\r\x1b[32mИМЯ: "@ + visible_part(s.display) + "\x1b[0m \x1b[34m"@
                + clock_text(secs as nat) + "\x1b[0m\x1b[K"@
            &&& next.display == rotate_left(s.display)
        }),
{
}

} // verus!
