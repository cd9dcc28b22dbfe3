//! The state behind the terminal interface: tabs, the log pane with its
//! progress bar and input line, and the players pane.
use vstd::prelude::*;

use crate::render::{decimal, push_decimal, push_text};

verus! {

/// The keys the interface reacts to.
#[derive(Clone, Copy, Debug, PartialEq, Eq)]
pub enum KeyPress {
    Tab,
    BackTab,
    Char(char),
    Backspace,
    Other,
}

/* Tabs */

/// A row of tabs, one of them active.
#[derive(Debug)]
pub struct TabsState {
    titles: Vec<String>,
    current_idx: usize,
}

impl TabsState {
    /// The tab titles.
    pub closed spec fn titles(&self) -> Seq<Seq<char>> {
        self.titles@.map_values(|t: String| t@)
    }

    /// The active tab.
    pub closed spec fn current(&self) -> nat {
        self.current_idx as nat
    }

    /// The active tab is one of the tabs (the first when there are none).
    pub open spec fn well_formed(&self) -> bool {
        self.current() < self.titles().len() || (self.titles().len() == 0 && self.current() == 0)
    }

    /// Tabs with the given titles, the first one active.
    pub fn new(titles: Vec<String>) -> (r: Self)
        ensures
            r.well_formed(),
            r.titles() == titles@.map_values(|t: String| t@),
            r.current() == 0,
    {
        TabsState { titles, current_idx: 0 }
    }

    /// Moves to the next tab, from the last back to the first.
    pub fn next(&mut self)
        requires
            old(self).well_formed(),
            old(self).titles().len() > 0,
        ensures
            final(self).well_formed(),
            final(self).titles() == old(self).titles(),
            final(self).current() == (old(self).current() + 1) % old(self).titles().len(),
    {
        let n = self.titles.len();
        proof {
            assert(self.titles().len() == n);
        }
        self.current_idx = (self.current_idx + 1) % n;
    }

    /// Moves to the previous tab, from the first round to the last.
    pub fn previous(&mut self)
        requires
            old(self).well_formed(),
            old(self).titles().len() > 0,
        ensures
            final(self).well_formed(),
            final(self).titles() == old(self).titles(),
            final(self).current() == if old(self).current() > 0 {
                (old(self).current() - 1) as nat
            } else {
                (old(self).titles().len() - 1) as nat
            },
    {
        let n = self.titles.len();
        proof {
            assert(self.titles().len() == n);
        }
        if self.current_idx > 0 {
            self.current_idx = self.current_idx - 1;
        } else {
            self.current_idx = n - 1;
        }
    }

    /// Tab moves to the next tab, back-tab to the previous one; other keys
    /// do nothing here.
    pub fn handle_input(&mut self, key: KeyPress)
        requires
            old(self).well_formed(),
            key == KeyPress::Tab || key == KeyPress::BackTab ==> old(self).titles().len() > 0,
        ensures
            final(self).well_formed(),
            final(self).titles() == old(self).titles(),
            key == KeyPress::Tab ==> final(self).current() == (old(self).current() + 1) % old(
                self,
            ).titles().len(),
            key == KeyPress::BackTab ==> final(self).current() == if old(self).current() > 0 {
                (old(self).current() - 1) as nat
            } else {
                (old(self).titles().len() - 1) as nat
            },
            key != KeyPress::Tab && key != KeyPress::BackTab ==> final(self).current() == old(
                self,
            ).current(),
    {
        match key {
            KeyPress::Tab => self.next(),
            KeyPress::BackTab => self.previous(),
            _ => {},
        }
    }

    /// The active tab.
    pub fn current_idx(&self) -> (r: usize)
        ensures
            r == self.current(),
    {
        self.current_idx
    }

    /// The tab titles, for drawing.
    pub fn title_list(&self) -> (r: &Vec<String>)
        ensures
            r@.map_values(|t: String| t@) == self.titles(),
    {
        &self.titles
    }
}

/// Moving to the next tab and then to the previous one comes back, and so
/// does the other way round.
pub proof fn lemma_tab_round_trip(count: nat, current: nat)
    requires
        current < count,
    ensures
        ({
            let n = (current + 1) % count;
            (if n > 0 {
                (n - 1) as nat
            } else {
                (count - 1) as nat
            }) == current
        }),
        ({
            let p = if current > 0 {
                (current - 1) as nat
            } else {
                (count - 1) as nat
            };
            (p + 1) % count == current
        }),
{
    if current + 1 < count {
        assert((current + 1) % count == current + 1) by (nonlinear_arith)
            requires
                current + 1 < count,
        ;
    } else {
        assert((current + 1) % count == 0) by (nonlinear_arith)
            requires
                current + 1 == count,
        ;
    }
    if current > 0 {
        assert(current % count == current) by (nonlinear_arith)
            requires
                current < count,
        ;
    } else {
        assert(count % count == 0) by (nonlinear_arith)
            requires
                count > 0,
        ;
    }
}

/* The progress bar */

/// How far the world has loaded, shown as a bar of ten cells.
#[derive(Clone, Copy, Debug, PartialEq, Eq)]
pub struct ProgressBarState {
    pub complete: u32,
    pub out_of: u32,
}

/// `c` written `n` times.
pub open spec fn repeated(c: char, n: int) -> Seq<char> {
    Seq::new(if n > 0 { n as nat } else { 0 }, |i: int| c)
}

/// The bar with `filled` cells filled: `[`, the filled cells as `=`, the rest
/// of ten as spaces, `] ` and the percentage.
pub open spec fn bar_text(complete: u32, filled: int) -> Seq<char> {
    "["@ + repeated('=', filled) + repeated(' ', 10 - filled) + "] "@ + decimal(complete as nat)
        + "%"@
}

/// Appends `c` `n` times.
fn push_repeated(out: &mut String, c: char, n: i64)
    ensures
        final(out)@ == old(out)@ + repeated(c, n as int),
{
    let mut k: i64 = 0;
    while k < n
        invariant
            0 <= k,
            n > 0 ==> k <= n,
            n <= 0 ==> k == 0,
            out@ == old(out)@ + repeated(c, k as int),
        decreases n - k,
    {
        out.push(c);
        proof {
            assert(repeated(c, k + 1) =~= repeated(c, k as int).push(c));
        }
        k = k + 1;
    }
    proof {
        if n <= 0 {
            assert(repeated(c, n as int) =~= repeated(c, 0));
        }
    }
}

impl ProgressBarState {
    /// The bar with `filled` of its ten cells filled; how many cells the
    /// completed share fills is worked out by the caller.
    pub fn text(&self, filled: i32) -> (r: String)
        ensures
            r@ == bar_text(self.complete, filled as int),
    {
        let mut out = String::new();
        push_text(&mut out, "[");
        push_repeated(&mut out, '=', filled as i64);
        push_repeated(&mut out, ' ', 10 - filled as i64);
        push_text(&mut out, "] ");
        push_decimal(&mut out, self.complete as u64);
        push_text(&mut out, "%");
        proof {
            assert(out@ =~= bar_text(self.complete, filled as int));
        }
        out
    }
}

/* The input line */

/// The line after a key: a character is added, backspace takes the last one
/// off, other keys leave it.
pub open spec fn typed(line: Seq<char>, key: KeyPress) -> Seq<char> {
    match key {
        KeyPress::Char(c) => line.push(c),
        KeyPress::Backspace => if line.len() > 0 {
            line.drop_last()
        } else {
            line
        },
        _ => line,
    }
}

/// The line being typed.
#[derive(Debug)]
pub struct InputState {
    value: String,
}

impl InputState {
    /// What has been typed.
    pub closed spec fn text(&self) -> Seq<char> {
        self.value@
    }

    /// An empty line.
    pub fn new() -> (r: Self)
        ensures
            r.text() == Seq::<char>::empty(),
    {
        InputState { value: String::new() }
    }

    /// A typed character is added; backspace takes the last one off; other
    /// keys do nothing here.
    pub fn handle_input(&mut self, key: KeyPress)
        ensures
            final(self).text() == typed(old(self).text(), key),
    {
        match key {
            KeyPress::Char(c) => self.value.push(c),
            KeyPress::Backspace => {
                self.value.pop();
            },
            _ => {},
        }
    }

    /// Empties the line.
    pub fn clear(&mut self)
        ensures
            final(self).text() == Seq::<char>::empty(),
    {
        self.value.clear();
    }

    /// What has been typed.
    pub fn value(&self) -> (r: &str)
        ensures
            r@ == self.text(),
    {
        self.value.as_str()
    }
}

/// Typing a character and then backspace leaves the line as it was.
pub proof fn lemma_type_then_erase(line: Seq<char>, c: char)
    ensures
        typed(typed(line, KeyPress::Char(c)), KeyPress::Backspace) == line,
{
    assert(line.push(c).drop_last() =~= line);
}

/* The log pane */

/// The bar after a progress report of `percent`: 100 or more leaves no bar
/// shown, whatever was shown before; less shows that progress, out of what
/// the shown bar counted to, or out of 100 on a new bar.
pub open spec fn progress_after(bar: Option<ProgressBarState>, percent: u32) -> Option<
    ProgressBarState,
> {
    if percent >= 100 {
        None
    } else {
        match bar {
            Some(b) => Some(ProgressBarState { complete: percent, out_of: b.out_of }),
            None => Some(ProgressBarState { complete: percent, out_of: 100 }),
        }
    }
}

/// The log lines, the world-loading progress bar if one is shown, and the
/// input line.
#[derive(Debug)]
pub struct LogsState {
    records: Vec<String>,
    progress_bar: Option<ProgressBarState>,
    pub input_state: InputState,
}

impl LogsState {
    /// The log lines, oldest first.
    pub closed spec fn records(&self) -> Seq<Seq<char>> {
        self.records@.map_values(|r: String| r@)
    }

    /// The input line.
    pub closed spec fn input(&self) -> InputState {
        self.input_state
    }

    /// The progress bar, if one is shown.
    pub closed spec fn bar(&self) -> Option<ProgressBarState> {
        self.progress_bar
    }

    /// No log lines, no bar, an empty input line.
    pub fn new() -> (r: Self)
        ensures
            r.records() == Seq::<Seq<char>>::empty(),
            r.bar() is None,
            r.input().text() == Seq::<char>::empty(),
    {
        let r = LogsState { records: Vec::new(), progress_bar: None, input_state: InputState::new() };
        proof {
            assert(r.records() =~= Seq::<Seq<char>>::empty());
        }
        r
    }

    /// Adds a log line.
    pub fn add_record(&mut self, record: String)
        ensures
            final(self).records() == old(self).records().push(record@),
            final(self).bar() == old(self).bar(),
            final(self).input() == old(self).input(),
    {
        self.records.push(record);
        proof {
            assert(final(self).records() =~= old(self).records().push(record@));
        }
    }

    /// Sets the progress bar to `percent`; setting it to 100 clears the bar.
    pub fn set_progress_percent(&mut self, percent: u32)
        ensures
            final(self).bar() == progress_after(old(self).bar(), percent),
            final(self).records() == old(self).records(),
            final(self).input() == old(self).input(),
    {
        match self.progress_bar {
            Some(bar) => {
                if percent >= 100 {
                    self.progress_bar = None;
                } else {
                    self.progress_bar = Some(ProgressBarState { complete: percent, out_of: bar.out_of });
                }
            },
            None => {
                if percent >= 100 {
                    self.progress_bar = None;
                } else {
                    self.progress_bar = Some(ProgressBarState { complete: percent, out_of: 100 });
                }
            },
        }
    }

    /// The log lines, for drawing.
    pub fn record_list(&self) -> (r: &Vec<String>)
        ensures
            r@.map_values(|t: String| t@) == self.records(),
    {
        &self.records
    }

    /// The progress bar, for drawing.
    pub fn progress_bar(&self) -> (r: Option<ProgressBarState>)
        ensures
            r == self.bar(),
    {
        self.progress_bar
    }

    /// Keys go to the input line.
    pub fn handle_input(&mut self, key: KeyPress)
        ensures
            final(self).records() == old(self).records(),
            final(self).bar() == old(self).bar(),
            final(self).input().text() == typed(old(self).input().text(), key),
    {
        self.input_state.handle_input(key);
    }
}

/// A report of 100 or more leaves no bar shown, whether or not one was shown
/// before; a report below 100 shows that progress.
pub proof fn lemma_finished_progress_clears(bar: Option<ProgressBarState>, percent: u32)
    ensures
        percent >= 100 ==> progress_after(bar, percent) is None,
        percent < 100 ==> (progress_after(bar, percent) matches Some(b) && b.complete == percent),
{
}

/* The players pane */

/// The pane that lists the online players; it keeps no state of its own.
#[derive(Debug)]
pub struct PlayersState;

impl PlayersState {
    /// Keys do nothing here.
    pub fn handle_input(&mut self, key: KeyPress)
        ensures
            *final(self) == *old(self),
    {
    }
}

/// The interval `a` divided by `b`, rounded toward zero as Rust divides.
pub open spec fn trunc_div(a: int, b: int) -> int {
    if a >= 0 {
        a / b
    } else {
        -((-a) / b)
    }
}

/// The remainder of `trunc_div`, with the sign of `a`.
pub open spec fn trunc_rem(a: int, b: int) -> int {
    a - trunc_div(a, b) * b
}

/// A whole number in decimal, with a minus sign when negative.
pub open spec fn signed_decimal(n: int) -> Seq<char> {
    if n < 0 {
        "-"@ + decimal((-n) as nat)
    } else {
        decimal(n as nat)
    }
}

/// How long a session has lasted, from its length in whole seconds:
/// minutes alone, hours and minutes, or days, hours and minutes.
pub open spec fn session_time_text(seconds: int) -> Seq<char> {
    let minutes = trunc_div(trunc_rem(seconds, 3600), 60);
    let hours = trunc_div(trunc_rem(seconds, 86400), 3600);
    let days = trunc_div(seconds, 86400);
    if hours == 0 {
        signed_decimal(minutes) + "m"@
    } else if days == 0 {
        signed_decimal(hours) + "h "@ + signed_decimal(minutes) + "m"@
    } else {
        signed_decimal(days) + "d "@ + signed_decimal(hours) + "h "@ + signed_decimal(minutes) + "m"@
    }
}

/// Appends a number of magnitude `m`, negative when `negative`.
fn push_signed(out: &mut String, m: u64, negative: bool)
    ensures
        final(out)@ == old(out)@ + signed_decimal(if negative {
            -(m as int)
        } else {
            m as int
        }),
{
    if negative && m > 0 {
        push_text(out, "-");
        push_decimal(out, m);
    } else {
        push_decimal(out, m);
    }
    proof {
        assert(final(out)@ =~= old(out)@ + signed_decimal(if negative {
            -(m as int)
        } else {
            m as int
        }));
    }
}

/// How long a session has lasted, for the players pane.
pub fn make_session_time_string(session_seconds: i64) -> (r: String)
    ensures
        r@ == session_time_text(session_seconds as int),
{
    let negative = session_seconds < 0;
    let m: u64 = if negative {
        (-(session_seconds as i128)) as u64
    } else {
        session_seconds as u64
    };
    let days = m / 86400;
    let hours = (m % 86400) / 3600;
    let minutes = (m % 3600) / 60;
    let ghost s = session_seconds as int;
    proof {
        if negative {
            assert(m == -s);
            assert(trunc_div(s, 86400) == -(days as int));
            assert(trunc_rem(s, 86400) == -((m % 86400) as int));
            assert(trunc_rem(s, 3600) == -((m % 3600) as int));
            assert(trunc_div(trunc_rem(s, 3600), 60) == -(minutes as int));
            assert(trunc_div(trunc_rem(s, 86400), 3600) == -(hours as int));
        } else {
            assert(m == s);
            assert(trunc_rem(s, 86400) == (m % 86400) as int);
            assert(trunc_rem(s, 3600) == (m % 3600) as int);
        }
    }
    let mut out = String::new();
    if hours == 0 {
        push_signed(&mut out, minutes, negative);
        push_text(&mut out, "m");
    } else if days == 0 {
        push_signed(&mut out, hours, negative);
        push_text(&mut out, "h ");
        push_signed(&mut out, minutes, negative);
        push_text(&mut out, "m");
    } else {
        push_signed(&mut out, days, negative);
        push_text(&mut out, "d ");
        push_signed(&mut out, hours, negative);
        push_text(&mut out, "h ");
        push_signed(&mut out, minutes, negative);
        push_text(&mut out, "m");
    }
    proof {
        assert(out@ =~= session_time_text(s));
    }
    out
}

/* The whole interface */

/// The interface: its tabs, the log pane and the players pane.
#[derive(Debug)]
pub struct TuiState {
    pub tab_state: TabsState,
    pub logs_state: LogsState,
    pub players_state: PlayersState,
}

impl TuiState {
    /// The interface as it starts: tabs `Logs` and `Players`, on `Logs`.
    pub fn new() -> (r: Self)
        ensures
            r.tab_state.well_formed(),
            r.tab_state.titles() == seq!["Logs"@, "Players"@],
            r.tab_state.current() == 0,
            r.logs_state.records() == Seq::<Seq<char>>::empty(),
            r.logs_state.bar() is None,
            r.logs_state.input().text() == Seq::<char>::empty(),
    {
        let mut titles: Vec<String> = Vec::new();
        titles.push("Logs".to_owned());
        titles.push("Players".to_owned());
        proof {
            assert(titles@.map_values(|t: String| t@) =~= seq!["Logs"@, "Players"@]);
        }
        TuiState {
            tab_state: TabsState::new(titles),
            logs_state: LogsState::new(),
            players_state: PlayersState,
        }
    }

    /// A key goes to the tabs, then to the pane of the tab that is active.
    pub fn handle_input(&mut self, key: KeyPress)
        requires
            old(self).tab_state.well_formed(),
            1 <= old(self).tab_state.titles().len() <= 2,
        ensures
            final(self).tab_state.well_formed(),
            final(self).tab_state.titles() == old(self).tab_state.titles(),
            key == KeyPress::Tab ==> final(self).tab_state.current() == (old(
                self,
            ).tab_state.current() + 1) % old(self).tab_state.titles().len(),
            key == KeyPress::BackTab ==> final(self).tab_state.current() == if old(
                self,
            ).tab_state.current() > 0 {
                (old(self).tab_state.current() - 1) as nat
            } else {
                (old(self).tab_state.titles().len() - 1) as nat
            },
            key != KeyPress::Tab && key != KeyPress::BackTab ==> final(self).tab_state.current()
                == old(self).tab_state.current(),
            final(self).logs_state.records() == old(self).logs_state.records(),
            final(self).logs_state.bar() == old(self).logs_state.bar(),
            final(self).tab_state.current() == 0 ==> final(self).logs_state.input().text()
                == typed(old(self).logs_state.input().text(), key),
            final(self).tab_state.current() != 0 ==> final(self).logs_state.input()
                == old(self).logs_state.input(),
    {
        self.tab_state.handle_input(key);
        if self.tab_state.current_idx() == 0 {
            self.logs_state.handle_input(key);
        } else {
            self.players_state.handle_input(key);
        }
    }
}

/* What the log pane shows */

/// The lines `textwrap::wrap` breaks a text into for the given width.
pub uninterp spec fn wrapped(text: Seq<char>, width: nat) -> Seq<Seq<char>>;

/// Breaks a text into lines of the given width (`textwrap::wrap`, with its
/// default options). The lines are named, not described: what they are is
/// the word-wrapping algorithm of that crate.
#[verifier::external_body]
fn wrap_text(text: &str, width: usize) -> (r: Vec<String>)
    ensures
        r@.map_values(|l: String| l@) == wrapped(text@, width as nat),
{
    textwrap::wrap(text, width).into_iter().map(|l| l.into_owned()).collect()
}

/// Lists of lines, one list after another.
pub open spec fn concat_lines(parts: Seq<Seq<Seq<char>>>) -> Seq<Seq<char>>
    decreases parts.len(),
{
    if parts.len() == 0 {
        seq![]
    } else {
        concat_lines(parts.drop_last()) + parts.last()
    }
}

/// `a - b`, or 0 where that is negative.
pub open spec fn saturating_sub(a: int, b: int) -> int {
    if a > b {
        a - b
    } else {
        0
    }
}

/// The lines the log pane shows of the wrapped records `parts` (each record
/// its lines) and the bar, with room for `available` record lines: the record
/// lines, then the bar; of the record lines only the last that fit.
pub open spec fn chosen_lines(
    parts: Seq<Seq<Seq<char>>>,
    bar: Option<Seq<char>>,
    available: int,
) -> Seq<Seq<char>> {
    let lines = concat_lines(parts);
    let items = lines + match bar {
        Some(b) => seq![b],
        None => Seq::<Seq<char>>::empty(),
    };
    items.skip(saturating_sub(lines.len() as int, available))
}

/// The lines of each part.
pub open spec fn part_views(parts: Seq<Vec<String>>) -> Seq<Seq<Seq<char>>> {
    parts.map_values(|p: Vec<String>| p@.map_values(|l: String| l@))
}

/// Picks the lines the log pane shows (see `chosen_lines`).
pub fn choose_log_lines(parts: &Vec<Vec<String>>, bar: Option<String>, available: usize) -> (r: Vec<
    String,
>)
    ensures
        r@.map_values(|l: String| l@) == chosen_lines(
            part_views(parts@),
            match bar {
                Some(b) => Some(b@),
                None => None,
            },
            available as int,
        ),
{
    let ghost pv = part_views(parts@);
    let mut lines: Vec<String> = Vec::new();
    let n = parts.len();
    let mut i: usize = 0;
    proof {
        assert(pv.take(0) =~= Seq::<Seq<Seq<char>>>::empty());
    }
    while i < n
        invariant
            0 <= i <= n,
            n == parts@.len(),
            pv == part_views(parts@),
            lines@.map_values(|l: String| l@) == concat_lines(pv.take(i as int)),
        decreases n - i,
    {
        let w = &parts[i];
        let ghost before = lines@;
        let mut k: usize = 0;
        while k < w.len()
            invariant
                0 <= k <= w@.len(),
                lines@.map_values(|l: String| l@) == before.map_values(|l: String| l@)
                    + w@.map_values(|l: String| l@).take(k as int),
            decreases w@.len() - k,
        {
            let ghost prev = lines@;
            lines.push(w[k].clone());
            proof {
                assert(lines@.map_values(|l: String| l@) =~= prev.map_values(|l: String| l@).push(
                    w@[k as int]@,
                ));
                assert(w@.map_values(|l: String| l@).take(k + 1) =~= w@.map_values(
                    |l: String| l@,
                ).take(k as int).push(w@[k as int]@));
                assert(lines@.map_values(|l: String| l@) =~= before.map_values(|l: String| l@)
                    + w@.map_values(|l: String| l@).take(k + 1));
            }
            k = k + 1;
        }
        proof {
            assert(pv.take(i + 1).drop_last() =~= pv.take(i as int));
            assert(pv.take(i + 1).last() == w@.map_values(|l: String| l@));
            assert(w@.map_values(|l: String| l@).take(w@.len() as int) =~= w@.map_values(
                |l: String| l@,
            ));
        }
        i = i + 1;
    }
    proof {
        assert(pv.take(n as int) =~= pv);
    }
    let line_count = lines.len();
    let ghost bar_view = match &bar {
        Some(b) => Some(b@),
        None => None,
    };
    match bar {
        Some(b) => lines.push(b),
        None => {},
    }
    let skip: usize = if line_count > available {
        line_count - available
    } else {
        0
    };
    let mut out: Vec<String> = Vec::new();
    let mut j: usize = skip;
    let total = lines.len();
    while j < total
        invariant
            skip <= j <= total,
            total == lines@.len(),
            out@.map_values(|l: String| l@) == lines@.map_values(|l: String| l@).subrange(
                skip as int,
                j as int,
            ),
        decreases total - j,
    {
        let ghost prev = out@;
        out.push(lines[j].clone());
        proof {
            assert(out@.map_values(|l: String| l@) =~= prev.map_values(|l: String| l@).push(
                lines@[j as int]@,
            ));
            assert(lines@.map_values(|l: String| l@).subrange(skip as int, j + 1)
                =~= lines@.map_values(|l: String| l@).subrange(skip as int, j as int).push(
                lines@[j as int]@,
            ));
        }
        j = j + 1;
    }
    proof {
        let items = concat_lines(pv) + match bar_view {
            Some(t) => seq![t],
            None => Seq::<Seq<char>>::empty(),
        };
        assert(lines@.map_values(|l: String| l@) =~= items);
        assert(out@.map_values(|l: String| l@) =~= items.skip(skip as int));
    }
    out
}

/// The lines the log pane shows in an area of `height` lines of `width`
/// columns: the last records that could fit (one line less when there is a
/// bar), each wrapped to the width, then the bar; of the record lines only
/// the last that fit.
pub open spec fn shown_log_lines(
    records: Seq<Seq<char>>,
    bar: Option<Seq<char>>,
    height: nat,
    width: nat,
) -> Seq<Seq<char>> {
    let available = if bar is Some {
        height - 1
    } else {
        height as int
    };
    let considered = records.skip(saturating_sub(records.len() as int, available));
    chosen_lines(considered.map_values(|r: Seq<char>| wrapped(r, width)), bar, available)
}

impl LogsState {
    /// The lines the pane shows in an area of `height` lines of `width`
    /// columns, the bar with `filled` of its cells filled.
    pub fn visible_lines(&self, height: u16, width: u16, filled: i32) -> (r: Vec<String>)
        requires
            self.bar() is Some ==> height >= 1,
        ensures
            r@.map_values(|l: String| l@) == shown_log_lines(
                self.records(),
                match self.bar() {
                    Some(b) => Some(bar_text(b.complete, filled as int)),
                    None => None,
                },
                height as nat,
                width as nat,
            ),
    {
        let ghost recs = self.records();
        let available: usize = if self.progress_bar.is_some() {
            height as usize - 1
        } else {
            height as usize
        };
        let n = self.records.len();
        let start: usize = if n > available {
            n - available
        } else {
            0
        };
        let ghost considered = recs.skip(start as int);
        let mut parts: Vec<Vec<String>> = Vec::new();
        let mut i: usize = start;
        proof {
            assert(part_views(parts@) =~= considered.take(0).map_values(
                |r: Seq<char>| wrapped(r, width as nat),
            ));
        }
        while i < n
            invariant
                start <= i <= n,
                n == self.records@.len(),
                recs == self.records(),
                considered == recs.skip(start as int),
                part_views(parts@) == considered.take(i - start).map_values(
                    |r: Seq<char>| wrapped(r, width as nat),
                ),
            decreases n - i,
        {
            let w = wrap_text(self.records[i].as_str(), width as usize);
            let ghost before = parts@;
            parts.push(w);
            proof {
                assert(part_views(parts@) =~= part_views(before).push(w@.map_values(|l: String| l@)));
                assert(considered.take(i + 1 - start) =~= considered.take(i - start).push(
                    self.records@[i as int]@,
                ));
                assert(considered.take(i + 1 - start).map_values(
                    |r: Seq<char>| wrapped(r, width as nat),
                ) =~= considered.take(i - start).map_values(
                    |r: Seq<char>| wrapped(r, width as nat),
                ).push(wrapped(self.records@[i as int]@, width as nat)));
            }
            i = i + 1;
        }
        proof {
            assert(considered.take(n - start) =~= considered);
        }
        let bar = match self.progress_bar {
            Some(b) => Some(b.text(filled)),
            None => None,
        };
        choose_log_lines(&parts, bar, available)
    }
}

} // verus!
