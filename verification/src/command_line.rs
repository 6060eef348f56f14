//! The command line: the input field, the message history shown above it,
//! and the ↑/↓ recall of commands typed earlier.

use std::time::Instant;

use vstd::prelude::*;

use crate::text::{push_str, trim, trimmed};

verus! {

/// Identifier of the command input widget.
pub const CMD_INPUT_ID: &'static str = "cmd_input";

/// The history keeps at most this many entries; the oldest goes first.
pub const MAX_HISTORY: usize = 64;

/// The recall list keeps at most this many commands; the oldest goes first.
pub const MAX_RECALL: usize = 50;

/// How long, in milliseconds, a history entry stays visible on the overlay.
pub const HISTORY_VISIBLE_MS: u128 = 3000;

#[verifier::external_type_specification]
#[verifier::external_body]
pub struct ExInstant(Instant);

/// `Instant` is `Copy`; its `clone` gives back the same instant.
pub assume_specification[ <Instant as Clone>::clone ](t: &Instant) -> (r: Instant)
    ensures
        r == *t,
;

/// The current time (`Instant::now`); nothing is known of its value.
#[verifier::external_body]
fn instant_now() -> Instant {
    Instant::now()
}

/// Whole milliseconds elapsed since `t` (`Instant::elapsed`); it depends on the
/// clock, so nothing is stated of it.
#[verifier::external_body]
fn elapsed_millis(t: &Instant) -> u128 {
    t.elapsed().as_millis()
}

/// The Unicode upper-case mapping of a string, as `str::to_uppercase` gives it.
pub uninterp spec fn uppercase(s: Seq<char>) -> Seq<char>;

/// `str::to_uppercase`. Every character maps to one or more characters, so the
/// result is empty exactly when `s` is; the mapping itself is left to std.
#[verifier::external_body]
fn to_uppercase(s: &str) -> (r: String)
    ensures
        r@ == uppercase(s@),
        r@.len() == 0 <==> s@.len() == 0,
{
    s.to_uppercase()
}

/// What a history entry is.
#[derive(Clone, Copy, Debug, PartialEq, Eq, Structural)]
pub enum EntryKind {
    Command,
    Output,
    Error,
    Info,
}

/// One line of the command-line history.
#[derive(Clone, Debug)]
pub struct HistoryEntry {
    pub kind: EntryKind,
    pub text: String,
    /// When the entry was pushed; the overlay fades entries after
    /// `HISTORY_VISIBLE_MS`.
    pub created_at: Instant,
}

/// The command line's state.
#[derive(Clone)]
pub struct CommandLine {
    pub input: String,
    pub history: Vec<HistoryEntry>,
    /// Commands the user has typed (for ↑/↓ recall).
    pub cmd_recall: Vec<String>,
    /// Position in `cmd_recall` while navigating (`None` = not navigating).
    recall_cursor: Option<usize>,
    /// The input as it was before navigation started.
    recall_draft: String,
}

/// The abstract state of a command line: everything but the entries' times.
pub struct CommandLineView {
    pub input: Seq<char>,
    pub history: Seq<(EntryKind, Seq<char>)>,
    pub recall: Seq<Seq<char>>,
    pub cursor: Option<usize>,
    pub draft: Seq<char>,
}

/// A history entry as kind and text.
pub open spec fn entry_view(e: HistoryEntry) -> (EntryKind, Seq<char>) {
    (e.kind, e.text@)
}

impl View for CommandLine {
    type V = CommandLineView;

    closed spec fn view(&self) -> CommandLineView {
        CommandLineView {
            input: self.input@,
            history: self.history@.map_values(|e: HistoryEntry| entry_view(e)),
            recall: self.cmd_recall@.map_values(|s: String| s@),
            cursor: self.recall_cursor,
            draft: self.recall_draft@,
        }
    }
}

/// `h` with `e` appended, dropping the oldest entry beyond `MAX_HISTORY`.
pub open spec fn push_capped(
    h: Seq<(EntryKind, Seq<char>)>,
    e: (EntryKind, Seq<char>),
) -> Seq<(EntryKind, Seq<char>)> {
    if h.len() + 1 > MAX_HISTORY {
        h.push(e).drop_first()
    } else {
        h.push(e)
    }
}

/// The recall list after `cmd` was submitted: appended unless it repeats the
/// latest command, dropping the oldest beyond `MAX_RECALL`.
pub open spec fn recall_after(r: Seq<Seq<char>>, cmd: Seq<char>) -> Seq<Seq<char>> {
    if r.len() > 0 && r.last() == cmd {
        r
    } else if r.len() + 1 > MAX_RECALL {
        r.push(cmd).drop_first()
    } else {
        r.push(cmd)
    }
}

/// The text of a history line of each kind for message `msg`.
pub open spec fn entry_text(kind: EntryKind, msg: Seq<char>) -> Seq<char> {
    match kind {
        EntryKind::Command => "Command: "@ + msg,
        EntryKind::Error => "*Invalid*  "@ + msg,
        _ => msg,
    }
}

impl CommandLineView {
    /// The cursor refers to an existing recall entry.
    pub open spec fn recall_ok(self) -> bool {
        self.cursor matches Some(c) ==> c < self.recall.len()
    }

    /// ↑ can be pressed: with commands to recall, a cursor stands at most one
    /// place past the last of them.
    pub open spec fn prev_ok(self) -> bool {
        self.recall.len() > 0 ==> (self.cursor matches Some(c) ==> c <= self.recall.len())
    }

    /// The state after a message of kind `kind` was pushed.
    pub open spec fn pushed(self, kind: EntryKind, msg: Seq<char>) -> CommandLineView {
        CommandLineView {
            history: push_capped(self.history, (kind, entry_text(kind, msg))),
            ..self
        }
    }

    /// The state after a submission of a non-blank input.
    pub open spec fn submitted(self) -> CommandLineView {
        CommandLineView {
            input: Seq::empty(),
            history: push_capped(self.history, (EntryKind::Command, "Command: "@ + self.input)),
            recall: recall_after(self.recall, trim(self.input)),
            cursor: None,
            draft: Seq::empty(),
        }
    }

    /// The state after ↑.
    pub open spec fn prev(self) -> CommandLineView {
        if self.recall.len() == 0 {
            self
        } else {
            let c: usize = match self.cursor {
                None => (self.recall.len() - 1) as usize,
                Some(c) => if c > 0 {
                    (c - 1) as usize
                } else {
                    c
                },
            };
            CommandLineView {
                input: self.recall[c as int],
                cursor: Some(c),
                draft: if self.cursor is None {
                    self.input
                } else {
                    self.draft
                },
                ..self
            }
        }
    }

    /// The state after ↓.
    pub open spec fn next(self) -> CommandLineView {
        match self.cursor {
            None => self,
            Some(c) => if c + 1 < self.recall.len() {
                CommandLineView { input: self.recall[c + 1], cursor: Some((c + 1) as usize), ..self }
            } else {
                CommandLineView { input: self.draft, cursor: None, ..self }
            },
        }
    }
}

impl Default for CommandLine {
    fn default() -> (r: Self)
        ensures
            r@.input.len() == 0,
            r@.history.len() == 0,
            r@.recall.len() == 0,
            r@.cursor is None,
            r@.draft.len() == 0,
    {
        let r = CommandLine {
            input: String::new(),
            history: Vec::new(),
            cmd_recall: Vec::new(),
            recall_cursor: None,
            recall_draft: String::new(),
        };
        proof {
            assert(r@.history =~= Seq::empty());
            assert(r@.recall =~= Seq::empty());
        }
        r
    }
}

/// The texts of the information lines of a history, oldest first.
pub open spec fn info_texts(h: Seq<(EntryKind, Seq<char>)>) -> Seq<Seq<char>>
    decreases h.len(),
{
    if h.len() == 0 {
        seq![]
    } else if h.last().0 == EntryKind::Info {
        info_texts(h.drop_last()).push(h.last().1)
    } else {
        info_texts(h.drop_last())
    }
}

/// Whether any age (in milliseconds) lies within the visible window.
pub fn any_within_visible_window(ages_ms: &[u128]) -> (r: bool)
    ensures
        r == exists|i: int| 0 <= i < ages_ms@.len() && #[trigger] ages_ms@[i] < HISTORY_VISIBLE_MS,
{
    let mut i: usize = 0;
    while i < ages_ms.len()
        invariant
            i <= ages_ms@.len(),
            forall|j: int| 0 <= j < i ==> #[trigger] ages_ms@[j] >= HISTORY_VISIBLE_MS,
        decreases ages_ms@.len() - i,
    {
        if ages_ms[i] < HISTORY_VISIBLE_MS {
            return true;
        }
        i = i + 1;
    }
    false
}

/// How many recent history lines the overlay shows at most.
pub const VISIBLE_LINES: usize = 4;

/// The indices, oldest first, of the first `n` entries whose age is within
/// the visible window.
pub open spec fn young_entries(ages: Seq<u128>, n: int) -> Seq<usize>
    decreases n,
{
    if n <= 0 {
        seq![]
    } else if ages[n - 1] < HISTORY_VISIBLE_MS {
        young_entries(ages, n - 1).push((n - 1) as usize)
    } else {
        young_entries(ages, n - 1)
    }
}

/// The last `k` elements of `s` (all of them when there are fewer).
pub open spec fn last_few(s: Seq<usize>, k: int) -> Seq<usize> {
    if s.len() <= k {
        s
    } else {
        s.skip(s.len() - k)
    }
}

/// The history entries the overlay shows, given each entry's age: the newest
/// `VISIBLE_LINES` of those pushed within the visible window, oldest first.
pub fn visible_entries(ages: &[u128]) -> (r: Vec<usize>)
    ensures
        r@ == last_few(young_entries(ages@, ages@.len() as int), VISIBLE_LINES as int),
{
    let mut young: Vec<usize> = Vec::new();
    let mut i: usize = 0;
    while i < ages.len()
        invariant
            i <= ages@.len(),
            young@ == young_entries(ages@, i as int),
            young@.len() <= i,
        decreases ages@.len() - i,
    {
        if ages[i] < HISTORY_VISIBLE_MS {
            young.push(i);
        }
        i = i + 1;
    }
    let n = young.len();
    if n <= VISIBLE_LINES {
        return young;
    }
    let mut out: Vec<usize> = Vec::new();
    let mut j: usize = n - VISIBLE_LINES;
    proof {
        assert(young@.subrange((n - VISIBLE_LINES) as int, j as int) =~= Seq::<usize>::empty());
    }
    while j < n
        invariant
            n == young@.len(),
            n > VISIBLE_LINES,
            n - VISIBLE_LINES <= j <= n,
            out@ == young@.subrange((n - VISIBLE_LINES) as int, j as int),
        decreases n - j,
    {
        out.push(young[j]);
        proof {
            assert(young@.subrange((n - VISIBLE_LINES) as int, j + 1) =~= young@.subrange(
                (n - VISIBLE_LINES) as int,
                j as int,
            ).push(young@[j as int]));
        }
        j = j + 1;
    }
    proof {
        assert(out@ =~= young@.skip(n - VISIBLE_LINES));
    }
    out
}

impl CommandLine {
    /// A command line greeting the user.
    pub fn new() -> (r: Self)
        ensures
            r@.input.len() == 0,
            r@.history == seq![
                (EntryKind::Info, "Open CAD Studio ready."@),
                (EntryKind::Info, "Type a command or use the ribbon. Open OBJ: INSERT tab."@),
            ],
            r@.recall.len() == 0,
            r@.cursor is None,
            r@.draft.len() == 0,
    {
        let mut cl = Self::default();
        cl.push_info("Open CAD Studio ready.");
        cl.push_info("Type a command or use the ribbon. Open OBJ: INSERT tab.");
        proof {
            assert(cl@.history =~= seq![
                (EntryKind::Info, "Open CAD Studio ready."@),
                (EntryKind::Info, "Type a command or use the ribbon. Open OBJ: INSERT tab."@),
            ]);
        }
        cl
    }

    /// Submits the input: returns it trimmed and upper-cased, records it for
    /// recall and in the history, and clears the input. A blank input
    /// changes nothing and gives `None`.
    pub fn submit(&mut self) -> (r: Option<String>)
        ensures
            trim(old(self)@.input).len() == 0 ==> r is None && final(self)@ == old(self)@,
            trim(old(self)@.input).len() > 0 ==> (r matches Some(c) && c@ == uppercase(
                trim(old(self)@.input),
            )) && final(self)@ == old(self)@.submitted(),
    {
        let raw = trimmed(self.input.as_str());
        let cmd = to_uppercase(raw.as_str());
        if cmd.as_str().is_empty() {
            return None;
        }
        let ghost before = self@;
        let n = self.cmd_recall.len();
        let repeat = n > 0 && self.cmd_recall[n - 1] == raw;
        if !repeat {
            self.cmd_recall.push(raw);
            if self.cmd_recall.len() > MAX_RECALL {
                self.cmd_recall.remove(0);
            }
        }
        self.recall_cursor = None;
        self.recall_draft = String::new();
        let typed = self.input.clone();
        self.push_command(typed.as_str());
        self.input = String::new();
        proof {
            let want = before.submitted();
            assert(self@.recall =~= want.recall);
            assert(self@.input =~= want.input);
            assert(self@.draft =~= want.draft);
        }
        Some(cmd)
    }

    /// Recalls the previous command (↑).
    pub fn history_prev(&mut self)
        requires
            old(self)@.prev_ok(),
        ensures
            final(self)@ == old(self)@.prev(),
            old(self)@.recall.len() > 0 ==> final(self)@.recall_ok(),
    {
        let n = self.cmd_recall.len();
        if n == 0 {
            return;
        }
        let cursor = match self.recall_cursor {
            None => {
                self.recall_draft = self.input.clone();
                n - 1
            },
            Some(c) => if c > 0 {
                c - 1
            } else {
                c
            },
        };
        self.recall_cursor = Some(cursor);
        self.input = self.cmd_recall[cursor].clone();
        proof {
            assert(self@.input == old(self)@.recall[cursor as int]);
        }
    }

    /// Recalls the next command (↓); past the newest, restores the input typed
    /// before navigation started.
    pub fn history_next(&mut self)
        ensures
            final(self)@ == old(self)@.next(),
            final(self)@.recall_ok(),
    {
        match self.recall_cursor {
            None => {},
            Some(c) => {
                let n = self.cmd_recall.len();
                proof {
                    assert(old(self)@.recall.len() == n);
                    assert(old(self)@.cursor == Some(c));
                }
                if n > 0 && c < n - 1 {
                    let next = c + 1;
                    self.recall_cursor = Some(next);
                    self.input = self.cmd_recall[next].clone();
                    proof {
                        assert(self@.input == old(self)@.recall[next as int]);
                    }
                } else {
                    self.recall_cursor = None;
                    self.input = self.recall_draft.clone();
                }
            },
        }
    }

    /// Records a command line `Command: {cmd}`.
    pub fn push_command(&mut self, cmd: &str)
        ensures
            final(self)@ == old(self)@.pushed(EntryKind::Command, cmd@),
    {
        let mut text = String::new();
        push_str(&mut text, "Command: ");
        push_str(&mut text, cmd);
        self.push(EntryKind::Command, text);
    }

    /// Records an output line.
    pub fn push_output(&mut self, msg: &str)
        ensures
            final(self)@ == old(self)@.pushed(EntryKind::Output, msg@),
    {
        let mut text = String::new();
        push_str(&mut text, msg);
        self.push(EntryKind::Output, text);
    }

    /// Records an error line `*Invalid*  {msg}`.
    pub fn push_error(&mut self, msg: &str)
        ensures
            final(self)@ == old(self)@.pushed(EntryKind::Error, msg@),
    {
        let mut text = String::new();
        push_str(&mut text, "*Invalid*  ");
        push_str(&mut text, msg);
        self.push(EntryKind::Error, text);
    }

    /// Records an information line.
    pub fn push_info(&mut self, msg: &str)
        ensures
            final(self)@ == old(self)@.pushed(EntryKind::Info, msg@),
    {
        let mut text = String::new();
        push_str(&mut text, msg);
        self.push(EntryKind::Info, text);
    }

    fn push(&mut self, kind: EntryKind, text: String)
        ensures
            final(self)@ == (CommandLineView {
                history: push_capped(old(self)@.history, (kind, text@)),
                ..old(self)@
            }),
    {
        let ghost h0 = self.history@;
        self.history.push(HistoryEntry { kind, text, created_at: instant_now() });
        proof {
            assert(self.history@.map_values(|e: HistoryEntry| entry_view(e)) =~= h0.map_values(
                |e: HistoryEntry| entry_view(e),
            ).push((kind, text@)));
        }
        if self.history.len() > MAX_HISTORY {
            let ghost h1 = self.history@;
            self.history.remove(0);
            proof {
                assert(self.history@ =~= h1.drop_first());
                assert(self.history@.map_values(|e: HistoryEntry| entry_view(e)) =~= h1.map_values(
                    |e: HistoryEntry| entry_view(e),
                ).drop_first());
            }
        }
    }

    /// The texts of the information lines in the history, oldest first.
    pub fn info_lines(&self) -> (r: Vec<String>)
        ensures
            r@.map_values(|s: String| s@) == info_texts(self@.history),
    {
        let mut out: Vec<String> = Vec::new();
        let mut i: usize = 0;
        let ghost h = self@.history;
        proof {
            assert(h.len() == self.history@.len());
            assert(h.take(0) =~= Seq::<(EntryKind, Seq<char>)>::empty());
        }
        while i < self.history.len()
            invariant
                h == self@.history,
                h.len() == self.history@.len(),
                i <= h.len(),
                out@.map_values(|s: String| s@) == info_texts(h.take(i as int)),
            decreases h.len() - i,
        {
            let e = &self.history[i];
            proof {
                assert(h[i as int] == (e.kind, e.text@));
                assert(h.take(i + 1).drop_last() =~= h.take(i as int));
                assert(h.take(i + 1).last() == h[i as int]);
            }
            if e.kind == EntryKind::Info {
                let ghost before = out@.map_values(|s: String| s@);
                out.push(e.text.clone());
                proof {
                    assert(out@.map_values(|s: String| s@) =~= before.push(e.text@));
                }
            }
            i = i + 1;
        }
        proof {
            assert(h.take(h.len() as int) =~= h);
        }
        out
    }

    /// How many milliseconds ago each history entry was pushed, oldest entry
    /// first: one age per entry, read from the clock.
    pub fn history_ages(&self) -> (r: Vec<u128>)
        ensures
            r@.len() == self@.history.len(),
    {
        let mut ages: Vec<u128> = Vec::new();
        let mut i: usize = 0;
        while i < self.history.len()
            invariant
                i <= self.history@.len(),
                ages@.len() == i,
            decreases self.history@.len() - i,
        {
            ages.push(elapsed_millis(&self.history[i].created_at));
            i = i + 1;
        }
        proof {
            assert(self@.history.len() == self.history@.len());
        }
        ages
    }

    /// Whether some history entry was pushed less than `HISTORY_VISIBLE_MS`
    /// ago: the ages of all entries (`history_ages`) are tested with
    /// `any_within_visible_window`. An empty history is never visible.
    pub fn has_visible_history(&self) -> (r: bool)
        ensures
            r ==> self@.history.len() > 0,
    {
        let ages = self.history_ages();
        any_within_visible_window(ages.as_slice())
    }
}


/// Pushing a message never lets the history grow beyond `MAX_HISTORY`, and
/// the message becomes its newest entry.
pub proof fn lemma_push_keeps_history_bounded(v: CommandLineView, kind: EntryKind, msg: Seq<char>)
    requires
        v.history.len() <= MAX_HISTORY,
    ensures
        v.pushed(kind, msg).history.len() <= MAX_HISTORY,
        v.pushed(kind, msg).history.last() == (kind, entry_text(kind, msg)),
        v.submitted().history.len() <= MAX_HISTORY,
{
}

/// Submitting never lets the recall list grow beyond `MAX_RECALL`.
pub proof fn lemma_submit_keeps_recall_bounded(v: CommandLineView)
    requires
        v.recall.len() <= MAX_RECALL,
    ensures
        v.submitted().recall.len() <= MAX_RECALL,
{
}

/// ↑ right after a submission recalls the command just submitted (trimmed).
pub proof fn lemma_prev_after_submit_recalls_it(v: CommandLineView)
    requires
        v.recall.len() <= MAX_RECALL,
    ensures
        v.submitted().prev().input == trim(v.input),
        v.submitted().prev().cursor == Some((v.submitted().recall.len() - 1) as usize),
{
}

/// ↑ then ↓ from outside navigation gives back the input being typed and ends
/// navigation.
pub proof fn lemma_prev_then_next_restores_input(v: CommandLineView)
    requires
        v.cursor is None,
        0 < v.recall.len() <= usize::MAX,
    ensures
        v.prev().next().input == v.input,
        v.prev().next().cursor is None,
        v.prev().next().recall == v.recall,
        v.prev().next().history == v.history,
{
}

/// ↑ and ↓ keep the cursor on an existing recall entry.
pub proof fn lemma_navigation_keeps_cursor_valid(v: CommandLineView)
    requires
        v.recall_ok(),
    ensures
        v.prev().recall_ok(),
        v.next().recall_ok(),
{
}

/// `v` after `k` presses of ↑.
pub open spec fn prev_times(v: CommandLineView, k: nat) -> CommandLineView
    decreases k,
{
    if k == 0 {
        v
    } else {
        prev_times(v, (k - 1) as nat).prev()
    }
}

/// `v` after `k` presses of ↓.
pub open spec fn next_times(v: CommandLineView, k: nat) -> CommandLineView
    decreases k,
{
    if k == 0 {
        v
    } else {
        next_times(v, (k - 1) as nat).next()
    }
}

/// The smaller of two numbers.
pub open spec fn min_nat(a: nat, b: nat) -> nat {
    if a <= b {
        a
    } else {
        b
    }
}

proof fn lemma_prev_times(v: CommandLineView, k: nat)
    requires
        v.cursor is None,
        0 < v.recall.len() <= usize::MAX,
        k >= 1,
    ensures
        prev_times(v, k).cursor == Some((v.recall.len() - min_nat(k, v.recall.len())) as usize),
        prev_times(v, k).input == v.recall[v.recall.len() - min_nat(k, v.recall.len())],
        prev_times(v, k).draft == v.input,
        prev_times(v, k).recall == v.recall,
        prev_times(v, k).history == v.history,
    decreases k,
{
    let n = v.recall.len();
    if k == 1 {
        assert(prev_times(v, 0) == v);
        assert(min_nat(1, n) == 1);
    } else {
        lemma_prev_times(v, (k - 1) as nat);
        let u = prev_times(v, (k - 1) as nat);
        let m1 = min_nat((k - 1) as nat, n);
        let c = (n - m1) as usize;
        assert(u.cursor == Some(c));
        assert(c as int == n - m1);
        if k - 1 < n {
            assert(min_nat(k, n) == m1 + 1);
            assert(c > 0);
            assert(((c - 1) as usize) as int == n - min_nat(k, n));
        } else {
            assert(min_nat(k, n) == n);
            assert(c == 0);
        }
        assert(prev_times(v, k) == u.prev());
    }
}

proof fn lemma_next_times(v: CommandLineView, k: nat, j: nat)
    requires
        v.cursor is None,
        0 < v.recall.len() <= usize::MAX,
        k >= 1,
    ensures
        ({
            let m = min_nat(k, v.recall.len());
            let w = next_times(prev_times(v, k), j);
            &&& j < m ==> w.cursor == Some((v.recall.len() - m + j) as usize) && w.input
                == v.recall[v.recall.len() - m + j]
            &&& j >= m ==> w.cursor is None && w.input == v.input
            &&& w.draft == v.input
            &&& w.recall == v.recall
            &&& w.history == v.history
        }),
    decreases j,
{
    lemma_prev_times(v, k);
    if j > 0 {
        lemma_next_times(v, k, (j - 1) as nat);
    }
}

/// The view of a command line: its recall list and its history each fit in
/// memory, so their lengths are within `usize`.
pub proof fn lemma_view_fits(cl: &CommandLine)
    ensures
        cl@.recall.len() <= usize::MAX,
        cl@.history.len() <= usize::MAX,
{
    assert(cl.cmd_recall.len() == cl.cmd_recall@.len());
    assert(cl.history.len() == cl.history@.len());
}

/// Pressing ↑ `k` times from outside navigation and then ↓ `j` times walks
/// back through the recalled commands: while `j` is below the number of
/// steps ↑ could take, the input is the recall entry that many places newer;
/// from then on the input typed before navigation is back and navigation is
/// over. The recall list and the history stay as they were. For a command
/// line's own view, [`lemma_view_fits`] gives the length bound.
pub proof fn lemma_up_then_down(v: CommandLineView, k: nat, j: nat)
    requires
        v.cursor is None,
        0 < v.recall.len() <= usize::MAX,
        k >= 1,
    ensures
        j < min_nat(k, v.recall.len()) ==> next_times(prev_times(v, k), j).input == v.recall[v.recall.len()
            - min_nat(k, v.recall.len()) + j],
        j >= min_nat(k, v.recall.len()) ==> next_times(prev_times(v, k), j).input == v.input
            && next_times(prev_times(v, k), j).cursor is None,
        next_times(prev_times(v, k), j).recall == v.recall,
        next_times(prev_times(v, k), j).history == v.history,
{
    lemma_next_times(v, k, j);
}

} // verus!
