//! The Plot / Print dialog's state: the options it offers, the messages it
//! emits, and the print preferences persisted between sessions (printer,
//! copies, quality and output options; drawing-specific fields such as paper
//! and scale offset are seeded from the layout instead).
//!
//! The preferences are stored as `key=value` lines.

use vstd::prelude::*;

use crate::text::{
    chars_of, find_char, lines, push_char, push_str, same_chars, split_lines, string_from, strip_cr,
    trim, trim_bounds,
};

verus! {

/// Printer-list entry standing for the system default printer.
pub const OUT_DEFAULT: &'static str = "System default printer";

/// Printer-list entry standing for output to a PDF file.
pub const OUT_PDF: &'static str = "Save to PDF file…";

/// One of the boolean plot options.
#[derive(Debug, Clone, Copy, PartialEq, Eq, Structural)]
pub enum PlotFlag {
    Center,
    ScaleLw,
    Mono,
    Lineweights,
    WithStyles,
    Transparency,
    PaperspaceLast,
    HidePaperspace,
    Stamp,
    SaveLayout,
}

/// Every edit the Plot dialog can emit.
#[derive(Debug, Clone)]
pub enum PlotDlgMsg {
    Close,
    Commit,
    Preview,
    Printer(String),
    Paper(String),
    Orientation(String),
    Rotation(String),
    Area(String),
    Scale(String),
    Quality(String),
    Shade(String),
    Copies(String),
    OffsetX(String),
    OffsetY(String),
    Dpi(String),
    Flag(PlotFlag),
    LoadStyle,
    ClearStyle,
    PickWindow,
}

/// The state behind the Plot dialog.
#[derive(Debug, Clone)]
pub struct PlotDialogState {
    /// Printer names discovered on the system, never the sentinels.
    pub printers: Vec<String>,
    /// Chosen printer name, or `None` for the system default.
    pub printer: Option<String>,
    /// Output goes to a PDF file instead of a printer.
    pub to_file: bool,
    pub paper: String,
    pub orientation: String,
    pub rotation: String,
    pub copies: String,
    pub area: String,
    pub center: bool,
    pub offset_x: String,
    pub offset_y: String,
    pub scale: String,
    pub scale_lw: bool,
    pub quality: String,
    pub dpi: String,
    pub shade: String,
    pub mono: bool,
    pub lineweights: bool,
    pub with_styles: bool,
    pub transparency: bool,
    pub paperspace_last: bool,
    pub hide_paperspace: bool,
    pub stamp: bool,
    pub save_layout: bool,
    /// Display name of the active plot style table ("" = none).
    pub style_name: String,
}

/// The dialog state as plain values.
pub struct PlotView {
    pub printers: Seq<Seq<char>>,
    pub printer: Option<Seq<char>>,
    pub paper: Seq<char>,
    pub orientation: Seq<char>,
    pub rotation: Seq<char>,
    pub copies: Seq<char>,
    pub area: Seq<char>,
    pub offset_x: Seq<char>,
    pub offset_y: Seq<char>,
    pub scale: Seq<char>,
    pub quality: Seq<char>,
    pub dpi: Seq<char>,
    pub shade: Seq<char>,
    pub style_name: Seq<char>,
    pub to_file: bool,
    pub center: bool,
    pub scale_lw: bool,
    pub mono: bool,
    pub lineweights: bool,
    pub with_styles: bool,
    pub transparency: bool,
    pub paperspace_last: bool,
    pub hide_paperspace: bool,
    pub stamp: bool,
    pub save_layout: bool,
}

impl View for PlotDialogState {
    type V = PlotView;

    open spec fn view(&self) -> PlotView {
        PlotView {
            printers: self.printers@.map_values(|s: String| s@),
            printer: match self.printer { Some(p) => Some(p@), None => None },
            paper: self.paper@,
            orientation: self.orientation@,
            rotation: self.rotation@,
            copies: self.copies@,
            area: self.area@,
            offset_x: self.offset_x@,
            offset_y: self.offset_y@,
            scale: self.scale@,
            quality: self.quality@,
            dpi: self.dpi@,
            shade: self.shade@,
            style_name: self.style_name@,
            to_file: self.to_file,
            center: self.center,
            scale_lw: self.scale_lw,
            mono: self.mono,
            lineweights: self.lineweights,
            with_styles: self.with_styles,
            transparency: self.transparency,
            paperspace_last: self.paperspace_last,
            hide_paperspace: self.hide_paperspace,
            stamp: self.stamp,
            save_layout: self.save_layout,
        }
    }
}

/// The dialog's initial state.
pub open spec fn default_view() -> PlotView {
    PlotView {
        printers: seq![],
        printer: None,
        paper: "A4"@,
        orientation: "Landscape"@,
        rotation: "0°"@,
        copies: "1"@,
        area: "Window"@,
        offset_x: "0.0"@,
        offset_y: "0.0"@,
        scale: "Fit"@,
        quality: "Normal"@,
        dpi: "300"@,
        shade: "As displayed"@,
        style_name: ""@,
        to_file: false,
        center: true,
        scale_lw: true,
        mono: false,
        lineweights: true,
        with_styles: true,
        transparency: false,
        paperspace_last: false,
        hide_paperspace: false,
        stamp: false,
        save_layout: false,
    }
}

fn text(s: &str) -> (r: String)
    ensures
        r@ == s@,
{
    let mut r = String::new();
    push_str(&mut r, s);
    r
}

impl Default for PlotDialogState {
    fn default() -> (r: Self)
        ensures
            r@ == default_view(),
    {
        let r = PlotDialogState {
            printers: Vec::new(),
            printer: None,
            paper: text("A4"),
            orientation: text("Landscape"),
            rotation: text("0°"),
            copies: text("1"),
            area: text("Window"),
            offset_x: text("0.0"),
            offset_y: text("0.0"),
            scale: text("Fit"),
            quality: text("Normal"),
            dpi: text("300"),
            shade: text("As displayed"),
            style_name: text(""),
            to_file: false,
            center: true,
            scale_lw: true,
            mono: false,
            lineweights: true,
            with_styles: true,
            transparency: false,
            paperspace_last: false,
            hide_paperspace: false,
            stamp: false,
            save_layout: false,
        };
        proof {
            assert(r@.printers =~= default_view().printers);
        }
        r
    }
}

/// The owned copies of `items`.
pub fn strs(items: &[&str]) -> (r: Vec<String>)
    ensures
        r@.map_values(|s: String| s@) == items@.map_values(|s: &str| s@),
{
    let mut out: Vec<String> = Vec::new();
    let mut i: usize = 0;
    while i < items.len()
        invariant
            i <= items@.len(),
            out@.map_values(|s: String| s@) == items@.take(i as int).map_values(|s: &str| s@),
        decreases items@.len() - i,
    {
        let ghost before = out@.map_values(|s: String| s@);
        out.push(text(items[i]));
        proof {
            assert(out@.map_values(|s: String| s@) =~= before.push(items@[i as int]@));
            assert(items@.take(i + 1) =~= items@.take(i as int).push(items@[i as int]));
            assert(items@.take(i + 1).map_values(|s: &str| s@) =~= items@.take(i as int).map_values(|s: &str| s@).push(items@[i as int]@));
        }
        i = i + 1;
    }
    proof {
        assert(items@.take(items@.len() as int) =~= items@);
    }
    out
}

// ── Persisted preferences ──────────────────────────────────────────────────

/// The stored text of a boolean option.
pub open spec fn flag_text(b: bool) -> Seq<char> {
    if b {
        "1"@
    } else {
        "0"@
    }
}

/// A line break.
pub open spec fn nl() -> Seq<char> {
    seq!['\n']
}

/// How many preferences are persisted.
pub const PREF_COUNT: usize = 17;

/// The stored line of preference `i`.
pub open spec fn pref_line(s: PlotView, i: int) -> Seq<char> {
    pref_key(i) + "="@ + pref_value(s, i) + nl()
}

/// The stored lines of the first `n` preferences.
pub open spec fn prefs_prefix(s: PlotView, n: int) -> Seq<char>
    decreases n,
{
    if n <= 0 {
        seq![]
    } else {
        prefs_prefix(s, n - 1) + pref_line(s, n - 1)
    }
}

/// The text the preferences are persisted as: one `key=value` line per
/// preference, in a fixed order.
pub open spec fn prefs_text(s: PlotView) -> Seq<char> {
    prefs_prefix(s, PREF_COUNT as int)
}

/// `line` split at its first `=`, if it has one.
pub open spec fn split_eq(line: Seq<char>) -> Option<(Seq<char>, Seq<char>)> {
    let k = find_char(line, '=');
    if k < line.len() {
        Some((line.take(k), line.skip(k + 1)))
    } else {
        None
    }
}

/// The position of a preference key in the stored order; `PREF_COUNT` for
/// an unknown key.
pub open spec fn key_index(key: Seq<char>) -> int {
    if key == "printer"@ {
        0
    } else if key == "to_file"@ {
        1
    } else if key == "area"@ {
        2
    } else if key == "scale"@ {
        3
    } else if key == "copies"@ {
        4
    } else if key == "quality"@ {
        5
    } else if key == "dpi"@ {
        6
    } else if key == "shade"@ {
        7
    } else if key == "mono"@ {
        8
    } else if key == "lineweights"@ {
        9
    } else if key == "with_styles"@ {
        10
    } else if key == "transparency"@ {
        11
    } else if key == "paperspace_last"@ {
        12
    } else if key == "hide_paperspace"@ {
        13
    } else if key == "stamp"@ {
        14
    } else if key == "save_layout"@ {
        15
    } else if key == "scale_lw"@ {
        16
    } else {
        PREF_COUNT as int
    }
}

/// The stored key of preference `i`.
pub open spec fn pref_key(i: int) -> Seq<char> {
    if i == 0 {
        "printer"@
    } else if i == 1 {
        "to_file"@
    } else if i == 2 {
        "area"@
    } else if i == 3 {
        "scale"@
    } else if i == 4 {
        "copies"@
    } else if i == 5 {
        "quality"@
    } else if i == 6 {
        "dpi"@
    } else if i == 7 {
        "shade"@
    } else if i == 8 {
        "mono"@
    } else if i == 9 {
        "lineweights"@
    } else if i == 10 {
        "with_styles"@
    } else if i == 11 {
        "transparency"@
    } else if i == 12 {
        "paperspace_last"@
    } else if i == 13 {
        "hide_paperspace"@
    } else if i == 14 {
        "stamp"@
    } else if i == 15 {
        "save_layout"@
    } else if i == 16 {
        "scale_lw"@
    } else {
        seq![]
    }
}

/// The stored value of preference `i` of `s`.
pub open spec fn pref_value(s: PlotView, i: int) -> Seq<char> {
    if i == 0 {
        match s.printer {
            Some(p) => p,
            None => seq![],
        }
    } else if i == 1 {
        flag_text(s.to_file)
    } else if i == 2 {
        s.area
    } else if i == 3 {
        s.scale
    } else if i == 4 {
        s.copies
    } else if i == 5 {
        s.quality
    } else if i == 6 {
        s.dpi
    } else if i == 7 {
        s.shade
    } else if i == 8 {
        flag_text(s.mono)
    } else if i == 9 {
        flag_text(s.lineweights)
    } else if i == 10 {
        flag_text(s.with_styles)
    } else if i == 11 {
        flag_text(s.transparency)
    } else if i == 12 {
        flag_text(s.paperspace_last)
    } else if i == 13 {
        flag_text(s.hide_paperspace)
    } else if i == 14 {
        flag_text(s.stamp)
    } else if i == 15 {
        flag_text(s.save_layout)
    } else if i == 16 {
        flag_text(s.scale_lw)
    } else {
        seq![]
    }
}

/// The state after preference `i` was read with value `v`.
pub open spec fn set_pref(s: PlotView, i: int, v: Seq<char>) -> PlotView {
    if i == 0 {
        PlotView { printer: if v.len() == 0 {
            None
        } else {
            Some(v)
        }, ..s }
    } else if i == 1 {
        PlotView { to_file: v == "1"@, ..s }
    } else if i == 2 {
        PlotView { area: v, ..s }
    } else if i == 3 {
        PlotView { scale: v, ..s }
    } else if i == 4 {
        PlotView { copies: v, ..s }
    } else if i == 5 {
        PlotView { quality: v, ..s }
    } else if i == 6 {
        PlotView { dpi: v, ..s }
    } else if i == 7 {
        PlotView { shade: v, ..s }
    } else if i == 8 {
        PlotView { mono: v == "1"@, ..s }
    } else if i == 9 {
        PlotView { lineweights: v == "1"@, ..s }
    } else if i == 10 {
        PlotView { with_styles: v == "1"@, ..s }
    } else if i == 11 {
        PlotView { transparency: v == "1"@, ..s }
    } else if i == 12 {
        PlotView { paperspace_last: v == "1"@, ..s }
    } else if i == 13 {
        PlotView { hide_paperspace: v == "1"@, ..s }
    } else if i == 14 {
        PlotView { stamp: v == "1"@, ..s }
    } else if i == 15 {
        PlotView { save_layout: v == "1"@, ..s }
    } else if i == 16 {
        PlotView { scale_lw: v == "1"@, ..s }
    } else {
        s
    }
}

/// The state after the preference `key` was read with value `v`; unknown keys
/// change nothing.
pub open spec fn apply_pref(s: PlotView, key: Seq<char>, v: Seq<char>) -> PlotView {
    set_pref(s, key_index(key), v)
}

/// The state after one stored line was read (lines without `=` are skipped).
pub open spec fn apply_line(s: PlotView, line: Seq<char>) -> PlotView {
    match split_eq(line) {
        Some((k, v)) => apply_pref(s, trim(k), trim(v)),
        None => s,
    }
}

/// The state after the stored lines `ls` were read, in order, over `s`.
pub open spec fn prefs_applied(s: PlotView, ls: Seq<Seq<char>>) -> PlotView
    decreases ls.len(),
{
    if ls.len() == 0 {
        s
    } else {
        apply_line(prefs_applied(s, ls.drop_last()), ls.last())
    }
}

/// The state `load` gives for the stored text `body` (`None`: nothing stored).
pub open spec fn loaded(body: Option<Seq<char>>) -> PlotView {
    match body {
        Some(b) => prefs_applied(default_view(), lines(b)),
        None => default_view(),
    }
}

fn flag(b: bool) -> (r: &'static str)
    ensures
        r@ == flag_text(b),
{
    if b {
        "1"
    } else {
        "0"
    }
}

fn key_is(key: &[char], lit: &str) -> (r: bool)
    ensures
        r == (key@ == lit@),
{
    let l = chars_of(lit);
    same_chars(key, l.as_slice())
}

fn key_position(key: &[char]) -> (r: usize)
    ensures
        r == key_index(key@),
{
    if key_is(key, "printer") {
        0
    } else if key_is(key, "to_file") {
        1
    } else if key_is(key, "area") {
        2
    } else if key_is(key, "scale") {
        3
    } else if key_is(key, "copies") {
        4
    } else if key_is(key, "quality") {
        5
    } else if key_is(key, "dpi") {
        6
    } else if key_is(key, "shade") {
        7
    } else if key_is(key, "mono") {
        8
    } else if key_is(key, "lineweights") {
        9
    } else if key_is(key, "with_styles") {
        10
    } else if key_is(key, "transparency") {
        11
    } else if key_is(key, "paperspace_last") {
        12
    } else if key_is(key, "hide_paperspace") {
        13
    } else if key_is(key, "stamp") {
        14
    } else if key_is(key, "save_layout") {
        15
    } else if key_is(key, "scale_lw") {
        16
    } else {
        PREF_COUNT
    }
}

fn is_one(v: &[char], lo: usize, hi: usize) -> (r: bool)
    requires
        lo <= hi <= v@.len(),
    ensures
        r == (v@.subrange(lo as int, hi as int) == "1"@),
{
    let one = chars_of("1");
    let part = crate::text::chars_between(v, lo, hi);
    same_chars(part.as_slice(), one.as_slice())
}

/// The entries of the printer list: the system default, the discovered
/// printers in order, then output to a PDF file.
pub open spec fn printer_entries(s: PlotView) -> Seq<Seq<char>> {
    seq![OUT_DEFAULT@] + s.printers + seq![OUT_PDF@]
}

/// The entry the printer list shows as chosen.
pub open spec fn printer_entry(s: PlotView) -> Seq<char> {
    if s.to_file {
        OUT_PDF@
    } else {
        match s.printer {
            Some(p) => p,
            None => OUT_DEFAULT@,
        }
    }
}

impl PlotDialogState {
    /// The entries of the printer list: the system default, the discovered
    /// printers, then output to a PDF file.
    pub fn printer_options(&self) -> (r: Vec<String>)
        ensures
            r@.map_values(|s: String| s@) == printer_entries(self@),
    {
        let mut out: Vec<String> = Vec::new();
        out.push(text(OUT_DEFAULT));
        let mut i: usize = 0;
        proof {
            assert(out@.map_values(|s: String| s@) =~= seq![OUT_DEFAULT@] + self@.printers.take(0));
        }
        while i < self.printers.len()
            invariant
                i <= self.printers@.len(),
                self@.printers == self.printers@.map_values(|s: String| s@),
                out@.map_values(|s: String| s@) == seq![OUT_DEFAULT@] + self@.printers.take(i as int),
            decreases self.printers@.len() - i,
        {
            let ghost before = out@.map_values(|s: String| s@);
            out.push(self.printers[i].clone());
            proof {
                assert(self@.printers[i as int] == self.printers@[i as int]@);
                assert(self@.printers.take(i + 1) =~= self@.printers.take(i as int).push(
                    self@.printers[i as int],
                ));
                assert(out@.map_values(|s: String| s@) =~= before.push(self@.printers[i as int]));
            }
            i = i + 1;
        }
        let ghost before = out@.map_values(|s: String| s@);
        out.push(text(OUT_PDF));
        proof {
            assert(self@.printers.take(self@.printers.len() as int) =~= self@.printers);
            assert(out@.map_values(|s: String| s@) =~= before.push(OUT_PDF@));
            assert(out@.map_values(|s: String| s@) =~= printer_entries(self@));
        }
        out
    }

    /// The entry the printer list shows as chosen: PDF output, else the
    /// chosen printer, else the system default.
    pub fn printer_selection(&self) -> (r: String)
        ensures
            r@ == printer_entry(self@),
    {
        if self.to_file {
            text(OUT_PDF)
        } else {
            match &self.printer {
                Some(p) => p.clone(),
                None => text(OUT_DEFAULT),
            }
        }
    }

    /// The print preferences read from their stored text (`None` when nothing
    /// could be read): the defaults, with each known `key=value` line applied
    /// in order.
    pub fn load(body: Option<&str>) -> (r: Self)
        ensures
            r@ == loaded(
                match body {
                    Some(b) => Some(b@),
                    None => None,
                },
            ),
    {
        let mut s = Self::default();
        match body {
            Some(b) => {
                let cs = chars_of(b);
                let ls = split_lines(cs.as_slice());
                let ghost l = ls@.map_values(|v: Vec<char>| v@);
                let mut i: usize = 0;
                proof {
                    assert(l.take(0) =~= Seq::<Seq<char>>::empty());
                }
                while i < ls.len()
                    invariant
                        l == ls@.map_values(|v: Vec<char>| v@),
                        l == lines(b@),
                        i <= ls@.len(),
                        s@ == prefs_applied(default_view(), l.take(i as int)),
                    decreases ls@.len() - i,
                {
                    proof {
                        assert(l.take(i + 1).drop_last() =~= l.take(i as int));
                        assert(l.take(i + 1).last() == ls@[i as int]@);
                    }
                    s.apply_line(ls[i].as_slice());
                    i = i + 1;
                }
                proof {
                    assert(l.take(l.len() as int) =~= l);
                }
            },
            None => {},
        }
        s
    }

    fn apply_line(&mut self, line: &[char])
        ensures
            final(self)@ == apply_line(old(self)@, line@),
    {
        let n = line.len();
        let mut k: usize = 0;
        while k < n && line[k] != '='
            invariant
                k <= n == line@.len(),
                forall|j: int| 0 <= j < k ==> #[trigger] line@[j] != '=',
            decreases n - k,
        {
            k = k + 1;
        }
        proof {
            crate::text::lemma_find_char_for(line@, '=', k as int);
        }
        if k == n {
            return;
        }
        let key_part = crate::text::chars_between(line, 0, k);
        let (klo, khi) = trim_bounds(key_part.as_slice());
        let key_v = crate::text::chars_between(key_part.as_slice(), klo, khi);
        let key = key_v.as_slice();
        let v_part = crate::text::chars_between(line, k + 1, n);
        let v = v_part.as_slice();
        let (vlo, vhi) = trim_bounds(v);
        proof {
            assert(line@.subrange(0, k as int) =~= line@.take(k as int));
            assert(line@.subrange(k + 1, n as int) =~= line@.skip(k + 1));
        }
        let i = key_position(key);
        self.set_pref(i, v, vlo, vhi);
    }

    #[verifier::rlimit(100)]
    fn set_pref(&mut self, i: usize, v: &[char], lo: usize, hi: usize)
        requires
            lo <= hi <= v@.len(),
        ensures
            final(self)@ == set_pref(old(self)@, i as int, v@.subrange(lo as int, hi as int)),
    {
        if i == 0 {
            self.printer = if lo == hi {
                None
            } else {
                Some(string_from(v, lo, hi))
            };
            proof {
                assert(self@.printers == old(self)@.printers);
            }
        } else if i == 1 {
            self.to_file = is_one(v, lo, hi);
        } else if i == 2 {
            self.area = string_from(v, lo, hi);
        } else if i == 3 {
            self.scale = string_from(v, lo, hi);
        } else if i == 4 {
            self.copies = string_from(v, lo, hi);
        } else if i == 5 {
            self.quality = string_from(v, lo, hi);
        } else if i == 6 {
            self.dpi = string_from(v, lo, hi);
        } else if i == 7 {
            self.shade = string_from(v, lo, hi);
        } else if i == 8 {
            self.mono = is_one(v, lo, hi);
        } else if i == 9 {
            self.lineweights = is_one(v, lo, hi);
        } else if i == 10 {
            self.with_styles = is_one(v, lo, hi);
        } else if i == 11 {
            self.transparency = is_one(v, lo, hi);
        } else if i == 12 {
            self.paperspace_last = is_one(v, lo, hi);
        } else if i == 13 {
            self.hide_paperspace = is_one(v, lo, hi);
        } else if i == 14 {
            self.stamp = is_one(v, lo, hi);
        } else if i == 15 {
            self.save_layout = is_one(v, lo, hi);
        } else if i == 16 {
            self.scale_lw = is_one(v, lo, hi);
        }
    }

    fn key_text(i: usize) -> (r: &'static str)
        requires
            i < PREF_COUNT,
        ensures
            r@ == pref_key(i as int),
    {
        if i == 0 {
            "printer"
        } else if i == 1 {
            "to_file"
        } else if i == 2 {
            "area"
        } else if i == 3 {
            "scale"
        } else if i == 4 {
            "copies"
        } else if i == 5 {
            "quality"
        } else if i == 6 {
            "dpi"
        } else if i == 7 {
            "shade"
        } else if i == 8 {
            "mono"
        } else if i == 9 {
            "lineweights"
        } else if i == 10 {
            "with_styles"
        } else if i == 11 {
            "transparency"
        } else if i == 12 {
            "paperspace_last"
        } else if i == 13 {
            "hide_paperspace"
        } else if i == 14 {
            "stamp"
        } else if i == 15 {
            "save_layout"
        } else {
            "scale_lw"
        }
    }

    fn value_text(&self, i: usize) -> (r: &str)
        requires
            i < PREF_COUNT,
        ensures
            r@ == pref_value(self@, i as int),
    {
        if i == 0 {
            match &self.printer {
                Some(p) => p.as_str(),
                None => {
                    proof {
                        reveal_strlit("");
                    }
                    ""
                },
            }
        } else if i == 1 {
            flag(self.to_file)
        } else if i == 2 {
            self.area.as_str()
        } else if i == 3 {
            self.scale.as_str()
        } else if i == 4 {
            self.copies.as_str()
        } else if i == 5 {
            self.quality.as_str()
        } else if i == 6 {
            self.dpi.as_str()
        } else if i == 7 {
            self.shade.as_str()
        } else if i == 8 {
            flag(self.mono)
        } else if i == 9 {
            flag(self.lineweights)
        } else if i == 10 {
            flag(self.with_styles)
        } else if i == 11 {
            flag(self.transparency)
        } else if i == 12 {
            flag(self.paperspace_last)
        } else if i == 13 {
            flag(self.hide_paperspace)
        } else if i == 14 {
            flag(self.stamp)
        } else if i == 15 {
            flag(self.save_layout)
        } else {
            flag(self.scale_lw)
        }
    }

    fn push_pref(&self, body: &mut String, i: usize)
        requires
            i < PREF_COUNT,
        ensures
            final(body)@ == old(body)@ + pref_line(self@, i as int),
    {
        let ghost start = body@;
        push_str(body, Self::key_text(i));
        push_str(body, "=");
        push_str(body, self.value_text(i));
        push_char(body, '\n');
        proof {
            assert(body@ =~= start + pref_line(self@, i as int));
        }
    }

    /// The text the print preferences are persisted as (written to
    /// `plot.txt` by the caller).
    pub fn save(&self) -> (r: String)
        ensures
            r@ == prefs_text(self@),
    {
        let mut body = String::new();
        let mut i: usize = 0;
        proof {
            assert(body@ =~= prefs_prefix(self@, 0));
        }
        while i < PREF_COUNT
            invariant
                i <= PREF_COUNT,
                body@ == prefs_prefix(self@, i as int),
            decreases PREF_COUNT - i,
        {
            self.push_pref(&mut body, i);
            i = i + 1;
        }
        body
    }
}

// ── Round trip ─────────────────────────────────────────────────────────────

/// A character a preference key is made of.
pub open spec fn key_char(c: char) -> bool {
    ('a' <= c && c <= 'z') || c == '_'
}

/// A non-empty key made of key characters only.
pub open spec fn plain_key(k: Seq<char>) -> bool {
    k.len() > 0 && forall|j: int| 0 <= j < k.len() ==> key_char(#[trigger] k[j])
}

/// Text a stored line keeps as it is: its own trim, with no line break.
pub open spec fn storable_text(v: Seq<char>) -> bool {
    trim(v) == v && forall|j: int| 0 <= j < v.len() ==> #[trigger] v[j] != '\n'
}

/// A state whose persisted preferences read back as they are.
pub open spec fn storable(s: PlotView) -> bool {
    &&& match s.printer {
        Some(p) => storable_text(p),
        None => true,
    }
    &&& storable_text(s.area)
    &&& storable_text(s.scale)
    &&& storable_text(s.copies)
    &&& storable_text(s.quality)
    &&& storable_text(s.dpi)
    &&& storable_text(s.shade)
}

/// The defaults, with the persisted preferences of `s` (a printer with an
/// empty name reads back as the default printer).
pub open spec fn persisted(s: PlotView) -> PlotView {
    PlotView {
        printer: match s.printer {
            Some(p) => if p.len() == 0 {
                None
            } else {
                Some(p)
            },
            None => None,
        },
        to_file: s.to_file,
        area: s.area,
        scale: s.scale,
        copies: s.copies,
        quality: s.quality,
        dpi: s.dpi,
        shade: s.shade,
        mono: s.mono,
        lineweights: s.lineweights,
        with_styles: s.with_styles,
        transparency: s.transparency,
        paperspace_last: s.paperspace_last,
        hide_paperspace: s.hide_paperspace,
        stamp: s.stamp,
        save_layout: s.save_layout,
        scale_lw: s.scale_lw,
        ..default_view()
    }
}

/// The stored line of preference `i`, without its line break.
pub open spec fn pref_content(s: PlotView, i: int) -> Seq<char> {
    pref_key(i) + "="@ + pref_value(s, i)
}

/// The defaults, with the first `n` preferences of `s` read back.
pub open spec fn restored(s: PlotView, n: nat) -> PlotView
    decreases n,
{
    if n == 0 {
        default_view()
    } else {
        set_pref(restored(s, (n - 1) as nat), n - 1, pref_value(s, n - 1))
    }
}

proof fn lemma_keys(i: int)
    requires
        0 <= i < PREF_COUNT,
    ensures
        key_index(pref_key(i)) == i,
        plain_key(pref_key(i)),
{
    reveal_strlit("printer");
    reveal_strlit("to_file");
    reveal_strlit("area");
    reveal_strlit("scale");
    reveal_strlit("copies");
    reveal_strlit("quality");
    reveal_strlit("dpi");
    reveal_strlit("shade");
    reveal_strlit("mono");
    reveal_strlit("lineweights");
    reveal_strlit("with_styles");
    reveal_strlit("transparency");
    reveal_strlit("paperspace_last");
    reveal_strlit("hide_paperspace");
    reveal_strlit("stamp");
    reveal_strlit("save_layout");
    reveal_strlit("scale_lw");
    assert("printer"@.len() == 7);
    assert("to_file"@.len() == 7);
    assert("area"@.len() == 4);
    assert("scale"@.len() == 5);
    assert("copies"@.len() == 6);
    assert("quality"@.len() == 7);
    assert("dpi"@.len() == 3);
    assert("shade"@.len() == 5);
    assert("mono"@.len() == 4);
    assert("lineweights"@.len() == 11);
    assert("with_styles"@.len() == 11);
    assert("transparency"@.len() == 12);
    assert("paperspace_last"@.len() == 15);
    assert("hide_paperspace"@.len() == 15);
    assert("stamp"@.len() == 5);
    assert("save_layout"@.len() == 11);
    assert("scale_lw"@.len() == 8);
    assert("printer"@[0] != "to_file"@[0]);
    assert("printer"@[0] != "quality"@[0]);
    assert("to_file"@[0] != "quality"@[0]);
    assert("area"@[0] != "mono"@[0]);
    assert("scale"@[1] != "shade"@[1]);
    assert("scale"@[1] != "stamp"@[1]);
    assert("shade"@[1] != "stamp"@[1]);
    assert("lineweights"@[0] != "with_styles"@[0]);
    assert("lineweights"@[0] != "save_layout"@[0]);
    assert("with_styles"@[0] != "save_layout"@[0]);
    assert("paperspace_last"@[0] != "hide_paperspace"@[0]);
    if i == 0 {
        assert(key_index(pref_key(0)) == 0);
        assert(plain_key(pref_key(0)));
    }
    if i == 1 {
        assert(key_index(pref_key(1)) == 1);
        assert(plain_key(pref_key(1)));
    }
    if i == 2 {
        assert(key_index(pref_key(2)) == 2);
        assert(plain_key(pref_key(2)));
    }
    if i == 3 {
        assert(key_index(pref_key(3)) == 3);
        assert(plain_key(pref_key(3)));
    }
    if i == 4 {
        assert(key_index(pref_key(4)) == 4);
        assert(plain_key(pref_key(4)));
    }
    if i == 5 {
        assert(key_index(pref_key(5)) == 5);
        assert(plain_key(pref_key(5)));
    }
    if i == 6 {
        assert(key_index(pref_key(6)) == 6);
        assert(plain_key(pref_key(6)));
    }
    if i == 7 {
        assert(key_index(pref_key(7)) == 7);
        assert(plain_key(pref_key(7)));
    }
    if i == 8 {
        assert(key_index(pref_key(8)) == 8);
        assert(plain_key(pref_key(8)));
    }
    if i == 9 {
        assert(key_index(pref_key(9)) == 9);
        assert(plain_key(pref_key(9)));
    }
    if i == 10 {
        assert(key_index(pref_key(10)) == 10);
        assert(plain_key(pref_key(10)));
    }
    if i == 11 {
        assert(key_index(pref_key(11)) == 11);
        assert(plain_key(pref_key(11)));
    }
    if i == 12 {
        assert(key_index(pref_key(12)) == 12);
        assert(plain_key(pref_key(12)));
    }
    if i == 13 {
        assert(key_index(pref_key(13)) == 13);
        assert(plain_key(pref_key(13)));
    }
    if i == 14 {
        assert(key_index(pref_key(14)) == 14);
        assert(plain_key(pref_key(14)));
    }
    if i == 15 {
        assert(key_index(pref_key(15)) == 15);
        assert(plain_key(pref_key(15)));
    }
    if i == 16 {
        assert(key_index(pref_key(16)) == 16);
        assert(plain_key(pref_key(16)));
    }
}

proof fn lemma_flag_text(b: bool)
    ensures
        storable_text(flag_text(b)),
        flag_text(b).len() == 1,
        (flag_text(b) == "1"@) == b,
{
    reveal_strlit("1");
    reveal_strlit("0");
    assert("1"@.len() == 1);
    assert("0"@.len() == 1);
    assert("0"@[0] != "1"@[0]);
    crate::text::lemma_trim_unchanged(flag_text(b));
}

proof fn lemma_value(s: PlotView, i: int)
    requires
        storable(s),
        0 <= i < PREF_COUNT,
    ensures
        storable_text(pref_value(s, i)),
{
    if i == 0 {
        if s.printer is None {
            crate::text::lemma_trim_unchanged(Seq::<char>::empty());
        }
    } else if i == 1 {
        lemma_flag_text(s.to_file);
    } else if 8 <= i {
        lemma_flag_text(s.mono);
        lemma_flag_text(s.lineweights);
        lemma_flag_text(s.with_styles);
        lemma_flag_text(s.transparency);
        lemma_flag_text(s.paperspace_last);
        lemma_flag_text(s.hide_paperspace);
        lemma_flag_text(s.stamp);
        lemma_flag_text(s.save_layout);
        lemma_flag_text(s.scale_lw);
    }
}

proof fn lemma_content(s: PlotView, i: int)
    requires
        storable(s),
        0 <= i < PREF_COUNT,
    ensures
        forall|j: int| 0 <= j < pref_content(s, i).len() ==> #[trigger] pref_content(s, i)[j] != '\n',
        strip_cr(pref_content(s, i)) == pref_content(s, i),
        split_eq(pref_content(s, i)) == Some((pref_key(i), pref_value(s, i))),
{
    reveal_strlit("=");
    lemma_keys(i);
    lemma_value(s, i);
    let k = pref_key(i);
    let v = pref_value(s, i);
    let c = pref_content(s, i);
    assert(c.len() == k.len() + 1 + v.len());
    assert forall|j: int| 0 <= j < c.len() implies #[trigger] c[j] != '\n' by {
        if j < k.len() {
            assert(c[j] == k[j]);
            assert(key_char(k[j]));
        } else if j == k.len() {
            assert(c[j] == '=');
        } else {
            assert(c[j] == v[j - k.len() - 1]);
        }
    }
    assert forall|j: int| 0 <= j < k.len() implies #[trigger] c[j] != '=' by {
        assert(c[j] == k[j]);
        assert(key_char(k[j]));
    }
    assert(c[k.len() as int] == '=');
    crate::text::lemma_find_char_for(c, '=', k.len() as int);
    assert(c.take(k.len() as int) =~= k);
    assert(c.skip(k.len() as int + 1) =~= v);
    if v.len() > 0 {
        crate::text::lemma_trim_edges(v);
        assert(c.last() == v.last());
    } else {
        assert(c.last() == '=');
    }
}

proof fn lemma_apply_content(s: PlotView, acc: PlotView, i: int)
    requires
        storable(s),
        0 <= i < PREF_COUNT,
    ensures
        apply_line(acc, pref_content(s, i)) == set_pref(acc, i, pref_value(s, i)),
{
    lemma_content(s, i);
    lemma_keys(i);
    lemma_value(s, i);
    let k = pref_key(i);
    assert(key_char(k[0]));
    assert(key_char(k.last()));
    crate::text::lemma_trim_unchanged(k);
}

proof fn lemma_prefs_lines(s: PlotView, n: int)
    requires
        storable(s),
        0 <= n <= PREF_COUNT,
    ensures
        lines(prefs_prefix(s, n)) == Seq::new(n as nat, |i: int| pref_content(s, i)),
        prefs_prefix(s, n).len() == 0 || prefs_prefix(s, n).last() == '\n',
    decreases n,
{
    if n == 0 {
        assert(lines(prefs_prefix(s, n)) =~= Seq::new(n as nat, |i: int| pref_content(s, i)));
    } else {
        lemma_prefs_lines(s, n - 1);
        lemma_content(s, n - 1);
        let before = prefs_prefix(s, n - 1);
        let c = pref_content(s, n - 1);
        assert(pref_line(s, n - 1) =~= c + seq!['\n']);
        crate::text::lemma_lines_append(before, pref_line(s, n - 1));
        crate::text::lemma_lines_single(c);
        assert(lines(prefs_prefix(s, n)) =~= Seq::new(n as nat, |i: int| pref_content(s, i)));
    }
}

proof fn lemma_prefs_applied(s: PlotView, n: int)
    requires
        storable(s),
        0 <= n <= PREF_COUNT,
    ensures
        prefs_applied(default_view(), Seq::new(n as nat, |i: int| pref_content(s, i))) == restored(
            s,
            n as nat,
        ),
    decreases n,
{
    if n > 0 {
        let ls = Seq::new(n as nat, |i: int| pref_content(s, i));
        assert(ls.drop_last() =~= Seq::new((n - 1) as nat, |i: int| pref_content(s, i)));
        lemma_prefs_applied(s, n - 1);
        lemma_apply_content(s, restored(s, (n - 1) as nat), n - 1);
    }
}

proof fn lemma_restored_all(s: PlotView)
    requires
        storable(s),
    ensures
        restored(s, PREF_COUNT as nat) == persisted(s),
{
    reveal_with_fuel(restored, 18);
    lemma_flag_text(s.to_file);
    lemma_flag_text(s.mono);
    lemma_flag_text(s.lineweights);
    lemma_flag_text(s.with_styles);
    lemma_flag_text(s.transparency);
    lemma_flag_text(s.paperspace_last);
    lemma_flag_text(s.hide_paperspace);
    lemma_flag_text(s.stamp);
    lemma_flag_text(s.save_layout);
    lemma_flag_text(s.scale_lw);
}

/// Saved preferences load back as they were saved (over the defaults of the
/// fields that are not persisted; a printer with an empty name as the default
/// printer), provided every saved text is its own trim without a line break.
pub proof fn lemma_prefs_round_trip(s: PlotView)
    requires
        storable(s),
    ensures
        loaded(Some(prefs_text(s))) == persisted(s),
{
    lemma_prefs_lines(s, PREF_COUNT as int);
    lemma_prefs_applied(s, PREF_COUNT as int);
    lemma_restored_all(s);
}

} // verus!
