//! The recent-files list behind the Start page: newest first, without
//! repeats, bounded by a user-set limit, and stored as plain text with one
//! path per line.

use vstd::prelude::*;

use crate::studio::{OpenCADStudio, RECENT_DEFAULT, RECENT_MAX, RECENT_MIN};
use crate::text::{
    chars_of, is_blank, lines, parse_usize, parse_usize_spec, push_char, push_str,
    split_lines, string_from, trim, trim_bounds,
};

verus! {

/// Whether two texts name the same path, as `Path`'s `==` decides (component
/// by component).
pub uninterp spec fn same_path(a: Seq<char>, b: Seq<char>) -> bool;

/// `Path::new(a) == Path::new(b)`. The comparison goes by path components, so
/// different texts may name the same path; identical texts always do.
#[verifier::external_body]
fn paths_equal(a: &str, b: &str) -> (r: bool)
    ensures
        r == same_path(a@, b@),
        a@ == b@ ==> r,
{
    std::path::Path::new(a) == std::path::Path::new(b)
}

/// `s` without the entries that name the path `p`.
pub open spec fn without_path(s: Seq<Seq<char>>, p: Seq<char>) -> Seq<Seq<char>>
    decreases s.len(),
{
    if s.len() == 0 {
        seq![]
    } else if same_path(s.last(), p) {
        without_path(s.drop_last(), p)
    } else {
        without_path(s.drop_last(), p).push(s.last())
    }
}

/// `s` cut to its first `n` entries (what `Vec::truncate` leaves).
pub open spec fn truncated<T>(s: Seq<T>, n: int) -> Seq<T> {
    if s.len() > n {
        s.take(n)
    } else {
        s
    }
}

/// `n` clamped into `RECENT_MIN..=RECENT_MAX`.
pub open spec fn clamp_limit(n: int) -> usize {
    if n < RECENT_MIN {
        RECENT_MIN
    } else if n > RECENT_MAX {
        RECENT_MAX
    } else {
        n as usize
    }
}

/// The non-blank entries of `s`, in order.
pub open spec fn non_blank(s: Seq<Seq<char>>) -> Seq<Seq<char>>
    decreases s.len(),
{
    if s.len() == 0 {
        seq![]
    } else if is_blank(s.last()) {
        non_blank(s.drop_last())
    } else {
        non_blank(s.drop_last()).push(s.last())
    }
}

/// The entries of `s` joined by `\n`.
pub open spec fn joined(s: Seq<Seq<char>>) -> Seq<char>
    decreases s.len(),
{
    if s.len() == 0 {
        seq![]
    } else if s.len() == 1 {
        s[0]
    } else {
        joined(s.drop_last()) + seq!['\n'] + s.last()
    }
}

/// The limit a saved limit file gives: its trimmed text as a number, clamped;
/// the default when there is no file or it does not hold a number.
pub open spec fn limit_from_text(body: Option<Seq<char>>) -> usize {
    match body {
        Some(b) => match parse_usize_spec(trim(b)) {
            Some(n) => clamp_limit(n as int),
            None => RECENT_DEFAULT,
        },
        None => RECENT_DEFAULT,
    }
}

/// The recent-file limit read from the saved limit file's text (`None` when
/// the file could not be read).
pub fn recent_limit_from(body: Option<&str>) -> (r: usize)
    ensures
        r == limit_from_text(
            match body {
                Some(b) => Some(b@),
                None => None,
            },
        ),
        RECENT_MIN <= r <= RECENT_MAX,
{
    match body {
        Some(b) => {
            let cs = chars_of(b);
            let (lo, hi) = trim_bounds(cs.as_slice());
            let t = slice_of(cs.as_slice(), lo, hi);
            match parse_usize(t.as_slice()) {
                Some(n) => clamp(n),
                None => RECENT_DEFAULT,
            }
        },
        None => RECENT_DEFAULT,
    }
}

fn slice_of(s: &[char], lo: usize, hi: usize) -> (out: Vec<char>)
    requires
        lo <= hi <= s@.len(),
    ensures
        out@ == s@.subrange(lo as int, hi as int),
{
    let mut out: Vec<char> = Vec::new();
    let mut i = lo;
    while i < hi
        invariant
            lo <= i <= hi <= s@.len(),
            out@ == s@.subrange(lo as int, i as int),
        decreases hi - i,
    {
        out.push(s[i]);
        assert(s@.subrange(lo as int, i + 1) =~= s@.subrange(lo as int, i as int).push(
            s@[i as int],
        ));
        i = i + 1;
    }
    out
}

fn clamp(n: usize) -> (r: usize)
    ensures
        r == clamp_limit(n as int),
{
    if n < RECENT_MIN {
        RECENT_MIN
    } else if n > RECENT_MAX {
        RECENT_MAX
    } else {
        n
    }
}

/// The recent files listed in a saved recents file: its non-blank lines, at
/// most `limit` of them.
pub fn recent_files_from(body: &str, limit: usize) -> (r: Vec<String>)
    ensures
        r@.map_values(|s: String| s@) == truncated(non_blank(lines(body@)), limit as int),
{
    let cs = chars_of(body);
    let ls = split_lines(cs.as_slice());
    let ghost l = ls@.map_values(|v: Vec<char>| v@);
    let mut out: Vec<String> = Vec::new();
    let mut i: usize = 0;
    proof {
        assert(l.take(0) =~= Seq::<Seq<char>>::empty());
    }
    while i < ls.len()
        invariant
            l == ls@.map_values(|v: Vec<char>| v@),
            l == lines(body@),
            i <= ls@.len(),
            out@.map_values(|s: String| s@) == non_blank(l.take(i as int)),
        decreases ls@.len() - i,
    {
        let line = &ls[i];
        let (lo, hi) = trim_bounds(line.as_slice());
        proof {
            assert(l.take(i + 1).drop_last() =~= l.take(i as int));
            assert(l.take(i + 1).last() == line@);
            crate::text::lemma_trim_edges(line@);
        }
        if lo < hi {
            let ghost before = out@.map_values(|s: String| s@);
            out.push(string_from(line.as_slice(), 0, line.len()));
            proof {
                assert(line@.subrange(0, line@.len() as int) =~= line@);
                assert(out@.map_values(|s: String| s@) =~= before.push(line@));
            }
        }
        i = i + 1;
    }
    proof {
        assert(l.take(l.len() as int) =~= l);
    }
    if out.len() > limit {
        let ghost before = out@;
        out.truncate(limit);
        proof {
            assert(out@.map_values(|s: String| s@) =~= before.map_values(|s: String| s@).take(
                limit as int,
            ));
        }
    }
    out
}

/// The text a recents file holds for `list`: one entry per line.
pub fn recents_body(list: &[String]) -> (r: String)
    ensures
        r@ == joined(list@.map_values(|s: String| s@)),
{
    let ghost s = list@.map_values(|s: String| s@);
    let mut out = String::new();
    let mut i: usize = 0;
    proof {
        assert(s.take(0) =~= Seq::<Seq<char>>::empty());
    }
    while i < list.len()
        invariant
            s == list@.map_values(|s: String| s@),
            i <= list@.len(),
            out@ == joined(s.take(i as int)),
        decreases list@.len() - i,
    {
        proof {
            assert(s.take(i + 1).drop_last() =~= s.take(i as int));
            assert(s.take(i + 1).last() == list@[i as int]@);
        }
        if i > 0 {
            push_char(&mut out, '\n');
        }
        push_str(&mut out, list[i].as_str());
        proof {
            if i == 0 {
                assert(out@ =~= s.take(1)[0]);
            } else {
                assert(out@ =~= joined(s.take(i as int)) + seq!['\n'] + list@[i as int]@);
            }
        }
        i = i + 1;
    }
    proof {
        assert(s.take(s.len() as int) =~= s);
    }
    out
}

impl OpenCADStudio {
    /// Records a freshly opened file at the top of the recents list, dropping
    /// earlier entries for the same path and keeping at most `recent_limit`.
    pub fn push_recent(&mut self, path: String)
        ensures
            final(self).recents() == truncated(
                seq![path@] + without_path(old(self).recents(), path@),
                old(self).recent_limit as int,
            ),
            final(self).recent_limit == old(self).recent_limit,
            final(self).command_line == old(self).command_line,
    {
        self.remove_recent(path.as_str());
        let ghost before = self.recents();
        self.recent_files.insert(0, path);
        proof {
            assert(self.recents() =~= seq![path@] + before);
        }
        if self.recent_files.len() > self.recent_limit {
            let ghost full = self.recent_files@;
            self.recent_files.truncate(self.recent_limit);
            proof {
                assert(self.recents() =~= full.map_values(|s: String| s@).take(
                    self.recent_limit as int,
                ));
            }
        }
    }

    /// Drops every entry for `path` from the recents list.
    pub fn remove_recent(&mut self, path: &str)
        ensures
            final(self).recents() == without_path(old(self).recents(), path@),
            final(self).recent_limit == old(self).recent_limit,
            final(self).command_line == old(self).command_line,
    {
        let mut kept: Vec<String> = Vec::new();
        let ghost s = self.recents();
        let mut i: usize = 0;
        proof {
            assert(s.take(0) =~= Seq::<Seq<char>>::empty());
        }
        while i < self.recent_files.len()
            invariant
                s == self.recents(),
                i <= self.recent_files@.len(),
                kept@.map_values(|s: String| s@) == without_path(s.take(i as int), path@),
            decreases self.recent_files@.len() - i,
        {
            proof {
                assert(s.take(i + 1).drop_last() =~= s.take(i as int));
                assert(s.take(i + 1).last() == self.recent_files@[i as int]@);
            }
            if !paths_equal(self.recent_files[i].as_str(), path) {
                let ghost before = kept@.map_values(|s: String| s@);
                kept.push(self.recent_files[i].clone());
                proof {
                    assert(kept@.map_values(|s: String| s@) =~= before.push(
                        self.recent_files@[i as int]@,
                    ));
                }
            }
            i = i + 1;
        }
        proof {
            assert(s.take(s.len() as int) =~= s);
        }
        self.recent_files = kept;
    }

    /// Sets how many recent files are kept (clamped into
    /// `RECENT_MIN..=RECENT_MAX`) and trims the list to fit.
    pub fn set_recent_limit(&mut self, limit: usize)
        ensures
            final(self).recent_limit == clamp_limit(limit as int),
            final(self).recents() == truncated(old(self).recents(), clamp_limit(limit as int) as int),
            final(self).command_line == old(self).command_line,
    {
        self.recent_limit = clamp(limit);
        if self.recent_files.len() > self.recent_limit {
            let ghost full = self.recent_files@;
            self.recent_files.truncate(self.recent_limit);
            proof {
                assert(self.recents() =~= full.map_values(|s: String| s@).take(
                    self.recent_limit as int,
                ));
            }
        }
    }
}


// ── Laws ────────────────────────────────────────────────────────────────────

proof fn lemma_without_path_excludes(s: Seq<Seq<char>>, p: Seq<char>)
    ensures
        forall|i: int| 0 <= i < without_path(s, p).len() ==> !same_path(#[trigger] without_path(s, p)[i], p),
        without_path(s, p).len() <= s.len(),
    decreases s.len(),
{
    if s.len() > 0 {
        lemma_without_path_excludes(s.drop_last(), p);
    }
}

/// After a file is pushed (with a limit of at least one), it heads the list,
/// no other entry names the same path, and the list respects the limit.
pub proof fn lemma_push_recent_heads_list(s: Seq<Seq<char>>, p: Seq<char>, limit: usize)
    requires
        limit >= 1,
    ensures
        truncated(seq![p] + without_path(s, p), limit as int)[0] == p,
        forall|i: int|
            1 <= i < truncated(seq![p] + without_path(s, p), limit as int).len() ==> !same_path(
                #[trigger] truncated(seq![p] + without_path(s, p), limit as int)[i],
                p,
            ),
        truncated(seq![p] + without_path(s, p), limit as int).len() <= limit,
{
    lemma_without_path_excludes(s, p);
    let w = without_path(s, p);
    let t = truncated(seq![p] + w, limit as int);
    assert forall|i: int| 1 <= i < t.len() implies !same_path(#[trigger] t[i], p) by {
        assert(t[i] == (seq![p] + w)[i]);
        assert((seq![p] + w)[i] == w[i - 1]);
    }
}

/// Changing the limit always leaves it within `RECENT_MIN..=RECENT_MAX` and
/// the list no longer than it.
pub proof fn lemma_set_limit_bounds(s: Seq<Seq<char>>, limit: usize)
    ensures
        RECENT_MIN <= clamp_limit(limit as int) <= RECENT_MAX,
        truncated(s, clamp_limit(limit as int) as int).len() <= clamp_limit(limit as int),
{
}

proof fn lemma_joined_front(s: Seq<Seq<char>>)
    requires
        s.len() >= 2,
    ensures
        joined(s) == s[0] + seq!['\n'] + joined(s.drop_first()),
    decreases s.len(),
{
    if s.len() == 2 {
        assert(s.drop_last() =~= seq![s[0]]);
        assert(s.drop_first() =~= seq![s[1]]);
        assert(joined(s.drop_first()) == s[1]);
        assert(joined(s.drop_last()) == s[0]);
        assert(joined(s) =~= s[0] + seq!['\n'] + joined(s.drop_first()));
    } else {
        lemma_joined_front(s.drop_last());
        assert(s.drop_last().drop_first() =~= s.drop_first().drop_last());
        assert(s.drop_first().last() == s.last());
        assert(s.drop_last()[0] == s[0]);
        assert(joined(s) =~= s[0] + seq!['\n'] + joined(s.drop_first()));
    }
}

/// An entry that survives a save and reload unchanged: not blank, without a
/// line break, and not ending with a carriage return.
pub open spec fn storable_path(e: Seq<char>) -> bool {
    &&& !is_blank(e)
    &&& forall|i: int| 0 <= i < e.len() ==> #[trigger] e[i] != '\n'
    &&& e.last() != '\r'
}

proof fn lemma_lines_of_joined(s: Seq<Seq<char>>)
    requires
        forall|i: int| 0 <= i < s.len() ==> storable_path(#[trigger] s[i]),
    ensures
        lines(joined(s)) == s,
    decreases s.len(),
{
    if s.len() == 0 {
        assert(lines(joined(s)) =~= s);
    } else {
        let e = s[0];
        assert(storable_path(e));
        assert(e.len() > 0);
        if s.len() == 1 {
            crate::text::lemma_find_char_for(e, '\n', e.len() as int);
            assert(lines(e) == seq![e]);
            assert(lines(joined(s)) =~= s);
        } else {
            lemma_joined_front(s);
            let rest = s.drop_first();
            let j = e + seq!['\n'] + joined(rest);
            assert forall|i: int| 0 <= i < e.len() implies #[trigger] j[i] != '\n' by {
                assert(j[i] == e[i]);
            }
            assert(j[e.len() as int] == '\n');
            crate::text::lemma_find_char_for(j, '\n', e.len() as int);
            assert(j.take(e.len() as int) =~= e);
            assert(j.skip(e.len() as int + 1) =~= joined(rest));
            assert forall|i: int| 0 <= i < rest.len() implies storable_path(#[trigger] rest[i]) by {
                assert(rest[i] == s[i + 1]);
            }
            lemma_lines_of_joined(rest);
            assert(lines(joined(s)) =~= seq![e] + rest);
            assert(seq![e] + rest =~= s);
        }
    }
}

proof fn lemma_non_blank_keeps(s: Seq<Seq<char>>)
    requires
        forall|i: int| 0 <= i < s.len() ==> !is_blank(#[trigger] s[i]),
    ensures
        non_blank(s) == s,
    decreases s.len(),
{
    if s.len() > 0 {
        assert forall|i: int| 0 <= i < s.drop_last().len() implies !is_blank(
            #[trigger] s.drop_last()[i],
        ) by {
            assert(s.drop_last()[i] == s[i]);
        }
        lemma_non_blank_keeps(s.drop_last());
        assert(s.drop_last().push(s.last()) =~= s);
    }
}

/// Saving the recents list and reading it back gives the same list (cut to
/// the limit), for entries that are storable.
pub proof fn lemma_recents_round_trip(s: Seq<Seq<char>>, limit: usize)
    requires
        forall|i: int| 0 <= i < s.len() ==> storable_path(#[trigger] s[i]),
    ensures
        truncated(non_blank(lines(joined(s))), limit as int) == truncated(s, limit as int),
{
    lemma_lines_of_joined(s);
    assert forall|i: int| 0 <= i < s.len() implies !is_blank(#[trigger] s[i]) by {
        assert(storable_path(s[i]));
    }
    lemma_non_blank_keeps(s);
}

} // verus!
