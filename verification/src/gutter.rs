//! The editor gutter's state: scroll position, cursor line, diagnostics and
//! breakpoints.
use vstd::prelude::*;

verus! {

/// Editor gutter: line numbers and diagnostic indicators.
pub struct Gutter {
    /// First visible line (0-indexed).
    pub scroll_top: usize,
    /// Total lines in the file.
    pub total_lines: usize,
    /// Current cursor line (0-indexed).
    pub cursor_line: usize,
    /// Lines with diagnostics, and their severity.
    pub diagnostics: Vec<(usize, DiagnosticSeverity)>,
    /// Lines with breakpoints.
    pub breakpoints: Vec<usize>,
}

#[derive(Clone, Copy, Debug, PartialEq, Eq, Structural)]
pub enum DiagnosticSeverity {
    Error,
    Warning,
    Info,
    Hint,
}

/// The first index of `x` in `s` at or after `from`.
pub open spec fn position_from(s: Seq<usize>, x: usize, from: int) -> Option<int>
    decreases s.len() - from,
{
    if from < 0 || from >= s.len() {
        None
    } else if s[from] == x {
        Some(from)
    } else {
        position_from(s, x, from + 1)
    }
}

/// The breakpoints after toggling `line`: its first occurrence removed if
/// it is there, else `line` appended.
pub open spec fn toggled(s: Seq<usize>, line: usize) -> Seq<usize> {
    match position_from(s, line, 0) {
        Some(i) => s.remove(i),
        None => s.push(line),
    }
}

pub proof fn lemma_position_from(s: Seq<usize>, x: usize, from: int)
    requires
        0 <= from,
    ensures
        position_from(s, x, from) matches Some(k) ==> from <= k < s.len() && s[k] == x
            && forall|j: int| from <= j < k ==> s[j] != x,
        position_from(s, x, from) is None ==> forall|j: int| from <= j < s.len() ==> s[j] != x,
    decreases s.len() - from,
{
    if from < s.len() && s[from] != x {
        lemma_position_from(s, x, from + 1);
    }
}

impl Gutter {
    pub fn new() -> (r: Self)
        ensures
            r.scroll_top == 0,
            r.total_lines == 1,
            r.cursor_line == 0,
            r.diagnostics@.len() == 0,
            r.breakpoints@.len() == 0,
    {
        Gutter {
            scroll_top: 0,
            total_lines: 1,
            cursor_line: 0,
            diagnostics: Vec::new(),
            breakpoints: Vec::new(),
        }
    }

    /// Sets a breakpoint on `line`, or removes the one that is there.
    pub fn toggle_breakpoint(&mut self, line: usize)
        ensures
            final(self).breakpoints@ == toggled(old(self).breakpoints@, line),
            final(self).diagnostics@ == old(self).diagnostics@,
            final(self).scroll_top == old(self).scroll_top,
            final(self).total_lines == old(self).total_lines,
            final(self).cursor_line == old(self).cursor_line,
    {
        let mut i: usize = 0;
        while i < self.breakpoints.len()
            invariant
                i <= self.breakpoints@.len(),
                self.breakpoints@ == old(self).breakpoints@,
                self.diagnostics@ == old(self).diagnostics@,
                self.scroll_top == old(self).scroll_top,
                self.total_lines == old(self).total_lines,
                self.cursor_line == old(self).cursor_line,
                position_from(self.breakpoints@, line, 0) == position_from(
                    self.breakpoints@,
                    line,
                    i as int,
                ),
            decreases self.breakpoints@.len() - i,
        {
            if self.breakpoints[i] == line {
                self.breakpoints.remove(i);
                return;
            }
            i = i + 1;
        }
        self.breakpoints.push(line);
    }
}

impl Gutter {
    /// A click on the `row`-th visible row (the window finds which row is
    /// under the pointer): the breakpoint of that line toggles, if the file
    /// has such a line.  Returns the line.
    pub fn click_row(&mut self, row: usize) -> (r: Option<usize>)
        requires
            old(self).scroll_top + row <= usize::MAX,
        ensures
            old(self).scroll_top + row < old(self).total_lines ==> {
                &&& r == Some((old(self).scroll_top + row) as usize)
                &&& final(self).breakpoints@ == toggled(old(self).breakpoints@, (old(self).scroll_top + row) as usize)
            },
            old(self).scroll_top + row >= old(self).total_lines ==> {
                &&& r is None
                &&& final(self).breakpoints@ == old(self).breakpoints@
            },
            final(self).diagnostics@ == old(self).diagnostics@,
            final(self).scroll_top == old(self).scroll_top,
            final(self).total_lines == old(self).total_lines,
            final(self).cursor_line == old(self).cursor_line,
    {
        let line = self.scroll_top + row;
        if line < self.total_lines {
            self.toggle_breakpoint(line);
            Some(line)
        } else {
            None
        }
    }
}

/// Toggling a line that has no breakpoint and then toggling it again gives
/// back the same breakpoints.
pub proof fn law_toggle_twice_absent(s: Seq<usize>, line: usize)
    requires
        !s.contains(line),
    ensures
        toggled(toggled(s, line), line) == s,
{
    lemma_position_from(s, line, 0);
    if position_from(s, line, 0) is Some {
        assert(s.contains(line));
    }
    let t = s.push(line);
    lemma_position_from(t, line, 0);
    let k = position_from(t, line, 0).unwrap();
    assert(t[s.len() as int] == line);
    if k < s.len() {
        assert(s[k] == line);
    }
    assert(t.remove(s.len() as int) =~= s);
}

/// With no line set twice, toggling a line twice gives back the same set of
/// breakpoints, and toggling keeps every line set at most once.
pub proof fn law_toggle_twice_same_set(s: Seq<usize>, line: usize)
    requires
        s.no_duplicates(),
    ensures
        toggled(s, line).no_duplicates(),
        toggled(toggled(s, line), line).to_set() == s.to_set(),
        toggled(s, line).contains(line) != s.contains(line),
{
    lemma_position_from(s, line, 0);
    match position_from(s, line, 0) {
        Some(i) => {
            let t = s.remove(i);
            assert(!t.contains(line)) by {
                if t.contains(line) {
                    let j = choose|j: int| 0 <= j < t.len() && t[j] == line;
                    if j < i {
                        assert(s[j] == line);
                    } else {
                        assert(s[j + 1] == line);
                    }
                }
            }
            assert(s.contains(line));
            law_toggle_twice_absent(t, line);
            lemma_position_from(t, line, 0);
            let u = t.push(line);
            assert(u.to_set() =~= s.to_set()) by {
                assert forall|x: usize| u.to_set().contains(x) implies s.to_set().contains(x) by {
                    let j = choose|j: int| 0 <= j < u.len() && u[j] == x;
                    if j == t.len() {
                        assert(s[i] == x);
                    } else if j < i {
                        assert(s[j] == x);
                    } else {
                        assert(s[j + 1] == x);
                    }
                }
                assert forall|x: usize| s.to_set().contains(x) implies u.to_set().contains(x) by {
                    let j = choose|j: int| 0 <= j < s.len() && s[j] == x;
                    if j == i {
                        assert(u[t.len() as int] == x);
                    } else if j < i {
                        assert(u[j] == x);
                    } else {
                        assert(u[j - 1] == x);
                    }
                }
            }
        },
        None => {
            assert(!s.contains(line));
            law_toggle_twice_absent(s, line);
            let t = s.push(line);
            assert(t[s.len() as int] == line);
        },
    }
}

} // verus!
