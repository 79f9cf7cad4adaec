//! The debugger side panel: breakpoints, the call stack and the variables of
//! the paused frame, and the text the panel shows.
use vstd::prelude::*;
use vstd::string::StringExecFns;
use crate::text::{decimal, usize_text};

verus! {

#[derive(Clone, Debug)]
pub struct Breakpoint {
    pub file: String,
    pub line: usize,
    pub verified: bool,
}

#[derive(Clone, Debug)]
pub struct StackFrame {
    pub id: i64,
    pub name: String,
    pub line: usize,
    pub file: String,
}

pub type BreakpointView = (Seq<char>, usize, bool);

pub open spec fn bp_view(b: Breakpoint) -> BreakpointView {
    (b.file@, b.line, b.verified)
}

pub open spec fn bps_view(v: Seq<Breakpoint>) -> Seq<BreakpointView> {
    v.map_values(|b: Breakpoint| bp_view(b))
}

/// The first breakpoint at or after `from` set on `line` of `file`.
pub open spec fn bp_position(s: Seq<BreakpointView>, file: Seq<char>, line: usize, from: int) -> Option<int>
    decreases s.len() - from,
{
    if from < 0 || from >= s.len() {
        None
    } else if s[from].0 == file && s[from].1 == line {
        Some(from)
    } else {
        bp_position(s, file, line, from + 1)
    }
}

/// The breakpoints after toggling `line` of `file`: the one set there is
/// removed, or else a new, unverified one is added at the end.
pub open spec fn toggled_bps(s: Seq<BreakpointView>, file: Seq<char>, line: usize) -> Seq<BreakpointView> {
    match bp_position(s, file, line, 0) {
        Some(i) => s.remove(i),
        None => s.push((file, line, false)),
    }
}

/// The lines of the breakpoints set in `file`, in order.
pub open spec fn lines_in(s: Seq<BreakpointView>, file: Seq<char>) -> Seq<usize>
    decreases s.len(),
{
    if s.len() == 0 {
        Seq::empty()
    } else if s.last().0 == file {
        lines_in(s.drop_last(), file).push(s.last().1)
    } else {
        lines_in(s.drop_last(), file)
    }
}

/// The first `/` of `p`, or its length when there is none.
pub open spec fn slash_at(p: Seq<char>) -> nat
    decreases p.len(),
{
    if p.len() == 0 || p[0] == '/' {
        0
    } else {
        1 + slash_at(p.drop_first())
    }
}

/// The parts of a path between its `/` separators.
pub open spec fn path_parts(p: Seq<char>) -> Seq<Seq<char>>
    decreases p.len(),
{
    if p.len() == 0 {
        Seq::empty()
    } else {
        let k = slash_at(p);
        if k < p.len() {
            seq![p.take(k as int)] + path_parts(p.skip(k + 1 as int))
        } else {
            seq![p]
        }
    }
}

/// The components of a path as `std::path::Path::components` yields them
/// on Unix, less the root and any `.`: the parts that are neither empty
/// nor `.`.
pub open spec fn path_names(p: Seq<char>) -> Seq<Seq<char>> {
    path_parts(p).filter(|x: Seq<char>| x.len() > 0 && x != seq!['.'])
}

/// The file name `std::path::Path::file_name` finds in a path (with `/`
/// as the separator, as on the Unix targets this builds for): its last
/// component, unless that is `..` or there is none.
pub open spec fn path_file_name(path: Seq<char>) -> Option<Seq<char>> {
    let names = path_names(path);
    if names.len() == 0 || names.last() == seq!['.', '.'] {
        None
    } else {
        Some(names.last())
    }
}

/// `Path::new(path).file_name()`, turned back into a string (a path made
/// from a `&str` is valid UTF-8, so the conversion loses nothing).  Its
/// result is [`path_file_name`]: the last of the path's components, as the
/// documentation of `Path::components` and `Path::file_name` describes
/// them for Unix paths.
#[verifier::external_body]
pub(crate) fn file_name_of(path: &str) -> (r: Option<String>)
    ensures
        match r {
            Some(n) => path_file_name(path@) == Some(n@),
            None => path_file_name(path@) is None,
        },
{
    std::path::Path::new(path).file_name().map(|n| n.to_string_lossy().into_owned())
}

/// The file name shown for a breakpoint: empty when the path has none.
pub open spec fn shown_name(path: Seq<char>) -> Seq<char> {
    match path_file_name(path) {
        Some(n) => n,
        None => Seq::empty(),
    }
}

pub open spec fn bp_text(b: BreakpointView) -> Seq<char> {
    "    "@ + (if b.2 {
        "●"@
    } else {
        "○"@
    }) + " "@ + shown_name(b.0) + ":"@ + decimal(b.1 as nat) + "\n"@
}

pub open spec fn bps_text(s: Seq<BreakpointView>) -> Seq<char>
    decreases s.len(),
{
    if s.len() == 0 {
        Seq::empty()
    } else {
        bps_text(s.drop_last()) + bp_text(s.last())
    }
}

pub open spec fn frame_text(f: StackFrame, active: Option<i64>) -> Seq<char> {
    "   "@ + (if active == Some(f.id) {
        "→"@
    } else {
        " "@
    }) + " "@ + f.name@ + "\n"@
}

pub open spec fn frames_text(s: Seq<StackFrame>, active: Option<i64>) -> Seq<char>
    decreases s.len(),
{
    if s.len() == 0 {
        Seq::empty()
    } else {
        frames_text(s.drop_last(), active) + frame_text(s.last(), active)
    }
}

pub open spec fn vars_text(s: Seq<(String, String)>) -> Seq<char>
    decreases s.len(),
{
    if s.len() == 0 {
        Seq::empty()
    } else {
        vars_text(s.drop_last()) + "    "@ + s.last().0@ + ": "@ + s.last().1@ + "\n"@
    }
}

/// The debugger panel's state.  `session_active` tells whether a debug
/// adapter is attached.
pub struct DebugUi {
    pub session_active: bool,
    pub breakpoints: Vec<Breakpoint>,
    pub stack_frames: Vec<StackFrame>,
    /// Variables of the paused frame, by name.
    pub variables: Vec<(String, String)>,
    pub active_frame_id: Option<i64>,
}

impl DebugUi {
    /// The text of the panel.
    pub open spec fn text_view(&self) -> Seq<char> {
        "  RUN AND DEBUG\n\n"@ + if !self.session_active {
            "  No active debug session.\n"@ + "  Press F5 to start (stub).\n"@
        } else {
            "  BREAKPOINTS\n"@ + (if self.breakpoints@.len() == 0 {
                "    No breakpoints.\n"@
            } else {
                bps_text(bps_view(self.breakpoints@))
            }) + "\n"@ + "  CALL STACK\n"@ + (if self.stack_frames@.len() == 0 {
                "    (Paused or Running)\n"@
            } else {
                frames_text(self.stack_frames@, self.active_frame_id)
            }) + "\n"@ + "  VARIABLES\n"@ + (if self.variables@.len() == 0 {
                "    No variables.\n"@
            } else {
                vars_text(self.variables@)
            })
        }
    }

    pub fn new() -> (r: Self)
        ensures
            !r.session_active,
            r.breakpoints@.len() == 0,
            r.stack_frames@.len() == 0,
            r.variables@.len() == 0,
            r.active_frame_id is None,
    {
        DebugUi {
            session_active: false,
            breakpoints: Vec::new(),
            stack_frames: Vec::new(),
            variables: Vec::new(),
            active_frame_id: None,
        }
    }

    /// Removes the breakpoint on `line` of `file`, or sets one there.
    /// Returns the lines of `file` that then hold breakpoints, which is what
    /// an attached debug adapter is sent.
    pub fn toggle_breakpoint(&mut self, file: String, line: usize) -> (r: Vec<usize>)
        ensures
            bps_view(final(self).breakpoints@) == toggled_bps(bps_view(old(self).breakpoints@), file@, line),
            r@ == lines_in(bps_view(final(self).breakpoints@), file@),
            final(self).session_active == old(self).session_active,
            final(self).stack_frames@ == old(self).stack_frames@,
            final(self).variables@ == old(self).variables@,
            final(self).active_frame_id == old(self).active_frame_id,
    {
        let ghost s = bps_view(self.breakpoints@);
        let mut found: Option<usize> = None;
        let mut i: usize = 0;
        while i < self.breakpoints.len()
            invariant_except_break
                found is None,
                bp_position(s, file@, line, 0) == bp_position(s, file@, line, i as int),
            invariant
                i <= self.breakpoints@.len(),
                s == bps_view(self.breakpoints@),
            ensures
                found matches Some(k) ==> k < s.len() && bp_position(s, file@, line, 0) == Some(
                    k as int,
                ),
                found is None ==> bp_position(s, file@, line, 0) is None,
            decreases self.breakpoints@.len() - i,
        {
            if self.breakpoints[i].file == file && self.breakpoints[i].line == line {
                assert(s[i as int] == bp_view(self.breakpoints@[i as int]));
                found = Some(i);
                break;
            }
            i = i + 1;
        }
        match found {
            Some(k) => {
                self.breakpoints.remove(k);
                assert(bps_view(self.breakpoints@) =~= s.remove(k as int));
            },
            None => {
                assert(bp_position(s, file@, line, 0) is None);
                self.breakpoints.push(Breakpoint { file: file.clone(), line, verified: false });
                assert(bps_view(self.breakpoints@) =~= s.push((file@, line, false)));
            },
        }
        let ghost t = bps_view(self.breakpoints@);
        let mut out: Vec<usize> = Vec::new();
        let mut j: usize = 0;
        while j < self.breakpoints.len()
            invariant
                j <= self.breakpoints@.len(),
                t == bps_view(self.breakpoints@),
                out@ == lines_in(t.take(j as int), file@),
            decreases self.breakpoints@.len() - j,
        {
            assert(t.take(j + 1).drop_last() == t.take(j as int));
            if self.breakpoints[j].file == file {
                out.push(self.breakpoints[j].line);
            }
            j = j + 1;
        }
        assert(t.take(t.len() as int) == t);
        out
    }

    /// The panel's text: the breakpoints, the call stack with an arrow at
    /// the active frame, and the variables, or a hint while no debug
    /// session is attached.
    pub fn render_text(&self) -> (r: String)
        ensures
            r@ == self.text_view(),
    {
        let mut text = String::new();
        text.append("  RUN AND DEBUG\n\n");
        if !self.session_active {
            text.append("  No active debug session.\n");
            text.append("  Press F5 to start (stub).\n");
            assert(text@ =~= self.text_view());
            return text;
        }
        let ghost head = text@;
        text.append("  BREAKPOINTS\n");
        if self.breakpoints.len() == 0 {
            text.append("    No breakpoints.\n");
        } else {
            let ghost s = bps_view(self.breakpoints@);
            let ghost start = text@;
            let mut i: usize = 0;
            while i < self.breakpoints.len()
                invariant
                    i <= self.breakpoints@.len(),
                    s == bps_view(self.breakpoints@),
                    text@ == start + bps_text(s.take(i as int)),
                decreases self.breakpoints@.len() - i,
            {
                let bp = &self.breakpoints[i];
                assert(s.take(i + 1).drop_last() == s.take(i as int));
                text.append("    ");
                if bp.verified {
                    text.append("●");
                } else {
                    text.append("○");
                }
                text.append(" ");
                match file_name_of(bp.file.as_str()) {
                    Some(n) => text.append(n.as_str()),
                    None => text.append(""),
                }
                text.append(":");
                let num = usize_text(bp.line);
                text.append(num.as_str());
                text.append("\n");
                proof {
                    reveal_strlit("");
                }
                assert(text@ =~= start + bps_text(s.take(i + 1)));
                i = i + 1;
            }
            assert(s.take(s.len() as int) == s);
        }
        let ghost after_bps = text@;
        text.append("\n");
        text.append("  CALL STACK\n");
        if self.stack_frames.len() == 0 {
            text.append("    (Paused or Running)\n");
        } else {
            let ghost fs = self.stack_frames@;
            let ghost start = text@;
            let mut i: usize = 0;
            while i < self.stack_frames.len()
                invariant
                    i <= self.stack_frames@.len(),
                    fs == self.stack_frames@,
                    text@ == start + frames_text(fs.take(i as int), self.active_frame_id),
                decreases self.stack_frames@.len() - i,
            {
                let frame = &self.stack_frames[i];
                assert(fs.take(i + 1).drop_last() == fs.take(i as int));
                text.append("   ");
                let is_active = match self.active_frame_id {
                    Some(a) => a == frame.id,
                    None => false,
                };
                if is_active {
                    text.append("→");
                } else {
                    text.append(" ");
                }
                text.append(" ");
                text.append(frame.name.as_str());
                text.append("\n");
                assert(text@ =~= start + frames_text(fs.take(i + 1), self.active_frame_id));
                i = i + 1;
            }
            assert(fs.take(fs.len() as int) == fs);
        }
        text.append("\n");
        text.append("  VARIABLES\n");
        if self.variables.len() == 0 {
            text.append("    No variables.\n");
        } else {
            let ghost vs = self.variables@;
            let ghost start = text@;
            let mut i: usize = 0;
            while i < self.variables.len()
                invariant
                    i <= self.variables@.len(),
                    vs == self.variables@,
                    text@ == start + vars_text(vs.take(i as int)),
                decreases self.variables@.len() - i,
            {
                let v = &self.variables[i];
                assert(vs.take(i + 1).drop_last() == vs.take(i as int));
                text.append("    ");
                text.append(v.0.as_str());
                text.append(": ");
                text.append(v.1.as_str());
                text.append("\n");
                assert(text@ =~= start + vars_text(vs.take(i + 1)));
                i = i + 1;
            }
            assert(vs.take(vs.len() as int) == vs);
        }
        assert(text@ =~= self.text_view());
        text
    }
}

proof fn lemma_bp_position(s: Seq<BreakpointView>, file: Seq<char>, line: usize, from: int)
    requires
        0 <= from,
    ensures
        bp_position(s, file, line, from) matches Some(k) ==> from <= k < s.len() && s[k].0 == file
            && s[k].1 == line && forall|j: int| from <= j < k ==> !(s[j].0 == file && s[j].1 == line),
        bp_position(s, file, line, from) is None ==> forall|j: int|
            from <= j < s.len() ==> !(s[j].0 == file && s[j].1 == line),
    decreases s.len() - from,
{
    if from < s.len() && !(s[from].0 == file && s[from].1 == line) {
        lemma_bp_position(s, file, line, from + 1);
    }
}

/// Setting a breakpoint where there is none and toggling it again gives back
/// the breakpoints there were.
pub proof fn law_toggle_twice_restores(s: Seq<BreakpointView>, file: Seq<char>, line: usize)
    requires
        forall|j: int| 0 <= j < s.len() ==> !(s[j].0 == file && s[j].1 == line),
    ensures
        toggled_bps(toggled_bps(s, file, line), file, line) == s,
        lines_in(toggled_bps(s, file, line), file) == lines_in(s, file).push(line),
{
    lemma_bp_position(s, file, line, 0);
    let t = s.push((file, line, false));
    assert(toggled_bps(s, file, line) == t);
    lemma_bp_position(t, file, line, 0);
    assert(t[s.len() as int].0 == file && t[s.len() as int].1 == line);
    let k = bp_position(t, file, line, 0).unwrap();
    if k < s.len() {
        assert(t[k] == s[k]);
    }
    assert(t.remove(s.len() as int) =~= s);
    assert(t.drop_last() == s);
}

} // verus!
