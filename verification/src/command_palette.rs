//! The command palette: a fixed command list filtered by fuzzy matching.
use vstd::prelude::*;
use crate::text::{chars_of, lowercase, pop_char, push_char, to_lowercase};

verus! {

#[derive(Debug, Clone, PartialEq, Eq)]
pub struct Command {
    pub id: String,
    pub label: String,
    pub shortcut: Option<String>,
    pub category: Option<String>,
}

pub struct CommandPalette {
    pub visible: bool,
    pub query: String,
    pub commands: Vec<Command>,
    pub filtered: Vec<usize>,
}

pub open spec fn opt_str(o: Option<String>) -> Option<Seq<char>> {
    match o {
        Some(s) => Some(s@),
        None => None,
    }
}

/// `(id, label, shortcut, category)` of a command.
pub open spec fn command_view(c: Command) -> (Seq<char>, Seq<char>, Option<Seq<char>>, Option<
    Seq<char>,
>) {
    (c.id@, c.label@, opt_str(c.shortcut), opt_str(c.category))
}

pub open spec fn entry(id: &str, label: &str, shortcut: Option<&str>, category: &str) -> (
    Seq<char>,
    Seq<char>,
    Option<Seq<char>>,
    Option<Seq<char>>,
) {
    (
        id@,
        label@,
        match shortcut {
            Some(s) => Some(s@),
            None => None,
        },
        Some(category@),
    )
}

/// The commands registered by default, in order.
pub open spec fn default_commands() -> Seq<(Seq<char>, Seq<char>, Option<Seq<char>>, Option<Seq<char>>)> {
    seq![
        entry("file.new", "File: New File", Some("Ctrl+N"), "File"),
        entry("file.open", "File: Open File", Some("Ctrl+O"), "File"),
        entry("file.save", "File: Save", Some("Ctrl+S"), "File"),
        entry("file.save_as", "File: Save As", Some("Ctrl+Shift+S"), "File"),
        entry("file.close", "File: Close Editor", Some("Ctrl+W"), "File"),
        entry("file.quit", "File: Quit", Some("Ctrl+Q"), "File"),
        entry("edit.undo", "Edit: Undo", Some("Ctrl+Z"), "Edit"),
        entry("edit.redo", "Edit: Redo", Some("Ctrl+Y"), "Edit"),
        entry("edit.cut", "Edit: Cut", Some("Ctrl+X"), "Edit"),
        entry("edit.copy", "Edit: Copy", Some("Ctrl+C"), "Edit"),
        entry("edit.paste", "Edit: Paste", Some("Ctrl+V"), "Edit"),
        entry("edit.find", "Edit: Find", Some("Ctrl+F"), "Edit"),
        entry("edit.replace", "Edit: Replace", Some("Ctrl+H"), "Edit"),
        entry("view.command_palette", "View: Command Palette", Some("Ctrl+Shift+P"), "View"),
        entry("view.terminal", "View: Toggle Terminal", Some("Ctrl+`"), "View"),
        entry("view.sidebar", "View: Toggle Sidebar", Some("Ctrl+B"), "View"),
        entry("view.minimap", "View: Toggle Minimap", None, "View"),
        entry("help.about", "Help: About", None, "Help"),
        entry("editor.format", "Editor: Format Document", Some("Shift+Alt+F"), "Editor"),
        entry("editor.fold", "Editor: Fold", Some("Ctrl+Shift+["), "Editor"),
        entry("editor.unfold", "Editor: Unfold", Some("Ctrl+Shift+]"), "Editor"),
        entry("editor.comment", "Editor: Toggle Comment", Some("Ctrl+/"), "Editor"),
        entry("git.commit", "Git: Commit", None, "Git"),
        entry("git.push", "Git: Push", None, "Git"),
        entry("git.pull", "Git: Pull", None, "Git"),
        entry("debug.start", "Debug: Start Debugging", Some("F5"), "Debug"),
        entry("debug.stop", "Debug: Stop Debugging", Some("Shift+F5"), "Debug"),
        entry("debug.step_over", "Debug: Step Over", Some("F10"), "Debug"),
        entry("debug.step_into", "Debug: Step Into", Some("F11"), "Debug"),
        entry("debug.step_out", "Debug: Step Out", Some("Shift+F11"), "Debug"),
    ]
}

/// Bonus for a match at `cursor` after a match at `last`.
pub open spec fn bonus(last: Option<int>, cursor: int) -> int {
    match last {
        Some(l) => if cursor == l + 1 { 10 } else { -1 },
        None => 0,
    }
}

/// Greedy subsequence match of `q[qi..]` in `t[cursor..]`, accumulating
/// `t.len() - position` per matched character, +10 for a match right after
/// the previous one and -1 for one after a gap; `None` when some query
/// character is not found.
pub open spec fn fuzzy(q: Seq<char>, t: Seq<char>, qi: int, cursor: int, last: Option<int>, score: int) -> Option<int>
    decreases q.len() - qi, t.len() - cursor,
{
    if qi < 0 || qi >= q.len() {
        Some(score)
    } else if cursor < 0 || cursor >= t.len() {
        None
    } else if t[cursor] == q[qi] {
        fuzzy(q, t, qi + 1, cursor + 1, Some(cursor), score + (t.len() - cursor) + bonus(last, cursor))
    } else {
        fuzzy(q, t, qi, cursor + 1, last, score)
    }
}

/// The fuzzy score of `query` against `target`, both compared lowercased.
pub open spec fn fuzzy_score_spec(query: Seq<char>, target: Seq<char>) -> Option<int> {
    fuzzy(lowercase(query), lowercase(target), 0, 0, None, 0)
}

/// Fuzzy score of command `i` for `query`.
pub open spec fn score_of(cmds: Seq<Command>, query: Seq<char>, i: int) -> Option<int> {
    fuzzy_score_spec(query, cmds[i].label@)
}

/// `f` lists the commands to show for `query`: all of them in order for an
/// empty query, otherwise every matching command once, by decreasing score,
/// ties in command order.
pub open spec fn filtered_ok(cmds: Seq<Command>, query: Seq<char>, f: Seq<usize>) -> bool {
    if query.len() == 0 {
        f == Seq::new(cmds.len(), |i: int| i as usize)
    } else {
        &&& forall|k: int| 0 <= k < f.len() ==> #[trigger] f[k] < cmds.len() && score_of(cmds, query, f[k] as int) is Some
        &&& forall|i: int| 0 <= i < cmds.len() && (#[trigger] score_of(cmds, query, i)) is Some ==> exists|k: int| 0 <= k < f.len() && #[trigger] f[k] == i
        &&& forall|k1: int, k2: int|
            0 <= k1 < k2 < f.len() ==> score_of(cmds, query, #[trigger] f[k1] as int).unwrap() > score_of(cmds, query, #[trigger] f[k2] as int).unwrap() || (score_of(cmds, query,
                f[k1] as int,
            ).unwrap() == score_of(cmds, query, f[k2] as int).unwrap() && f[k1] < f[k2])
    }
}

fn cmd(id: &str, label: &str, shortcut: Option<&str>, category: &str) -> (c: Command)
    ensures
        command_view(c) == entry(id, label, shortcut, category),
{
    Command {
        id: id.to_owned(),
        label: label.to_owned(),
        shortcut: match shortcut {
            Some(s) => Some(s.to_owned()),
            None => None,
        },
        category: Some(category.to_owned()),
    }
}

impl CommandPalette {
    /// A hidden palette holding the default commands, all shown.
    pub fn new() -> (r: Self)
        ensures
            !r.visible,
            r.query@.len() == 0,
            r.commands@.map_values(|c: Command| command_view(c)) == default_commands(),
            r.filtered@ == Seq::new(r.commands@.len(), |i: int| i as usize),
    {
        let mut cp = CommandPalette {
            visible: false,
            query: String::new(),
            commands: Vec::new(),
            filtered: Vec::new(),
        };
        cp.register_defaults();
        cp.filter();
        cp
    }

    fn register_defaults(&mut self)
        requires
            old(self).commands@.len() == 0,
        ensures
            final(self).commands@.map_values(|c: Command| command_view(c)) == default_commands(),
            final(self).visible == old(self).visible,
            final(self).query == old(self).query,
            final(self).filtered == old(self).filtered,
    {
        let c = &mut self.commands;
        c.push(cmd("file.new", "File: New File", Some("Ctrl+N"), "File"));
        c.push(cmd("file.open", "File: Open File", Some("Ctrl+O"), "File"));
        c.push(cmd("file.save", "File: Save", Some("Ctrl+S"), "File"));
        c.push(cmd("file.save_as", "File: Save As", Some("Ctrl+Shift+S"), "File"));
        c.push(cmd("file.close", "File: Close Editor", Some("Ctrl+W"), "File"));
        c.push(cmd("file.quit", "File: Quit", Some("Ctrl+Q"), "File"));
        c.push(cmd("edit.undo", "Edit: Undo", Some("Ctrl+Z"), "Edit"));
        c.push(cmd("edit.redo", "Edit: Redo", Some("Ctrl+Y"), "Edit"));
        c.push(cmd("edit.cut", "Edit: Cut", Some("Ctrl+X"), "Edit"));
        c.push(cmd("edit.copy", "Edit: Copy", Some("Ctrl+C"), "Edit"));
        c.push(cmd("edit.paste", "Edit: Paste", Some("Ctrl+V"), "Edit"));
        c.push(cmd("edit.find", "Edit: Find", Some("Ctrl+F"), "Edit"));
        c.push(cmd("edit.replace", "Edit: Replace", Some("Ctrl+H"), "Edit"));
        c.push(cmd("view.command_palette", "View: Command Palette", Some("Ctrl+Shift+P"), "View"));
        c.push(cmd("view.terminal", "View: Toggle Terminal", Some("Ctrl+`"), "View"));
        c.push(cmd("view.sidebar", "View: Toggle Sidebar", Some("Ctrl+B"), "View"));
        c.push(cmd("view.minimap", "View: Toggle Minimap", None, "View"));
        c.push(cmd("help.about", "Help: About", None, "Help"));
        c.push(cmd("editor.format", "Editor: Format Document", Some("Shift+Alt+F"), "Editor"));
        c.push(cmd("editor.fold", "Editor: Fold", Some("Ctrl+Shift+["), "Editor"));
        c.push(cmd("editor.unfold", "Editor: Unfold", Some("Ctrl+Shift+]"), "Editor"));
        c.push(cmd("editor.comment", "Editor: Toggle Comment", Some("Ctrl+/"), "Editor"));
        c.push(cmd("git.commit", "Git: Commit", None, "Git"));
        c.push(cmd("git.push", "Git: Push", None, "Git"));
        c.push(cmd("git.pull", "Git: Pull", None, "Git"));
        c.push(cmd("debug.start", "Debug: Start Debugging", Some("F5"), "Debug"));
        c.push(cmd("debug.stop", "Debug: Stop Debugging", Some("Shift+F5"), "Debug"));
        c.push(cmd("debug.step_over", "Debug: Step Over", Some("F10"), "Debug"));
        c.push(cmd("debug.step_into", "Debug: Step Into", Some("F11"), "Debug"));
        c.push(cmd("debug.step_out", "Debug: Step Out", Some("Shift+F11"), "Debug"));
        assert(c@.map_values(|c: Command| command_view(c)) =~= default_commands());
    }

    /// Shows the palette with an empty query and every command listed.
    pub fn open(&mut self)
        ensures
            final(self).visible,
            final(self).query@.len() == 0,
            final(self).commands == old(self).commands,
            filtered_ok(final(self).commands@, final(self).query@, final(self).filtered@),
    {
        self.visible = true;
        self.query = String::new();
        self.filter();
    }

    /// Hides the palette and clears the query and the list.
    pub fn close(&mut self)
        ensures
            !final(self).visible,
            final(self).query@.len() == 0,
            final(self).filtered@.len() == 0,
            final(self).commands == old(self).commands,
    {
        self.visible = false;
        self.query = String::new();
        self.filtered = Vec::new();
    }

    /// Appends `c` to the query and filters again.
    pub fn type_char(&mut self, c: char)
        ensures
            final(self).query@ == old(self).query@.push(c),
            final(self).visible == old(self).visible,
            final(self).commands == old(self).commands,
            filtered_ok(final(self).commands@, final(self).query@, final(self).filtered@),
    {
        push_char(&mut self.query, c);
        self.filter();
    }

    /// Removes the last query character, if any, and filters again.
    pub fn backspace(&mut self)
        ensures
            old(self).query@.len() > 0 ==> final(self).query@ == old(self).query@.drop_last(),
            old(self).query@.len() == 0 ==> final(self).query@ == old(self).query@,
            final(self).visible == old(self).visible,
            final(self).commands == old(self).commands,
            filtered_ok(final(self).commands@, final(self).query@, final(self).filtered@),
    {
        pop_char(&mut self.query);
        self.filter();
    }

    /// The command shown at position `idx` of the filtered list.
    pub fn select(&self, idx: usize) -> (r: Option<&Command>)
        ensures
            idx < self.filtered@.len() && self.filtered@[idx as int] < self.commands@.len() ==> r
                == Some(&self.commands@[self.filtered@[idx as int] as int]),
            !(idx < self.filtered@.len() && self.filtered@[idx as int] < self.commands@.len())
                ==> r is None,
    {
        if idx < self.filtered.len() {
            let command_idx = self.filtered[idx];
            if command_idx < self.commands.len() {
                Some(&self.commands[command_idx])
            } else {
                None
            }
        } else {
            None
        }
    }

    fn filter(&mut self)
        ensures
            final(self).query == old(self).query,
            final(self).visible == old(self).visible,
            final(self).commands == old(self).commands,
            filtered_ok(final(self).commands@, final(self).query@, final(self).filtered@),
    {
        let n = self.commands.len();
        if self.query.as_str().is_empty() {
            let mut all: Vec<usize> = Vec::new();
            let mut i: usize = 0;
            while i < n
                invariant
                    i <= n,
                    all@ == Seq::new(i as nat, |k: int| k as usize),
                decreases n - i,
            {
                all.push(i);
                assert(all@ =~= Seq::new((i + 1) as nat, |k: int| k as usize));
                i = i + 1;
            }
            self.filtered = all;
            return;
        }
        let q = chars_of(to_lowercase(self.query.as_str()).as_str());
        let ghost cmds = self.commands@;
        let ghost query = self.query@;
        let mut scored: Vec<(usize, i128)> = Vec::new();
        let mut i: usize = 0;
        while i < n
            invariant
                i <= n,
                n == cmds.len(),
                cmds == self.commands@,
                q@ == lowercase(query),
                q@.len() <= isize::MAX,
                forall|k: int| 0 <= k < scored@.len() ==> #[trigger] scored@[k].0 < i
                    && score_of(cmds, query, scored@[k].0 as int) == Some(scored@[k].1 as int),
                forall|j: int| 0 <= j < i && (#[trigger] score_of(cmds, query, j)) is Some ==> exists|k: int|
                    0 <= k < scored@.len() && #[trigger] scored@[k].0 == j,
                forall|k1: int, k2: int|
                    0 <= k1 < k2 < scored@.len() ==> (#[trigger] scored@[k1]).1 > (#[trigger] scored@[k2]).1 || (
                    scored@[k1].1 == scored@[k2].1 && scored@[k1].0 < scored@[k2].0),
            decreases n - i,
        {
            let t = chars_of(to_lowercase(self.commands[i].label.as_str()).as_str());
            if let Some(score) = fuzzy_score(&q, &t) {
                // insert after every entry with a score at least as high
                let mut p: usize = 0;
                while p < scored.len() && scored[p].1 >= score
                    invariant
                        p <= scored@.len(),
                        forall|k: int| 0 <= k < p ==> (#[trigger] scored@[k]).1 >= score,
                    decreases scored@.len() - p,
                {
                    p = p + 1;
                }
                let ghost before = scored@;
                proof {
                    assert forall|k: int| p <= k < before.len() implies (#[trigger] before[k]).1 < score by {
                        if p < before.len() {
                            if k > p {
                                assert(before[p as int].1 > before[k].1 || before[p as int].1 == before[k].1);
                            }
                        }
                    }
                }
                scored.insert(p, (i, score));
                proof {
                    assert forall|j: int| 0 <= j < i + 1 && (#[trigger] score_of(cmds, query, j)) is Some implies exists|k: int|
                        0 <= k < scored@.len() && #[trigger] scored@[k].0 == j by {
                        if j == i {
                            assert(scored@[p as int].0 == j);
                        } else {
                            let k = choose|k: int| 0 <= k < before.len() && #[trigger] before[k].0 == j;
                            if k < p {
                                assert(scored@[k].0 == j);
                            } else {
                                assert(scored@[k + 1].0 == j);
                            }
                        }
                    }
                    assert forall|k1: int, k2: int|
                        0 <= k1 < k2 < scored@.len() implies (#[trigger] scored@[k1]).1 > (#[trigger] scored@[k2]).1 || (
                        scored@[k1].1 == scored@[k2].1 && scored@[k1].0 < scored@[k2].0) by {
                        if k1 < p && k2 < p {
                            assert(scored@[k1] == before[k1] && scored@[k2] == before[k2]);
                        } else if k1 < p && k2 == p {
                            assert(scored@[k1] == before[k1]);
                        } else if k1 < p {
                            assert(scored@[k1] == before[k1] && scored@[k2] == before[k2 - 1]);
                        } else if k1 == p {
                            assert(scored@[k2] == before[k2 - 1]);
                        } else {
                            assert(scored@[k1] == before[k1 - 1] && scored@[k2] == before[k2 - 1]);
                        }
                    }
                }
            } else {
                proof {
                    assert forall|j: int| 0 <= j < i + 1 && (#[trigger] score_of(cmds, query, j)) is Some implies exists|k: int|
                        0 <= k < scored@.len() && #[trigger] scored@[k].0 == j by {
                        if j < i {
                        }
                    }
                }
            }
            i = i + 1;
        }
        let mut out: Vec<usize> = Vec::new();
        let mut k: usize = 0;
        while k < scored.len()
            invariant
                k <= scored@.len(),
                out@.len() == k,
                forall|j: int| 0 <= j < k ==> #[trigger] out@[j] == scored@[j].0,
            decreases scored@.len() - k,
        {
            out.push(scored[k].0);
            k = k + 1;
        }
        self.filtered = out;
        proof {
            let f = self.filtered@;
            assert forall|i: int| 0 <= i < cmds.len() && (#[trigger] score_of(cmds, query, i)) is Some implies exists|k: int| 0 <= k < f.len() && #[trigger] f[k] == i by {
                let k = choose|k: int| 0 <= k < scored@.len() && #[trigger] scored@[k].0 == i;
                assert(f[k] == i);
            }
            assert forall|k1: int, k2: int|
                0 <= k1 < k2 < f.len() implies score_of(cmds, query, #[trigger] f[k1] as int).unwrap() > score_of(cmds, query, #[trigger] f[k2] as int).unwrap() || (score_of(cmds, query,
                    f[k1] as int,
                ).unwrap() == score_of(cmds, query, f[k2] as int).unwrap() && f[k1] < f[k2]) by {
                assert(scored@[k1].1 > scored@[k2].1 || (scored@[k1].1 == scored@[k2].1 && scored@[k1].0 < scored@[k2].0));
            }
        }
    }
}

/// The fuzzy score of `query` against `target`, compared lowercased (the
/// score the file picker ranks files by as well).
pub fn fuzzy_match(query: &str, target: &str) -> (r: Option<i128>)
    ensures
        r matches Some(s) ==> fuzzy_score_spec(query@, target@) == Some(s as int),
        r is None ==> fuzzy_score_spec(query@, target@) is None,
{
    let q = chars_of(to_lowercase(query).as_str());
    let t = chars_of(to_lowercase(target).as_str());
    fuzzy_score(&q, &t)
}

/// Score of the greedy fuzzy match of `q` in `t` (both already lowercased).
fn fuzzy_score(q: &Vec<char>, t: &Vec<char>) -> (r: Option<i128>)
    requires
        t@.len() <= isize::MAX,
    ensures
        r matches Some(s) ==> fuzzy(q@, t@, 0, 0, None, 0) == Some(s as int),
        r is None ==> fuzzy(q@, t@, 0, 0, None, 0) is None,
{
    let tl = t.len();
    let mut score: i128 = 0;
    let mut last: Option<usize> = None;
    let mut cursor: usize = 0;
    let mut qi: usize = 0;
    while qi < q.len()
        invariant
            tl == t@.len(),
            tl <= isize::MAX,
            qi <= q@.len(),
            cursor <= tl,
            -(cursor as int) <= score <= cursor * (tl + 10),
            last matches Some(l) ==> l < cursor,
            fuzzy(q@, t@, 0, 0, None, 0) == fuzzy(q@, t@, qi as int, cursor as int, opt_usize(last), score as int),
        decreases q@.len() - qi,
    {
        let qc = q[qi];
        let mut found = false;
        while cursor < tl
            invariant_except_break
                !found,
                fuzzy(q@, t@, 0, 0, None, 0) == fuzzy(q@, t@, qi as int, cursor as int, opt_usize(last), score as int),
            invariant
                tl == t@.len(),
                tl <= isize::MAX,
                qi < q@.len(),
                qc == q@[qi as int],
                cursor <= tl,
                -(cursor as int) <= score <= cursor * (tl + 10),
                last matches Some(l) ==> l < cursor,
            ensures
                cursor <= tl,
                -(cursor as int) <= score <= cursor * (tl + 10),
                last matches Some(l) ==> l < cursor,
                found ==> fuzzy(q@, t@, 0, 0, None, 0) == fuzzy(q@, t@, qi + 1, cursor as int, opt_usize(last), score as int),
                !found ==> cursor == tl && fuzzy(q@, t@, 0, 0, None, 0) == fuzzy(q@, t@, qi as int, cursor as int, opt_usize(last), score as int),
            decreases tl - cursor,
        {
            if t[cursor] == qc {
                let b: i128 = match last {
                    Some(l) => if cursor == l + 1 { 10 } else { -1 },
                    None => 0,
                };
                proof {
                    assert(cursor * (tl + 10) + (tl - cursor) + 10 <= (cursor + 1) * (tl + 10)) by (nonlinear_arith)
                        requires cursor <= tl;
                    assert((cursor + 1) * (tl + 10) <= (tl + 1) * (tl + 10)) by (nonlinear_arith)
                        requires cursor <= tl;
                    assert((tl + 1) * (tl + 10) < 0x7fff_ffff_ffff_ffff_ffff_ffff_ffff_ffff) by (nonlinear_arith)
                        requires tl <= 0x7fff_ffff_ffff_ffff;
                }
                score = score + (tl - cursor) as i128 + b;
                last = Some(cursor);
                cursor = cursor + 1;
                found = true;
                break;
            }
            proof {
                assert(cursor * (tl + 10) <= (cursor + 1) * (tl + 10)) by (nonlinear_arith);
            }
            cursor = cursor + 1;
        }
        if !found {
            return None;
        }
        qi = qi + 1;
    }
    Some(score)
}

pub open spec fn opt_usize(o: Option<usize>) -> Option<int> {
    match o {
        Some(v) => Some(v as int),
        None => None,
    }
}

} // verus!
