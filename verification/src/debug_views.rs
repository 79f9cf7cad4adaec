//! The variables and call-stack views of the debugger: the text each one
//! shows for a paused debug session.
use vstd::prelude::*;
use vstd::string::StringExecFns;
use crate::debug_ui::StackFrame;
use crate::text::{decimal, usize_text};

verus! {

/// A variable of a paused program; a compound one has children.
pub struct Variable {
    pub name: String,
    pub value: String,
    pub children: Vec<Variable>,
    pub expanded: bool,
}

/// A scope of the paused frame (locals, globals, ...).
pub struct Scope {
    pub name: String,
    pub expanded: bool,
    pub variables: Vec<Variable>,
}

/// What the views read of a paused debug session.
pub struct DebugSession {
    pub scopes: Vec<Scope>,
    pub stack_frames: Vec<StackFrame>,
}

/// `n` copies of two spaces.
pub open spec fn indent(n: nat) -> Seq<char>
    decreases n,
{
    if n == 0 {
        Seq::empty()
    } else {
        indent((n - 1) as nat) + "  "@
    }
}

/// The marker before a variable's name: open or closed for a compound
/// variable, blank for a simple one.
pub open spec fn var_icon(v: Variable) -> Seq<char> {
    if v.children@.len() > 0 {
        if v.expanded {
            "v "@
        } else {
            "> "@
        }
    } else {
        "  "@
    }
}

/// The line of a variable at `depth`, then those of its children one level
/// deeper while it is expanded.
pub open spec fn var_text(v: Variable, depth: nat) -> Seq<char>
    decreases v, 0nat,
{
    indent(depth) + var_icon(v) + v.name@ + ": "@ + v.value@ + "\n"@ + if v.expanded {
        vars_text(v.children@, depth + 1, v.children@.len())
    } else {
        Seq::empty()
    }
}

/// The text of the first `n` variables of `s` at `depth`.
pub open spec fn vars_text(s: Seq<Variable>, depth: nat, n: nat) -> Seq<char>
    decreases s, n,
{
    if n == 0 || n > s.len() {
        Seq::empty()
    } else {
        vars_text(s, depth, (n - 1) as nat) + var_text(s[n - 1], depth)
    }
}

/// The levels of a variable tree: one for a leaf.
pub open spec fn height(v: Variable) -> nat
    decreases v, 0nat,
{
    1 + max_height(v.children@, v.children@.len())
}

/// The greatest height among the first `n` variables of `s`.
pub open spec fn max_height(s: Seq<Variable>, n: nat) -> nat
    decreases s, n,
{
    if n == 0 || n > s.len() {
        0
    } else {
        let a = max_height(s, (n - 1) as nat);
        let b = height(s[n - 1]);
        if a < b {
            b
        } else {
            a
        }
    }
}

pub open spec fn scopes_text(s: Seq<Scope>) -> Seq<char>
    decreases s.len(),
{
    if s.len() == 0 {
        Seq::empty()
    } else {
        scopes_text(s.drop_last()) + "> "@ + s.last().name@ + "\n"@ + if s.last().expanded {
            vars_text(s.last().variables@, 1, s.last().variables@.len())
        } else {
            Seq::empty()
        }
    }
}

pub open spec fn stack_text(s: Seq<StackFrame>) -> Seq<char>
    decreases s.len(),
{
    if s.len() == 0 {
        Seq::empty()
    } else {
        stack_text(s.drop_last()) + "  "@ + s.last().name@ + " ("@ + s.last().file@ + ":"@ + decimal(
            s.last().line as nat,
        ) + ")\n"@
    }
}

/// The variables of the current stack frame.
pub struct VariablesTree;

impl VariablesTree {
    /// The scopes of the session, each followed, while expanded, by its
    /// variables, indented by depth.
    pub fn render_text(session: &DebugSession) -> (r: String)
        requires
            forall|i: int, j: int|
                0 <= i < session.scopes@.len() && 0 <= j < session.scopes@[i].variables@.len()
                    ==> height(#[trigger] session.scopes@[i].variables@[j]) < usize::MAX,
        ensures
            r@ == "VARIABLES\n"@ + scopes_text(session.scopes@),
    {
        let mut text = String::from_str("VARIABLES\n");
        let ghost s = session.scopes@;
        let mut i: usize = 0;
        while i < session.scopes.len()
            invariant
                i <= s.len(),
                s == session.scopes@,
                forall|a: int, j: int|
                    0 <= a < s.len() && 0 <= j < s[a].variables@.len() ==> height(#[trigger] s[a].variables@[j])
                        < usize::MAX,
                text@ == "VARIABLES\n"@ + scopes_text(s.take(i as int)),
            decreases s.len() - i,
        {
            let scope = &session.scopes[i];
            assert(s.take(i + 1).drop_last() == s.take(i as int));
            text.append("> ");
            text.append(scope.name.as_str());
            text.append("\n");
            if scope.expanded {
                let ghost start = text@;
                let mut k: usize = 0;
                while k < scope.variables.len()
                    invariant
                        k <= scope.variables@.len(),
                        forall|j: int| 0 <= j < scope.variables@.len() ==> height(#[trigger] scope.variables@[j]) < usize::MAX,
                        text@ == start + vars_text(scope.variables@, 1, k as nat),
                    decreases scope.variables@.len() - k,
                {
                    Self::render_var(&mut text, &scope.variables[k], 1);
                    k = k + 1;
                }
            }
            assert(text@ =~= "VARIABLES\n"@ + scopes_text(s.take(i + 1)));
            i = i + 1;
        }
        assert(s.take(s.len() as int) == s);
        text
    }

    /// Appends the line of `var` at `depth`, then, while it is expanded, its
    /// children one level deeper.
    fn render_var(text: &mut String, var: &Variable, depth: usize)
        requires
            depth + height(*var) <= usize::MAX,
        ensures
            final(text)@ == old(text)@ + var_text(*var, depth as nat),
        decreases *var,
    {
        let mut k: usize = 0;
        let ghost start = text@;
        while k < depth
            invariant
                k <= depth,
                text@ == start + indent(k as nat),
            decreases depth - k,
        {
            text.append("  ");
            k = k + 1;
        }
        if var.children.len() > 0 {
            if var.expanded {
                text.append("v ");
            } else {
                text.append("> ");
            }
        } else {
            text.append("  ");
        }
        text.append(var.name.as_str());
        text.append(": ");
        text.append(var.value.as_str());
        text.append("\n");
        let ghost line_done = text@;
        assert(line_done == old(text)@ + indent(depth as nat) + var_icon(*var) + var.name@ + ": "@ + var.value@ + "\n"@);
        if var.expanded {
            let mut c: usize = 0;
            while c < var.children.len()
                invariant
                    c <= var.children@.len(),
                    depth + height(*var) <= usize::MAX,
                    text@ == line_done + vars_text(var.children@, (depth + 1) as nat, c as nat),
                decreases var.children@.len() - c,
            {
                proof {
                    lemma_child_height(*var, c as int);
                }
                Self::render_var(text, &var.children[c], depth + 1);
                c = c + 1;
            }
        }
    }
}

/// A child is lower than its parent.
proof fn lemma_child_height(v: Variable, c: int)
    requires
        0 <= c < v.children@.len(),
    ensures
        height(v.children@[c]) < height(v),
{
    lemma_max_height_ge(v.children@, v.children@.len(), c);
}

proof fn lemma_max_height_ge(s: Seq<Variable>, n: nat, c: int)
    requires
        0 <= c < n <= s.len(),
    ensures
        height(s[c]) <= max_height(s, n),
    decreases n,
{
    if c < n - 1 {
        lemma_max_height_ge(s, (n - 1) as nat, c);
    }
}

/// The frames of the current call stack.
pub struct CallStackList;

impl CallStackList {
    /// Each frame of the session's stack with its file and line.
    pub fn render_text(session: &DebugSession) -> (r: String)
        ensures
            r@ == "CALL STACK\n"@ + stack_text(session.stack_frames@),
    {
        let mut text = String::from_str("CALL STACK\n");
        let ghost s = session.stack_frames@;
        let mut i: usize = 0;
        while i < session.stack_frames.len()
            invariant
                i <= s.len(),
                s == session.stack_frames@,
                text@ == "CALL STACK\n"@ + stack_text(s.take(i as int)),
            decreases s.len() - i,
        {
            let frame = &session.stack_frames[i];
            assert(s.take(i + 1).drop_last() == s.take(i as int));
            text.append("  ");
            text.append(frame.name.as_str());
            text.append(" (");
            text.append(frame.file.as_str());
            text.append(":");
            let num = usize_text(frame.line);
            text.append(num.as_str());
            text.append(")\n");
            assert(text@ =~= "CALL STACK\n"@ + stack_text(s.take(i + 1)));
            i = i + 1;
        }
        assert(s.take(s.len() as int) == s);
        text
    }
}

} // verus!
