//! Matching-bracket lookup that skips string literals and comments.
use vstd::prelude::*;
use crate::text::chars_of;

verus! {

/// Lexical context of the bracket scanner.
#[derive(Clone, Copy, Debug, PartialEq, Eq, Structural)]
pub enum ScanMode {
    Normal,
    LineComment,
    BlockComment,
    Str,
}

pub open spec fn is_open(c: char) -> bool {
    c == '(' || c == '[' || c == '{'
}

pub open spec fn is_close(c: char) -> bool {
    c == ')' || c == ']' || c == '}'
}

/// `open` and `close` form a pair of the same kind.
pub open spec fn pairs(open: char, close: char) -> bool {
    (open == '(' && close == ')') || (open == '[' && close == ']') || (open == '{' && close == '}')
}

/// Character `i + 1` of `t` exists and is `d`.
pub open spec fn next_is(t: Seq<char>, i: nat, d: char) -> bool {
    i + 1 < t.len() && t[i + 1 as int] == d
}

/// The scanner, run from character `i` of `t` in the given state, looking for
/// the partner of the bracket at `(tl, tc)`.  The stack holds the open
/// brackets not yet closed, with their (line, column) positions.
pub open spec fn scan(
    t: Seq<char>,
    tl: nat,
    tc: nat,
    i: nat,
    line: nat,
    col: nat,
    mode: ScanMode,
    stack: Seq<(char, nat, nat)>,
) -> Option<(nat, nat)>
    decreases t.len() - i,
{
    if i >= t.len() {
        None
    } else {
        let c = t[i as int];
        if c == '\n' {
            let m = if mode == ScanMode::LineComment { ScanMode::Normal } else { mode };
            scan(t, tl, tc, i + 1, line + 1, 0, m, stack)
        } else {
            match mode {
                ScanMode::LineComment => scan(t, tl, tc, i + 1, line, col + 1, mode, stack),
                ScanMode::BlockComment => {
                    if c == '*' && next_is(t, i, '/') {
                        scan(t, tl, tc, i + 2, line, col + 2, ScanMode::Normal, stack)
                    } else {
                        scan(t, tl, tc, i + 1, line, col + 1, mode, stack)
                    }
                },
                ScanMode::Str => {
                    if c == '\\' && i + 1 < t.len() {
                        scan(t, tl, tc, i + 2, line, col + 2, mode, stack)
                    } else if c == '"' {
                        scan(t, tl, tc, i + 1, line, col + 1, ScanMode::Normal, stack)
                    } else {
                        scan(t, tl, tc, i + 1, line, col + 1, mode, stack)
                    }
                },
                ScanMode::Normal => {
                    if c == '/' && next_is(t, i, '/') {
                        scan(t, tl, tc, i + 2, line, col + 2, ScanMode::LineComment, stack)
                    } else if c == '/' && next_is(t, i, '*') {
                        scan(t, tl, tc, i + 2, line, col + 2, ScanMode::BlockComment, stack)
                    } else if c == '"' {
                        scan(t, tl, tc, i + 1, line, col + 1, ScanMode::Str, stack)
                    } else if is_open(c) {
                        scan(t, tl, tc, i + 1, line, col + 1, mode, stack.push((c, line, col)))
                    } else if is_close(c) && stack.len() > 0 {
                        let top = stack.last();
                        let rest = stack.drop_last();
                        if pairs(top.0, c) && top.1 == tl && top.2 == tc {
                            Some((line, col))
                        } else if pairs(top.0, c) && line == tl && col == tc {
                            Some((top.1, top.2))
                        } else {
                            scan(t, tl, tc, i + 1, line, col + 1, mode, rest)
                        }
                    } else {
                        scan(t, tl, tc, i + 1, line, col + 1, mode, stack)
                    }
                },
            }
        }
    }
}

/// The partner of the bracket at `(line, col)` of `t` (0-based), if the
/// scan from the start of `t` pairs it with one.
pub open spec fn matching_bracket(t: Seq<char>, line: nat, col: nat) -> Option<(nat, nat)> {
    scan(t, line, col, 0, 0, 0, ScanMode::Normal, Seq::empty())
}

pub open spec fn stack_view(s: Seq<(char, usize, usize)>) -> Seq<(char, nat, nat)> {
    s.map_values(|e: (char, usize, usize)| (e.0, e.1 as nat, e.2 as nat))
}

/// Finds the bracket that pairs with the one at a given position.
pub struct BracketMatcher;

impl BracketMatcher {
    /// The position of the bracket paired with the bracket at `(line, col)`
    /// of `text`; brackets inside `"…"` strings, `// …` and `/* … */`
    /// comments are ignored.
    pub fn find_match(text: &str, line: usize, col: usize) -> (r: Option<(usize, usize)>)
        ensures
            r matches Some(p) ==> matching_bracket(text@, line as nat, col as nat) == Some(
                (p.0 as nat, p.1 as nat),
            ),
            r is None ==> matching_bracket(text@, line as nat, col as nat) is None,
    {
        let t = chars_of(text);
        let n = t.len();
        let ghost tl = line as nat;
        let ghost tc = col as nat;
        let mut stack: Vec<(char, usize, usize)> = Vec::new();
        let mut cur_line: usize = 0;
        let mut cur_col: usize = 0;
        let mut mode = ScanMode::Normal;
        let mut i: usize = 0;
        assert(stack_view(stack@) == Seq::<(char, nat, nat)>::empty());
        while i < n
            invariant
                n == t@.len(),
                t@ == text@,
                tl == line as nat,
                tc == col as nat,
                i <= n,
                cur_line <= i,
                cur_col <= i,
                forall|k: int| 0 <= k < stack@.len() ==> stack@[k].1 <= i && stack@[k].2 <= i,
                scan(t@, tl, tc, 0, 0, 0, ScanMode::Normal, Seq::empty()) == scan(
                    t@,
                    tl,
                    tc,
                    i as nat,
                    cur_line as nat,
                    cur_col as nat,
                    mode,
                    stack_view(stack@),
                ),
            decreases n - i,
        {
            let c = t[i];
            let has_next = i + 1 < n;
            if c == '\n' {
                cur_line = cur_line + 1;
                cur_col = 0;
                if mode == ScanMode::LineComment {
                    mode = ScanMode::Normal;
                }
                i = i + 1;
                continue;
            }
            let pos_line = cur_line;
            let pos_col = cur_col;
            match mode {
                ScanMode::LineComment => {
                    cur_col = cur_col + 1;
                    i = i + 1;
                },
                ScanMode::BlockComment => {
                    if c == '*' && has_next && t[i + 1] == '/' {
                        cur_col = cur_col + 2;
                        mode = ScanMode::Normal;
                        i = i + 2;
                    } else {
                        cur_col = cur_col + 1;
                        i = i + 1;
                    }
                },
                ScanMode::Str => {
                    if c == '\\' && has_next {
                        cur_col = cur_col + 2;
                        i = i + 2;
                    } else if c == '"' {
                        cur_col = cur_col + 1;
                        mode = ScanMode::Normal;
                        i = i + 1;
                    } else {
                        cur_col = cur_col + 1;
                        i = i + 1;
                    }
                },
                ScanMode::Normal => {
                    if c == '/' && has_next && t[i + 1] == '/' {
                        cur_col = cur_col + 2;
                        mode = ScanMode::LineComment;
                        i = i + 2;
                    } else if c == '/' && has_next && t[i + 1] == '*' {
                        cur_col = cur_col + 2;
                        mode = ScanMode::BlockComment;
                        i = i + 2;
                    } else if c == '"' {
                        cur_col = cur_col + 1;
                        mode = ScanMode::Str;
                        i = i + 1;
                    } else if c == '(' || c == '[' || c == '{' {
                        proof {
                            assert(stack_view(stack@.push((c, pos_line, pos_col))) == stack_view(
                                stack@,
                            ).push((c, pos_line as nat, pos_col as nat)));
                        }
                        stack.push((c, pos_line, pos_col));
                        cur_col = cur_col + 1;
                        i = i + 1;
                    } else if (c == ')' || c == ']' || c == '}') && stack.len() > 0 {
                        let ghost before = stack@;
                        let top = stack.pop().unwrap();
                        proof {
                            assert(stack_view(before).last() == (
                                top.0,
                                top.1 as nat,
                                top.2 as nat,
                            ));
                            assert(stack_view(before).drop_last() == stack_view(stack@));
                        }
                        let (oc, ol, occ) = top;
                        let is_pair = Self::matches(oc, c);
                        if is_pair && ol == line && occ == col {
                            return Some((pos_line, pos_col));
                        }
                        if is_pair && pos_line == line && pos_col == col {
                            return Some((ol, occ));
                        }
                        cur_col = cur_col + 1;
                        i = i + 1;
                    } else {
                        cur_col = cur_col + 1;
                        i = i + 1;
                    }
                },
            }
        }
        None
    }

    /// `open` and `close` are brackets of the same kind.
    fn matches(open: char, close: char) -> (r: bool)
        ensures
            r == pairs(open, close),
    {
        match (open, close) {
            ('(', ')') => true,
            ('[', ']') => true,
            ('{', '}') => true,
            _ => false,
        }
    }
}

/// A pair of positions: an opening bracket's and its closing bracket's.
pub type BracketPair = ((nat, nat), (nat, nat));

/// The pairs of matching brackets the scanner meets from character `i` on,
/// in the order their closing brackets come.
pub open spec fn scan_pairs(
    t: Seq<char>,
    i: nat,
    line: nat,
    col: nat,
    mode: ScanMode,
    stack: Seq<(char, nat, nat)>,
) -> Seq<BracketPair>
    decreases t.len() - i,
{
    if i >= t.len() {
        Seq::empty()
    } else {
        let c = t[i as int];
        if c == '\n' {
            let m = if mode == ScanMode::LineComment { ScanMode::Normal } else { mode };
            scan_pairs(t, i + 1, line + 1, 0, m, stack)
        } else {
            match mode {
                ScanMode::LineComment => scan_pairs(t, i + 1, line, col + 1, mode, stack),
                ScanMode::BlockComment => {
                    if c == '*' && next_is(t, i, '/') {
                        scan_pairs(t, i + 2, line, col + 2, ScanMode::Normal, stack)
                    } else {
                        scan_pairs(t, i + 1, line, col + 1, mode, stack)
                    }
                },
                ScanMode::Str => {
                    if c == '\\' && i + 1 < t.len() {
                        scan_pairs(t, i + 2, line, col + 2, mode, stack)
                    } else if c == '"' {
                        scan_pairs(t, i + 1, line, col + 1, ScanMode::Normal, stack)
                    } else {
                        scan_pairs(t, i + 1, line, col + 1, mode, stack)
                    }
                },
                ScanMode::Normal => {
                    if c == '/' && next_is(t, i, '/') {
                        scan_pairs(t, i + 2, line, col + 2, ScanMode::LineComment, stack)
                    } else if c == '/' && next_is(t, i, '*') {
                        scan_pairs(t, i + 2, line, col + 2, ScanMode::BlockComment, stack)
                    } else if c == '"' {
                        scan_pairs(t, i + 1, line, col + 1, ScanMode::Str, stack)
                    } else if is_open(c) {
                        scan_pairs(t, i + 1, line, col + 1, mode, stack.push((c, line, col)))
                    } else if is_close(c) && stack.len() > 0 {
                        let top = stack.last();
                        let rest = scan_pairs(t, i + 1, line, col + 1, mode, stack.drop_last());
                        if pairs(top.0, c) {
                            seq![((top.1, top.2), (line, col))] + rest
                        } else {
                            rest
                        }
                    } else {
                        scan_pairs(t, i + 1, line, col + 1, mode, stack)
                    }
                },
            }
        }
    }
}

/// The partner of `p` in the first pair that holds it.
pub open spec fn first_partner(ps: Seq<BracketPair>, p: (nat, nat)) -> Option<(nat, nat)>
    decreases ps.len(),
{
    if ps.len() == 0 {
        None
    } else if ps[0].0 == p {
        Some(ps[0].1)
    } else if ps[0].1 == p {
        Some(ps[0].0)
    } else {
        first_partner(ps.drop_first(), p)
    }
}

/// Position `a` comes before position `b` in the text.
pub open spec fn before(a: (nat, nat), b: (nat, nat)) -> bool {
    a.0 < b.0 || (a.0 == b.0 && a.1 < b.1)
}

pub open spec fn at(e: (char, nat, nat)) -> (nat, nat) {
    (e.1, e.2)
}

/// The open brackets waiting on the stack come before the current
/// position, in increasing order.
pub open spec fn stack_ok(stack: Seq<(char, nat, nat)>, cur: (nat, nat)) -> bool {
    &&& forall|j: int| 0 <= j < stack.len() ==> before(#[trigger] at(stack[j]), cur)
    &&& forall|j: int, k: int| 0 <= j < k < stack.len() ==> before(#[trigger] at(stack[j]), #[trigger] at(stack[k]))
}

pub open spec fn in_stack(stack: Seq<(char, nat, nat)>, p: (nat, nat)) -> bool {
    exists|j: int| 0 <= j < stack.len() && #[trigger] at(stack[j]) == p
}

/// What the scan from a state guarantees of the pairs it finds: every
/// position is used once, each opening bracket comes before its closing
/// one, closing brackets come at or after the current position in
/// increasing order, opening ones are on the stack or come later.
pub open spec fn pairs_ok(ps: Seq<BracketPair>, stack: Seq<(char, nat, nat)>, cur: (nat, nat)) -> bool {
    &&& forall|k: int| 0 <= k < ps.len() ==> !before(#[trigger] ps[k].1, cur)
    &&& forall|k: int, m: int| 0 <= k < m < ps.len() ==> before(#[trigger] ps[k].1, #[trigger] ps[m].1)
    &&& forall|k: int| 0 <= k < ps.len() ==> before(#[trigger] ps[k].0, ps[k].1)
    &&& forall|k: int| 0 <= k < ps.len() ==> in_stack(stack, #[trigger] ps[k].0) || !before(ps[k].0, cur)
    &&& forall|k: int, m: int| 0 <= k < ps.len() && 0 <= m < ps.len() && k != m ==> #[trigger] ps[k].0 != #[trigger] ps[m].0
    &&& forall|k: int, m: int| 0 <= k < ps.len() && 0 <= m < ps.len() ==> #[trigger] ps[k].0 != #[trigger] ps[m].1
}

proof fn lemma_pairs_ok_later(ps: Seq<BracketPair>, stack: Seq<(char, nat, nat)>, cur: (nat, nat), next: (nat, nat))
    requires
        pairs_ok(ps, stack, next),
        before(cur, next),
    ensures
        pairs_ok(ps, stack, cur),
{
}

/// The scan from a consistent state finds well-formed pairs.
#[verifier::rlimit(60)]
proof fn lemma_scan_pairs_ok(
    t: Seq<char>,
    i: nat,
    line: nat,
    col: nat,
    mode: ScanMode,
    stack: Seq<(char, nat, nat)>,
)
    requires
        stack_ok(stack, (line, col)),
    ensures
        pairs_ok(scan_pairs(t, i, line, col, mode, stack), stack, (line, col)),
    decreases t.len() - i,
{
    let cur = (line, col);
    if i < t.len() {
        let c = t[i as int];
        if c == '\n' {
            let m = if mode == ScanMode::LineComment { ScanMode::Normal } else { mode };
            lemma_scan_pairs_ok(t, i + 1, line + 1, 0, m, stack);
            lemma_pairs_ok_later(scan_pairs(t, i + 1, line + 1, 0, m, stack), stack, cur, (line + 1, 0));
        } else if mode == ScanMode::Normal && !(c == '/' && next_is(t, i, '/')) && !(c == '/' && next_is(t, i, '*'))
            && c != '"' && is_open(c) {
            let st = stack.push((c, line, col));
            let next = (line, col + 1);
            assert(at(st[st.len() - 1]) == cur);
            assert forall|j: int, k: int| 0 <= j < k < st.len() implies before(#[trigger] at(st[j]), #[trigger] at(st[k])) by {
                if k < stack.len() {
                    assert(st[j] == stack[j] && st[k] == stack[k]);
                } else {
                    assert(st[j] == stack[j]);
                }
            }
            assert forall|j: int| 0 <= j < st.len() implies before(#[trigger] at(st[j]), next) by {
                if j < stack.len() {
                    assert(st[j] == stack[j]);
                }
            }
            lemma_scan_pairs_ok(t, i + 1, line, col + 1, mode, st);
            let ps = scan_pairs(t, i + 1, line, col + 1, mode, st);
            assert forall|k: int| 0 <= k < ps.len() implies in_stack(stack, #[trigger] ps[k].0) || !before(ps[k].0, cur) by {
                if in_stack(st, ps[k].0) {
                    let j = choose|j: int| 0 <= j < st.len() && #[trigger] at(st[j]) == ps[k].0;
                    if j < stack.len() {
                        assert(st[j] == stack[j]);
                        assert(in_stack(stack, ps[k].0));
                    }
                }
            }
        } else if mode == ScanMode::Normal && !(c == '/' && next_is(t, i, '/')) && !(c == '/' && next_is(t, i, '*'))
            && c != '"' && !is_open(c) && is_close(c) && stack.len() > 0 {
            let top = stack.last();
            let rest = stack.drop_last();
            let next = (line, col + 1);
            assert forall|j: int| 0 <= j < rest.len() implies before(#[trigger] at(rest[j]), next) by {
                assert(rest[j] == stack[j]);
            }
            assert forall|j: int, k: int| 0 <= j < k < rest.len() implies before(#[trigger] at(rest[j]), #[trigger] at(rest[k])) by {
                assert(rest[j] == stack[j] && rest[k] == stack[k]);
            }
            lemma_scan_pairs_ok(t, i + 1, line, col + 1, mode, rest);
            let ps1 = scan_pairs(t, i + 1, line, col + 1, mode, rest);
            assert(before(at(stack[stack.len() - 1]), cur));
            assert forall|k: int| 0 <= k < ps1.len() && in_stack(rest, #[trigger] ps1[k].0) implies in_stack(stack, ps1[k].0)
                && before(ps1[k].0, at(top)) by {
                let j = choose|j: int| 0 <= j < rest.len() && #[trigger] at(rest[j]) == ps1[k].0;
                assert(rest[j] == stack[j]);
                assert(before(at(stack[j]), at(stack[stack.len() - 1])));
            }
            if pairs(top.0, c) {
                let ps = seq![((top.1, top.2), cur)] + ps1;
                assert(ps.drop_first() =~= ps1);
                assert forall|k: int| 0 <= k < ps.len() implies in_stack(stack, #[trigger] ps[k].0) || !before(ps[k].0, cur) by {
                    if k == 0 {
                        assert(at(stack[stack.len() - 1]) == ps[0].0);
                    } else {
                        assert(ps[k] == ps1[k - 1]);
                    }
                }
                assert forall|k: int, m: int| 0 <= k < ps.len() && 0 <= m < ps.len() && k != m implies #[trigger] ps[k].0
                    != #[trigger] ps[m].0 by {
                    if k > 0 && m > 0 {
                        assert(ps[k] == ps1[k - 1] && ps[m] == ps1[m - 1]);
                    } else if k == 0 {
                        assert(ps[m] == ps1[m - 1]);
                    } else {
                        assert(ps[k] == ps1[k - 1]);
                    }
                }
                assert forall|k: int, m: int| 0 <= k < ps.len() && 0 <= m < ps.len() implies #[trigger] ps[k].0
                    != #[trigger] ps[m].1 by {
                    if k > 0 {
                        assert(ps[k] == ps1[k - 1]);
                    }
                    if m > 0 {
                        assert(ps[m] == ps1[m - 1]);
                    }
                }
                assert forall|k: int, m: int| 0 <= k < m < ps.len() implies before(#[trigger] ps[k].1, #[trigger] ps[m].1) by {
                    assert(ps[m] == ps1[m - 1]);
                    if k > 0 {
                        assert(ps[k] == ps1[k - 1]);
                    }
                }
                assert forall|k: int| 0 <= k < ps.len() implies !before(#[trigger] ps[k].1, cur) && before(ps[k].0, ps[k].1) by {
                    if k > 0 {
                        assert(ps[k] == ps1[k - 1]);
                    }
                }
            } else {
                assert forall|k: int| 0 <= k < ps1.len() implies in_stack(stack, #[trigger] ps1[k].0) || !before(ps1[k].0, cur) by {
                }
            }
        } else {
            lemma_scan_pairs_ok_skip(t, i, line, col, mode, stack);
        }
    }
}

/// The steps of the scan that find no bracket keep the guarantee.
#[verifier::rlimit(40)]
proof fn lemma_scan_pairs_ok_skip(
    t: Seq<char>,
    i: nat,
    line: nat,
    col: nat,
    mode: ScanMode,
    stack: Seq<(char, nat, nat)>,
)
    requires
        stack_ok(stack, (line, col)),
        i < t.len(),
        t[i as int] != '\n',
        !(mode == ScanMode::Normal && !(t[i as int] == '/' && next_is(t, i, '/')) && !(t[i as int] == '/' && next_is(t, i, '*'))
            && t[i as int] != '"' && (is_open(t[i as int]) || (is_close(t[i as int]) && stack.len() > 0))),
    ensures
        pairs_ok(scan_pairs(t, i, line, col, mode, stack), stack, (line, col)),
    decreases t.len() - i, 0nat,
{
    let cur = (line, col);
    let c = t[i as int];
    let (di, m): (nat, ScanMode) = match mode {
        ScanMode::LineComment => (1, mode),
        ScanMode::BlockComment => if c == '*' && next_is(t, i, '/') { (2, ScanMode::Normal) } else { (1, mode) },
        ScanMode::Str => if c == '\\' && i + 1 < t.len() {
            (2, mode)
        } else if c == '"' {
            (1, ScanMode::Normal)
        } else {
            (1, mode)
        },
        ScanMode::Normal => if c == '/' && next_is(t, i, '/') {
            (2, ScanMode::LineComment)
        } else if c == '/' && next_is(t, i, '*') {
            (2, ScanMode::BlockComment)
        } else if c == '"' {
            (1, ScanMode::Str)
        } else {
            (1, mode)
        },
    };
    assert(scan_pairs(t, i, line, col, mode, stack) == scan_pairs(t, i + di, line, col + di, m, stack));
    lemma_scan_pairs_ok(t, i + di, line, col + di, m, stack);
    lemma_pairs_ok_later(scan_pairs(t, i + di, line, col + di, m, stack), stack, cur, (line, col + di));
}

/// The targeted scan answers with the partner from the first pair that
/// holds the target.
proof fn lemma_scan_is_first_partner(
    t: Seq<char>,
    tl: nat,
    tc: nat,
    i: nat,
    line: nat,
    col: nat,
    mode: ScanMode,
    stack: Seq<(char, nat, nat)>,
)
    ensures
        scan(t, tl, tc, i, line, col, mode, stack) == first_partner(scan_pairs(t, i, line, col, mode, stack), (tl, tc)),
    decreases t.len() - i,
{
    if i < t.len() {
        let c = t[i as int];
        if c == '\n' {
            let m = if mode == ScanMode::LineComment { ScanMode::Normal } else { mode };
            lemma_scan_is_first_partner(t, tl, tc, i + 1, line + 1, 0, m, stack);
        } else {
            match mode {
                ScanMode::LineComment => lemma_scan_is_first_partner(t, tl, tc, i + 1, line, col + 1, mode, stack),
                ScanMode::BlockComment => {
                    if c == '*' && next_is(t, i, '/') {
                        lemma_scan_is_first_partner(t, tl, tc, i + 2, line, col + 2, ScanMode::Normal, stack);
                    } else {
                        lemma_scan_is_first_partner(t, tl, tc, i + 1, line, col + 1, mode, stack);
                    }
                },
                ScanMode::Str => {
                    if c == '\\' && i + 1 < t.len() {
                        lemma_scan_is_first_partner(t, tl, tc, i + 2, line, col + 2, mode, stack);
                    } else if c == '"' {
                        lemma_scan_is_first_partner(t, tl, tc, i + 1, line, col + 1, ScanMode::Normal, stack);
                    } else {
                        lemma_scan_is_first_partner(t, tl, tc, i + 1, line, col + 1, mode, stack);
                    }
                },
                ScanMode::Normal => {
                    if c == '/' && next_is(t, i, '/') {
                        lemma_scan_is_first_partner(t, tl, tc, i + 2, line, col + 2, ScanMode::LineComment, stack);
                    } else if c == '/' && next_is(t, i, '*') {
                        lemma_scan_is_first_partner(t, tl, tc, i + 2, line, col + 2, ScanMode::BlockComment, stack);
                    } else if c == '"' {
                        lemma_scan_is_first_partner(t, tl, tc, i + 1, line, col + 1, ScanMode::Str, stack);
                    } else if is_open(c) {
                        lemma_scan_is_first_partner(t, tl, tc, i + 1, line, col + 1, mode, stack.push((c, line, col)));
                    } else if is_close(c) && stack.len() > 0 {
                        let top = stack.last();
                        lemma_scan_is_first_partner(t, tl, tc, i + 1, line, col + 1, mode, stack.drop_last());
                        if pairs(top.0, c) {
                            let rest = scan_pairs(t, i + 1, line, col + 1, mode, stack.drop_last());
                            assert((seq![((top.1, top.2), (line, col))] + rest).drop_first() =~= rest);
                        }
                    } else {
                        lemma_scan_is_first_partner(t, tl, tc, i + 1, line, col + 1, mode, stack);
                    }
                },
            }
        }
    }
}

/// The first pair holding `p`, when `first_partner` finds one.
proof fn lemma_first_partner_found(ps: Seq<BracketPair>, p: (nat, nat)) -> (k: int)
    requires
        first_partner(ps, p) is Some,
    ensures
        0 <= k < ps.len(),
        ps[k].0 == p || ps[k].1 == p,
        ps[k].0 == p ==> first_partner(ps, p) == Some(ps[k].1),
        ps[k].0 != p ==> first_partner(ps, p) == Some(ps[k].0),
    decreases ps.len(),
{
    if ps[0].0 == p || ps[0].1 == p {
        0
    } else {
        let k = lemma_first_partner_found(ps.drop_first(), p);
        k + 1
    }
}

/// A position held by exactly one pair finds that pair's other end.
proof fn lemma_first_partner_unique(ps: Seq<BracketPair>, p: (nat, nat), k: int)
    requires
        0 <= k < ps.len(),
        ps[k].0 == p || ps[k].1 == p,
        ps[k].0 != ps[k].1,
        forall|m: int| 0 <= m < ps.len() && m != k ==> ps[m].0 != p && ps[m].1 != p,
    ensures
        ps[k].0 == p ==> first_partner(ps, p) == Some(ps[k].1),
        ps[k].1 == p ==> first_partner(ps, p) == Some(ps[k].0),
    decreases ps.len(),
{
    if k > 0 {
        assert(ps[0].0 != p && ps[0].1 != p);
        assert forall|m: int| 0 <= m < ps.drop_first().len() && m != k - 1 implies ps.drop_first()[m].0 != p
            && ps.drop_first()[m].1 != p by {
            assert(ps.drop_first()[m] == ps[m + 1]);
        }
        lemma_first_partner_unique(ps.drop_first(), p, k - 1);
    }
}

/// Bracket matching is symmetric: when the bracket at one position is
/// matched with the bracket at another, that bracket is matched back with
/// the first.  A bracket is never its own partner.
pub proof fn law_match_symmetric(t: Seq<char>, l1: nat, c1: nat, l2: nat, c2: nat)
    requires
        matching_bracket(t, l1, c1) == Some((l2, c2)),
    ensures
        matching_bracket(t, l2, c2) == Some((l1, c1)),
        (l2, c2) != (l1, c1),
{
    let empty = Seq::<(char, nat, nat)>::empty();
    let ps = scan_pairs(t, 0, 0, 0, ScanMode::Normal, empty);
    lemma_scan_is_first_partner(t, l1, c1, 0, 0, 0, ScanMode::Normal, empty);
    lemma_scan_is_first_partner(t, l2, c2, 0, 0, 0, ScanMode::Normal, empty);
    lemma_scan_pairs_ok(t, 0, 0, 0, ScanMode::Normal, empty);
    let p = (l1, c1);
    let q = (l2, c2);
    let k = lemma_first_partner_found(ps, p);
    assert(ps[k].0 != ps[k].1);
    assert(q != p);
    assert forall|m: int| 0 <= m < ps.len() && m != k implies ps[m].0 != q && ps[m].1 != q by {
        if ps[k].0 == p {
            assert(ps[k].1 == q);
            assert(ps[m].0 != ps[k].1);
            if m < k {
                assert(before(ps[m].1, ps[k].1));
            } else {
                assert(before(ps[k].1, ps[m].1));
            }
        } else {
            assert(ps[k].0 == q);
            assert(ps[m].0 != ps[k].0);
            assert(ps[k].0 != ps[m].1);
        }
    }
    lemma_first_partner_unique(ps, q, k);
}

/// A character the scanner passes over without effect: no line break,
/// quote, slash or bracket.
pub open spec fn plain_char(c: char) -> bool {
    c != '\n' && c != '"' && c != '/' && c != '(' && c != ')' && c != '[' && c != ']' && c != '{'
        && c != '}'
}

/// Scanning plain characters only moves along the line.
proof fn lemma_scan_plain(
    t: Seq<char>,
    tl: nat,
    tc: nat,
    i: nat,
    j: nat,
    col: nat,
    stack: Seq<(char, nat, nat)>,
)
    requires
        i <= j <= t.len(),
        forall|k: int| i <= k < j ==> plain_char(#[trigger] t[k]),
    ensures
        scan(t, tl, tc, i, 0, col, ScanMode::Normal, stack) == scan(
            t,
            tl,
            tc,
            j,
            0,
            col + (j - i) as nat,
            ScanMode::Normal,
            stack,
        ),
    decreases j - i,
{
    if i < j {
        assert(plain_char(t[i as int]));
        lemma_scan_plain(t, tl, tc, i + 1, j, col + 1, stack);
        assert(col + 1 + (j - (i + 1)) as nat == col + (j - i) as nat);
    }
}

/// Every kind of bracket is matched: in a line made of plain text, an
/// opening `(`, `[` or `{`, plain text and the closing bracket of the same
/// kind, then anything, the two brackets are each other's partner.
pub proof fn law_brackets_pair(
    open: char,
    close: char,
    before: Seq<char>,
    inside: Seq<char>,
    after: Seq<char>,
)
    requires
        (open == '(' && close == ')') || (open == '[' && close == ']') || (open == '{' && close
            == '}'),
        forall|k: int| 0 <= k < before.len() ==> plain_char(#[trigger] before[k]),
        forall|k: int| 0 <= k < inside.len() ==> plain_char(#[trigger] inside[k]),
    ensures
        ({
            let t = before + seq![open] + inside + seq![close] + after;
            let o = before.len();
            let c = before.len() + 1 + inside.len();
            &&& matching_bracket(t, 0, o) == Some((0nat, c))
            &&& matching_bracket(t, 0, c) == Some((0nat, o))
        }),
{
    let t = before + seq![open] + inside + seq![close] + after;
    let o = before.len();
    let c = before.len() + 1 + inside.len();
    let e = Seq::<(char, nat, nat)>::empty();
    assert forall|k: int| 0 <= k < o implies plain_char(#[trigger] t[k]) by {
        assert(t[k] == before[k]);
    }
    assert forall|k: int| o + 1 <= k < c implies plain_char(#[trigger] t[k]) by {
        assert(t[k] == inside[k - o - 1]);
    }
    assert(t[o as int] == open);
    assert(t[c as int] == close);
    let st = e.push((open, 0nat, o));
    // the bracket at `o`
    lemma_scan_plain(t, 0, o, 0, o, 0, e);
    lemma_scan_plain(t, 0, o, o + 1, c, o + 1, st);
    assert(scan(t, 0, o, o, 0, o, ScanMode::Normal, e) == scan(t, 0, o, o + 1, 0, o + 1, ScanMode::Normal, st));
    assert(st.last() == (open, 0nat, o));
    assert(scan(t, 0, o, c, 0, c, ScanMode::Normal, st) == Some((0nat, c)));
    // the bracket at `c`
    lemma_scan_plain(t, 0, c, 0, o, 0, e);
    lemma_scan_plain(t, 0, c, o + 1, c, o + 1, st);
    assert(scan(t, 0, c, o, 0, o, ScanMode::Normal, e) == scan(t, 0, c, o + 1, 0, o + 1, ScanMode::Normal, st));
    assert(scan(t, 0, c, c, 0, c, ScanMode::Normal, st) == Some((0nat, o)));
}

/// Inside a string literal the scanner passes over anything but a quote, a
/// backslash or a line break.
proof fn lemma_scan_str(
    t: Seq<char>,
    tl: nat,
    tc: nat,
    i: nat,
    j: nat,
    col: nat,
    stack: Seq<(char, nat, nat)>,
)
    requires
        i <= j <= t.len(),
        forall|k: int| i <= k < j ==> (#[trigger] t[k] != '"' && t[k] != '\\' && t[k] != '\n'),
    ensures
        scan(t, tl, tc, i, 0, col, ScanMode::Str, stack) == scan(
            t,
            tl,
            tc,
            j,
            0,
            col + (j - i) as nat,
            ScanMode::Str,
            stack,
        ),
    decreases j - i,
{
    if i < j {
        assert(t[i as int] != '"' && t[i as int] != '\\' && t[i as int] != '\n');
        lemma_scan_str(t, tl, tc, i + 1, j, col + 1, stack);
        assert(col + 1 + (j - (i + 1)) as nat == col + (j - i) as nat);
    }
}

/// Inside a block comment the scanner passes over anything but a star or a
/// line break.
proof fn lemma_scan_block(
    t: Seq<char>,
    tl: nat,
    tc: nat,
    i: nat,
    j: nat,
    col: nat,
    stack: Seq<(char, nat, nat)>,
)
    requires
        i <= j <= t.len(),
        forall|k: int| i <= k < j ==> (#[trigger] t[k] != '*' && t[k] != '\n'),
    ensures
        scan(t, tl, tc, i, 0, col, ScanMode::BlockComment, stack) == scan(
            t,
            tl,
            tc,
            j,
            0,
            col + (j - i) as nat,
            ScanMode::BlockComment,
            stack,
        ),
    decreases j - i,
{
    if i < j {
        assert(t[i as int] != '*' && t[i as int] != '\n');
        lemma_scan_block(t, tl, tc, i + 1, j, col + 1, stack);
        assert(col + 1 + (j - (i + 1)) as nat == col + (j - i) as nat);
    }
}

/// Brackets in strings and comments are skipped: between an opening
/// bracket and its closing one, a string literal and a block comment, each
/// holding any brackets, change nothing; the two are still partners.
pub proof fn law_brackets_skip_strings_and_comments(
    open: char,
    close: char,
    before: Seq<char>,
    in_string: Seq<char>,
    in_comment: Seq<char>,
    inside: Seq<char>,
    after: Seq<char>,
)
    requires
        (open == '(' && close == ')') || (open == '[' && close == ']') || (open == '{' && close
            == '}'),
        forall|k: int| 0 <= k < before.len() ==> plain_char(#[trigger] before[k]),
        forall|k: int| 0 <= k < inside.len() ==> plain_char(#[trigger] inside[k]),
        forall|k: int|
            0 <= k < in_string.len() ==> (#[trigger] in_string[k] != '"' && in_string[k] != '\\'
                && in_string[k] != '\n'),
        forall|k: int|
            0 <= k < in_comment.len() ==> (#[trigger] in_comment[k] != '*' && in_comment[k] != '\n'),
    ensures
        ({
            let t = before + seq![open, '"'] + in_string + seq!['"', '/', '*'] + in_comment + seq![
                '*',
                '/',
            ] + inside + seq![close] + after;
            let o = before.len();
            let c = before.len() + 7 + in_string.len() + in_comment.len() + inside.len();
            &&& matching_bracket(t, 0, o) == Some((0nat, c))
            &&& matching_bracket(t, 0, c) == Some((0nat, o))
        }),
{
    let t = before + seq![open, '"'] + in_string + seq!['"', '/', '*'] + in_comment + seq!['*', '/']
        + inside + seq![close] + after;
    let o = before.len();
    let s0 = o + 2;
    let s1 = s0 + in_string.len();
    let c0 = s1 + 3;
    let c1 = c0 + in_comment.len();
    let i0 = c1 + 2;
    let c = i0 + inside.len();
    assert(c == before.len() + 7 + in_string.len() + in_comment.len() + inside.len());
    let e = Seq::<(char, nat, nat)>::empty();
    assert forall|k: int| 0 <= k < o implies plain_char(#[trigger] t[k]) by {
        assert(t[k] == before[k]);
    }
    assert forall|k: int| s0 <= k < s1 implies (#[trigger] t[k] != '"' && t[k] != '\\' && t[k] != '\n') by {
        assert(t[k] == in_string[k - s0]);
    }
    assert forall|k: int| c0 <= k < c1 implies (#[trigger] t[k] != '*' && t[k] != '\n') by {
        assert(t[k] == in_comment[k - c0]);
    }
    assert forall|k: int| i0 <= k < c implies plain_char(#[trigger] t[k]) by {
        assert(t[k] == inside[k - i0]);
    }
    assert(t[o as int] == open);
    assert(t[o + 1 as int] == '"');
    assert(t[s1 as int] == '"');
    assert(t[s1 + 1 as int] == '/');
    assert(t[s1 + 2 as int] == '*');
    assert(t[c1 as int] == '*');
    assert(t[c1 + 1 as int] == '/');
    assert(t[c as int] == close);
    let st = e.push((open, 0nat, o));
    assert(st.last() == (open, 0nat, o));
    assert forall|tc: nat| tc == o || tc == c implies scan(t, 0, tc, 0, 0, 0, ScanMode::Normal, e) == scan(
        t,
        0,
        tc,
        c,
        0,
        c,
        ScanMode::Normal,
        st,
    ) by {
        lemma_scan_plain(t, 0, tc, 0, o, 0, e);
        assert(scan(t, 0, tc, o, 0, o, ScanMode::Normal, e) == scan(t, 0, tc, o + 1, 0, o + 1, ScanMode::Normal, st));
        assert(scan(t, 0, tc, o + 1, 0, o + 1, ScanMode::Normal, st) == scan(t, 0, tc, s0, 0, s0, ScanMode::Str, st));
        lemma_scan_str(t, 0, tc, s0, s1, s0, st);
        assert(scan(t, 0, tc, s1, 0, s1, ScanMode::Str, st) == scan(t, 0, tc, s1 + 1, 0, s1 + 1, ScanMode::Normal, st));
        assert(next_is(t, s1 + 1, '*'));
        assert(scan(t, 0, tc, s1 + 1, 0, s1 + 1, ScanMode::Normal, st) == scan(t, 0, tc, c0, 0, c0, ScanMode::BlockComment, st));
        lemma_scan_block(t, 0, tc, c0, c1, c0, st);
        assert(next_is(t, c1, '/'));
        assert(scan(t, 0, tc, c1, 0, c1, ScanMode::BlockComment, st) == scan(t, 0, tc, i0, 0, i0, ScanMode::Normal, st));
        lemma_scan_plain(t, 0, tc, i0, c, i0, st);
    }
    assert(scan(t, 0, o, c, 0, c, ScanMode::Normal, st) == Some((0nat, c)));
    assert(scan(t, 0, c, c, 0, c, ScanMode::Normal, st) == Some((0nat, o)));
}

} // verus!
