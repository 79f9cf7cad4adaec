//! A small line-oriented Markdown reader for the preview pane.
use vstd::prelude::*;
use crate::text::{
    chars_of, ends_with, find, find_char, lines, push_chars, split_lines, starts_with, string_of,
    subvec, trim, trimmed, views,
};

verus! {

#[derive(Debug, Clone, PartialEq)]
pub enum MarkdownNode {
    Heading { level: u8, text: String },
    Paragraph(String),
    CodeBlock { language: String, code: String },
    ListItem(String),
    Bold(String),
    Italic(String),
    Link { text: String, url: String },
    HorizontalRule,
}

/// The mathematical content of a [`MarkdownNode`].
pub enum MdSpec {
    Heading { level: nat, text: Seq<char> },
    Paragraph(Seq<char>),
    CodeBlock { language: Seq<char>, code: Seq<char> },
    ListItem(Seq<char>),
    Bold(Seq<char>),
    Italic(Seq<char>),
    Link { text: Seq<char>, url: Seq<char> },
    HorizontalRule,
}

impl View for MarkdownNode {
    type V = MdSpec;

    open spec fn view(&self) -> MdSpec {
        match self {
            MarkdownNode::Heading { level, text } => MdSpec::Heading { level: *level as nat, text: text@ },
            MarkdownNode::Paragraph(t) => MdSpec::Paragraph(t@),
            MarkdownNode::CodeBlock { language, code } => MdSpec::CodeBlock {
                language: language@,
                code: code@,
            },
            MarkdownNode::ListItem(t) => MdSpec::ListItem(t@),
            MarkdownNode::Bold(t) => MdSpec::Bold(t@),
            MarkdownNode::Italic(t) => MdSpec::Italic(t@),
            MarkdownNode::Link { text, url } => MdSpec::Link { text: text@, url: url@ },
            MarkdownNode::HorizontalRule => MdSpec::HorizontalRule,
        }
    }
}

pub open spec fn fence() -> Seq<char> {
    seq!['`', '`', '`']
}

/// `trim_start_matches("```")`: every leading "```" removed.
pub open spec fn strip_fences(t: Seq<char>) -> Seq<char>
    decreases t.len(),
{
    if t.len() >= 3 && fence().is_prefix_of(t) {
        strip_fences(t.skip(3))
    } else {
        t
    }
}

/// The line opens or closes a fenced code block.
pub open spec fn is_fence(l: Seq<char>) -> bool {
    fence().is_prefix_of(trim(l))
}

/// First fence line at or after `j`, or the number of lines.
pub open spec fn code_close(ls: Seq<Seq<char>>, j: int) -> int
    decreases ls.len() - j,
{
    if j >= ls.len() {
        ls.len() as int
    } else if is_fence(ls[j]) {
        j
    } else {
        code_close(ls, j + 1)
    }
}

/// Lines `a .. b`, each followed by `'\n'`.
pub open spec fn code_text(ls: Seq<Seq<char>>, a: int, b: int) -> Seq<char>
    decreases b - a,
{
    if b <= a {
        Seq::empty()
    } else {
        code_text(ls, a, b - 1) + ls[b - 1] + seq!['\n']
    }
}

/// Number of leading `'#'`.
pub open spec fn hashes(t: Seq<char>) -> nat
    decreases t.len(),
{
    if t.len() > 0 && t[0] == '#' {
        1 + hashes(t.drop_first())
    } else {
        0
    }
}

/// `t` holds `"]("`.
pub open spec fn has_link_mid(t: Seq<char>) -> bool {
    exists|k: int| 0 <= k && k + 1 < t.len() && #[trigger] t[k] == ']' && t[k + 1] == '('
}

/// The node of a non-blank trimmed line that is neither a fence, a
/// heading, a list item nor a rule.
pub open spec fn inline_node(t: Seq<char>) -> MdSpec {
    if t.len() >= 4 && seq!['*', '*'].is_prefix_of(t) && seq!['*', '*'].is_suffix_of(t) {
        MdSpec::Bold(t.subrange(2, t.len() - 2))
    } else if t.len() >= 2 && t[0] == '*' && t.last() == '*' {
        MdSpec::Italic(t.subrange(1, t.len() - 1))
    } else if t.len() > 0 && t[0] == '[' && has_link_mid(t) && t.last() == ')' {
        link_spec(t)
    } else {
        MdSpec::Paragraph(t)
    }
}

/// Nodes of the lines from `i` on.
pub open spec fn md_from(ls: Seq<Seq<char>>, i: int) -> Seq<MdSpec>
    decreases ls.len() - i,
{
    if i < 0 || i >= ls.len() {
        Seq::empty()
    } else {
        let t = trim(ls[i]);
        if fence().is_prefix_of(t) {
            let j = code_close(ls, i + 1);
            let block = MdSpec::CodeBlock {
                language: trim(strip_fences(t)),
                code: code_text(ls, i + 1, j),
            };
            if j < i + 1 || j >= ls.len() {
                seq![block]
            } else {
                seq![block] + md_from(ls, j + 1)
            }
        } else {
            let rest = md_from(ls, i + 1);
            if t.len() > 0 && t[0] == '#' {
                let h = hashes(t);
                if 1 <= h <= 6 {
                    seq![MdSpec::Heading { level: h, text: trim(t.skip(h as int)) }] + rest
                } else {
                    seq![MdSpec::Paragraph(t)] + rest
                }
            } else if seq!['-', ' '].is_prefix_of(t) {
                seq![MdSpec::ListItem(t.skip(2))] + rest
            } else if t == seq!['-', '-', '-'] {
                seq![MdSpec::HorizontalRule] + rest
            } else if t.len() > 0 {
                seq![inline_node(t)] + rest
            } else {
                rest
            }
        }
    }
}

/// What `parse_markdown` yields for `text`.
pub open spec fn markdown(text: Seq<char>) -> Seq<MdSpec> {
    md_from(lines(text), 0)
}

pub open spec fn nodes_view(v: Seq<MarkdownNode>) -> Seq<MdSpec> {
    v.map_values(|n: MarkdownNode| n@)
}

proof fn lemma_code_close_ge(ls: Seq<Seq<char>>, j: int)
    ensures
        code_close(ls, j) >= j || j > ls.len(),
        code_close(ls, j) <= ls.len() || j > ls.len(),
    decreases ls.len() - j,
{
    if j < ls.len() && !is_fence(ls[j]) {
        lemma_code_close_ge(ls, j + 1);
    }
}

fn strip_fences_exec(t: &[char]) -> (r: Vec<char>)
    ensures
        r@ == strip_fences(t@),
{
    let mut k: usize = 0;
    let f: [char; 3] = ['`', '`', '`'];
    assert(t@.skip(0) == t@);
    while k < t.len() && t.len() - k >= 3 && t[k] == '`' && t[k + 1] == '`' && t[k + 2] == '`'
        invariant
            k <= t@.len(),
            strip_fences(t@) == strip_fences(t@.skip(k as int)),
        decreases t@.len() - k,
    {
        assert(fence().is_prefix_of(t@.skip(k as int))) by {
            assert(t@.skip(k as int).subrange(0, 3) =~= fence());
        }
        assert(t@.skip(k as int).skip(3) == t@.skip(k + 3));
        k = k + 3;
    }
    proof {
        let u = t@.skip(k as int);
        if u.len() >= 3 && fence().is_prefix_of(u) {
            assert(u[0] == t@[k as int] && u[1] == t@[k + 1] && u[2] == t@[k + 2]);
            assert(u.subrange(0, 3)[0] == '`');
            assert(u.subrange(0, 3)[1] == '`');
            assert(u.subrange(0, 3)[2] == '`');
        }
    }
    crate::text::slice_from(t, k)
}

fn count_hashes(t: &[char]) -> (h: usize)
    ensures
        h == hashes(t@),
        h <= t@.len(),
{
    let mut h: usize = 0;
    assert(t@.skip(0) == t@);
    while h < t.len() && t[h] == '#'
        invariant
            h <= t@.len(),
            hashes(t@) == h + hashes(t@.skip(h as int)),
        decreases t@.len() - h,
    {
        assert(t@.skip(h as int).drop_first() == t@.skip(h + 1));
        h = h + 1;
    }
    h
}

fn link_mid(t: &[char]) -> (r: bool)
    ensures
        r == has_link_mid(t@),
{
    let mut k: usize = 0;
    while k < t.len() && t.len() - k > 1
        invariant
            forall|q: int| 0 <= q < k && q + 1 < t@.len() ==> !(#[trigger] t@[q] == ']' && t@[q + 1] == '('),
        decreases t@.len() - k,
    {
        if t[k] == ']' && t[k + 1] == '(' {
            return true;
        }
        k = k + 1;
    }
    false
}

fn inline_exec(t: &[char]) -> (n: MarkdownNode)
    requires
        t@.len() > 0,
    ensures
        n@ == inline_node(t@),
{
    let len = t.len();
    if len >= 4 && starts_with(t, &['*', '*']) && ends_with(t, &['*', '*']) {
        proof {
            assert(['*', '*']@ == seq!['*', '*']);
        }
        return MarkdownNode::Bold(string_of(&subvec(t, 2, len - 2)));
    }
    proof {
        assert(['*', '*']@ == seq!['*', '*']);
    }
    if len >= 2 && t[0] == '*' && t[len - 1] == '*' {
        return MarkdownNode::Italic(string_of(&subvec(t, 1, len - 1)));
    }
    if t[0] == '[' && link_mid(t) && t[len - 1] == ')' {
        return link_node(t);
    }
    MarkdownNode::Paragraph(string_of(t))
}

/// The node of a line that starts with `'['`, ends with `')'` and holds `"]("`.
pub open spec fn link_spec(t: Seq<char>) -> MdSpec {
    let c = find_char(t, ']').unwrap();
    let o = find_char(t, '(').unwrap();
    if c < o {
        MdSpec::Link { text: t.subrange(1, c), url: t.subrange(o + 1, t.len() - 1) }
    } else {
        MdSpec::Paragraph(t)
    }
}

fn link_node(t: &[char]) -> (n: MarkdownNode)
    requires
        t@.len() > 0,
        t@[0] == '[',
        has_link_mid(t@),
        t@.last() == ')',
    ensures
        n@ == link_spec(t@),
{
    let len = t.len();
    let ghost k = choose|k: int| 0 <= k && k + 1 < t@.len() && #[trigger] t@[k] == ']' && t@[k + 1] == '(';
    proof {
        crate::text::lemma_find_some(t@, ']', k);
        crate::text::lemma_find_some(t@, '(', k + 1);
    }
    let c = find(t, ']').unwrap();
    let o = find(t, '(').unwrap();
    proof {
        assert(t@[o as int] == '(');
        assert(o + 1 <= len - 1) by {
            if o == len - 1 {
                assert(t@[len - 1] == ')');
            }
        }
    }
    if c < o {
        MarkdownNode::Link {
            text: string_of(&subvec(t, 1, c)),
            url: string_of(&subvec(t, o + 1, len - 1)),
        }
    } else {
        MarkdownNode::Paragraph(string_of(t))
    }
}

/// Reads `text` line by line into headings, fenced code blocks, list items,
/// rules, and one-line bold, italic, link or paragraph nodes.
pub fn parse_markdown(text: &str) -> (r: Vec<MarkdownNode>)
    ensures
        nodes_view(r@) == markdown(text@),
{
    let chars = chars_of(text);
    let ls = split_lines(&chars);
    let ghost lv = lines(text@);
    let n = ls.len();
    let mut nodes: Vec<MarkdownNode> = Vec::new();
    let mut i: usize = 0;
    assert(nodes_view(nodes@) + md_from(lv, 0) == md_from(lv, 0));
    while i < n
        invariant
            i <= n,
            n == lv.len(),
            views(ls@) == lv,
            nodes_view(nodes@) + md_from(lv, i as int) == md_from(lv, 0),
        decreases n - i,
    {
        assert(views(ls@)[i as int] == ls@[i as int]@);
        let t = trimmed(&ls[i]);
        let ghost before = nodes@;
        if starts_with(&t, &['`', '`', '`']) {
            proof {
                assert(['`', '`', '`']@ == fence());
            }
            let language = trimmed(&strip_fences_exec(&t));
            let mut code = String::new();
            let mut j = i + 1;
            proof {
                lemma_code_close_ge(lv, i + 1);
            }
            while j < n
                invariant
                    i < j <= n,
                    n == lv.len(),
                    views(ls@) == lv,
                    code_close(lv, i + 1) == code_close(lv, j as int),
                    code@ == code_text(lv, i + 1, j as int),
                ensures
                    i < j <= n,
                    code_close(lv, i + 1) == code_close(lv, j as int),
                    code@ == code_text(lv, i + 1, j as int),
                    j < n ==> is_fence(lv[j as int]),
                decreases n - j,
            {
                assert(views(ls@)[j as int] == ls@[j as int]@);
                let u = trimmed(&ls[j]);
                if starts_with(&u, &['`', '`', '`']) {
                    proof {
                        assert(['`', '`', '`']@ == fence());
                        assert(is_fence(lv[j as int]));
                    }
                    break;
                }
                proof {
                    assert(['`', '`', '`']@ == fence());
                }
                push_chars(&mut code, &ls[j]);
                crate::text::push_char(&mut code, '\n');
                assert(code@ == code_text(lv, i + 1, j + 1));
                j = j + 1;
            }
            proof {
                if j < n {
                    assert(code_close(lv, j as int) == j);
                } else {
                    assert(code_close(lv, j as int) == n);
                }
                lemma_code_close_ge(lv, i + 1);
            }
            nodes.push(MarkdownNode::CodeBlock { language: string_of(&language), code });
            proof {
                assert(nodes_view(nodes@) == nodes_view(before).push(nodes@.last()@));
                if j < n {
                    assert(nodes_view(nodes@) + md_from(lv, j + 1) =~= nodes_view(before) + md_from(lv, i as int));
                }
            }
            if j < n {
                i = j + 1;
            } else {
                proof {
                    assert(md_from(lv, j as int) == Seq::<MdSpec>::empty());
                    assert(nodes_view(nodes@) + md_from(lv, n as int) =~= nodes_view(before) + md_from(lv, i as int));
                }
                i = n;
            }
        } else {
            proof {
                assert(['`', '`', '`']@ == fence());
            }
            if t.len() > 0 && t[0] == '#' {
                let h = count_hashes(&t);
                if h >= 1 && h <= 6 {
                    let rest = slice_from_trim(&t, h);
                    nodes.push(MarkdownNode::Heading { level: h as u8, text: string_of(&rest) });
                } else {
                    nodes.push(MarkdownNode::Paragraph(string_of(&t)));
                }
            } else if starts_with(&t, &['-', ' ']) {
                proof {
                    assert(['-', ' ']@ == seq!['-', ' ']);
                }
                nodes.push(MarkdownNode::ListItem(string_of(&crate::text::slice_from(&t, 2))));
            } else if t.len() == 3 && t[0] == '-' && t[1] == '-' && t[2] == '-' {
                proof {
                    assert(['-', ' ']@ == seq!['-', ' ']);
                    assert(t@ == seq!['-', '-', '-']);
                }
                nodes.push(MarkdownNode::HorizontalRule);
            } else if t.len() > 0 {
                proof {
                    assert(['-', ' ']@ == seq!['-', ' ']);
                    assert(t@ != seq!['-', '-', '-']);
                }
                nodes.push(inline_exec(&t));
            } else {
                proof {
                    assert(['-', ' ']@ == seq!['-', ' ']);
                }
            }
            proof {
                if nodes@.len() > before.len() {
                    assert(nodes_view(nodes@) == nodes_view(before).push(nodes@.last()@));
                    assert(nodes_view(nodes@) + md_from(lv, i + 1) =~= nodes_view(before) + md_from(lv, i as int));
                } else {
                    assert(nodes@ == before);
                }
            }
            i = i + 1;
        }
    }
    assert(md_from(lv, i as int) == Seq::<MdSpec>::empty());
    assert(nodes_view(nodes@) + Seq::<MdSpec>::empty() == nodes_view(nodes@));
    nodes
}

/// `t[h..].trim()`.
fn slice_from_trim(t: &[char], h: usize) -> (r: Vec<char>)
    requires
        h <= t@.len(),
    ensures
        r@ == trim(t@.skip(h as int)),
{
    trimmed(&crate::text::slice_from(t, h))
}

/// The number of code fence lines from line `i` on.
pub open spec fn fences_from(ls: Seq<Seq<char>>, i: int) -> nat
    decreases ls.len() - i,
{
    if i < 0 || i >= ls.len() {
        0
    } else {
        (if is_fence(ls[i]) {
            1nat
        } else {
            0nat
        }) + fences_from(ls, i + 1)
    }
}

/// Splitting a text after a line whose code fences are all closed: the
/// preview of `a`, a line break and `b` is the preview of `a` followed by
/// that of `b`.
pub proof fn law_markdown_join(a: Seq<char>, b: Seq<char>)
    requires
        fences_from(lines(a), 0) % 2 == 0,
    ensures
        markdown(a + seq!['\n'] + b) == markdown(a) + markdown(b),
{
    let e = Seq::<char>::empty();
    let blank_line = seq![e];
    crate::text::lemma_lines_join(a, b);
    let la = lines(a);
    let lb = lines(b);
    assert(trim(e) =~= e);
    assert(!is_fence(e));
    assert(fences_from(blank_line, 1) == 0);
    assert(fences_from(blank_line, 0) == 0);
    assert(md_from(blank_line, 1) == Seq::<MdSpec>::empty());
    assert(md_from(blank_line, 0) =~= Seq::<MdSpec>::empty());
    if a.len() == 0 {
        assert(la =~= Seq::<Seq<char>>::empty());
        lemma_md_concat(blank_line, lb, 0);
        assert(md_from(la, 0) =~= Seq::<MdSpec>::empty());
    } else if a.last() == '\n' {
        lemma_md_concat(la, blank_line, 0);
        lemma_fences_concat(la, blank_line, 0);
        let p = la + blank_line;
        assert(p + lb =~= la + blank_line + lb);
        lemma_md_concat(p, lb, 0);
    } else {
        let last = la.len() - 1;
        let l = la[last];
        let l2 = crate::text::strip_cr(l);
        let p = la.update(last, l2);
        if l.len() > 0 && l.last() == '\r' {
            crate::text::lemma_trim_drop_ws_last(l);
        }
        assert(trim(l2) == trim(l));
        lemma_fences_same(la, p, 0);
        lemma_md_last_line(la, p, 0);
        lemma_md_concat(p, lb, 0);
    }
}

/// Fences of two sequences of lines put together.
proof fn lemma_fences_concat(p: Seq<Seq<char>>, q: Seq<Seq<char>>, i: int)
    requires
        0 <= i <= p.len(),
    ensures
        fences_from(p + q, i) == fences_from(p, i) + fences_from(q, 0),
    decreases p.len() - i,
{
    if i < p.len() {
        assert((p + q)[i] == p[i]);
        lemma_fences_concat(p, q, i + 1);
    } else {
        lemma_fences_shift(p, q, 0);
    }
}

proof fn lemma_fences_shift(p: Seq<Seq<char>>, q: Seq<Seq<char>>, j: int)
    requires
        0 <= j,
    ensures
        fences_from(p + q, p.len() + j) == fences_from(q, j),
    decreases q.len() - j,
{
    if j < q.len() {
        assert((p + q)[p.len() + j] == q[j]);
        lemma_fences_shift(p, q, j + 1);
    }
}

/// With fences left from `j`, the next one is found and one fewer is left
/// after it.
proof fn lemma_close_found(ls: Seq<Seq<char>>, j: int)
    requires
        0 <= j,
        fences_from(ls, j) > 0,
    ensures
        j <= code_close(ls, j) < ls.len(),
        is_fence(ls[code_close(ls, j)]),
        fences_from(ls, code_close(ls, j) + 1) + 1 == fences_from(ls, j),
    decreases ls.len() - j,
{
    if !is_fence(ls[j]) {
        lemma_close_found(ls, j + 1);
    }
}

proof fn lemma_close_prefix(p: Seq<Seq<char>>, q: Seq<Seq<char>>, j: int)
    requires
        0 <= j <= p.len(),
        code_close(p, j) < p.len(),
    ensures
        code_close(p + q, j) == code_close(p, j),
    decreases p.len() - j,
{
    assert((p + q)[j] == p[j]);
    if !is_fence(p[j]) {
        lemma_close_prefix(p, q, j + 1);
    }
}

proof fn lemma_close_shift(p: Seq<Seq<char>>, q: Seq<Seq<char>>, j: int)
    requires
        0 <= j,
    ensures
        code_close(p + q, p.len() + j) == p.len() + code_close(q, j) || j > q.len(),
    decreases q.len() - j,
{
    if j < q.len() {
        assert((p + q)[p.len() + j] == q[j]);
        if !is_fence(q[j]) {
            lemma_close_shift(p, q, j + 1);
        }
    }
}

proof fn lemma_code_text_prefix(p: Seq<Seq<char>>, q: Seq<Seq<char>>, a: int, b: int)
    requires
        0 <= a,
        b <= p.len(),
    ensures
        code_text(p + q, a, b) == code_text(p, a, b),
    decreases b - a,
{
    if a < b {
        assert((p + q)[b - 1] == p[b - 1]);
        lemma_code_text_prefix(p, q, a, b - 1);
    }
}

proof fn lemma_code_text_shift(p: Seq<Seq<char>>, q: Seq<Seq<char>>, a: int, b: int)
    requires
        0 <= a,
        b <= q.len(),
    ensures
        code_text(p + q, p.len() + a, p.len() + b) == code_text(q, a, b),
    decreases b - a,
{
    if a < b {
        assert((p + q)[p.len() + b - 1] == q[b - 1]);
        lemma_code_text_shift(p, q, a, b - 1);
    }
}

/// Reading the lines of `p + q` from inside `q` is reading `q`.
proof fn lemma_md_shift(p: Seq<Seq<char>>, q: Seq<Seq<char>>, j: int)
    requires
        0 <= j,
    ensures
        md_from(p + q, p.len() + j) == md_from(q, j),
    decreases q.len() - j,
{
    if j < q.len() {
        let ls = p + q;
        let i = p.len() + j;
        assert(ls[i] == q[j]);
        lemma_md_shift(p, q, j + 1);
        if fence().is_prefix_of(trim(q[j])) {
            lemma_close_shift(p, q, j + 1);
            lemma_code_close_ge(q, j + 1);
            let c = code_close(q, j + 1);
            lemma_code_text_shift(p, q, j + 1, c);
            if c < q.len() {
                lemma_md_shift(p, q, c + 1);
                assert(p.len() + c + 1 == p.len() + (c + 1));
            }
        }
    }
}

/// Reading `p + q` from line `i` of `p`, when the fences left in `p` are
/// all paired: what `p` gives from `i`, then what `q` gives.
proof fn lemma_md_concat(p: Seq<Seq<char>>, q: Seq<Seq<char>>, i: int)
    requires
        0 <= i <= p.len(),
        fences_from(p, i) % 2 == 0,
    ensures
        md_from(p + q, i) == md_from(p, i) + md_from(q, 0),
    decreases p.len() - i,
{
    let ls = p + q;
    if i == p.len() {
        lemma_md_shift(p, q, 0);
        assert(md_from(p, i) =~= Seq::<MdSpec>::empty());
        assert(md_from(p, i) + md_from(q, 0) =~= md_from(q, 0));
    } else {
        assert(ls[i] == p[i]);
        let t = trim(p[i]);
        if fence().is_prefix_of(t) {
            assert(is_fence(p[i]));
            lemma_close_found(p, i + 1);
            let c = code_close(p, i + 1);
            lemma_close_prefix(p, q, i + 1);
            lemma_code_text_prefix(p, q, i + 1, c);
            lemma_md_concat(p, q, c + 1);
            assert(md_from(ls, i) =~= md_from(p, i) + md_from(q, 0));
        } else {
            assert(!is_fence(p[i]));
            lemma_md_concat(p, q, i + 1);
            assert(md_from(ls, i) =~= md_from(p, i) + md_from(q, 0));
        }
    }
}

/// Two sequences of lines that differ only in the trim-preserving form of
/// their last line have the same fences.
proof fn lemma_fences_same(ls: Seq<Seq<char>>, ls2: Seq<Seq<char>>, i: int)
    requires
        ls.len() == ls2.len(),
        forall|k: int| 0 <= k < ls.len() ==> trim(#[trigger] ls[k]) == trim(ls2[k]),
        0 <= i,
    ensures
        fences_from(ls, i) == fences_from(ls2, i),
    decreases ls.len() - i,
{
    if i < ls.len() {
        assert(trim(ls[i]) == trim(ls2[i]));
        lemma_fences_same(ls, ls2, i + 1);
    }
}

proof fn lemma_close_same(ls: Seq<Seq<char>>, ls2: Seq<Seq<char>>, j: int)
    requires
        ls.len() == ls2.len(),
        forall|k: int| 0 <= k < ls.len() ==> trim(#[trigger] ls[k]) == trim(ls2[k]),
        0 <= j,
    ensures
        code_close(ls, j) == code_close(ls2, j),
    decreases ls.len() - j,
{
    if j < ls.len() {
        assert(trim(ls[j]) == trim(ls2[j]));
        lemma_close_same(ls, ls2, j + 1);
    }
}

proof fn lemma_code_text_same(ls: Seq<Seq<char>>, ls2: Seq<Seq<char>>, a: int, b: int)
    requires
        forall|k: int| a <= k < b ==> #[trigger] ls[k] == ls2[k],
    ensures
        code_text(ls, a, b) == code_text(ls2, a, b),
    decreases b - a,
{
    if a < b {
        assert(ls[b - 1] == ls2[b - 1]);
        lemma_code_text_same(ls, ls2, a, b - 1);
    }
}

/// Changing the last line without changing its trim gives the same
/// preview, when the fences from `i` are all paired.
proof fn lemma_md_last_line(ls: Seq<Seq<char>>, ls2: Seq<Seq<char>>, i: int)
    requires
        ls.len() == ls2.len(),
        ls.len() > 0,
        forall|k: int| 0 <= k < ls.len() - 1 ==> #[trigger] ls[k] == ls2[k],
        trim(ls[ls.len() - 1]) == trim(ls2[ls.len() - 1]),
        0 <= i <= ls.len(),
        fences_from(ls, i) % 2 == 0,
    ensures
        md_from(ls, i) == md_from(ls2, i),
    decreases ls.len() - i,
{
    assert forall|k: int| 0 <= k < ls.len() implies trim(#[trigger] ls[k]) == trim(ls2[k]) by {
        if k < ls.len() - 1 {
            assert(ls[k] == ls2[k]);
        }
    }
    if i < ls.len() {
        assert(trim(ls[i]) == trim(ls2[i]));
        if is_fence(ls[i]) {
            lemma_close_found(ls, i + 1);
            let c = code_close(ls, i + 1);
            lemma_close_same(ls, ls2, i + 1);
            lemma_code_text_same(ls, ls2, i + 1, c);
            lemma_md_last_line(ls, ls2, c + 1);
        } else {
            lemma_md_last_line(ls, ls2, i + 1);
        }
    }
}

/// `n` hash signs.
pub open spec fn hash_run(n: nat) -> Seq<char> {
    Seq::new(n, |i: int| '#')
}

proof fn lemma_hashes_run(n: nat, rest: Seq<char>)
    requires
        rest.len() > 0,
        rest[0] != '#',
    ensures
        hashes(hash_run(n) + rest) == n,
    decreases n,
{
    let t = hash_run(n) + rest;
    if n == 0 {
        assert(t == rest);
    } else {
        assert(t.drop_first() == hash_run((n - 1) as nat) + rest);
        lemma_hashes_run((n - 1) as nat, rest);
    }
}

/// A line of one to six `#`, a space and a title is a heading of that
/// level whose text is the title.
pub proof fn law_heading_levels(h: nat, title: Seq<char>)
    requires
        1 <= h <= 6,
        title.len() > 0,
        trim(title) == title,
        forall|k: int| 0 <= k < title.len() ==> title[k] != '\n',
    ensures
        markdown(hash_run(h) + seq![' '] + title) == seq![MdSpec::Heading { level: h, text: title }],
{
    let rest = seq![' '] + title;
    let line = hash_run(h) + rest;
    assert(line == hash_run(h) + seq![' '] + title);
    crate::text::lemma_trimmed_ends(title);
    // a single line
    assert forall|j: int| 0 <= j < line.len() implies #[trigger] line[j] != '\n' by {
        if j >= h + 1 {
            assert(line[j] == title[j - h - 1]);
        }
    }
    crate::text::lemma_newline_at(line, line.len() as int);
    assert(lines(line) == seq![line]);
    // it trims to itself
    assert(line[0] == '#');
    crate::text::lemma_leading_ws(line, 0);
    assert(line.last() == title.last());
    crate::text::lemma_trailing_ws(line, 0);
    assert(trim(line) =~= line);
    // not a fence, a heading of level h
    assert(!fence().is_prefix_of(line)) by {
        if fence().is_prefix_of(line) {
            assert(line[0] == fence()[0]);
        }
    }
    lemma_hashes_run(h, rest);
    assert(line.skip(h as int) =~= rest);
    crate::text::lemma_leading_ws(rest, 1);
    assert(rest.skip(1) =~= title);
    crate::text::lemma_trailing_ws(title, 0);
    assert(trim(rest) =~= title);
    assert(md_from(seq![line], 1) =~= Seq::<MdSpec>::empty());
    assert(md_from(seq![line], 0) =~= seq![MdSpec::Heading { level: h, text: title }]);
}

/// A text of one line with no whitespace at its ends is that line, already
/// trimmed.
proof fn lemma_single_line(x: Seq<char>)
    requires
        x.len() > 0,
        forall|k: int| 0 <= k < x.len() ==> #[trigger] x[k] != '\n',
        !crate::text::is_ws(x[0]),
        !crate::text::is_ws(x.last()),
    ensures
        lines(x) == seq![x],
        trim(x) == x,
{
    crate::text::lemma_newline_at(x, x.len() as int);
    crate::text::lemma_leading_ws(x, 0);
    crate::text::lemma_trailing_ws(x, 0);
    assert(trim(x) =~= x);
}

/// A line `- item` is a list item holding `item`.
pub proof fn law_list_items(item: Seq<char>)
    requires
        item.len() > 0,
        trim(item) == item,
        forall|k: int| 0 <= k < item.len() ==> item[k] != '\n',
    ensures
        markdown(seq!['-', ' '] + item) == seq![MdSpec::ListItem(item)],
{
    let x = seq!['-', ' '] + item;
    crate::text::lemma_trimmed_ends(item);
    assert forall|k: int| 0 <= k < x.len() implies #[trigger] x[k] != '\n' by {
        if k >= 2 {
            assert(x[k] == item[k - 2]);
        }
    }
    assert(x.last() == item.last());
    lemma_single_line(x);
    assert(!fence().is_prefix_of(x)) by {
        if fence().is_prefix_of(x) {
            assert(x[0] == fence()[0]);
        }
    }
    assert(seq!['-', ' '].is_prefix_of(x)) by {
        assert(x.subrange(0, 2) =~= seq!['-', ' ']);
    }
    assert(x.skip(2) =~= item);
    assert(md_from(seq![x], 1) =~= Seq::<MdSpec>::empty());
    assert(md_from(seq![x], 0) =~= seq![MdSpec::ListItem(item)]);
}

/// A line `**text**` is bold text.
pub proof fn law_bold(body: Seq<char>)
    requires
        forall|k: int| 0 <= k < body.len() ==> body[k] != '\n',
    ensures
        markdown(seq!['*', '*'] + body + seq!['*', '*']) == seq![MdSpec::Bold(body)],
{
    let x = seq!['*', '*'] + body + seq!['*', '*'];
    let n = x.len() as int;
    assert forall|k: int| 0 <= k < x.len() implies #[trigger] x[k] != '\n' by {
        if 2 <= k < n - 2 {
            assert(x[k] == body[k - 2]);
        }
    }
    assert(x[0] == '*');
    assert(x.last() == '*');
    lemma_single_line(x);
    assert(!fence().is_prefix_of(x)) by {
        if fence().is_prefix_of(x) {
            assert(x[0] == fence()[0]);
        }
    }
    assert(!seq!['-', ' '].is_prefix_of(x)) by {
        if seq!['-', ' '].is_prefix_of(x) {
            assert(x[0] == seq!['-', ' '][0]);
        }
    }
    assert(x != seq!['-', '-', '-']) by {
        if x == seq!['-', '-', '-'] {
            assert(x[0] == '-');
        }
    }
    assert(seq!['*', '*'].is_prefix_of(x)) by {
        assert(x.subrange(0, 2) =~= seq!['*', '*']);
    }
    assert(seq!['*', '*'].is_suffix_of(x)) by {
        assert(x.subrange(n - 2, n) =~= seq!['*', '*']);
    }
    assert(x.subrange(2, n - 2) =~= body);
    assert(inline_node(x) == MdSpec::Bold(body));
    assert(md_from(seq![x], 1) =~= Seq::<MdSpec>::empty());
    assert(md_from(seq![x], 0) =~= seq![MdSpec::Bold(body)]);
}

} // verus!
