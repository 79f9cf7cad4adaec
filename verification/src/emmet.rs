//! Emmet-style abbreviation expansion (`ul>li*3` → HTML).
use vstd::prelude::*;
use crate::text::{append, chars_of, find_from, push_char, push_chars, string_of};

verus! {

/// Why an abbreviation could not be expanded.
#[derive(Debug, Clone, Copy, PartialEq, Eq, Structural)]
pub enum EmmetError {
    /// An element has no tag part (e.g. the input starts with `>` or `+`).
    EmptyTag,
}

// ───────────────────────── specification ─────────────────────────

pub open spec fn is_stop(c: char) -> bool {
    c == '>' || c == '+' || c == '*' || c == '{'
}

/// End of the tag part that starts at `i`: the first `>`, `+`, `*` or `{`.
pub open spec fn stop_at(s: Seq<char>, i: int) -> int
    decreases s.len() - i,
{
    if i < 0 || i >= s.len() || is_stop(s[i]) {
        if i < 0 { 0 } else { i }
    } else {
        stop_at(s, i + 1)
    }
}

/// Splits a tag part such as `div.a#b` into tag, id and classes; the
/// mode is 0 while reading the tag, 1 for a class and 2 for an id.
pub open spec fn assign(
    tag: Seq<char>,
    id: Option<Seq<char>>,
    classes: Seq<Seq<char>>,
    cur: Seq<char>,
    mode: u8,
) -> (Seq<char>, Option<Seq<char>>, Seq<Seq<char>>) {
    if cur.len() == 0 {
        (tag, id, classes)
    } else if mode == 0 {
        (cur, id, classes)
    } else if mode == 1 {
        (tag, id, classes.push(cur))
    } else {
        (tag, Some(cur), classes)
    }
}

pub open spec fn tag_fold(
    p: Seq<char>,
    j: int,
    tag: Seq<char>,
    id: Option<Seq<char>>,
    classes: Seq<Seq<char>>,
    cur: Seq<char>,
    mode: u8,
) -> (Seq<char>, Option<Seq<char>>, Seq<Seq<char>>)
    decreases p.len() - j,
{
    if j < 0 || j >= p.len() {
        assign(tag, id, classes, cur, mode)
    } else if p[j] == '.' || p[j] == '#' {
        let a = assign(tag, id, classes, cur, mode);
        tag_fold(p, j + 1, a.0, a.1, a.2, Seq::empty(), if p[j] == '.' { 1 } else { 2 })
    } else {
        tag_fold(p, j + 1, tag, id, classes, cur.push(p[j]), mode)
    }
}

pub open spec fn div() -> Seq<char> {
    seq!['d', 'i', 'v']
}

/// Tag (default `div`), id and classes of a tag part.
pub open spec fn tag_of(p: Seq<char>) -> (Seq<char>, Option<Seq<char>>, Seq<Seq<char>>) {
    let r = tag_fold(p, 0, Seq::empty(), None, Seq::empty(), Seq::empty(), 0);
    (if r.0.len() == 0 { div() } else { r.0 }, r.1, r.2)
}

/// Elements written `<tag />` when they have no content.
pub open spec fn is_void(tag: Seq<char>) -> bool {
    ||| tag == seq!['i', 'm', 'g']
    ||| tag == seq!['b', 'r']
    ||| tag == seq!['h', 'r']
    ||| tag == seq!['i', 'n', 'p', 'u', 't']
    ||| tag == seq!['m', 'e', 't', 'a']
    ||| tag == seq!['l', 'i', 'n', 'k']
}

/// `classes.join(" ")`.
pub open spec fn join_sp(c: Seq<Seq<char>>) -> Seq<char>
    decreases c.len(),
{
    if c.len() == 0 {
        Seq::empty()
    } else if c.len() == 1 {
        c[0]
    } else {
        join_sp(c.drop_last()) + seq![' '] + c.last()
    }
}

pub open spec fn open_tag(tag: Seq<char>, id: Option<Seq<char>>, classes: Seq<Seq<char>>) -> Seq<
    char,
> {
    seq!['<'] + tag + (match id {
        Some(x) => seq![' ', 'i', 'd', '=', '"'] + x + seq!['"'],
        None => Seq::empty(),
    }) + (if classes.len() > 0 {
        seq![' ', 'c', 'l', 'a', 's', 's', '=', '"'] + join_sp(classes) + seq!['"']
    } else {
        Seq::empty()
    })
}

/// One copy of an element; `children` is `None` when it has no child.
pub open spec fn elem(
    tag: Seq<char>,
    id: Option<Seq<char>>,
    classes: Seq<Seq<char>>,
    text: Option<Seq<char>>,
    children: Option<Seq<char>>,
) -> Seq<char> {
    open_tag(tag, id, classes) + if is_void(tag) && children is None && text is None {
        seq![' ', '/', '>']
    } else {
        seq!['>'] + (match text {
            Some(t) => t,
            None => Seq::empty(),
        }) + (match children {
            Some(c) => c,
            None => Seq::empty(),
        }) + seq!['<', '/'] + tag + seq!['>']
    }
}

pub open spec fn repeat(x: Seq<char>, n: nat) -> Seq<char>
    decreases n,
{
    if n == 0 {
        Seq::empty()
    } else {
        repeat(x, (n - 1) as nat) + x
    }
}

pub open spec fn is_digit(c: char) -> bool {
    '0' <= c <= '9'
}

/// End of the run of ASCII digits that starts at `i`.
pub open spec fn digit_end(s: Seq<char>, i: int) -> int
    decreases s.len() - i,
{
    if i < 0 || i >= s.len() || !is_digit(s[i]) {
        if i < 0 { 0 } else { i }
    } else {
        digit_end(s, i + 1)
    }
}

pub open spec fn digits_value(d: Seq<char>) -> nat
    decreases d.len(),
{
    if d.len() == 0 {
        0
    } else {
        digits_value(d.drop_last()) * 10 + (d.last() as nat - '0' as nat) as nat
    }
}

/// `str::parse::<usize>` on a run of digits, falling back to 1.
pub open spec fn count_of(d: Seq<char>) -> nat {
    if d.len() > 0 && digits_value(d) <= usize::MAX {
        digits_value(d)
    } else {
        1
    }
}

/// Text `{…}` at `k`: the text and the index after it.
pub open spec fn text_at(s: Seq<char>, k: int) -> (Option<Seq<char>>, int) {
    if 0 <= k < s.len() && s[k] == '{' {
        match find_from(s, '}', k + 1) {
            Some(c) => (Some(s.subrange(k + 1, c)), c + 1),
            None => (Some(s.subrange(k + 1, s.len() as int)), s.len() as int),
        }
    } else {
        (None, k)
    }
}

/// Multiplier `*n` at `a`: the count and the index after it.
pub open spec fn count_at(s: Seq<char>, a: int) -> (nat, int) {
    if 0 <= a < s.len() && s[a] == '*' {
        let d = digit_end(s, a + 1);
        (count_of(s.subrange(a + 1, d)), d)
    } else {
        (1, a)
    }
}

/// The element that starts at `i`, rendered `count` times with its
/// children, and where its remainder starts; `None` on an empty tag.
pub open spec fn pn(s: Seq<char>, i: int) -> Option<(Seq<char>, int)>
    decreases s.len() - i, 0int,
{
    let k = stop_at(s, i);
    if i < 0 || k <= i || k > s.len() {
        None
    } else {
        let t = tag_of(s.subrange(i, k));
        let ta = text_at(s, k);
        let ca = count_at(s, ta.1);
        let b = ca.1;
        if b <= i || b > s.len() {
            None
        } else if b < s.len() && s[b] == '>' {
            match pn(s, b + 1) {
                None => None,
                Some(child) => {
                    if child.1 <= b || child.1 > s.len() {
                        None
                    } else {
                        match chain(s, child.1) {
                            None => None,
                            Some(sibs) => Some(
                                (
                                    repeat(elem(t.0, t.1, t.2, ta.0, Some(child.0 + sibs.0)), ca.0),
                                    sibs.1,
                                ),
                            ),
                        }
                    }
                },
            }
        } else {
            Some((repeat(elem(t.0, t.1, t.2, ta.0, None), ca.0), b))
        }
    }
}

/// The `+`-separated siblings that start at `r`, rendered one after the
/// other, and where the rest starts.
pub open spec fn chain(s: Seq<char>, r: int) -> Option<(Seq<char>, int)>
    decreases s.len() - r, 1int,
{
    if 0 <= r < s.len() && s[r] == '+' {
        match pn(s, r + 1) {
            None => None,
            Some(sib) => {
                if sib.1 <= r || sib.1 > s.len() {
                    None
                } else {
                    match chain(s, sib.1) {
                        None => None,
                        Some(rest) => Some((sib.0 + rest.0, rest.1)),
                    }
                }
            },
        }
    } else if r < 0 || r > s.len() {
        None
    } else {
        Some((Seq::empty(), r))
    }
}

/// The HTML that an abbreviation expands to, or `None` when it is invalid.
pub open spec fn expansion(s: Seq<char>) -> Option<Seq<char>> {
    if s.len() == 0 {
        Some(Seq::empty())
    } else {
        match pn(s, 0) {
            None => None,
            Some(root) => match chain(s, root.1) {
                None => None,
                Some(sibs) => Some(root.0 + sibs.0),
            },
        }
    }
}

// ───────────────────────── implementation ─────────────────────────

fn stop_index(s: &[char], i: usize) -> (k: usize)
    requires
        i <= s@.len(),
    ensures
        k == stop_at(s@, i as int),
        i <= k <= s@.len(),
{
    let mut k = i;
    while k < s.len() && !(s[k] == '>' || s[k] == '+' || s[k] == '*' || s[k] == '{')
        invariant
            i <= k <= s@.len(),
            stop_at(s@, i as int) == stop_at(s@, k as int),
        decreases s@.len() - k,
    {
        k = k + 1;
    }
    k
}

/// Tag, id and classes of the tag part `p`.
fn parse_tag_part(p: &[char]) -> (r: (Vec<char>, Option<Vec<char>>, Vec<Vec<char>>))
    ensures
        r.0@ == tag_of(p@).0,
        opt_view(r.1) == tag_of(p@).1,
        crate::text::views(r.2@) == tag_of(p@).2,
{
    let mut tag: Vec<char> = Vec::new();
    let mut id: Option<Vec<char>> = None;
    let mut classes: Vec<Vec<char>> = Vec::new();
    let mut cur: Vec<char> = Vec::new();
    let mut mode: u8 = 0;
    let mut j: usize = 0;
    assert(crate::text::views(classes@) == Seq::<Seq<char>>::empty());
    while j < p.len()
        invariant
            j <= p@.len(),
            tag_fold(p@, 0, Seq::empty(), None, Seq::empty(), Seq::empty(), 0) == tag_fold(
                p@,
                j as int,
                tag@,
                opt_view(id),
                crate::text::views(classes@),
                cur@,
                mode,
            ),
        decreases p@.len() - j,
    {
        let c = p[j];
        if c == '.' || c == '#' {
            assign_token(&mut tag, &mut id, &mut classes, &mut cur, mode);
            cur = Vec::new();
            mode = if c == '.' { 1 } else { 2 };
        } else {
            cur.push(c);
        }
        j = j + 1;
    }
    assign_token(&mut tag, &mut id, &mut classes, &mut cur, mode);
    if tag.len() == 0 {
        tag = vec!['d', 'i', 'v'];
        assert(tag@ == div());
    }
    (tag, id, classes)
}

pub open spec fn opt_view(o: Option<Vec<char>>) -> Option<Seq<char>> {
    match o {
        Some(v) => Some(v@),
        None => None,
    }
}

/// Stores the token read so far as the tag, a class or the id, by `mode`.
fn assign_token(
    tag: &mut Vec<char>,
    id: &mut Option<Vec<char>>,
    classes: &mut Vec<Vec<char>>,
    cur: &mut Vec<char>,
    mode: u8,
)
    ensures
        (final(tag)@, opt_view(*final(id)), crate::text::views(final(classes)@)) == assign(
            old(tag)@,
            opt_view(*old(id)),
            crate::text::views(old(classes)@),
            old(cur)@,
            mode,
        ),
{
    if cur.len() == 0 {
        return;
    }
    let mut token: Vec<char> = Vec::new();
    std::mem::swap(&mut token, cur);
    if mode == 0 {
        *tag = token;
    } else if mode == 1 {
        let ghost before = classes@;
        classes.push(token);
        assert(crate::text::views(classes@) =~= crate::text::views(before).push(classes@.last()@));
    } else {
        *id = Some(token);
    }
}

fn is_void_tag(tag: &[char]) -> (r: bool)
    ensures
        r == is_void(tag@),
{
    proof {
        assert(['i', 'm', 'g']@ == seq!['i', 'm', 'g']);
        assert(['b', 'r']@ == seq!['b', 'r']);
        assert(['h', 'r']@ == seq!['h', 'r']);
        assert(['i', 'n', 'p', 'u', 't']@ == seq!['i', 'n', 'p', 'u', 't']);
        assert(['m', 'e', 't', 'a']@ == seq!['m', 'e', 't', 'a']);
        assert(['l', 'i', 'n', 'k']@ == seq!['l', 'i', 'n', 'k']);
    }
    same(tag, &['i', 'm', 'g']) || same(tag, &['b', 'r']) || same(tag, &['h', 'r']) || same(
        tag,
        &['i', 'n', 'p', 'u', 't'],
    ) || same(tag, &['m', 'e', 't', 'a']) || same(tag, &['l', 'i', 'n', 'k'])
}

fn same(a: &[char], b: &[char]) -> (r: bool)
    ensures
        r == (a@ == b@),
{
    if a.len() != b.len() {
        return false;
    }
    let mut k: usize = 0;
    while k < a.len()
        invariant
            a@.len() == b@.len(),
            k <= a@.len(),
            forall|q: int| 0 <= q < k ==> a@[q] == b@[q],
        decreases a@.len() - k,
    {
        if a[k] != b[k] {
            return false;
        }
        k = k + 1;
    }
    assert(a@ =~= b@);
    true
}

fn join_classes(c: &Vec<Vec<char>>) -> (r: Vec<char>)
    ensures
        r@ == join_sp(crate::text::views(c@)),
{
    let mut r: Vec<char> = Vec::new();
    let mut k: usize = 0;
    while k < c.len()
        invariant
            k <= c@.len(),
            r@ == join_sp(crate::text::views(c@).take(k as int)),
        decreases c@.len() - k,
    {
        let ghost v = crate::text::views(c@);
        assert(v.take(k + 1).drop_last() == v.take(k as int));
        if k > 0 {
            r.push(' ');
        }
        let ghost r0 = r@;
        append(&mut r, &c[k]);
        assert(v.take(k + 1).last() == c@[k as int]@);
        if k == 0 {
            assert(r@ =~= join_sp(v.take(1)));
        }
        k = k + 1;
    }
    assert(crate::text::views(c@).take(c@.len() as int) == crate::text::views(c@));
    r
}


fn open_tag_exec(tag: &Vec<char>, id: &Option<Vec<char>>, classes: &Vec<Vec<char>>) -> (r: Vec<
    char,
>)
    ensures
        r@ == open_tag(tag@, opt_view(*id), crate::text::views(classes@)),
{
    let mut out: Vec<char> = Vec::new();
    out.push('<');
    append(&mut out, tag);
    let ghost o1 = out@;
    match id {
        Some(x) => {
            append(&mut out, &[' ', 'i', 'd', '=', '"']);
            append(&mut out, x);
            out.push('"');
            assert([' ', 'i', 'd', '=', '"']@ == seq![' ', 'i', 'd', '=', '"']);
            assert(out@ =~= o1 + (seq![' ', 'i', 'd', '=', '"'] + x@ + seq!['"']));
        },
        None => {},
    }
    let ghost o2 = out@;
    if classes.len() > 0 {
        append(&mut out, &[' ', 'c', 'l', 'a', 's', 's', '=', '"']);
        let j = join_classes(classes);
        append(&mut out, &j);
        out.push('"');
        assert([' ', 'c', 'l', 'a', 's', 's', '=', '"']@ == seq![' ', 'c', 'l', 'a', 's', 's', '=', '"']);
        assert(out@ =~= o2 + (seq![' ', 'c', 'l', 'a', 's', 's', '=', '"'] + join_sp(crate::text::views(classes@)) + seq!['"']));
    }
    assert(out@ =~= open_tag(tag@, opt_view(*id), crate::text::views(classes@)));
    out
}

pub open spec fn body(tag: Seq<char>, text: Option<Seq<char>>, children: Option<Seq<char>>) -> Seq<char> {
    seq!['>'] + (match text {
        Some(t) => t,
        None => Seq::empty(),
    }) + (match children {
        Some(c) => c,
        None => Seq::empty(),
    }) + seq!['<', '/'] + tag + seq!['>']
}

fn body_exec(tag: &Vec<char>, text: &Option<Vec<char>>, children: &Option<Vec<char>>) -> (r: Vec<char>)
    ensures
        r@ == body(tag@, opt_view(*text), opt_view(*children)),
{
    let mut out: Vec<char> = Vec::new();
    out.push('>');
    match text {
        Some(t) => append(&mut out, t),
        None => {},
    }
    let ghost o5 = out@;
    match children {
        Some(c) => append(&mut out, c),
        None => {},
    }
    out.push('<');
    out.push('/');
    append(&mut out, tag);
    out.push('>');
    assert(out@ =~= body(tag@, opt_view(*text), opt_view(*children)));
    out
}

/// One rendered copy of an element.
fn render_elem(
    tag: &Vec<char>,
    id: &Option<Vec<char>>,
    classes: &Vec<Vec<char>>,
    text: &Option<Vec<char>>,
    children: &Option<Vec<char>>,
) -> (r: Vec<char>)
    ensures
        r@ == elem(tag@, opt_view(*id), crate::text::views(classes@), opt_view(*text), opt_view(*children)),
{
    let mut out = open_tag_exec(tag, id, classes);
    if is_void_tag(tag) && children.is_none() && text.is_none() {
        append(&mut out, &[' ', '/', '>']);
        assert([' ', '/', '>']@ == seq![' ', '/', '>']);
    } else {
        let b = body_exec(tag, text, children);
        append(&mut out, &b);
        assert(body(tag@, opt_view(*text), opt_view(*children)) == seq!['>'] + (match opt_view(*text) {
            Some(t) => t,
            None => Seq::empty(),
        }) + (match opt_view(*children) {
            Some(c) => c,
            None => Seq::empty(),
        }) + seq!['<', '/'] + tag@ + seq!['>']);
    }
    out
}

/// `count` copies of `x`.
fn repeat_exec(x: &Vec<char>, count: usize) -> (r: Vec<char>)
    ensures
        r@ == repeat(x@, count as nat),
{
    let mut out: Vec<char> = Vec::new();
    let mut k: usize = 0;
    while k < count
        invariant
            k <= count,
            out@ == repeat(x@, k as nat),
        decreases count - k,
    {
        append(&mut out, x);
        k = k + 1;
    }
    out
}

/// Value of the digit run `s[a..d]` when it parses as a `usize`.
fn parse_count(s: &[char], a: usize, d: usize) -> (r: usize)
    requires
        a <= d <= s@.len(),
        forall|q: int| a <= q < d ==> is_digit(#[trigger] s@[q]),
    ensures
        r == count_of(s@.subrange(a as int, d as int)),
{
    if a == d {
        return 1;
    }
    let mut v: usize = 0;
    let mut k = a;
    while k < d
        invariant
            a <= k <= d <= s@.len(),
            forall|q: int| a <= q < d ==> is_digit(#[trigger] s@[q]),
            v == digits_value(s@.subrange(a as int, k as int)),
        decreases d - k,
    {
        assert(s@.subrange(a as int, k + 1).drop_last() == s@.subrange(a as int, k as int));
        let digit = (s[k] as u32 - '0' as u32) as usize;
        assert(is_digit(s@[k as int]));
        proof {
            lemma_digits_mono(s@.subrange(a as int, d as int), (k + 1 - a) as int);
            assert(s@.subrange(a as int, d as int).take(k + 1 - a) == s@.subrange(a as int, k + 1));
        }
        if v > (usize::MAX - digit) / 10 {
            proof {
                assert(v * 10 + digit > usize::MAX) by (nonlinear_arith)
                    requires v > (usize::MAX - digit) / 10, digit <= 9;
                assert(digits_value(s@.subrange(a as int, k + 1)) > usize::MAX);
            }
            return 1;
        }
        proof {
            assert(v * 10 + digit <= usize::MAX) by (nonlinear_arith)
                requires v <= (usize::MAX - digit) / 10, digit <= 9;
        }
        v = v * 10 + digit;
        k = k + 1;
    }
    v
}

/// Prefixes of a digit run have no larger value.
proof fn lemma_digits_mono(d: Seq<char>, m: int)
    requires
        0 <= m <= d.len(),
        forall|q: int| 0 <= q < d.len() ==> is_digit(#[trigger] d[q]),
    ensures
        digits_value(d.take(m)) <= digits_value(d),
    decreases d.len() - m,
{
    if m < d.len() {
        lemma_digits_mono(d, m + 1);
        assert(d.take(m + 1).drop_last() == d.take(m));
        assert(d.take(m + 1).last() == d[m]);
        assert(digits_value(d.take(m)) <= digits_value(d.take(m + 1))) by (nonlinear_arith)
            requires digits_value(d.take(m + 1)) == digits_value(d.take(m)) * 10 + (d[m] as nat - '0' as nat) as nat;
    } else {
        assert(d.take(m) == d);
    }
}

/// Parses the element at `i` with its text, multiplier and children, and
/// renders it.
fn parse_node(s: &[char], i: usize) -> (r: Result<(Vec<char>, usize), EmmetError>)
    requires
        i <= s@.len(),
    ensures
        match r {
            Ok(v) => pn(s@, i as int) == Some((v.0@, v.1 as int)),
            Err(_) => pn(s@, i as int) is None,
        },
    decreases s@.len() - i, 0int,
{
    let n = s.len();
    let k = stop_index(s, i);
    if k == i {
        return Err(EmmetError::EmptyTag);
    }
    let part = crate::text::subvec(s, i, k);
    let (tag, id, classes) = parse_tag_part(&part);
    // Text `{...}`
    let mut text: Option<Vec<char>> = None;
    let mut a = k;
    if k < n && s[k] == '{' {
        let mut c = k + 1;
        while c < n && s[c] != '}'
            invariant
                k < c <= n,
                n == s@.len(),
                find_from(s@, '}', k + 1) == find_from(s@, '}', c as int),
            decreases n - c,
        {
            c = c + 1;
        }
        text = Some(crate::text::subvec(s, k + 1, c));
        a = if c < n { c + 1 } else { n };
    }
    assert(opt_view(text) == text_at(s@, k as int).0 && a == text_at(s@, k as int).1);
    // Multiplier `*n`
    let mut count: usize = 1;
    let mut b = a;
    if a < n && s[a] == '*' {
        let mut d = a + 1;
        while d < n && '0' <= s[d] && s[d] <= '9'
            invariant
                a < d <= n,
                n == s@.len(),
                digit_end(s@, a + 1) == digit_end(s@, d as int),
                forall|q: int| a + 1 <= q < d ==> is_digit(#[trigger] s@[q]),
            decreases n - d,
        {
            d = d + 1;
        }
        count = parse_count(s, a + 1, d);
        b = d;
    }
    assert(count as nat == count_at(s@, a as int).0 && b == count_at(s@, a as int).1);
    if b < n && s[b] == '>' {
        let child = parse_node(s, b + 1)?;
        proof {
            lemma_pn_advances(s@, (b + 1) as int);
        }
        let sibs = parse_chain(s, child.1)?;
        let mut inner = child.0;
        append(&mut inner, &sibs.0);
        let children = Some(inner);
        let one = render_elem(&tag, &id, &classes, &text, &children);
        Ok((repeat_exec(&one, count), sibs.1))
    } else {
        let one = render_elem(&tag, &id, &classes, &text, &None);
        Ok((repeat_exec(&one, count), b))
    }
}

/// Renders the `+`-separated siblings that start at `r`.
fn parse_chain(s: &[char], r: usize) -> (res: Result<(Vec<char>, usize), EmmetError>)
    requires
        r <= s@.len(),
    ensures
        match res {
            Ok(v) => chain(s@, r as int) == Some((v.0@, v.1 as int)),
            Err(_) => chain(s@, r as int) is None,
        },
    decreases s@.len() - r, 1int,
{
    if r < s.len() && s[r] == '+' {
        let sib = parse_node(s, r + 1)?;
        proof {
            lemma_pn_advances(s@, (r + 1) as int);
        }
        let rest = parse_chain(s, sib.1)?;
        let mut out = sib.0;
        append(&mut out, &rest.0);
        Ok((out, rest.1))
    } else {
        Ok((Vec::new(), r))
    }
}

/// A parsed element ends after where it started, inside the input.
proof fn lemma_pn_advances(s: Seq<char>, i: int)
    requires
        0 <= i <= s.len(),
    ensures
        pn(s, i) matches Some(x) ==> i < x.1 <= s.len(),
    decreases s.len() - i, 0int,
{
    let k = stop_at(s, i);
    if !(i < 0 || k <= i || k > s.len()) {
        let ta = text_at(s, k);
        let b = count_at(s, ta.1).1;
        if !(b <= i || b > s.len()) && b < s.len() && s[b] == '>' {
            lemma_pn_advances(s, b + 1);
            if let Some(child) = pn(s, b + 1) {
                if !(child.1 <= b || child.1 > s.len()) {
                    lemma_chain_advances(s, child.1);
                }
            }
        }
    }
}

proof fn lemma_chain_advances(s: Seq<char>, r: int)
    requires
        0 <= r <= s.len(),
    ensures
        chain(s, r) matches Some(x) ==> r <= x.1 <= s.len(),
    decreases s.len() - r, 1int,
{
    if 0 <= r < s.len() && s[r] == '+' {
        lemma_pn_advances(s, r + 1);
        if let Some(sib) = pn(s, r + 1) {
            if !(sib.1 <= r || sib.1 > s.len()) {
                lemma_chain_advances(s, sib.1);
            }
        }
    }
}

/// Expands an Emmet abbreviation into HTML: `tag.class#id`, `{text}`,
/// `*n`, children with `>` and siblings with `+`.
pub fn expand_abbreviation(abbr: &str) -> (r: Result<String, EmmetError>)
    ensures
        match r {
            Ok(html) => expansion(abbr@) == Some(html@),
            Err(_) => expansion(abbr@) is None,
        },
{
    let s = chars_of(abbr);
    if s.len() == 0 {
        return Ok(String::new());
    }
    let root = parse_node(&s, 0)?;
    proof {
        lemma_pn_advances(s@, 0);
    }
    let sibs = parse_chain(&s, root.1)?;
    let mut out = root.0;
    append(&mut out, &sibs.0);
    Ok(string_of(&out))
}

/// A character of a tag, class or id name: not one of `. # > + * {`.
pub open spec fn name_char(c: char) -> bool {
    c != '.' && c != '#' && c != '>' && c != '+' && c != '*' && c != '{'
}

proof fn lemma_stop_at_none(s: Seq<char>, i: int)
    requires
        0 <= i <= s.len(),
        forall|k: int| 0 <= k < s.len() ==> !is_stop(#[trigger] s[k]),
    ensures
        stop_at(s, i) == s.len(),
    decreases s.len() - i,
{
    if i < s.len() {
        assert(!is_stop(s[i]));
        lemma_stop_at_none(s, i + 1);
    }
}

proof fn lemma_fold_name(
    p: Seq<char>,
    j: int,
    k: int,
    tag: Seq<char>,
    id: Option<Seq<char>>,
    classes: Seq<Seq<char>>,
    cur: Seq<char>,
    mode: u8,
)
    requires
        0 <= j <= k <= p.len(),
        forall|q: int| j <= q < k ==> name_char(#[trigger] p[q]),
    ensures
        tag_fold(p, j, tag, id, classes, cur, mode) == tag_fold(
            p,
            k,
            tag,
            id,
            classes,
            cur + p.subrange(j, k),
            mode,
        ),
    decreases k - j,
{
    if j < k {
        assert(name_char(p[j]));
        lemma_fold_name(p, j + 1, k, tag, id, classes, cur.push(p[j]), mode);
        assert(cur.push(p[j]) + p.subrange(j + 1, k) =~= cur + p.subrange(j, k));
    } else {
        assert(cur + p.subrange(j, k) =~= cur);
    }
}

/// The class attribute holds the classes separated by single spaces: an
/// element `tag.a.b` (names made of characters other than `. # > + * {`,
/// the tag not a void one) expands to `<tag class="a b"></tag>`.
pub proof fn law_classes_space_separated(w: Seq<char>, a: Seq<char>, b: Seq<char>)
    requires
        w.len() > 0,
        a.len() > 0,
        b.len() > 0,
        forall|k: int| 0 <= k < w.len() ==> name_char(#[trigger] w[k]),
        forall|k: int| 0 <= k < a.len() ==> name_char(#[trigger] a[k]),
        forall|k: int| 0 <= k < b.len() ==> name_char(#[trigger] b[k]),
        !is_void(w),
    ensures
        expansion(w + seq!['.'] + a + seq!['.'] + b) == Some(
            seq!['<'] + w + seq![' ', 'c', 'l', 'a', 's', 's', '=', '"'] + a + seq![' '] + b + seq![
                '"',
                '>',
                '<',
                '/',
            ] + w + seq!['>'],
        ),
{
    let s = w + seq!['.'] + a + seq!['.'] + b;
    let n = s.len() as int;
    let d1 = w.len() as int;
    let d2 = d1 + 1 + a.len();
    assert forall|q: int| 0 <= q < d1 implies name_char(#[trigger] s[q]) by {
        assert(s[q] == w[q]);
    }
    assert forall|q: int| d1 + 1 <= q < d2 implies name_char(#[trigger] s[q]) by {
        assert(s[q] == a[q - d1 - 1]);
    }
    assert forall|q: int| d2 + 1 <= q < n implies name_char(#[trigger] s[q]) by {
        assert(s[q] == b[q - d2 - 1]);
    }
    assert(s[d1] == '.');
    assert(s[d2] == '.');
    // no stop character at all
    assert forall|q: int| 0 <= q < n implies !is_stop(#[trigger] s[q]) by {
        if q < d1 {
        } else if q == d1 || q == d2 {
        } else if q < d2 {
        } else {
        }
    }
    lemma_stop_at_none(s, 0);
    // the tag part is all of `s`
    assert(s.subrange(0, n) =~= s);
    let e = Seq::<char>::empty();
    let ec = Seq::<Seq<char>>::empty();
    lemma_fold_name(s, 0, d1, e, None, ec, e, 0);
    assert(e + s.subrange(0, d1) =~= w);
    lemma_fold_name(s, d1 + 1, d2, w, None, ec, e, 1);
    assert(e + s.subrange(d1 + 1, d2) =~= a);
    lemma_fold_name(s, d2 + 1, n, w, None, seq![a], e, 1);
    assert(e + s.subrange(d2 + 1, n) =~= b);
    assert(ec.push(a) =~= seq![a]);
    assert(seq![a].push(b) =~= seq![a, b]);
    assert(tag_of(s) == (w, None::<Seq<char>>, seq![a, b]));
    // one copy, no text, no children, no siblings
    assert(text_at(s, n) == (None::<Seq<char>>, n));
    assert(count_at(s, n) == (1nat, n));
    let el = elem(w, None, seq![a, b], None, None);
    assert(pn(s, 0) == Some((repeat(el, 1), n)));
    assert(chain(s, n) == Some((Seq::<char>::empty(), n)));
    assert(repeat(el, 1) =~= el) by {
        assert(repeat(el, 0) == Seq::<char>::empty());
    }
    assert(join_sp(seq![a]) == a);
    assert(seq![a, b].drop_last() =~= seq![a]);
    assert(join_sp(seq![a, b]) == a + seq![' '] + b);
    assert(expansion(s) == Some(el + Seq::<char>::empty()));
    assert(el + Seq::<char>::empty() =~= seq!['<'] + w + seq![' ', 'c', 'l', 'a', 's', 's', '=', '"'] + a
        + seq![' '] + b + seq!['"', '>', '<', '/'] + w + seq!['>']);
}

/// An element `tag#x` (names made of characters other than
/// `. # > + * {`, the tag not a void one) expands to `<tag id="x"></tag>`.
pub proof fn law_id_attribute(w: Seq<char>, x: Seq<char>)
    requires
        w.len() > 0,
        x.len() > 0,
        forall|k: int| 0 <= k < w.len() ==> name_char(#[trigger] w[k]),
        forall|k: int| 0 <= k < x.len() ==> name_char(#[trigger] x[k]),
        !is_void(w),
    ensures
        expansion(w + seq!['#'] + x) == Some(
            seq!['<'] + w + seq![' ', 'i', 'd', '=', '"'] + x + seq!['"', '>', '<', '/'] + w + seq!['>'],
        ),
{
    let s = w + seq!['#'] + x;
    let n = s.len() as int;
    let d = w.len() as int;
    assert forall|q: int| 0 <= q < d implies name_char(#[trigger] s[q]) by {
        assert(s[q] == w[q]);
    }
    assert forall|q: int| d + 1 <= q < n implies name_char(#[trigger] s[q]) by {
        assert(s[q] == x[q - d - 1]);
    }
    assert(s[d] == '#');
    assert forall|q: int| 0 <= q < n implies !is_stop(#[trigger] s[q]) by {
        if q < d {
        } else if q == d {
        } else {
        }
    }
    lemma_stop_at_none(s, 0);
    assert(s.subrange(0, n) =~= s);
    let e = Seq::<char>::empty();
    let ec = Seq::<Seq<char>>::empty();
    lemma_fold_name(s, 0, d, e, None, ec, e, 0);
    assert(e + s.subrange(0, d) =~= w);
    lemma_fold_name(s, d + 1, n, w, None, ec, e, 2);
    assert(e + s.subrange(d + 1, n) =~= x);
    assert(tag_of(s) == (w, Some(x), ec));
    assert(text_at(s, n) == (None::<Seq<char>>, n));
    assert(count_at(s, n) == (1nat, n));
    let el = elem(w, Some(x), ec, None, None);
    assert(pn(s, 0) == Some((repeat(el, 1), n)));
    assert(chain(s, n) == Some((Seq::<char>::empty(), n)));
    assert(repeat(el, 1) =~= el) by {
        assert(repeat(el, 0) == Seq::<char>::empty());
    }
    assert(expansion(s) == Some(el + Seq::<char>::empty()));
    assert(el + Seq::<char>::empty() =~= seq!['<'] + w + seq![' ', 'i', 'd', '=', '"'] + x + seq![
        '"',
        '>',
        '<',
        '/',
    ] + w + seq!['>']);
}

} // verus!
