//! Character-level text primitives shared by the editor features: the
//! mathematical meaning of `str::lines`, `str::trim*`, `starts_with`, and
//! verified executable counterparts that work on `Vec<char>`.
use vstd::prelude::*;

verus! {

// ───────────────────────── specifications ─────────────────────────

/// Unicode `White_Space`, the property that `char::is_whitespace` tests.
pub open spec fn is_ws(c: char) -> bool {
    let u = c as u32;
    ||| u == 0x09 || u == 0x0A || u == 0x0B || u == 0x0C || u == 0x0D || u == 0x20
    ||| u == 0x85 || u == 0xA0 || u == 0x1680
    ||| 0x2000 <= u && u <= 0x200A
    ||| u == 0x2028 || u == 0x2029 || u == 0x202F || u == 0x205F || u == 0x3000
}

/// Number of whitespace characters at the front of `s`.
pub open spec fn leading_ws(s: Seq<char>) -> nat
    decreases s.len(),
{
    if s.len() > 0 && is_ws(s[0]) {
        1 + leading_ws(s.drop_first())
    } else {
        0
    }
}

/// Number of whitespace characters at the back of `s`.
pub open spec fn trailing_ws(s: Seq<char>) -> nat
    decreases s.len(),
{
    if s.len() > 0 && is_ws(s.last()) {
        1 + trailing_ws(s.drop_last())
    } else {
        0
    }
}

/// `str::trim_start`.
pub open spec fn trim_start(s: Seq<char>) -> Seq<char> {
    s.skip(leading_ws(s) as int)
}

/// `str::trim_end`.
pub open spec fn trim_end(s: Seq<char>) -> Seq<char> {
    s.take(s.len() - trailing_ws(s))
}

/// `str::trim`.
pub open spec fn trim(s: Seq<char>) -> Seq<char> {
    trim_end(trim_start(s))
}

/// Every character of `s` is whitespace, i.e. `s.trim().is_empty()`.
pub open spec fn is_blank(s: Seq<char>) -> bool {
    forall|i: int| 0 <= i < s.len() ==> is_ws(#[trigger] s[i])
}

/// Index of the first `'\n'` of `s`, or `s.len()` when there is none.
pub open spec fn newline_at(s: Seq<char>) -> nat
    decreases s.len(),
{
    if s.len() == 0 {
        0
    } else if s[0] == '\n' {
        0
    } else {
        1 + newline_at(s.drop_first())
    }
}

/// Drops one `'\r'` at the end of a line that was ended by `'\n'`.
pub open spec fn strip_cr(l: Seq<char>) -> Seq<char> {
    if l.len() > 0 && l.last() == '\r' {
        l.drop_last()
    } else {
        l
    }
}

/// `str::lines`: split at `'\n'`, drop a `'\r'` before each `'\n'`,
/// and yield no empty last line for a trailing `'\n'`.
pub open spec fn lines(s: Seq<char>) -> Seq<Seq<char>>
    decreases s.len(),
{
    if s.len() == 0 {
        Seq::empty()
    } else {
        let k = newline_at(s);
        if k < s.len() {
            seq![strip_cr(s.take(k as int))] + lines(s.skip(k + 1 as int))
        } else {
            seq![s]
        }
    }
}

/// The views of a vector of character vectors.
pub open spec fn views(v: Seq<Vec<char>>) -> Seq<Seq<char>> {
    Seq::new(v.len(), |i: int| v[i]@)
}

/// First index at or after `i` at which `c` occurs in `s`, if any.
pub open spec fn find_from(s: Seq<char>, c: char, i: int) -> Option<int>
    decreases s.len() - i,
{
    if i < 0 || i >= s.len() {
        None
    } else if s[i] == c {
        Some(i)
    } else {
        find_from(s, c, i + 1)
    }
}

/// First index at which `c` occurs in `s`, if any (`str::find`).
pub open spec fn find_char(s: Seq<char>, c: char) -> Option<int> {
    find_from(s, c, 0)
}

// ───────────────────────── lemmas ─────────────────────────

pub proof fn lemma_find_from(s: Seq<char>, c: char, i: int)
    requires
        0 <= i,
    ensures
        find_from(s, c, i) matches Some(k) ==> i <= k < s.len() && s[k] == c && forall|j: int|
            i <= j < k ==> s[j] != c,
        find_from(s, c, i) is None ==> forall|j: int| i <= j < s.len() ==> s[j] != c,
    decreases s.len() - i,
{
    if i < s.len() && s[i] != c {
        lemma_find_from(s, c, i + 1);
    }
}

/// `c` occurs at `k`, so it is found, no later than `k`.
pub proof fn lemma_find_some(s: Seq<char>, c: char, k: int)
    requires
        0 <= k < s.len(),
        s[k] == c,
    ensures
        find_char(s, c) is Some,
        0 <= find_char(s, c).unwrap() <= k,
        s[find_char(s, c).unwrap()] == c,
{
    lemma_find_from(s, c, 0);
    if find_char(s, c) is None {
        assert(s[k] != c);
    } else {
        let w = find_char(s, c).unwrap();
        if w > k {
            assert(s[k] != c);
        }
    }
}

pub proof fn lemma_leading_ws(s: Seq<char>, n: int)
    requires
        0 <= n <= s.len(),
        forall|j: int| 0 <= j < n ==> is_ws(#[trigger] s[j]),
        n == s.len() || !is_ws(s[n]),
    ensures
        leading_ws(s) == n,
    decreases n,
{
    if n > 0 {
        if n < s.len() {
            assert(s.drop_first()[n - 1] == s[n]);
        }
        assert forall|j: int| 0 <= j < n - 1 implies is_ws(#[trigger] s.drop_first()[j]) by {
            assert(s.drop_first()[j] == s[j + 1]);
        }
        lemma_leading_ws(s.drop_first(), n - 1);
    }
}

pub proof fn lemma_trailing_ws(s: Seq<char>, n: int)
    requires
        0 <= n <= s.len(),
        forall|j: int| s.len() - n <= j < s.len() ==> is_ws(#[trigger] s[j]),
        n == s.len() || !is_ws(s[s.len() - n - 1]),
    ensures
        trailing_ws(s) == n,
    decreases n,
{
    if n > 0 {
        let t = s.drop_last();
        assert forall|j: int| t.len() - (n - 1) <= j < t.len() implies is_ws(#[trigger] t[j]) by {
            assert(t[j] == s[j]);
        }
        if n - 1 < t.len() {
            assert(t[t.len() - (n - 1) - 1] == s[s.len() - n - 1]);
        }
        lemma_trailing_ws(t, n - 1);
    }
}

pub proof fn lemma_newline_at(s: Seq<char>, k: int)
    requires
        0 <= k <= s.len(),
        forall|j: int| 0 <= j < k ==> #[trigger] s[j] != '\n',
        k == s.len() || s[k] == '\n',
    ensures
        newline_at(s) == k,
    decreases k,
{
    if k > 0 {
        assert forall|j: int| 0 <= j < k - 1 implies #[trigger] s.drop_first()[j] != '\n' by {
            assert(s.drop_first()[j] == s[j + 1]);
        }
        if k < s.len() {
            assert(s.drop_first()[k - 1] == s[k]);
        }
        lemma_newline_at(s.drop_first(), k - 1);
    }
}

pub proof fn lemma_newline_bound(s: Seq<char>)
    ensures
        newline_at(s) <= s.len(),
    decreases s.len(),
{
    if s.len() > 0 && s[0] != '\n' {
        lemma_newline_bound(s.drop_first());
    }
}

/// No line of `t` is longer than `t`.
pub proof fn lemma_line_len(t: Seq<char>)
    ensures
        forall|q: int| 0 <= q < lines(t).len() ==> #[trigger] lines(t)[q].len() <= t.len(),
    decreases t.len(),
{
    if t.len() > 0 {
        lemma_newline_bound(t);
        let k = newline_at(t);
        if k < t.len() {
            lemma_line_len(t.skip(k + 1 as int));
            assert forall|q: int| 0 <= q < lines(t).len() implies #[trigger] lines(t)[q].len() <= t.len() by {
                if q > 0 {
                    assert(lines(t)[q] == lines(t.skip(k + 1 as int))[q - 1]);
                }
            }
        }
    }
}

/// Basic facts about `leading_ws`.
pub proof fn lemma_leading_ws_props(s: Seq<char>)
    ensures
        leading_ws(s) <= s.len(),
        forall|j: int| 0 <= j < leading_ws(s) ==> is_ws(#[trigger] s[j]),
        leading_ws(s) < s.len() ==> !is_ws(s[leading_ws(s) as int]),
    decreases s.len(),
{
    if s.len() > 0 && is_ws(s[0]) {
        let t = s.drop_first();
        lemma_leading_ws_props(t);
        assert forall|j: int| 0 <= j < leading_ws(s) implies is_ws(#[trigger] s[j]) by {
            if j > 0 {
                assert(s[j] == t[j - 1]);
            }
        }
        if leading_ws(s) < s.len() {
            assert(s[leading_ws(s) as int] == t[leading_ws(t) as int]);
        }
    }
}

/// A blank sequence trims to nothing, and a non-blank one does not.
pub proof fn lemma_trim_empty(s: Seq<char>)
    ensures
        (trim(s).len() == 0) == is_blank(s),
        trim_start(s).len() == 0 <==> is_blank(s),
{
    lemma_leading_ws_props(s);
    let n = leading_ws(s) as int;
    let t = trim_start(s);
    if n < s.len() {
        assert(t[0] == s[n]);
        lemma_trailing_ws_bound(t);
        assert(!is_blank(s));
    } else {
        assert(t.len() == 0);
        assert(trailing_ws(t) == 0);
    }
}

/// Where the first line feed of `a + s` is: that of `a`, or past all of
/// `a` when `a` has none.
pub proof fn lemma_newline_at_concat(a: Seq<char>, s: Seq<char>)
    ensures
        newline_at(a) < a.len() ==> newline_at(a + s) == newline_at(a),
        newline_at(a) >= a.len() ==> newline_at(a + s) == a.len() + newline_at(s),
    decreases a.len(),
{
    if a.len() > 0 && a[0] != '\n' {
        lemma_newline_at_concat(a.drop_first(), s);
        assert((a + s).drop_first() == a.drop_first() + s);
    } else if a.len() == 0 {
        assert(a + s == s);
    }
}

/// Dropping a trailing whitespace character does not change the trim.
pub proof fn lemma_trim_drop_ws_last(l: Seq<char>)
    requires
        l.len() > 0,
        is_ws(l.last()),
    ensures
        trim(l.drop_last()) == trim(l),
{
    let d = l.drop_last();
    lemma_trim_empty(l);
    lemma_trim_empty(d);
    if is_blank(l) {
        assert(is_blank(d)) by {
            assert forall|i: int| 0 <= i < d.len() implies is_ws(#[trigger] d[i]) by {
                assert(d[i] == l[i]);
            }
        }
        assert(trim(l) =~= trim(d));
    } else {
        lemma_leading_ws_props(l);
        let n = leading_ws(l) as int;
        assert(n < l.len() - 1) by {
            if n >= l.len() - 1 {
                assert forall|i: int| 0 <= i < l.len() implies is_ws(#[trigger] l[i]) by {
                    if i < n {
                    } else {
                        assert(i == l.len() - 1);
                    }
                }
            }
        }
        assert forall|j: int| 0 <= j < n implies is_ws(#[trigger] d[j]) by {
            assert(d[j] == l[j]);
        }
        assert(d[n] == l[n]);
        lemma_leading_ws(d, n);
        let u = trim_start(l);
        assert(trim_start(d) =~= u.drop_last());
        assert(u.len() > 0 && u.last() == l.last());
        assert(trailing_ws(u) == 1 + trailing_ws(u.drop_last()));
        lemma_trailing_le(u.drop_last());
        let m = u.len() - trailing_ws(u);
        assert(trim_end(u.drop_last()).len() == m);
        assert(trim_end(u).len() == m);
        assert forall|i: int| 0 <= i < m implies trim_end(u.drop_last())[i] == trim_end(u)[i] by {
            assert(u.drop_last()[i] == u[i]);
        }
        assert(trim_end(u.drop_last()) =~= trim_end(u));
    }
}

/// The lines of `a`, a line feed, then `b`: those of `a` (its last one
/// without a final carriage return, and an empty one after `a` when `a`
/// ends with a line feed or is empty), then those of `b`.
pub proof fn lemma_lines_join(a: Seq<char>, b: Seq<char>)
    ensures
        a.len() == 0 ==> lines(a + seq!['\n'] + b) == seq![Seq::<char>::empty()] + lines(b),
        a.len() > 0 && a.last() == '\n' ==> lines(a + seq!['\n'] + b) == lines(a) + seq![
            Seq::<char>::empty(),
        ] + lines(b),
        a.len() > 0 && a.last() != '\n' ==> lines(a).len() > 0 && lines(a + seq!['\n'] + b)
            == lines(a).update(lines(a).len() - 1, strip_cr(lines(a).last())) + lines(b),
    decreases a.len(),
{
    let nl = seq!['\n'];
    let s = a + nl + b;
    lemma_newline_bound(a);
    lemma_newline_at_concat(a, nl + b);
    assert(s == a + (nl + b));
    if a.len() == 0 {
        assert(s == nl + b);
        assert(newline_at(s) == 0);
        assert(s.take(0) =~= Seq::<char>::empty());
        assert(s.skip(1) =~= b);
        assert(strip_cr(Seq::<char>::empty()) == Seq::<char>::empty());
    } else {
        let k = newline_at(a) as int;
        if k >= a.len() {
            assert(newline_at(nl + b) == 0);
            assert(newline_at(s) == a.len());
            assert(s.take(a.len() as int) =~= a);
            assert(s.skip(a.len() + 1 as int) =~= b);
            assert(lines(a) == seq![a]);
            assert(a.last() != '\n') by {
                if a.last() == '\n' {
                    lemma_no_newline_before(a, a.len() - 1);
                }
            }
            assert(lines(a).update(0, strip_cr(a)) =~= seq![strip_cr(a)]);
        } else {
            let a2 = a.skip(k + 1);
            assert(s.take(k) =~= a.take(k));
            assert(s.skip(k + 1) =~= a2 + nl + b);
            assert(lines(a) == seq![strip_cr(a.take(k))] + lines(a2));
            assert(lines(s) == seq![strip_cr(a.take(k))] + lines(a2 + nl + b));
            lemma_lines_join(a2, b);
            if a2.len() == 0 {
                lemma_newline_char(a);
                assert(k == a.len() - 1);
                assert(lines(a2) =~= Seq::<Seq<char>>::empty());
                assert(lines(s) =~= lines(a) + seq![Seq::<char>::empty()] + lines(b));
            } else {
                assert(a2.last() == a.last());
                if a.last() == '\n' {
                    assert(lines(s) =~= lines(a) + seq![Seq::<char>::empty()] + lines(b));
                } else {
                    let la = lines(a);
                    let l2 = lines(a2);
                    assert(la.last() == l2.last());
                    assert(lines(s) =~= la.update(la.len() - 1, strip_cr(la.last())) + lines(b));
                }
            }
        }
    }
}

pub proof fn lemma_trailing_le(x: Seq<char>)
    ensures
        trailing_ws(x) <= x.len(),
    decreases x.len(),
{
    if x.len() > 0 && is_ws(x.last()) {
        lemma_trailing_le(x.drop_last());
    }
}

/// The first line feed, when there is one, is a line feed.
proof fn lemma_newline_char(s: Seq<char>)
    ensures
        newline_at(s) < s.len() ==> s[newline_at(s) as int] == '\n',
    decreases s.len(),
{
    if s.len() > 0 && s[0] != '\n' {
        lemma_newline_char(s.drop_first());
        assert(newline_at(s) < s.len() ==> s.drop_first()[newline_at(s.drop_first()) as int] == s[newline_at(s) as int]);
    }
}

/// No character before the first line feed is one.
proof fn lemma_no_newline_before(s: Seq<char>, j: int)
    requires
        0 <= j < newline_at(s),
        newline_at(s) <= s.len(),
    ensures
        s[j] != '\n',
    decreases j,
{
    if j > 0 {
        assert(s.drop_first()[j - 1] == s[j]);
        lemma_no_newline_before(s.drop_first(), j - 1);
    }
}

/// A text that trims to itself has no whitespace at either end.
pub proof fn lemma_trimmed_ends(x: Seq<char>)
    requires
        x.len() > 0,
        trim(x) == x,
    ensures
        !is_ws(x[0]),
        !is_ws(x.last()),
{
    lemma_leading_ws_props(x);
    let n = leading_ws(x) as int;
    let u = trim_start(x);
    lemma_trailing_le(u);
    if is_ws(x[0]) {
        assert(leading_ws(x) >= 1);
        assert(trim(x).len() < x.len());
    }
    if is_ws(x.last()) {
        if n < x.len() {
            assert(u.last() == x.last());
            assert(trailing_ws(u) >= 1);
            assert(trim(x).len() < x.len());
        } else {
            assert(u.len() == 0);
        }
    }
}

/// `trailing_ws` never swallows a non-whitespace first character.
pub proof fn lemma_trailing_ws_bound(t: Seq<char>)
    requires
        t.len() > 0,
        !is_ws(t[0]),
    ensures
        trailing_ws(t) < t.len(),
    decreases t.len(),
{
    if t.len() > 1 && is_ws(t.last()) {
        assert(t.drop_last()[0] == t[0]);
        lemma_trailing_ws_bound(t.drop_last());
    }
}

// ───────────────────────── executable functions ─────────────────────────

/// Appends `c` to `s` (`String::push`).
#[verifier::external_body]
pub fn push_char(s: &mut String, c: char)
    ensures
        final(s)@ == old(s)@.push(c),
{
    s.push(c);
}

/// Removes and returns the last character of `s` (`String::pop`).
#[verifier::external_body]
pub fn pop_char(s: &mut String) -> (r: Option<char>)
    ensures
        old(s)@.len() == 0 ==> r is None && final(s)@ == old(s)@,
        old(s)@.len() > 0 ==> r == Some(old(s)@.last()) && final(s)@ == old(s)@.drop_last(),
{
    s.pop()
}

/// Appends the characters of `x` to `r`.
pub fn append(r: &mut Vec<char>, x: &[char])
    ensures
        final(r)@ == old(r)@ + x@,
{
    let mut k: usize = 0;
    while k < x.len()
        invariant
            k <= x@.len(),
            r@ == old(r)@ + x@.take(k as int),
        decreases x@.len() - k,
    {
        r.push(x[k]);
        assert(x@.take(k + 1) == x@.take(k as int).push(x@[k as int]));
        k = k + 1;
    }
    assert(x@.take(x@.len() as int) == x@);
}

/// The Unicode lowercase mapping of `str::to_lowercase`.
pub uninterp spec fn lowercase(s: Seq<char>) -> Seq<char>;

/// `str::to_lowercase`.  Its result is named [`lowercase`]; the only other
/// fact stated is that a `String` never holds more than `isize::MAX` bytes,
/// hence never more characters.
#[verifier::external_body]
pub fn to_lowercase(s: &str) -> (r: String)
    ensures
        r@ == lowercase(s@),
        r@.len() <= isize::MAX,
        vstd::utf8::encode_utf8(r@).len() <= isize::MAX,
{
    s.to_lowercase()
}

/// The characters of `s`, in order.
pub fn chars_of(s: &str) -> (v: Vec<char>)
    ensures
        v@ == s@,
{
    let mut v: Vec<char> = Vec::new();
    for c in it: s.chars()
        invariant
            it.seq() == s@,
            v@ == it.seq().take(it.index() as int),
    {
        v.push(c);
    }
    v
}

/// A `String` holding the characters of `v`.
pub fn string_of(v: &[char]) -> (s: String)
    ensures
        s@ == v@,
{
    let mut s = String::new();
    let mut i: usize = 0;
    while i < v.len()
        invariant
            i <= v.len(),
            s@ == v@.take(i as int),
        decreases v.len() - i,
    {
        push_char(&mut s, v[i]);
        assert(v@.take(i + 1) == v@.take(i as int).push(v@[i as int]));
        i = i + 1;
    }
    assert(v@.take(v.len() as int) == v@);
    s
}

/// Appends the characters of `v` to `s`.
pub fn push_chars(s: &mut String, v: &[char])
    ensures
        final(s)@ == old(s)@ + v@,
{
    let mut i: usize = 0;
    while i < v.len()
        invariant
            i <= v.len(),
            s@ == old(s)@ + v@.take(i as int),
        decreases v.len() - i,
    {
        push_char(s, v[i]);
        assert(v@.take(i + 1) == v@.take(i as int).push(v@[i as int]));
        i = i + 1;
    }
    assert(v@.take(v.len() as int) == v@);
}

/// `char::is_whitespace`.
pub fn is_whitespace(c: char) -> (r: bool)
    ensures
        r == is_ws(c),
{
    let u = c as u32;
    u == 0x09 || u == 0x0A || u == 0x0B || u == 0x0C || u == 0x0D || u == 0x20 || u == 0x85
        || u == 0xA0 || u == 0x1680 || (0x2000 <= u && u <= 0x200A) || u == 0x2028 || u == 0x2029
        || u == 0x202F || u == 0x205F || u == 0x3000
}

/// Number of leading whitespace characters.
pub fn leading_ws_len(s: &[char]) -> (n: usize)
    ensures
        n == leading_ws(s@),
        n <= s@.len(),
{
    let mut n: usize = 0;
    while n < s.len() && is_whitespace(s[n])
        invariant
            n <= s.len(),
            forall|j: int| 0 <= j < n ==> is_ws(#[trigger] s@[j]),
        decreases s.len() - n,
    {
        n = n + 1;
    }
    proof {
        lemma_leading_ws(s@, n as int);
    }
    n
}

/// Number of trailing whitespace characters.
pub fn trailing_ws_len(s: &[char]) -> (n: usize)
    ensures
        n == trailing_ws(s@),
        n <= s@.len(),
{
    let mut n: usize = 0;
    while n < s.len() && is_whitespace(s[s.len() - 1 - n])
        invariant
            n <= s.len(),
            forall|j: int| s.len() - n <= j < s.len() ==> is_ws(#[trigger] s@[j]),
        decreases s.len() - n,
    {
        n = n + 1;
    }
    proof {
        lemma_trailing_ws(s@, n as int);
    }
    n
}

/// `s.trim()` as the half-open range `[start, end)` of `s`.
pub fn trim_bounds(s: &[char]) -> (r: (usize, usize))
    ensures
        r.0 <= r.1 <= s@.len(),
        s@.subrange(r.0 as int, r.1 as int) == trim(s@),
        r.0 == leading_ws(s@),
{
    let a = leading_ws_len(s);
    let t = slice_from(s, a);
    let b = trailing_ws_len(&t);
    assert(t@ == trim_start(s@));
    assert(t.len() == s.len() - a);
    assert(s@.subrange(a as int, (a + (t.len() - b)) as int) == trim(s@));
    (a, a + (t.len() - b))
}

/// `s[from..]` as a new vector.
pub fn slice_from(s: &[char], from: usize) -> (r: Vec<char>)
    requires
        from <= s@.len(),
    ensures
        r@ == s@.skip(from as int),
{
    subvec(s, from, s.len())
}

/// `s[from..to]` as a new vector.
pub fn subvec(s: &[char], from: usize, to: usize) -> (r: Vec<char>)
    requires
        from <= to <= s@.len(),
    ensures
        r@ == s@.subrange(from as int, to as int),
{
    let mut r: Vec<char> = Vec::new();
    let mut i = from;
    while i < to
        invariant
            from <= i <= to <= s@.len(),
            r@ == s@.subrange(from as int, i as int),
        decreases to - i,
    {
        r.push(s[i]);
        assert(s@.subrange(from as int, i + 1) == s@.subrange(from as int, i as int).push(s@[i as int]));
        i = i + 1;
    }
    r
}

/// `s.trim()` as a new vector.
pub fn trimmed(s: &[char]) -> (r: Vec<char>)
    ensures
        r@ == trim(s@),
{
    let (a, b) = trim_bounds(s);
    subvec(s, a, b)
}

/// `s.trim().is_empty()`.
pub fn blank(s: &[char]) -> (r: bool)
    ensures
        r == is_blank(s@),
        r == (trim(s@).len() == 0),
{
    proof {
        lemma_trim_empty(s@);
    }
    let n = leading_ws_len(s);
    n == s.len()
}

/// `p` is a prefix of `s` (`starts_with`).
pub fn starts_with(s: &[char], p: &[char]) -> (r: bool)
    ensures
        r == p@.is_prefix_of(s@),
{
    if p.len() > s.len() {
        return false;
    }
    let mut i: usize = 0;
    while i < p.len()
        invariant
            p@.len() <= s@.len(),
            i <= p.len(),
            forall|j: int| 0 <= j < i ==> p@[j] == s@[j],
        decreases p.len() - i,
    {
        if p[i] != s[i] {
            assert(!(p@ =~= s@.subrange(0, p@.len() as int)) ) by {
                assert(s@.subrange(0, p@.len() as int)[i as int] == s@[i as int]);
            }
            return false;
        }
        i = i + 1;
    }
    assert(p@ =~= s@.subrange(0, p@.len() as int));
    true
}

/// `p` is a suffix of `s` (`ends_with`).
pub fn ends_with(s: &[char], p: &[char]) -> (r: bool)
    ensures
        r == p@.is_suffix_of(s@),
{
    if p.len() > s.len() {
        return false;
    }
    let off = s.len() - p.len();
    let mut i: usize = 0;
    while i < p.len()
        invariant
            p@.len() <= s@.len(),
            off == s@.len() - p@.len(),
            i <= p.len(),
            forall|j: int| 0 <= j < i ==> p@[j] == s@[off + j],
        decreases p.len() - i,
    {
        assert(off + i < s.len());
        if p[i] != s[off + i] {
            assert(!(p@ =~= s@.subrange(off as int, s@.len() as int))) by {
                assert(s@.subrange(off as int, s@.len() as int)[i as int] == s@[off + i]);
            }
            return false;
        }
        i = i + 1;
    }
    assert(p@ =~= s@.subrange(off as int, s@.len() as int));
    true
}

/// First index of `c` in `s`.
pub fn find(s: &[char], c: char) -> (r: Option<usize>)
    ensures
        r matches Some(i) ==> find_char(s@, c) == Some(i as int),
        r is None ==> find_char(s@, c) is None,
{
    let mut i: usize = 0;
    while i < s.len()
        invariant
            i <= s.len(),
            find_char(s@, c) == find_from(s@, c, i as int),
        decreases s.len() - i,
    {
        if s[i] == c {
            return Some(i);
        }
        i = i + 1;
    }
    None
}

/// Lines of `s`, as `str::lines` yields them.
pub fn split_lines(s: &[char]) -> (r: Vec<Vec<char>>)
    ensures
        views(r@) == lines(s@),
{
    let mut out: Vec<Vec<char>> = Vec::new();
    let mut st: usize = 0;
    let mut i: usize = 0;
    assert(s@.skip(0) == s@);
    assert(views(out@) == Seq::<Seq<char>>::empty());
    assert(views(out@) + lines(s@.skip(0)) == lines(s@));
    while i < s.len()
        invariant
            st <= i <= s.len(),
            views(out@) + lines(s@.skip(st as int)) == lines(s@),
            forall|j: int| st <= j < i ==> s@[j] != '\n',
        decreases s.len() - i,
    {
        if s[i] == '\n' {
            let mut piece = subvec(s, st, i);
            if piece.len() > 0 && piece[piece.len() - 1] == '\r' {
                piece.pop();
            }
            proof {
                let t = s@.skip(st as int);
                assert forall|j: int| 0 <= j < i - st implies #[trigger] t[j] != '\n' by {
                    assert(t[j] == s@[st + j]);
                }
                assert(t[i - st] == s@[i as int]);
                lemma_newline_at(t, i - st);
                assert(t.take(i - st) == s@.subrange(st as int, i as int));
                assert(t.skip(i - st + 1) == s@.skip(i + 1));
                assert(piece@ == strip_cr(t.take(i - st)));
                assert(views(out@.push(piece)) == views(out@).push(piece@));
                assert(lines(t) == seq![piece@] + lines(s@.skip(i + 1)));
            }
            out.push(piece);
            st = i + 1;
        }
        i = i + 1;
    }
    if st < s.len() {
        let piece = subvec(s, st, s.len());
        proof {
            let t = s@.skip(st as int);
            assert forall|j: int| 0 <= j < t.len() implies #[trigger] t[j] != '\n' by {
                assert(t[j] == s@[st + j]);
            }
            lemma_newline_at(t, t.len() as int);
            assert(piece@ == t);
            assert(views(out@.push(piece)) == views(out@).push(piece@));
        }
        out.push(piece);
    } else {
        assert(s@.skip(st as int).len() == 0);
        assert(views(out@) + lines(s@.skip(st as int)) == views(out@));
    }
    out
}

} // verus!

verus! {

/// Whether two strings hold the same characters.
pub fn text_eq(a: &str, b: &str) -> (r: bool)
    ensures
        r == (a@ == b@),
{
    let x = chars_of(a);
    let y = chars_of(b);
    if x.len() != y.len() {
        return false;
    }
    let mut k: usize = 0;
    while k < x.len()
        invariant
            x@ == a@,
            y@ == b@,
            x@.len() == y@.len(),
            k <= x@.len(),
            forall|q: int| 0 <= q < k ==> x@[q] == y@[q],
        decreases x@.len() - k,
    {
        if x[k] != y[k] {
            return false;
        }
        k = k + 1;
    }
    assert(x@ =~= y@);
    true
}

} // verus!

verus! {

/// The character of a decimal digit.
pub open spec fn digit_char(d: nat) -> char {
    (48 + d) as char
}

/// The decimal numeral of `n`, as `format!("{}", n)` writes it.
pub open spec fn decimal(n: nat) -> Seq<char>
    decreases n,
{
    if n < 10 {
        seq![digit_char(n)]
    } else {
        decimal(n / 10).push(digit_char(n % 10))
    }
}

/// The numeral of a signed number: a `'-'` before negative ones.
pub open spec fn signed_decimal(n: int) -> Seq<char> {
    if n < 0 {
        seq!['-'] + decimal((-n) as nat)
    } else {
        decimal(n as nat)
    }
}

/// Appends the decimal numeral of `n` to `out`.
pub fn push_decimal(out: &mut Vec<char>, n: u64)
    ensures
        final(out)@ == old(out)@ + decimal(n as nat),
    decreases n,
{
    if n >= 10 {
        push_decimal(out, n / 10);
    }
    let d = n % 10;
    let c = if d == 0 {
        '0'
    } else if d == 1 {
        '1'
    } else if d == 2 {
        '2'
    } else if d == 3 {
        '3'
    } else if d == 4 {
        '4'
    } else if d == 5 {
        '5'
    } else if d == 6 {
        '6'
    } else if d == 7 {
        '7'
    } else if d == 8 {
        '8'
    } else {
        '9'
    };
    assert(c == digit_char(d as nat));
    out.push(c);
    assert(out@ =~= old(out)@ + decimal(n as nat));
}

/// `format!("{}", n)` for an unsigned number.
pub fn usize_text(n: usize) -> (r: String)
    ensures
        r@ == decimal(n as nat),
{
    let mut v: Vec<char> = Vec::new();
    push_decimal(&mut v, n as u64);
    assert(v@ =~= decimal(n as nat));
    string_of(&v)
}

/// `format!("{}", n)` for a signed number.
pub fn i64_text(n: i64) -> (r: String)
    ensures
        r@ == signed_decimal(n as int),
{
    let mut v: Vec<char> = Vec::new();
    if n < 0 {
        v.push('-');
        let m: u64 = ((-(n + 1)) as u64) + 1;
        push_decimal(&mut v, m);
    } else {
        push_decimal(&mut v, n as u64);
    }
    assert(v@ =~= signed_decimal(n as int));
    string_of(&v)
}

} // verus!
