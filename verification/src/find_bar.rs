//! The find bar: plain or regular-expression search over the lines of a
//! buffer, and stepping through the matches.
use vstd::prelude::*;
use vstd::utf8::encode_utf8;
use vstd::string::StringSliceAdditionalSpecFns;
use crate::text::{lines, lowercase, split_lines, string_of, chars_of, to_lowercase, views};

verus! {

/// One occurrence: a line and a byte range within it.
#[derive(Debug, Clone, Copy, PartialEq, Eq, Structural)]
pub struct Match {
    pub line: usize,
    pub start_col: usize,
    pub end_col: usize,
}

pub struct FindBar {
    pub visible: bool,
    pub query: String,
    pub matches: Vec<Match>,
    pub current_match: Option<usize>,
    pub case_sensitive: bool,
    pub regex_mode: bool,
    pub whole_word: bool,
}

/// Unicode `Alphabetic` or `Numeric`, the test of `char::is_alphanumeric`.
pub uninterp spec fn alphanumeric(c: char) -> bool;

/// `char::is_alphanumeric`, whose result is named [`alphanumeric`].
#[verifier::external_body]
fn is_alphanumeric(c: char) -> (r: bool)
    ensures
        r == alphanumeric(c),
{
    c.is_alphanumeric()
}

/// The byte spans `(start, end)` that the `regex` crate reports, in order,
/// for `pattern` built with the given case-insensitivity and run over
/// `hay`; `None` when the pattern does not compile.
pub uninterp spec fn regex_spans(pattern: Seq<char>, case_insensitive: bool, hay: Seq<char>) -> Option<
    Seq<(usize, usize)>,
>;

/// `RegexBuilder::new(pattern).case_insensitive(..).build()` followed, when
/// it succeeds, by `Regex::find_iter(hay)` with each match taken as its
/// `(start(), end())`.  The spans are named [`regex_spans`]; of them is
/// stated what the `regex` documentation promises: `find_iter` yields
/// successive non-overlapping matches, each with `start() <= end()`, both
/// on character boundaries of the haystack.
#[verifier::external_body]
fn find_regex_spans(pattern: &str, case_insensitive: bool, hay: &str) -> (r: Option<Vec<(usize, usize)>>)
    ensures
        match r {
            Some(v) => regex_spans(pattern@, case_insensitive, hay@) == Some(v@),
            None => regex_spans(pattern@, case_insensitive, hay@) is None,
        },
        r matches Some(v) ==> forall|k: int|
            0 <= k < v@.len() ==> {
                &&& (#[trigger] v@[k]).0 <= v@[k].1
                &&& vstd::utf8::is_char_boundary(hay.spec_bytes(), v@[k].0 as int)
                &&& vstd::utf8::is_char_boundary(hay.spec_bytes(), v@[k].1 as int)
                &&& v@[k].1 <= hay.spec_bytes().len()
            },
        r matches Some(v) ==> forall|k: int| 0 <= k < v@.len() - 1 ==> (#[trigger] v@[k]).1 <= v@[k + 1].0,
{
    let mut builder = regex::RegexBuilder::new(pattern);
    builder.case_insensitive(case_insensitive);
    match builder.build() {
        Ok(re) => Some(re.find_iter(hay).map(|m| (m.start(), m.end())).collect()),
        Err(_) => None,
    }
}

/// The text searched in: the line itself, or its lowercase form when the
/// search ignores case.
pub open spec fn hay_of(line: Seq<char>, case_sensitive: bool) -> Seq<char> {
    if case_sensitive { line } else { lowercase(line) }
}

/// The text searched for.
pub open spec fn needle_of(query: Seq<char>, case_sensitive: bool) -> Seq<char> {
    if case_sensitive { query } else { lowercase(query) }
}

pub open spec fn occurs_at(hb: Seq<u8>, qb: Seq<u8>, p: int) -> bool {
    0 <= p && p + qb.len() <= hb.len() && hb.subrange(p, p + qb.len()) == qb
}

pub open spec fn char_at(s: Seq<char>, i: int) -> Option<char> {
    if 0 <= i < s.len() { Some(s[i]) } else { None }
}

pub open spec fn not_word_char(c: Option<char>) -> bool {
    match c {
        Some(ch) => !alphanumeric(ch),
        None => true,
    }
}

/// The whole-word test: neither the character before `start` nor the one
/// at `end` is alphanumeric.  The positions are byte offsets used as
/// character indices, as the search does.
pub open spec fn word_bounded(hay: Seq<char>, start: int, end: int) -> bool {
    not_word_char(if start > 0 { char_at(hay, start - 1) } else { None }) && not_word_char(
        char_at(hay, end),
    )
}

/// The plain matches of line `line` found at byte positions `from` onward:
/// every occurrence of `qb` in `hb`, overlapping ones included, kept when
/// the whole-word test passes (if asked); a match spans `qlen` bytes.
pub open spec fn plain_matches_from(
    line: usize,
    hay: Seq<char>,
    hb: Seq<u8>,
    qb: Seq<u8>,
    qlen: nat,
    whole: bool,
    from: int,
) -> Seq<Match>
    decreases hb.len() - from,
{
    if from < 0 || from >= hb.len() {
        Seq::empty()
    } else {
        let rest = plain_matches_from(line, hay, hb, qb, qlen, whole, from + 1);
        if occurs_at(hb, qb, from) && (!whole || word_bounded(hay, from, from + qlen)) {
            seq![Match { line, start_col: from as usize, end_col: (from + qlen) as usize }] + rest
        } else {
            rest
        }
    }
}

pub open spec fn plain_line_matches(
    k: usize,
    line: Seq<char>,
    query: Seq<char>,
    case_sensitive: bool,
    whole: bool,
) -> Seq<Match> {
    let hay = hay_of(line, case_sensitive);
    plain_matches_from(
        k,
        hay,
        encode_utf8(hay),
        encode_utf8(needle_of(query, case_sensitive)),
        encode_utf8(query).len(),
        whole,
        0,
    )
}

pub open spec fn plain_matches(
    ls: Seq<Seq<char>>,
    n: int,
    query: Seq<char>,
    case_sensitive: bool,
    whole: bool,
) -> Seq<Match>
    decreases n,
{
    if n <= 0 {
        Seq::empty()
    } else {
        plain_matches(ls, n - 1, query, case_sensitive, whole) + plain_line_matches(
            (n - 1) as usize,
            ls[n - 1],
            query,
            case_sensitive,
            whole,
        )
    }
}

pub open spec fn spans_to_matches(k: usize, spans: Seq<(usize, usize)>) -> Seq<Match> {
    spans.map_values(|sp: (usize, usize)| Match { line: k, start_col: sp.0, end_col: sp.1 })
}

pub open spec fn regex_line_matches(k: usize, line: Seq<char>, query: Seq<char>, case_sensitive: bool) -> Seq<Match> {
    match regex_spans(query, !case_sensitive, line) {
        Some(spans) => spans_to_matches(k, spans),
        None => Seq::empty(),
    }
}

pub open spec fn regex_matches(ls: Seq<Seq<char>>, n: int, query: Seq<char>, case_sensitive: bool) -> Seq<Match>
    decreases n,
{
    if n <= 0 {
        Seq::empty()
    } else {
        regex_matches(ls, n - 1, query, case_sensitive) + regex_line_matches(
            (n - 1) as usize,
            ls[n - 1],
            query,
            case_sensitive,
        )
    }
}

/// Everything a search finds, line by line in order.
pub open spec fn search_result(
    text: Seq<char>,
    query: Seq<char>,
    case_sensitive: bool,
    regex: bool,
    whole: bool,
) -> Seq<Match> {
    let ls = lines(text);
    if query.len() == 0 {
        Seq::empty()
    } else if regex {
        regex_matches(ls, ls.len() as int, query, case_sensitive)
    } else {
        plain_matches(ls, ls.len() as int, query, case_sensitive, whole)
    }
}

/// Whether `qb` occurs anywhere in `hb`.
pub open spec fn occurs_in(hb: Seq<u8>, qb: Seq<u8>) -> bool {
    exists|p: int| occurs_at(hb, qb, p)
}

/// The plain search steps one byte past each match and slices the line
/// there, which is only possible when the needle is not empty and either
/// starts with an ASCII character or is found nowhere.
pub open spec fn plain_search_defined(text: Seq<char>, query: Seq<char>, case_sensitive: bool) -> bool {
    let qb = encode_utf8(needle_of(query, case_sensitive));
    qb.len() > 0 && (qb[0] < 0x80 || forall|k: int|
        0 <= k < lines(text).len() ==> !occurs_in(
            encode_utf8(hay_of(#[trigger] lines(text)[k], case_sensitive)),
            qb,
        ))
}

/// The match index after stepping forward, wrapping to the first.
pub open spec fn next_index(current: Option<usize>, len: nat) -> nat {
    match current {
        Some(c) => if c < len - 1 { (c + 1) as nat } else { 0 },
        None => 0,
    }
}

/// The match index after stepping back, wrapping to the last.
pub open spec fn prev_index(current: Option<usize>, len: nat) -> nat {
    match current {
        Some(c) => if c > 0 { (c - 1) as nat } else { (len - 1) as nat },
        None => (len - 1) as nat,
    }
}

/// Appends to `out` the plain matches of line `k`, whose searched text is
/// `hay` (bytes `hb`), for the needle bytes `qb`; matches span `qlen`
/// bytes.
fn collect_plain(
    k: usize,
    hay: &[char],
    hb: &[u8],
    qb: &[u8],
    qlen: usize,
    whole: bool,
    out: &mut Vec<Match>,
)
    requires
        qlen <= isize::MAX,
        qlen == qb@.len() || hb@.len() <= isize::MAX,
    ensures
        final(out)@ == old(out)@ + plain_matches_from(k, hay@, hb@, qb@, qlen as nat, whole, 0),
{
    let n = hb.len();
    let m = qb.len();
    let mut p: usize = 0;
    while p < n
        invariant
            p <= n,
            n == hb@.len(),
            m == qb@.len(),
            qlen <= isize::MAX,
            qlen == qb@.len() || hb@.len() <= isize::MAX,
            out@ + plain_matches_from(k, hay@, hb@, qb@, qlen as nat, whole, p as int) == old(out)@
                + plain_matches_from(k, hay@, hb@, qb@, qlen as nat, whole, 0),
        decreases n - p,
    {
        let ghost rest = plain_matches_from(k, hay@, hb@, qb@, qlen as nat, whole, p + 1);
        let mut hit = m <= n - p;
        if hit {
            let mut j: usize = 0;
            while j < m && hb[p + j] == qb[j]
                invariant
                    j <= m,
                    m == qb@.len(),
                    n == hb@.len(),
                    p + m <= n,
                    forall|i: int| 0 <= i < j ==> hb@[p + i] == qb@[i],
                decreases m - j,
            {
                j = j + 1;
            }
            if j < m {
                hit = false;
                assert(hb@.subrange(p as int, p + m)[j as int] != qb@[j as int]);
            } else {
                assert(hb@.subrange(p as int, p + m) =~= qb@);
            }
        }
        assert(hit == occurs_at(hb@, qb@, p as int));
        if hit {
            let end = p + qlen;
            let mut keep = true;
            if whole {
                let pre_ok = if p > 0 && p - 1 < hay.len() {
                    !is_alphanumeric(hay[p - 1])
                } else {
                    true
                };
                let post_ok = if end < hay.len() {
                    !is_alphanumeric(hay[end])
                } else {
                    true
                };
                keep = pre_ok && post_ok;
            }
            assert(keep == (!whole || word_bounded(hay@, p as int, p + qlen)));
            if keep {
                let ghost before = out@;
                out.push(Match { line: k, start_col: p, end_col: end });
                assert(out@ + rest =~= before + (seq![
                    Match { line: k, start_col: p, end_col: end },
                ] + rest));
            }
        }
        p = p + 1;
    }
}

/// Whether `qb` occurs in `hb`.
fn occurs_anywhere(hb: &[u8], qb: &[u8]) -> (r: bool)
    ensures
        r == occurs_in(hb@, qb@),
{
    let n = hb.len();
    let m = qb.len();
    if m > n {
        assert forall|p: int| !occurs_at(hb@, qb@, p) by {}
        return false;
    }
    let mut p: usize = 0;
    while p <= n - m
        invariant
            m <= n,
            n == hb@.len(),
            m == qb@.len(),
            forall|q: int| 0 <= q < p ==> !occurs_at(hb@, qb@, q),
        decreases n - m + 1 - p,
    {
        let mut j: usize = 0;
        while j < m && hb[p + j] == qb[j]
            invariant
                j <= m,
                m == qb@.len(),
                n == hb@.len(),
                p + m <= n,
                forall|i: int| 0 <= i < j ==> hb@[p + i] == qb@[i],
            decreases m - j,
        {
            j = j + 1;
        }
        if j == m {
            assert(hb@.subrange(p as int, p + m) =~= qb@);
            assert(occurs_at(hb@, qb@, p as int));
            return true;
        }
        assert(hb@.subrange(p as int, p + m)[j as int] != qb@[j as int]);
        p = p + 1;
    }
    assert forall|q: int| !occurs_at(hb@, qb@, q) by {
        if 0 <= q < p {
        }
    }
    false
}

/// The matches in `v`, copied.
fn copy_matches(v: &Vec<Match>) -> (r: Vec<Match>)
    ensures
        r@ == v@,
{
    let mut r: Vec<Match> = Vec::new();
    let mut i: usize = 0;
    while i < v.len()
        invariant
            i <= v@.len(),
            r@ == v@.take(i as int),
        decreases v@.len() - i,
    {
        r.push(v[i]);
        assert(v@.take(i + 1) == v@.take(i as int).push(v@[i as int]));
        i = i + 1;
    }
    assert(v@.take(v@.len() as int) == v@);
    r
}

impl FindBar {
    pub fn new() -> (r: Self)
        ensures
            !r.visible,
            r.query@.len() == 0,
            r.matches@.len() == 0,
            r.current_match is None,
            !r.case_sensitive,
            !r.regex_mode,
            !r.whole_word,
    {
        FindBar {
            visible: false,
            query: String::new(),
            matches: Vec::new(),
            current_match: None,
            case_sensitive: false,
            regex_mode: false,
            whole_word: false,
        }
    }

    pub fn open(&mut self)
        ensures
            final(self).visible,
            final(self).query@ == old(self).query@,
            final(self).matches@ == old(self).matches@,
            final(self).current_match == old(self).current_match,
            final(self).case_sensitive == old(self).case_sensitive,
            final(self).regex_mode == old(self).regex_mode,
            final(self).whole_word == old(self).whole_word,
    {
        self.visible = true;
    }

    /// Hides the bar and forgets the query and its matches.
    pub fn close(&mut self)
        ensures
            !final(self).visible,
            final(self).query@.len() == 0,
            final(self).matches@.len() == 0,
            final(self).current_match is None,
            final(self).case_sensitive == old(self).case_sensitive,
            final(self).regex_mode == old(self).regex_mode,
            final(self).whole_word == old(self).whole_word,
    {
        self.visible = false;
        self.query = String::new();
        self.matches.clear();
        self.current_match = None;
    }

    pub fn set_case_sensitive(&mut self, value: bool)
        ensures
            final(self).case_sensitive == value,
            final(self).regex_mode == old(self).regex_mode,
            final(self).whole_word == old(self).whole_word,
            final(self).matches@ == old(self).matches@,
            final(self).current_match == old(self).current_match,
    {
        self.case_sensitive = value;
    }

    pub fn set_regex(&mut self, value: bool)
        ensures
            final(self).regex_mode == value,
            final(self).case_sensitive == old(self).case_sensitive,
            final(self).whole_word == old(self).whole_word,
            final(self).matches@ == old(self).matches@,
            final(self).current_match == old(self).current_match,
    {
        self.regex_mode = value;
    }

    pub fn set_whole_word(&mut self, value: bool)
        ensures
            final(self).whole_word == value,
            final(self).case_sensitive == old(self).case_sensitive,
            final(self).regex_mode == old(self).regex_mode,
            final(self).matches@ == old(self).matches@,
            final(self).current_match == old(self).current_match,
    {
        self.whole_word = value;
    }

    pub fn match_count(&self) -> (r: usize)
        ensures
            r == self.matches@.len(),
    {
        self.matches.len()
    }

    /// Searches `text` line by line for `query` and makes the result the
    /// bar's matches, the first one current.  In regex mode the query is a
    /// regular expression (matching no line when it does not compile);
    /// otherwise every occurrence counts, overlapping ones included, subject
    /// to the case and whole-word settings.  Columns are byte offsets.
    pub fn search(&mut self, text: &str, query: &str) -> (r: Vec<Match>)
        requires
            query.spec_bytes().len() <= isize::MAX,
            query@.len() > 0 && !old(self).regex_mode ==> plain_search_defined(
                text@,
                query@,
                old(self).case_sensitive,
            ),
        ensures
            r@ == search_result(
                text@,
                query@,
                old(self).case_sensitive,
                old(self).regex_mode,
                old(self).whole_word,
            ),
            final(self).matches@ == r@,
            final(self).query@ == query@,
            final(self).current_match == (if r@.len() > 0 { Some(0usize) } else { None }),
            final(self).visible == old(self).visible,
            final(self).case_sensitive == old(self).case_sensitive,
            final(self).regex_mode == old(self).regex_mode,
            final(self).whole_word == old(self).whole_word,
    {
        self.query = string_of(&chars_of(query));
        self.matches = Vec::new();
        self.current_match = None;
        if query.is_empty() {
            return Vec::new();
        }
        let cs = self.case_sensitive;
        let whole = self.whole_word;
        let ls = split_lines(&chars_of(text));
        let ghost lv = lines(text@);
        assert(views(ls@) == lv);
        let mut out: Vec<Match> = Vec::new();
        if self.regex_mode {
            let mut k: usize = 0;
            while k < ls.len()
                invariant
                    k <= ls@.len(),
                    views(ls@) == lv,
                    out@ == regex_matches(lv, k as int, query@, cs),
                decreases ls@.len() - k,
            {
                assert(ls@[k as int]@ == lv[k as int]);
                let line = string_of(&ls[k]);
                match find_regex_spans(query, !cs, line.as_str()) {
                    Some(spans) => {
                        let mut i: usize = 0;
                        while i < spans.len()
                            invariant
                                i <= spans@.len(),
                                out@ == regex_matches(lv, k as int, query@, cs) + spans_to_matches(
                                    k,
                                    spans@.take(i as int),
                                ),
                            decreases spans@.len() - i,
                        {
                            let (a, b) = spans[i];
                            out.push(Match { line: k, start_col: a, end_col: b });
                            assert(spans@.take(i + 1) == spans@.take(i as int).push(spans@[i as int]));
                            assert(spans_to_matches(k, spans@.take(i + 1)) =~= spans_to_matches(
                                k,
                                spans@.take(i as int),
                            ).push(Match { line: k, start_col: a, end_col: b }));
                            i = i + 1;
                        }
                        assert(spans@.take(spans@.len() as int) == spans@);
                    },
                    None => {},
                }
                assert(out@ =~= regex_matches(lv, k + 1, query@, cs));
                k = k + 1;
            }
        } else {
            let needle = if cs { string_of(&chars_of(query)) } else { to_lowercase(query) };
            let qb = needle.as_str().as_bytes();
            let qlen = query.as_bytes().len();
            let mut k: usize = 0;
            while k < ls.len()
                invariant
                    k <= ls@.len(),
                    views(ls@) == lv,
                    qb@ == encode_utf8(needle_of(query@, cs)),
                    qlen == encode_utf8(query@).len(),
                    qlen <= isize::MAX,
                    cs ==> qlen == qb@.len(),
                    out@ == plain_matches(lv, k as int, query@, cs, whole),
                decreases ls@.len() - k,
            {
                assert(ls@[k as int]@ == lv[k as int]);
                let line = string_of(&ls[k]);
                let hay = if cs { line } else { to_lowercase(line.as_str()) };
                let hay_chars = chars_of(hay.as_str());
                let hb = hay.as_str().as_bytes();
                collect_plain(k, &hay_chars, hb, qb, qlen, whole, &mut out);
                assert(out@ =~= plain_matches(lv, k + 1, query@, cs, whole));
                k = k + 1;
            }
        }
        self.matches = copy_matches(&out);
        if out.len() > 0 {
            self.current_match = Some(0);
        }
        out
    }

    /// `search`, when the plain search is defined on these arguments (see
    /// [`plain_search_defined`]); `None`, with nothing changed, when it is
    /// not.
    pub fn try_search(&mut self, text: &str, query: &str) -> (r: Option<Vec<Match>>)
        requires
            query.spec_bytes().len() <= isize::MAX,
        ensures
            match r {
                Some(v) => {
                    &&& (query@.len() > 0 && !old(self).regex_mode ==> plain_search_defined(
                        text@,
                        query@,
                        old(self).case_sensitive,
                    ))
                    &&& v@ == search_result(
                        text@,
                        query@,
                        old(self).case_sensitive,
                        old(self).regex_mode,
                        old(self).whole_word,
                    )
                    &&& final(self).matches@ == v@
                    &&& final(self).query@ == query@
                    &&& final(self).current_match == (if v@.len() > 0 { Some(0usize) } else { None })
                },
                None => {
                    &&& query@.len() > 0
                    &&& !old(self).regex_mode
                    &&& !plain_search_defined(text@, query@, old(self).case_sensitive)
                    &&& final(self).matches@ == old(self).matches@
                    &&& final(self).query@ == old(self).query@
                    &&& final(self).current_match == old(self).current_match
                },
            },
            final(self).visible == old(self).visible,
            final(self).case_sensitive == old(self).case_sensitive,
            final(self).regex_mode == old(self).regex_mode,
            final(self).whole_word == old(self).whole_word,
    {
        if query.is_empty() || self.regex_mode {
            return Some(self.search(text, query));
        }
        let cs = self.case_sensitive;
        let needle = if cs { string_of(&chars_of(query)) } else { to_lowercase(query) };
        let qb = needle.as_str().as_bytes();
        if qb.len() == 0 {
            return None;
        }
        if qb[0] >= 0x80 {
            let ls = split_lines(&chars_of(text));
            let ghost lv = lines(text@);
            let mut k: usize = 0;
            while k < ls.len()
                invariant
                    k <= ls@.len(),
                    views(ls@) == lv,
                    lv == lines(text@),
                    qb@ == encode_utf8(needle_of(query@, cs)),
                    qb@.len() > 0,
                    qb@[0] >= 0x80,
                    query@.len() > 0,
                    !old(self).regex_mode,
                    cs == old(self).case_sensitive,
                    *self == *old(self),
                    forall|i: int|
                        0 <= i < k ==> !occurs_in(encode_utf8(hay_of(#[trigger] lv[i], cs)), qb@),
                decreases ls@.len() - k,
            {
                assert(ls@[k as int]@ == lv[k as int]);
                let line = string_of(&ls[k]);
                let hay = if cs { line } else { to_lowercase(line.as_str()) };
                if occurs_anywhere(hay.as_str().as_bytes(), qb) {
                    return None;
                }
                k = k + 1;
            }
        }
        Some(self.search(text, query))
    }

    /// Steps to the next match, wrapping to the first, and gives it; `None`
    /// (nothing changed) when there are no matches.
    pub fn next_match(&mut self) -> (r: Option<&Match>)
        ensures
            final(self).matches@ == old(self).matches@,
            old(self).matches@.len() == 0 ==> r is None && final(self).current_match
                == old(self).current_match,
            old(self).matches@.len() > 0 ==> {
                let k = next_index(old(self).current_match, old(self).matches@.len());
                &&& final(self).current_match == Some(k as usize)
                &&& r == Some(&old(self).matches@[k as int])
            },
    {
        let n = self.matches.len();
        if n == 0 {
            return None;
        }
        let k = match self.current_match {
            Some(c) => if c < n - 1 { c + 1 } else { 0 },
            None => 0,
        };
        self.current_match = Some(k);
        Some(&self.matches[k])
    }

    /// Steps to the previous match, wrapping to the last, and gives it;
    /// `None` (nothing changed) when there are no matches.
    pub fn prev_match(&mut self) -> (r: Option<&Match>)
        ensures
            final(self).matches@ == old(self).matches@,
            old(self).matches@.len() == 0 ==> r is None && final(self).current_match
                == old(self).current_match,
            old(self).matches@.len() > 0 ==> {
                let k = prev_index(old(self).current_match, old(self).matches@.len());
                &&& final(self).current_match == Some(k as usize)
                &&& k < old(self).matches@.len() ==> r == Some(&old(self).matches@[k as int])
                &&& k >= old(self).matches@.len() ==> r is None
            },
    {
        let n = self.matches.len();
        if n == 0 {
            return None;
        }
        let k = match self.current_match {
            Some(c) => if c > 0 { c - 1 } else { n - 1 },
            None => n - 1,
        };
        self.current_match = Some(k);
        if k < n {
            Some(&self.matches[k])
        } else {
            None
        }
    }
}

/// Stepping to the next match and back to the previous one returns to the
/// same match, and the other way round, whenever the current match is one
/// of the matches.
pub proof fn law_next_prev_inverse(current: usize, len: nat)
    requires
        current < len <= usize::MAX,
    ensures
        prev_index(Some(next_index(Some(current), len) as usize), len) == current,
        next_index(Some(prev_index(Some(current), len) as usize), len) == current,
        next_index(Some(current), len) < len,
        prev_index(Some(current), len) < len,
{
}

} // verus!
