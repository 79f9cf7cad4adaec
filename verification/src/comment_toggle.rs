//! Toggling line and block comments.
use vstd::prelude::*;
use crate::text::{append, 
    chars_of, ends_with, is_blank, leading_ws, leading_ws_len, slice_from, starts_with, string_of,
    subvec, trailing_ws_len, trim_end, trim_start,
};

verus! {

#[derive(Debug, Clone, Copy, PartialEq, Eq, Structural)]
pub enum Language {
    Rust,
    JavaScript,
    Python,
    Html,
    Css,
    Go,
    Other,
}

pub struct CommentToggler;

/// The token that opens a comment in `lang`.
pub open spec fn start_token(lang: Language) -> Seq<char> {
    match lang {
        Language::Python => seq!['#'],
        Language::Html => seq!['<', '!', '-', '-'],
        Language::Css => seq!['/', '*'],
        _ => seq!['/', '/'],
    }
}

/// The token that closes a comment in `lang`, if it has one.
pub open spec fn end_token(lang: Language) -> Option<Seq<char>> {
    match lang {
        Language::Html => Some(seq!['-', '-', '>']),
        Language::Css => Some(seq!['*', '/']),
        _ => None,
    }
}

/// The line is commented: after its indentation it starts with the token.
pub open spec fn is_commented(l: Seq<char>, lang: Language) -> bool {
    start_token(lang).is_prefix_of(trim_start(l))
}

/// `indent` + start token + `' '` + the rest (+ `' '` + end token).
pub open spec fn commented(l: Seq<char>, lang: Language) -> Seq<char> {
    l.take(leading_ws(l) as int) + start_token(lang) + seq![' '] + trim_start(l) + match end_token(
        lang,
    ) {
        Some(e) => seq![' '] + e,
        None => Seq::empty(),
    }
}

/// The line with its comment tokens removed: the indentation is kept, one
/// space after the start token is dropped, and, when the line ends with the
/// end token (trailing whitespace aside), that token and one space before
/// it are dropped together with what follows it.
pub open spec fn uncommented(l: Seq<char>, lang: Language) -> Seq<char> {
    let lw = leading_ws(l) as int;
    let cwe = l.skip(lw + start_token(lang).len());
    let content = if cwe.len() > 0 && cwe[0] == ' ' {
        cwe.drop_first()
    } else {
        cwe
    };
    let fin = match end_token(lang) {
        Some(e) => if e.is_suffix_of(trim_end(content)) {
            let inner = content.take(trim_end(content).len() - e.len());
            if inner.len() > 0 && inner.last() == ' ' {
                inner.drop_last()
            } else {
                inner
            }
        } else {
            content
        },
        None => content,
    };
    l.take(lw) + fin
}

/// What `toggle_line` makes of a line.
pub open spec fn toggled(l: Seq<char>, lang: Language) -> Seq<char> {
    if is_commented(l, lang) {
        uncommented(l, lang)
    } else {
        commented(l, lang)
    }
}

/// Every line of the block is blank or commented.
pub open spec fn all_commented(ls: Seq<Seq<char>>, lang: Language) -> bool {
    forall|i: int| 0 <= i < ls.len() ==> is_blank(#[trigger] ls[i]) || is_commented(ls[i], lang)
}

/// What `toggle_block` makes of line `l` of a block.
pub open spec fn block_line(l: Seq<char>, lang: Language, all: bool) -> Seq<char> {
    if all {
        if is_blank(l) {
            l
        } else {
            toggled(l, lang)
        }
    } else {
        commented(l, lang)
    }
}

impl CommentToggler {
    fn syntax(lang: Language) -> (r: (Vec<char>, Option<Vec<char>>))
        ensures
            r.0@ == start_token(lang),
            crate::emmet::opt_view(r.1) == end_token(lang),
    {
        match lang {
            Language::Rust | Language::JavaScript | Language::Go | Language::Other => {
                let v = vec!['/', '/'];
                assert(v@ == seq!['/', '/']);
                (v, None)
            },
            Language::Python => {
                let v = vec!['#'];
                assert(v@ == seq!['#']);
                (v, None)
            },
            Language::Html => {
                let v = vec!['<', '!', '-', '-'];
                let e = vec!['-', '-', '>'];
                assert(v@ == seq!['<', '!', '-', '-']);
                assert(e@ == seq!['-', '-', '>']);
                (v, Some(e))
            },
            Language::Css => {
                let v = vec!['/', '*'];
                let e = vec!['*', '/'];
                assert(v@ == seq!['/', '*']);
                assert(e@ == seq!['*', '/']);
                (v, Some(e))
            },
        }
    }

    fn comment_chars(l: &[char], lang: Language) -> (r: Vec<char>)
        ensures
            r@ == commented(l@, lang),
    {
        let (st, en) = Self::syntax(lang);
        let lw = leading_ws_len(l);
        let mut out = subvec(l, 0, lw);
        append(&mut out, &st);
        out.push(' ');
        let rest = slice_from(l, lw);
        append(&mut out, &rest);
        match en {
            Some(e) => {
                out.push(' ');
                append(&mut out, &e);
            },
            None => {},
        }
        assert(l@.subrange(0, lw as int) == l@.take(lw as int));
        assert(out@ =~= commented(l@, lang));
        out
    }

    #[verifier::rlimit(30)]
    fn uncomment_chars(l: &[char], lang: Language) -> (r: Vec<char>)
        requires
            is_commented(l@, lang),
        ensures
            r@ == uncommented(l@, lang),
    {
        let (st, en) = Self::syntax(lang);
        let lw = leading_ws_len(l);
        proof {
            crate::text::lemma_leading_ws_props(l@);
            assert(trim_start(l@).len() == l@.len() - lw);
            assert(st@.len() <= l@.len() - lw);
            assert(st.len() <= l.len() - lw);
        }
        let cwe = slice_from(l, lw + st.len());
        assert(cwe@ == l@.skip(lw + start_token(lang).len()));
        let content = if cwe.len() > 0 && cwe[0] == ' ' {
            slice_from(&cwe, 1)
        } else {
            cwe
        };
        let fin = match en {
            Some(e) => {
                let tw = trailing_ws_len(&content);
                let te = subvec(&content, 0, content.len() - tw);
                assert(te@ == trim_end(content@));
                if ends_with(&te, &e) {
                    let mut inner = subvec(&content, 0, te.len() - e.len());
                    assert(inner@ == content@.take(trim_end(content@).len() - e@.len()));
                    if inner.len() > 0 && inner[inner.len() - 1] == ' ' {
                        inner.pop();
                    }
                    inner
                } else {
                    content
                }
            },
            None => content,
        };
        let mut out = subvec(l, 0, lw);
        append(&mut out, &fin);
        assert(l@.subrange(0, lw as int) == l@.take(lw as int));
        out
    }

    fn is_commented_exec(l: &[char], lang: Language) -> (r: bool)
        ensures
            r == is_commented(l@, lang),
    {
        let (st, _) = Self::syntax(lang);
        let lw = leading_ws_len(l);
        let rest = slice_from(l, lw);
        starts_with(&rest, &st)
    }

    /// Comments the line, or uncomments it when it is already commented.
    pub fn toggle_line(line: &str, lang: Language) -> (r: String)
        ensures
            r@ == toggled(line@, lang),
    {
        let l = chars_of(line);
        let v = Self::toggle_chars(&l, lang);
        string_of(&v)
    }

    fn toggle_chars(l: &[char], lang: Language) -> (r: Vec<char>)
        ensures
            r@ == toggled(l@, lang),
    {
        if Self::is_commented_exec(l, lang) {
            Self::uncomment_chars(l, lang)
        } else {
            Self::comment_chars(l, lang)
        }
    }

    /// Uncomments the lines when each is blank or commented; otherwise
    /// comments every line, adding a second comment to commented ones.
    pub fn toggle_block(lines: &[&str], lang: Language) -> (r: Vec<String>)
        ensures
            r@.len() == lines@.len(),
            forall|i: int|
                0 <= i < r@.len() ==> (#[trigger] r@[i])@ == block_line(
                    lines@[i]@,
                    lang,
                    all_commented(strs_view(lines@), lang),
                ),
    {
        let n = lines.len();
        let mut all = true;
        let mut k: usize = 0;
        while k < n
            invariant
                k <= n,
                n == lines@.len(),
                all == forall|i: int|
                    0 <= i < k ==> is_blank(#[trigger] strs_view(lines@)[i]) || is_commented(
                        strs_view(lines@)[i],
                        lang,
                    ),
            decreases n - k,
        {
            let l = chars_of(lines[k]);
            let ok = crate::text::blank(&l) || Self::is_commented_exec(&l, lang);
            assert(strs_view(lines@)[k as int] == l@);
            if !ok {
                all = false;
            }
            k = k + 1;
        }
        let mut out: Vec<String> = Vec::new();
        let mut k: usize = 0;
        while k < n
            invariant
                k <= n,
                n == lines@.len(),
                all == all_commented(strs_view(lines@), lang),
                out@.len() == k,
                forall|i: int|
                    0 <= i < k ==> (#[trigger] out@[i])@ == block_line(lines@[i]@, lang, all),
            decreases n - k,
        {
            let l = chars_of(lines[k]);
            let v = if all {
                if crate::text::blank(&l) {
                    l
                } else {
                    Self::toggle_chars(&l, lang)
                }
            } else {
                Self::comment_chars(&l, lang)
            };
            out.push(string_of(&v));
            k = k + 1;
        }
        out
    }
}

pub open spec fn strs_view(v: Seq<&str>) -> Seq<Seq<char>> {
    Seq::new(v.len(), |i: int| v[i]@)
}


/// The commented form of a line keeps its indentation and is commented.
proof fn lemma_commented_shape(l: Seq<char>, lang: Language)
    ensures
        leading_ws(commented(l, lang)) == leading_ws(l),
        is_commented(commented(l, lang), lang),
        commented(l, lang).skip((leading_ws(l) + start_token(lang).len()) as int) == seq![' '] + trim_start(l) + match end_token(lang) {
            Some(e) => seq![' '] + e,
            None => Seq::<char>::empty(),
        },
{
    crate::text::lemma_leading_ws_props(l);
    let lw = leading_ws(l) as int;
    let tok = start_token(lang);
    let ts = trim_start(l);
    let tail = match end_token(lang) {
        Some(e) => seq![' '] + e,
        None => Seq::<char>::empty(),
    };
    let c = commented(l, lang);
    assert(c =~= l.take(lw) + (tok + (seq![' '] + ts + tail)));
    assert(c[lw] == tok[0]);
    assert(!crate::text::is_ws(tok[0]));
    crate::text::lemma_leading_ws(c, lw);
    assert(trim_start(c) =~= tok + (seq![' '] + ts + tail));
    assert(c.skip(lw + tok.len()) =~= seq![' '] + ts + tail);
}

/// Removing the end token from `ts + " " + e` leaves `ts`.
proof fn lemma_strip_end(ts: Seq<char>, e: Seq<char>)
    requires
        e.len() > 0,
        !crate::text::is_ws(e.last()),
    ensures
        e.is_suffix_of(trim_end(ts + (seq![' '] + e))),
        (ts + (seq![' '] + e)).take(trim_end(ts + (seq![' '] + e)).len() - e.len()) == ts + seq![' '],
{
    let content = ts + (seq![' '] + e);
    assert(content.last() == e.last());
    assert(crate::text::trailing_ws(content) == 0);
    assert(trim_end(content) =~= content);
    assert(e =~= content.subrange(content.len() - e.len(), content.len() as int));
    assert(content.take(content.len() - e.len()) =~= ts + seq![' ']);
}

/// Toggling a line that is not commented, and toggling the result again,
/// gives back the line.
pub proof fn law_toggle_line_round_trip(l: Seq<char>, lang: Language)
    requires
        !is_commented(l, lang),
    ensures
        toggled(toggled(l, lang), lang) == l,
{
    crate::text::lemma_leading_ws_props(l);
    lemma_commented_shape(l, lang);
    let lw = leading_ws(l) as int;
    let ts = trim_start(l);
    let c = commented(l, lang);
    let cwe = c.skip(lw + start_token(lang).len());
    match end_token(lang) {
        Some(e) => {
            assert(cwe =~= seq![' '] + (ts + (seq![' '] + e)));
            assert(cwe.drop_first() =~= ts + (seq![' '] + e));
            lemma_strip_end(ts, e);
            assert((ts + seq![' ']).drop_last() =~= ts);
        },
        None => {
            assert(cwe =~= seq![' '] + ts);
            assert(cwe.drop_first() =~= ts);
        },
    }
    assert(c.take(lw) =~= l.take(lw));
    assert(l.take(lw) + ts =~= l);
}
} // verus!
