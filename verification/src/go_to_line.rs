//! The "go to line[:column]" prompt.
use vstd::prelude::*;
use crate::text::{chars_of, find, find_char, push_char, subvec, trim, trimmed};

verus! {

#[derive(Debug, Clone, PartialEq, Eq)]
pub struct GoToLine {
    pub visible: bool,
    pub input: String,
}

pub open spec fn is_digit(c: char) -> bool {
    '0' <= c <= '9'
}

pub open spec fn digits_value(d: Seq<char>) -> nat
    decreases d.len(),
{
    if d.len() == 0 {
        0
    } else {
        digits_value(d.drop_last()) * 10 + (d.last() as nat - '0' as nat) as nat
    }
}

/// The text after an optional leading `'+'`.
pub open spec fn unsigned_part(s: Seq<char>) -> Seq<char> {
    if s.len() > 0 && s[0] == '+' { s.drop_first() } else { s }
}

pub open spec fn all_digits(d: Seq<char>) -> bool {
    forall|i: int| 0 <= i < d.len() ==> is_digit(#[trigger] d[i])
}

/// `str::parse::<usize>`: an optional `'+'`, then one or more ASCII digits
/// whose value fits in a `usize`.
pub open spec fn parse_usize(s: Seq<char>) -> Option<nat> {
    let d = unsigned_part(s);
    if d.len() > 0 && all_digits(d) && digits_value(d) <= usize::MAX {
        Some(digits_value(d))
    } else {
        None
    }
}

/// Text before the first `':'`.
pub open spec fn first_part(s: Seq<char>) -> Seq<char> {
    match find_char(s, ':') {
        Some(c) => s.take(c),
        None => s,
    }
}

/// Text between the first and the second `':'`, when there is a `':'`.
pub open spec fn second_part(s: Seq<char>) -> Option<Seq<char>> {
    match find_char(s, ':') {
        Some(c) => Some(first_part(s.skip(c + 1))),
        None => None,
    }
}

/// A 1-based number turned 0-based (0 stays 0).
pub open spec fn zero_based(n: nat) -> nat {
    if n > 0 { (n - 1) as nat } else { 0 }
}

/// What `confirm` yields for an input.
pub open spec fn target_of(input: Seq<char>) -> Option<(nat, Option<nat>)> {
    if input.len() == 0 {
        None
    } else {
        match parse_usize(trim(first_part(input))) {
            None => None,
            Some(line) => {
                let col = match second_part(input) {
                    Some(p) => match parse_usize(trim(p)) {
                        Some(c) => Some(zero_based(c)),
                        None => None,
                    },
                    None => None,
                };
                Some((zero_based(line), col))
            },
        }
    }
}

/// `str::parse::<usize>` on a character sequence.
pub fn parse_usize_exec(s: &[char]) -> (r: Option<usize>)
    ensures
        r matches Some(v) ==> parse_usize(s@) == Some(v as nat),
        r is None ==> parse_usize(s@) is None,
{
    let signed = s.len() > 0 && s[0] == '+';
    let d = if signed { subvec(s, 1, s.len()) } else { subvec(s, 0, s.len()) };
    proof {
        if signed {
            assert(s@.subrange(1, s@.len() as int) == s@.drop_first());
        } else {
            assert(s@.subrange(0, s@.len() as int) == s@);
        }
    }
    let ghost dd = unsigned_part(s@);
    assert(d@ == dd);
    if d.len() == 0 {
        return None;
    }
    let mut j: usize = 0;
    while j < d.len()
        invariant
            j <= d@.len(),
            d@ == dd,
            dd == unsigned_part(s@),
            forall|q: int| 0 <= q < j ==> is_digit(#[trigger] d@[q]),
        decreases d@.len() - j,
    {
        let c = d[j];
        if !('0' <= c && c <= '9') {
            assert(!is_digit(dd[j as int]));
            assert(!all_digits(dd));
            return None;
        }
        j = j + 1;
    }
    let mut v: usize = 0;
    let mut k: usize = 0;
    while k < d.len()
        invariant
            k <= d@.len(),
            d@ == dd,
            dd == unsigned_part(s@),
            forall|q: int| 0 <= q < d@.len() ==> is_digit(#[trigger] d@[q]),
            v == digits_value(d@.take(k as int)),
        decreases d@.len() - k,
    {
        let c = d[k];
        assert(is_digit(d@[k as int]));
        assert(d@.take(k + 1).drop_last() == d@.take(k as int));
        let digit = (c as u32 - '0' as u32) as usize;
        if v > (usize::MAX - digit) / 10 {
            proof {
                assert(v * 10 + digit > usize::MAX) by (nonlinear_arith)
                    requires v > (usize::MAX - digit) / 10, digit <= 9;
                lemma_prefix_value(d@, k + 1);
            }
            return None;
        }
        proof {
            assert(v * 10 + digit <= usize::MAX) by (nonlinear_arith)
                requires v <= (usize::MAX - digit) / 10, digit <= 9;
        }
        v = v * 10 + digit;
        k = k + 1;
    }
    assert(d@.take(d@.len() as int) == d@);
    Some(v)
}

/// A longer digit prefix is worth at least as much, as long as it is all digits.
proof fn lemma_prefix_value(d: Seq<char>, m: int)
    requires
        0 <= m <= d.len(),
    ensures
        (forall|i: int| 0 <= i < d.len() ==> is_digit(#[trigger] d[i])) ==> digits_value(d.take(m))
            <= digits_value(d),
    decreases d.len() - m,
{
    if m < d.len() {
        lemma_prefix_value(d, m + 1);
        assert(d.take(m + 1).drop_last() == d.take(m));
        assert(d.take(m + 1).last() == d[m]);
        if forall|i: int| 0 <= i < d.len() ==> is_digit(#[trigger] d[i]) {
            assert(is_digit(d[m]));
            assert(digits_value(d.take(m)) <= digits_value(d.take(m + 1))) by (nonlinear_arith)
                requires digits_value(d.take(m + 1)) == digits_value(d.take(m)) * 10 + (d[m] as nat
                    - '0' as nat) as nat, '0' <= d[m];
        }
    } else {
        assert(d.take(m) == d);
    }
}

fn first_part_exec(s: &[char]) -> (r: Vec<char>)
    ensures
        r@ == first_part(s@),
{
    match find(s, ':') {
        Some(c) => {
            proof {
                crate::text::lemma_find_from(s@, ':', 0);
            }
            subvec(s, 0, c)
        },
        None => subvec(s, 0, s.len()),
    }
}

impl GoToLine {
    pub fn new() -> (r: Self)
        ensures
            !r.visible,
            r.input@.len() == 0,
    {
        GoToLine { visible: false, input: String::new() }
    }

    /// Shows the prompt with an empty input.
    pub fn open(&mut self)
        ensures
            final(self).visible,
            final(self).input@.len() == 0,
    {
        self.visible = true;
        self.input = String::new();
    }

    /// Hides the prompt and clears the input.
    pub fn cancel(&mut self)
        ensures
            !final(self).visible,
            final(self).input@.len() == 0,
    {
        self.visible = false;
        self.input = String::new();
    }

    /// Appends `c` to the input.
    pub fn type_char(&mut self, c: char)
        ensures
            final(self).input@ == old(self).input@.push(c),
            final(self).visible == old(self).visible,
    {
        push_char(&mut self.input, c);
    }

    /// The 0-based line, and column if one follows a `':'`, that the input
    /// names (`"10:5"` → line 9, column 4); `None` when the line does not parse.
    pub fn confirm(&self) -> (r: Option<(usize, Option<usize>)>)
        ensures
            match r {
                Some((l, c)) => target_of(self.input@) == Some(
                    (
                        l as nat,
                        match c {
                            Some(x) => Some(x as nat),
                            None => None,
                        },
                    ),
                ),
                None => target_of(self.input@) is None,
            },
    {
        let s = chars_of(self.input.as_str());
        if s.len() == 0 {
            return None;
        }
        let first = first_part_exec(&s);
        let line = match parse_usize_exec(&trimmed(&first)) {
            Some(v) => v,
            None => return None,
        };
        let line_idx = if line > 0 { line - 1 } else { 0 };
        match find(&s, ':') {
            Some(c) => {
                proof {
                    crate::text::lemma_find_from(s@, ':', 0);
                }
                let rest = subvec(&s, c + 1, s.len());
                assert(rest@ == s@.skip(c + 1));
                let second = first_part_exec(&rest);
                match parse_usize_exec(&trimmed(&second)) {
                    Some(col) => {
                        let col_idx = if col > 0 { col - 1 } else { 0 };
                        Some((line_idx, Some(col_idx)))
                    },
                    None => Some((line_idx, None)),
                }
            },
            None => Some((line_idx, None)),
        }
    }
}

} // verus!
