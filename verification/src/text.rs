//! Character-level utilities shared by the parser and the colorizer:
//! lower-casing, whitespace splitting, and decimal numbers.

use vstd::prelude::*;
use vstd::string::StrSliceExecFns;

verus! {

/// The ASCII whitespace characters that separate tokens of a command line.
pub open spec fn is_ws(c: char) -> bool {
    c == ' ' || c == '\t' || c == '\n' || c == '\u{c}' || c == '\r'
}

/// ASCII-lower-cases a single character; everything but `A`..`Z` is unchanged.
pub open spec fn lower_char(c: char) -> char {
    if 'A' <= c && c <= 'Z' {
        ((c as u8) + 32) as char
    } else {
        c
    }
}

/// The whole text ASCII-lower-cased, character by character.
pub open spec fn lower_seq(s: Seq<char>) -> Seq<char> {
    s.map_values(|c: char| lower_char(c))
}

pub open spec fn is_digit(c: char) -> bool {
    '0' <= c && c <= '9'
}

pub open spec fn digit_val(c: char) -> int {
    c as int - '0' as int
}

/// Relies on `String::push` of std, which vstd leaves unspecified: it
/// appends the given character to the end of the string.
pub assume_specification[ String::push ](s: &mut String, ch: char)
    ensures
        final(s)@ == old(s)@.push(ch),
;

/// The characters of `s`, in order.
pub fn chars_of(s: &str) -> (r: Vec<char>)
    ensures
        r@ == s@,
{
    let n = s.unicode_len();
    let mut r: Vec<char> = Vec::new();
    let mut i: usize = 0;
    while i < n
        invariant
            n == s@.len(),
            i <= n,
            r@ == s@.take(i as int),
        decreases n - i,
    {
        r.push(s.get_char(i));
        proof {
            assert(r@ =~= s@.take(i + 1));
        }
        i = i + 1;
    }
    proof {
        assert(r@ =~= s@);
    }
    r
}

/// A non-empty run of decimal digits.
pub open spec fn is_digits(s: Seq<char>) -> bool {
    s.len() > 0 && (forall|i: int| 0 <= i < s.len() ==> is_digit(s[i]))
}

/// The value of `s` read as a decimal number, most significant digit first.
pub open spec fn num_val(s: Seq<char>) -> int
    decreases s.len(),
{
    if s.len() == 0 {
        0
    } else {
        num_val(s.drop_last()) * 10 + digit_val(s.last())
    }
}

/// A token names a history index exactly when it is all digits and its
/// value fits in a machine word.
pub open spec fn is_index_token(s: Seq<char>) -> bool {
    is_digits(s) && num_val(s) <= u64::MAX
}

proof fn lemma_num_val_nonneg(s: Seq<char>)
    requires
        forall|i: int| 0 <= i < s.len() ==> is_digit(s[i]),
    ensures
        num_val(s) >= 0,
    decreases s.len(),
{
    if s.len() > 0 {
        lemma_num_val_nonneg(s.drop_last());
    }
}

/// Once a prefix of a digit run is already too large, the whole run is.
proof fn lemma_num_val_grows(s: Seq<char>, i: int)
    requires
        forall|k: int| 0 <= k < s.len() ==> is_digit(s[k]),
        0 <= i <= s.len(),
    ensures
        num_val(s.take(i)) <= num_val(s),
    decreases s.len() - i,
{
    if i < s.len() {
        lemma_num_val_grows(s, i + 1);
        assert(s.take(i + 1).drop_last() =~= s.take(i));
        assert(forall|k: int| 0 <= k < s.take(i).len() ==> is_digit(s.take(i)[k]));
        lemma_num_val_nonneg(s.take(i));
    } else {
        assert(s.take(i) =~= s);
    }
}

/// Reads a token as a non-negative decimal integer; `None` when the token
/// is not all digits, is empty, or names a value too large for `u64`.
pub fn parse_num(t: &Vec<char>) -> (r: Option<u64>)
    ensures
        r is Some <==> is_index_token(t@),
        r is Some ==> r->0 == num_val(t@),
{
    if t.len() == 0 {
        return None;
    }
    let mut acc: u64 = 0;
    let mut i: usize = 0;
    while i < t.len()
        invariant
            i <= t.len(),
            t@.len() > 0,
            forall|k: int| 0 <= k < i ==> is_digit(t@[k]),
            acc == num_val(t@.take(i as int)),
        decreases t.len() - i,
    {
        let c = t[i];
        if !is_digit_char(c) {
            return None;
        }
        let d: u64 = ((c as u8) - 48) as u64;
        let next = match acc.checked_mul(10) {
            Some(m) => m.checked_add(d),
            None => None,
        };
        match next {
            Some(v) => {
                proof {
                    assert(t@.take(i + 1).drop_last() =~= t@.take(i as int));
                }
                acc = v;
                i = i + 1;
            },
            None => {
                proof {
                    assert(t@.take(i + 1).drop_last() =~= t@.take(i as int));
                    assert(num_val(t@.take(i + 1)) > u64::MAX);
                    if is_digits(t@) {
                        lemma_num_val_grows(t@, i + 1);
                    }
                }
                return None;
            },
        }
    }
    proof {
        assert(t@.take(t@.len() as int) =~= t@);
    }
    Some(acc)
}

/// The index just past the maximal run of non-whitespace characters that
/// starts at `i`; `i` itself when `i` is out of range or sits on whitespace.
pub open spec fn token_end(s: Seq<char>, i: int) -> int
    decreases s.len() - i,
{
    if i < 0 || i >= s.len() || is_ws(s[i]) {
        i
    } else if token_end(s, i + 1) > i {
        token_end(s, i + 1)
    } else {
        i + 1
    }
}

/// The tokens of `s` at or after position `i`: maximal runs of
/// non-whitespace characters, in order.
pub open spec fn tokens_from(s: Seq<char>, i: int) -> Seq<Seq<char>>
    decreases s.len() - i,
{
    if i < 0 || i >= s.len() {
        Seq::empty()
    } else if is_ws(s[i]) {
        tokens_from(s, i + 1)
    } else {
        let t = token_end(s, i);
        let e = if i < t && t <= s.len() {
            t
        } else {
            i + 1
        };
        seq![s.subrange(i, e)] + tokens_from(s, e)
    }
}

/// `s` split on ASCII whitespace: the token list that the parser works on.
pub open spec fn tokens_of(s: Seq<char>) -> Seq<Seq<char>> {
    tokens_from(s, 0)
}

/// A scan that stopped at the first whitespace character (or the end)
/// found exactly `token_end`.
proof fn lemma_token_end_of_run(s: Seq<char>, i: int, e: int)
    requires
        0 <= i <= e <= s.len(),
        forall|j: int| i <= j < e ==> !is_ws(s[j]),
        e < s.len() ==> is_ws(s[e]),
    ensures
        token_end(s, i) == e,
    decreases e - i,
{
    if i < e {
        lemma_token_end_of_run(s, i + 1, e);
    }
}

/// Text that is whitespace throughout has no tokens at all.
pub proof fn lemma_all_ws_no_tokens(s: Seq<char>, i: int)
    requires
        0 <= i <= s.len(),
        forall|j: int| 0 <= j < s.len() ==> is_ws(s[j]),
    ensures
        tokens_from(s, i) == Seq::<Seq<char>>::empty(),
    decreases s.len() - i,
{
    if i < s.len() {
        lemma_all_ws_no_tokens(s, i + 1);
    }
}

/// The token views of a list of token vectors.
pub open spec fn views_of(v: Seq<Vec<char>>) -> Seq<Seq<char>> {
    v.map_values(|t: Vec<char>| t@)
}

/// Splits `s` on ASCII whitespace into its tokens.
pub fn tokenize(s: &Vec<char>) -> (r: Vec<Vec<char>>)
    ensures
        views_of(r@) == tokens_of(s@),
{
    let mut r: Vec<Vec<char>> = Vec::new();
    let mut i: usize = 0;
    while i < s.len()
        invariant
            i <= s.len(),
            tokens_of(s@) == views_of(r@) + tokens_from(s@, i as int),
        decreases s.len() - i,
    {
        if is_ws_char(s[i]) {
            i = i + 1;
        } else {
            let start = i;
            let mut tok: Vec<char> = Vec::new();
            while i < s.len() && !is_ws_char(s[i])
                invariant
                    start <= i <= s.len(),
                    tok@ == s@.subrange(start as int, i as int),
                    forall|j: int| start <= j < i ==> !is_ws(s@[j]),
                decreases s.len() - i,
            {
                tok.push(s[i]);
                proof {
                    assert(tok@ =~= s@.subrange(start as int, i + 1));
                }
                i = i + 1;
            }
            proof {
                lemma_token_end_of_run(s@, start as int, i as int);
                assert(views_of(r@.push(tok)) =~= views_of(r@).push(tok@));
                assert(views_of(r@.push(tok)) + tokens_from(s@, i as int) =~= views_of(r@)
                    + tokens_from(s@, start as int));
            }
            r.push(tok);
        }
    }
    proof {
        assert(tokens_of(s@) =~= views_of(r@));
    }
    r
}

/// Compares a token against a fixed word, character by character.
pub fn token_eq(t: &Vec<char>, word: &str) -> (r: bool)
    ensures
        r == (t@ == word@),
{
    let n = word.unicode_len();
    if n != t.len() {
        return false;
    }
    let mut i: usize = 0;
    while i < n
        invariant
            n == word@.len(),
            n == t@.len(),
            i <= n,
            forall|j: int| 0 <= j < i ==> t@[j] == word@[j],
        decreases n - i,
    {
        if t[i] != word.get_char(i) {
            return false;
        }
        i = i + 1;
    }
    proof {
        assert(t@ =~= word@);
    }
    true
}

pub fn is_ws_char(c: char) -> (r: bool)
    ensures
        r == is_ws(c),
{
    c == ' ' || c == '\t' || c == '\n' || c == '\u{c}' || c == '\r'
}

pub fn is_digit_char(c: char) -> (r: bool)
    ensures
        r == is_digit(c),
{
    '0' <= c && c <= '9'
}

pub fn to_lower_char(c: char) -> (r: char)
    ensures
        r == lower_char(c),
{
    if 'A' <= c && c <= 'Z' {
        ((c as u8) + 32) as char
    } else {
        c
    }
}

pub fn to_lower(s: &Vec<char>) -> (r: Vec<char>)
    ensures
        r@ == lower_seq(s@),
{
    let mut r: Vec<char> = Vec::new();
    let mut i: usize = 0;
    while i < s.len()
        invariant
            i <= s.len(),
            r@ == lower_seq(s@.take(i as int)),
        decreases s.len() - i,
    {
        r.push(to_lower_char(s[i]));
        proof {
            assert(r@ =~= lower_seq(s@.take(i + 1)));
        }
        i = i + 1;
    }
    proof {
        assert(s@.take(s@.len() as int) =~= s@);
    }
    r
}

} // verus!
