//! Structural text helpers: splitting into lines, whitespace tokenization,
//! character search and trimming, each with a character-level specification.

use vstd::prelude::*;
use crate::num::dec_digit_char;
use crate::num::is_dec_digit;

verus! {

/// ASCII whitespace, as it appears in the kernel text interfaces.
pub open spec fn is_ws(c: char) -> bool {
    c == ' ' || c == '\t' || c == '\n' || c == '\r'
}

/// Runtime check for [`is_ws`].
pub fn ws_char(c: char) -> (b: bool)
    ensures
        b == is_ws(c),
{
    c == ' ' || c == '\t' || c == '\n' || c == '\r'
}

/// ASCII letter.
pub open spec fn is_alpha(c: char) -> bool {
    ('a' <= c && c <= 'z') || ('A' <= c && c <= 'Z')
}

/// Runtime check for [`is_alpha`].
pub fn alpha_char(c: char) -> (b: bool)
    ensures
        b == is_alpha(c),
{
    ('a' <= c && c <= 'z') || ('A' <= c && c <= 'Z')
}

/// Index of the first occurrence of `c` in `s`, or `s.len()` if `c` does
/// not occur.
pub open spec fn first_idx(s: Seq<char>, c: char) -> nat
    decreases s.len(),
{
    if s.len() == 0 {
        0
    } else if s[0] == c {
        0
    } else {
        1 + first_idx(s.drop_first(), c)
    }
}

pub proof fn lemma_first_idx_bounds(s: Seq<char>, c: char)
    ensures
        first_idx(s, c) <= s.len(),
        forall|i: int| 0 <= i < first_idx(s, c) ==> s[i] != c,
        first_idx(s, c) < s.len() ==> s[first_idx(s, c) as int] == c,
    decreases s.len(),
{
    if s.len() != 0 && s[0] != c {
        lemma_first_idx_bounds(s.drop_first(), c);
        assert forall|i: int| 0 <= i < first_idx(s, c) implies s[i] != c by {
            if i > 0 {
                assert(s.drop_first()[i - 1] == s[i]);
            }
        }
    }
}

proof fn lemma_first_idx_is(s: Seq<char>, c: char, m: int)
    requires
        0 <= m <= s.len(),
        forall|i: int| 0 <= i < m ==> s[i] != c,
        m < s.len() ==> s[m] == c,
    ensures
        first_idx(s, c) == m,
    decreases m,
{
    if m > 0 {
        lemma_first_idx_is(s.drop_first(), c, m - 1);
    }
}

/// Position of the first occurrence of `c` in `s`, or the character length
/// of `s` if `c` does not occur.
pub fn find_char(s: &str, c: char) -> (r: usize)
    ensures
        r == first_idx(s@, c),
{
    let n = s.unicode_len();
    let mut i: usize = 0;
    while i < n && s.get_char(i) != c
        invariant
            n == s@.len(),
            0 <= i <= n,
            forall|j: int| 0 <= j < i ==> s@[j] != c,
        decreases n - i,
    {
        i = i + 1;
    }
    proof {
        lemma_first_idx_is(s@, c, i as int);
    }
    i
}

/// The lines of `s`: the segments between newline characters, newlines not
/// included. Text without a newline is one line; each newline ends a line,
/// so text that ends in a newline contributes a final empty segment.
pub open spec fn spec_lines(s: Seq<char>) -> Seq<Seq<char>>
    decreases s.len(),
{
    let k = first_idx(s, '\n');
    if k >= s.len() {
        seq![s]
    } else {
        seq![s.subrange(0, k as int)] + spec_lines(s.subrange(k as int + 1, s.len() as int))
    }
}

/// Splits `s` at newline characters.
pub fn split_lines(s: &str) -> (r: Vec<String>)
    ensures
        r@.map_values(|t: String| t@) == spec_lines(s@),
{
    let n = s.unicode_len();
    let mut r: Vec<String> = Vec::new();
    let mut start: usize = 0;
    let mut done = false;
    proof {
        assert(s@.subrange(0, n as int) =~= s@);
        assert(r@.map_values(|t: String| t@) + spec_lines(s@) =~= spec_lines(s@));
    }
    while !done
        invariant
            n == s@.len(),
            0 <= start <= n,
            !done ==> spec_lines(s@) == r@.map_values(|t: String| t@) + spec_lines(
                s@.subrange(start as int, n as int),
            ),
            done ==> spec_lines(s@) == r@.map_values(|t: String| t@),
        decreases n - start + (if done {
            0int
        } else {
            1int
        }),
    {
        let mut j = start;
        while j < n && s.get_char(j) != '\n'
            invariant
                n == s@.len(),
                start <= j <= n,
                forall|i: int| start <= i < j ==> s@[i] != '\n',
            decreases n - j,
        {
            j = j + 1;
        }
        let line = s.substring_char(start, j).to_owned();
        let ghost prev_map = r@.map_values(|t: String| t@);
        let ghost sub = s@.subrange(start as int, n as int);
        proof {
            assert forall|i: int| 0 <= i < j - start implies sub[i] != '\n' by {
                assert(sub[i] == s@[start + i]);
            }
            lemma_first_idx_is(sub, '\n', j - start);
        }
        r.push(line);
        proof {
            assert(r@.map_values(|t: String| t@) =~= prev_map.push(line@));
        }
        if j == n {
            proof {
                assert(line@ =~= sub);
                assert(spec_lines(sub) == seq![sub]);
                assert(prev_map + seq![sub] =~= prev_map.push(line@));
            }
            done = true;
        } else {
            proof {
                assert(sub.subrange(0, (j - start) as int) =~= s@.subrange(
                    start as int,
                    j as int,
                ));
                assert(sub.subrange((j - start + 1) as int, sub.len() as int) =~= s@.subrange(
                    j + 1,
                    n as int,
                ));
                assert(line@ == sub.subrange(0, (j - start) as int));
                assert(spec_lines(sub) == seq![line@] + spec_lines(s@.subrange(j + 1, n as int)));
                assert(prev_map + (seq![line@] + spec_lines(s@.subrange(j + 1, n as int)))
                    =~= prev_map.push(line@) + spec_lines(s@.subrange(j + 1, n as int)));
            }
            start = j + 1;
        }
    }
    r
}

/// Length of the longest prefix of `s` made of non-whitespace characters.
pub open spec fn token_prefix_len(s: Seq<char>) -> nat
    decreases s.len(),
{
    if s.len() > 0 && !is_ws(s[0]) {
        1 + token_prefix_len(s.drop_first())
    } else {
        0
    }
}

proof fn lemma_token_prefix_len_bounds(s: Seq<char>)
    ensures
        token_prefix_len(s) <= s.len(),
    decreases s.len(),
{
    if s.len() > 0 && !is_ws(s[0]) {
        lemma_token_prefix_len_bounds(s.drop_first());
    }
}

proof fn lemma_token_prefix_len_is(s: Seq<char>, m: int)
    requires
        0 <= m <= s.len(),
        forall|i: int| 0 <= i < m ==> !is_ws(s[i]),
        m < s.len() ==> is_ws(s[m]),
    ensures
        token_prefix_len(s) == m,
    decreases m,
{
    if m > 0 {
        lemma_token_prefix_len_is(s.drop_first(), m - 1);
    }
}

/// Length of the longest prefix of `s` made of decimal digits.
pub open spec fn digits_prefix_len(s: Seq<char>) -> nat
    decreases s.len(),
{
    if s.len() > 0 && is_dec_digit(s[0]) {
        1 + digits_prefix_len(s.drop_first())
    } else {
        0
    }
}

pub proof fn lemma_digits_prefix_len_bounds(s: Seq<char>)
    ensures
        digits_prefix_len(s) <= s.len(),
        forall|i: int| 0 <= i < digits_prefix_len(s) ==> is_dec_digit(#[trigger] s[i]),
    decreases s.len(),
{
    if s.len() > 0 && is_dec_digit(s[0]) {
        lemma_digits_prefix_len_bounds(s.drop_first());
        assert forall|i: int| 0 <= i < digits_prefix_len(s) implies is_dec_digit(s[i]) by {
            if i > 0 {
                assert(s.drop_first()[i - 1] == s[i]);
            }
        }
    }
}

proof fn lemma_digits_prefix_len_is(s: Seq<char>, m: int)
    requires
        0 <= m <= s.len(),
        forall|i: int| 0 <= i < m ==> is_dec_digit(s[i]),
        m < s.len() ==> !is_dec_digit(s[m]),
    ensures
        digits_prefix_len(s) == m,
    decreases m,
{
    if m > 0 {
        lemma_digits_prefix_len_is(s.drop_first(), m - 1);
    }
}

/// Number of leading decimal digits of `s`.
pub fn digits_prefix(s: &str) -> (r: usize)
    ensures
        r == digits_prefix_len(s@),
{
    let n = s.unicode_len();
    let mut i: usize = 0;
    while i < n && dec_digit_char(s.get_char(i))
        invariant
            n == s@.len(),
            0 <= i <= n,
            forall|j: int| 0 <= j < i ==> is_dec_digit(#[trigger] s@[j]),
        decreases n - i,
    {
        i = i + 1;
    }
    proof {
        lemma_digits_prefix_len_is(s@, i as int);
    }
    i
}

/// The tokens of a line: the maximal runs of non-whitespace characters, in
/// order.
pub open spec fn line_tokens(s: Seq<char>) -> Seq<Seq<char>>
    decreases s.len(),
    via line_tokens_decreases
{
    if s.len() == 0 {
        Seq::empty()
    } else if is_ws(s[0]) {
        line_tokens(s.drop_first())
    } else {
        let t = token_prefix_len(s);
        seq![s.subrange(0, t as int)] + line_tokens(s.subrange(t as int, s.len() as int))
    }
}

#[via_fn]
proof fn line_tokens_decreases(s: Seq<char>) {
    if s.len() > 0 && !is_ws(s[0]) {
        lemma_token_prefix_len_bounds(s);
    }
}

/// Splits a line into whitespace-separated tokens.
pub fn tokenize(s: &str) -> (r: Vec<String>)
    ensures
        r@.map_values(|t: String| t@) == line_tokens(s@),
{
    let n = s.unicode_len();
    let mut r: Vec<String> = Vec::new();
    let mut i: usize = 0;
    proof {
        assert(s@.subrange(0, n as int) =~= s@);
        assert(r@.map_values(|t: String| t@) + line_tokens(s@) =~= line_tokens(s@));
    }
    while i < n
        invariant
            n == s@.len(),
            0 <= i <= n,
            line_tokens(s@) == r@.map_values(|t: String| t@) + line_tokens(
                s@.subrange(i as int, n as int),
            ),
        decreases n - i,
    {
        let c = s.get_char(i);
        if ws_char(c) {
            proof {
                let sub = s@.subrange(i as int, n as int);
                assert(sub.drop_first() =~= s@.subrange(i + 1, n as int));
            }
            i = i + 1;
        } else {
            let mut j = i + 1;
            while j < n && !ws_char(s.get_char(j))
                invariant
                    n == s@.len(),
                    i < j <= n,
                    forall|k: int| i <= k < j ==> !is_ws(s@[k]),
                decreases n - j,
            {
                j = j + 1;
            }
            let token = s.substring_char(i, j).to_owned();
            let ghost prev_map = r@.map_values(|t: String| t@);
            let ghost sub = s@.subrange(i as int, n as int);
            proof {
                assert forall|k: int| 0 <= k < j - i implies !is_ws(sub[k]) by {
                    assert(sub[k] == s@[i + k]);
                }
                lemma_token_prefix_len_is(sub, j - i);
                assert(sub.subrange(0, (j - i) as int) =~= s@.subrange(i as int, j as int));
                assert(sub.subrange((j - i) as int, sub.len() as int) =~= s@.subrange(
                    j as int,
                    n as int,
                ));
                assert(token@ == sub.subrange(0, (j - i) as int));
                assert(line_tokens(sub) == seq![token@] + line_tokens(
                    s@.subrange(j as int, n as int),
                ));
            }
            r.push(token);
            proof {
                assert(r@.map_values(|t: String| t@) =~= prev_map.push(token@));
                assert(prev_map + (seq![token@] + line_tokens(s@.subrange(j as int, n as int)))
                    =~= prev_map.push(token@) + line_tokens(s@.subrange(j as int, n as int)));
            }
            i = j;
        }
    }
    proof {
        assert(s@.subrange(n as int, n as int) =~= Seq::<char>::empty());
        assert(r@.map_values(|t: String| t@) + line_tokens(Seq::<char>::empty())
            =~= r@.map_values(|t: String| t@));
    }
    r
}

/// Character-wise string equality.
pub fn str_eq(a: &str, b: &str) -> (r: bool)
    ensures
        r == (a@ == b@),
{
    let na = a.unicode_len();
    let nb = b.unicode_len();
    if na != nb {
        return false;
    }
    let mut i: usize = 0;
    while i < na
        invariant
            na == a@.len(),
            na == b@.len(),
            0 <= i <= na,
            forall|j: int| 0 <= j < i ==> a@[j] == b@[j],
        decreases na - i,
    {
        if a.get_char(i) != b.get_char(i) {
            return false;
        }
        i = i + 1;
    }
    proof {
        assert(a@ =~= b@);
    }
    true
}

/// `s` without leading whitespace.
pub open spec fn trim_front(s: Seq<char>) -> Seq<char>
    decreases s.len(),
{
    if s.len() > 0 && is_ws(s[0]) {
        trim_front(s.drop_first())
    } else {
        s
    }
}

/// `s` without trailing whitespace.
pub open spec fn trim_back(s: Seq<char>) -> Seq<char>
    decreases s.len(),
{
    if s.len() > 0 && is_ws(s.last()) {
        trim_back(s.drop_last())
    } else {
        s
    }
}

/// `s` without leading and trailing whitespace.
pub open spec fn trimmed(s: Seq<char>) -> Seq<char> {
    trim_back(trim_front(s))
}

/// Removes leading and trailing whitespace.
pub fn trim(s: &str) -> (r: &str)
    ensures
        r@ == trimmed(s@),
{
    let n = s.unicode_len();
    let mut i: usize = 0;
    proof {
        assert(s@.subrange(0, n as int) =~= s@);
    }
    while i < n && ws_char(s.get_char(i))
        invariant
            n == s@.len(),
            0 <= i <= n,
            trim_front(s@) == trim_front(s@.subrange(i as int, n as int)),
        decreases n - i,
    {
        proof {
            let sub = s@.subrange(i as int, n as int);
            assert(sub.drop_first() =~= s@.subrange(i + 1, n as int));
        }
        i = i + 1;
    }
    proof {
        assert(trim_front(s@) == s@.subrange(i as int, n as int));
    }
    let mut j = n;
    while j > i && ws_char(s.get_char(j - 1))
        invariant
            n == s@.len(),
            i <= j <= n,
            trim_back(s@.subrange(i as int, n as int)) == trim_back(
                s@.subrange(i as int, j as int),
            ),
        decreases j,
    {
        proof {
            let sub = s@.subrange(i as int, j as int);
            assert(sub.last() == s@[j - 1]);
            assert(sub.drop_last() =~= s@.subrange(i as int, j - 1));
        }
        j = j - 1;
    }
    proof {
        let sub = s@.subrange(i as int, j as int);
        if sub.len() > 0 {
            assert(sub.last() == s@[j - 1]);
        }
        assert(trim_back(sub) == sub);
    }
    s.substring_char(i, j)
}

} // verus!
