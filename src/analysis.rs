//! Parsing of one informational line of the analysis protocol into a score
//! and a principal variation.

use vstd::prelude::*;
use crate::text::{after_last, after_last_chars, chars_of, contains, contains_chars, first_word, first_word_chars, split_spaces, split_spaces_strings, strings_view, trim_end, trim_end_chars};

verus! {

pub open spec fn is_digit(c: char) -> bool {
    '0' <= c && c <= '9'
}

pub open spec fn all_digits(d: Seq<char>) -> bool {
    forall|i: int| 0 <= i < d.len() ==> is_digit(#[trigger] d[i])
}

/// The value of a run of decimal digits.
pub open spec fn digits_value(d: Seq<char>) -> int
    decreases d.len(),
{
    if d.len() == 0 {
        0
    } else {
        digits_value(d.drop_last()) * 10 + (d.last() as int - '0' as int)
    }
}

/// The integer that `t` writes: an optional `+` or `-`, then one or more digits.
pub open spec fn signed_value(t: Seq<char>) -> Option<int> {
    if t.len() > 0 && (t[0] == '-' || t[0] == '+') {
        let d = t.skip(1);
        if d.len() > 0 && all_digits(d) {
            Some(if t[0] == '-' { -digits_value(d) } else { digits_value(d) })
        } else {
            None
        }
    } else if t.len() > 0 && all_digits(t) {
        Some(digits_value(t))
    } else {
        None
    }
}

/// The `i32` that `t` writes, when it writes one in range.
pub open spec fn parse_i32_spec(t: Seq<char>) -> Option<i32> {
    match signed_value(t) {
        Some(v) => if i32::MIN <= v <= i32::MAX {
            Some(v as i32)
        } else {
            None
        },
        None => None,
    }
}

proof fn lemma_digits_prefix(d: Seq<char>, k: int)
    requires
        all_digits(d),
        0 <= k <= d.len(),
    ensures
        0 <= digits_value(d.take(k)) <= digits_value(d),
    decreases d.len(),
{
    if k == d.len() {
        assert(d.take(k) =~= d);
        if d.len() > 0 {
            lemma_digits_prefix(d.drop_last(), 0);
        }
    } else {
        let e = d.drop_last();
        assert(d.take(k) =~= e.take(k));
        assert forall|i: int| 0 <= i < e.len() implies is_digit(#[trigger] e[i]) by {
            assert(e[i] == d[i]);
        }
        lemma_digits_prefix(e, k);
        lemma_digits_prefix(e, e.len() as int);
        assert(e.take(e.len() as int) =~= e);
    }
}

/// Reads an `i32` written in decimal, with an optional sign.
pub fn parse_i32(t: &Vec<char>) -> (r: Option<i32>)
    ensures
        r == parse_i32_spec(t@),
{
    let n = t.len();
    if n == 0 {
        return None;
    }
    let neg = t[0] == '-';
    let start: usize = if t[0] == '-' || t[0] == '+' { 1 } else { 0 };
    if start >= n {
        return None;
    }
    let ghost d = t@.skip(start as int);
    proof {
        if start == 0 {
            assert(d =~= t@);
        }
    }
    let mut acc: i64 = 0;
    let mut i: usize = start;
    while i < n
        invariant
            start <= i <= n,
            n == t@.len(),
            d == t@.skip(start as int),
            start == 0 ==> d == t@ && !(t@[0] == '-' || t@[0] == '+'),
            start == 1 ==> (t@[0] == '-' || t@[0] == '+'),
            start <= 1,
            neg == (t@[0] == '-'),
            acc == digits_value(d.take(i - start)),
            0 <= acc <= 2147483648,
            forall|j: int| 0 <= j < i - start ==> is_digit(#[trigger] d[j]),
        decreases n - i,
    {
        let c = t[i];
        if !(c >= '0' && c <= '9') {
            assert(!is_digit(d[i - start]));
            return None;
        }
        assert(d.take(i - start + 1).drop_last() =~= d.take(i - start));
        acc = acc * 10 + (c as i64 - '0' as i64);
        i = i + 1;
        if acc > 2147483648 {
            proof {
                if all_digits(d) {
                    lemma_digits_prefix(d, i - start);
                    assert(digits_value(d) > 2147483648);
                }
            }
            return None;
        }
    }
    assert(d.take(n - start) =~= d);
    if neg {
        Some((-acc) as i32)
    } else if acc > 2147483647 {
        None
    } else {
        Some(acc as i32)
    }
}

/// What one informational line of the analysis protocol says.
pub enum Analysis {
    /// The line reports a forced mate.
    Mate,
    /// The line carries no score at all.
    NoScore,
    /// A score is announced but no centipawn integer can be read from it.
    BadScore,
    /// A centipawn score, and the moves of the principal variation.
    Scored { score: i32, pv: Vec<String> },
}

/// The line reports a mate score.
pub open spec fn reports_mate(line: Seq<char>) -> bool {
    contains(line, "mate"@)
}

/// The line carries a score of some kind.
pub open spec fn has_score(line: Seq<char>) -> bool {
    contains(line, "score"@)
}

/// The centipawn score: the first word after the last `score cp `.
pub open spec fn centipawns(line: Seq<char>) -> Option<i32> {
    parse_i32_spec(first_word(after_last(line, "score cp "@)))
}

/// The principal variation: what follows the last `pv `, trailing
/// whitespace removed, split at single spaces.
pub open spec fn pv_moves(line: Seq<char>) -> Seq<Seq<char>> {
    split_spaces(trim_end(after_last(line, "pv "@)))
}

/// Reads a score and a principal variation out of one analysis line.
pub fn parse_analysis(line: &str) -> (r: Analysis)
    ensures
        r is Mate <==> reports_mate(line@),
        r is NoScore <==> !reports_mate(line@) && !has_score(line@),
        r is BadScore <==> !reports_mate(line@) && has_score(line@) && centipawns(line@) is None,
        r matches Analysis::Scored { score, pv } ==> centipawns(line@) == Some(score)
            && strings_view(pv@) == pv_moves(line@),
{
    proof {
        reveal_strlit("mate");
        reveal_strlit("score");
        reveal_strlit("score cp ");
        reveal_strlit("pv ");
    }
    let s = chars_of(line);
    let mate = chars_of("mate");
    if contains_chars(&s, &mate) {
        return Analysis::Mate;
    }
    let score_word = chars_of("score");
    if !contains_chars(&s, &score_word) {
        return Analysis::NoScore;
    }
    let cp = chars_of("score cp ");
    let tail = after_last_chars(&s, &cp);
    let word = first_word_chars(&tail);
    match parse_i32(&word) {
        None => Analysis::BadScore,
        Some(score) => {
            let pv_mark = chars_of("pv ");
            let pv_text = after_last_chars(&s, &pv_mark);
            let trimmed = trim_end_chars(&pv_text);
            let pv = split_spaces_strings(&trimmed);
            Analysis::Scored { score, pv }
        },
    }
}

} // verus!
