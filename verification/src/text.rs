//! Reading what a user typed.

use vstd::prelude::*;

verus! {

/// The characters with the Unicode property `White_Space`.
pub open spec fn white_space(c: char) -> bool {
    let n = c as u32;
    ||| 0x09 <= n <= 0x0D
    ||| n == 0x20
    ||| n == 0x85
    ||| n == 0xA0
    ||| n == 0x1680
    ||| 0x2000 <= n <= 0x200A
    ||| n == 0x2028
    ||| n == 0x2029
    ||| n == 0x202F
    ||| n == 0x205F
    ||| n == 0x3000
}

/// `s` without the white space at its start.
pub open spec fn trimmed_start(s: Seq<char>) -> Seq<char>
    decreases s.len(),
{
    if s.len() > 0 && white_space(s.first()) {
        trimmed_start(s.drop_first())
    } else {
        s
    }
}

/// `s` without the white space at its end.
pub open spec fn trimmed_end(s: Seq<char>) -> Seq<char>
    decreases s.len(),
{
    if s.len() > 0 && white_space(s.last()) {
        trimmed_end(s.drop_last())
    } else {
        s
    }
}

/// `s` without the white space around it.
pub open spec fn trimmed(s: Seq<char>) -> Seq<char> {
    trimmed_end(trimmed_start(s))
}

/// `str::trim` of std: leading and trailing white space, by the Unicode
/// property `White_Space`, is removed, and nothing else.
pub assume_specification[ str::trim ](s: &str) -> (r: &str)
    ensures
        r@ == trimmed(s@),
;

/// A decimal digit.
pub open spec fn is_digit(c: char) -> bool {
    '0' <= c <= '9'
}

/// The number that decimal digits spell.
pub open spec fn decimal(s: Seq<char>) -> nat
    decreases s.len(),
{
    if s.len() == 0 {
        0
    } else {
        decimal(s.drop_last()) * 10 + (s.last() as nat - '0' as nat) as nat
    }
}

/// `s` without a plus sign before it.
pub open spec fn unsigned(s: Seq<char>) -> Seq<char> {
    if s.len() > 0 && s.first() == '+' {
        s.drop_first()
    } else {
        s
    }
}

/// Digits, at least one, and nothing else.
pub open spec fn all_digits(s: Seq<char>) -> bool {
    s.len() > 0 && (forall|i: int| 0 <= i < s.len() ==> is_digit(#[trigger] s[i]))
}

/// The number that `s` spells: digits, with or without a plus sign before
/// them.
pub open spec fn numeral(s: Seq<char>) -> Option<nat> {
    if all_digits(unsigned(s)) {
        Some(decimal(unsigned(s)))
    } else {
        None
    }
}

/// `str::parse` of std, for `usize`: an optional plus sign followed by only
/// digits is read as the number it spells; anything else, and a number that a
/// `usize` cannot hold, is refused.
#[verifier::external_body]
fn parse_usize(s: &str) -> (r: Option<usize>)
    ensures
        match r {
            Some(n) => numeral(s@) == Some(n as nat),
            None => numeral(s@) is None || numeral(s@)->0 > usize::MAX,
        },
{
    s.parse::<usize>().ok()
}

/// What an answer to "choose one of 1 to `count`" stands for: the number that
/// it spells, white space around it aside, less one.
pub open spec fn chosen(line: Seq<char>, count: nat) -> Option<nat> {
    match numeral(trimmed(line)) {
        Some(n) => if 1 <= n <= count {
            Some((n - 1) as nat)
        } else {
            None
        },
        None => None,
    }
}

/// Read an answer to "choose one of 1 to `count`"; see `chosen`.
pub fn parse_choice(line: &str, count: usize) -> (r: Option<usize>)
    ensures
        match r {
            Some(i) => chosen(line@, count as nat) == Some(i as nat),
            None => chosen(line@, count as nat) is None,
        },
{
    match parse_usize(line.trim()) {
        Some(n) => if 1 <= n && n <= count {
            Some(n - 1)
        } else {
            None
        },
        None => None,
    }
}

/// A choice is always one of those on offer.
pub proof fn law_choice_in_range(line: Seq<char>, count: nat)
    requires
        chosen(line, count) is Some,
    ensures
        chosen(line, count)->0 < count,
{
}

/// Trimming takes away white space only, and leaves none at either end.
pub proof fn law_trimmed(s: Seq<char>)
    ensures
        exists|i: int, j: int|
            0 <= i <= j <= s.len() && trimmed(s) == #[trigger] s.subrange(i, j) && (forall|k: int|
                0 <= k < i || j <= k < s.len() ==> white_space(#[trigger] s[k])),
        trimmed(s).len() > 0 ==> !white_space(trimmed(s).first()) && !white_space(
            trimmed(s).last(),
        ),
{
    lemma_trimmed_start(s);
    let i = choose|i: int|
        0 <= i <= s.len() && trimmed_start(s) == #[trigger] s.skip(i) && (forall|k: int|
            0 <= k < i ==> white_space(#[trigger] s[k]));
    let t = trimmed_start(s);
    lemma_trimmed_end(t);
    let n = choose|n: int|
        0 <= n <= t.len() && trimmed_end(t) == #[trigger] t.take(n) && (forall|k: int|
            n <= k < t.len() ==> white_space(#[trigger] t[k]));
    assert(trimmed(s) =~= s.subrange(i, i + n));
    assert forall|k: int| 0 <= k < i || i + n <= k < s.len() implies white_space(
        #[trigger] s[k],
    ) by {
        if i + n <= k {
            assert(t[k - i] == s[k]);
        }
    }
    if n > 0 {
        assert(trimmed(s).first() == t.first());
    }
}

proof fn lemma_trimmed_start(s: Seq<char>)
    ensures
        exists|i: int|
            0 <= i <= s.len() && trimmed_start(s) == #[trigger] s.skip(i) && (forall|k: int|
                0 <= k < i ==> white_space(#[trigger] s[k])),
        trimmed_start(s).len() > 0 ==> !white_space(trimmed_start(s).first()),
    decreases s.len(),
{
    if s.len() > 0 && white_space(s.first()) {
        let t = s.drop_first();
        lemma_trimmed_start(t);
        let i = choose|i: int|
            0 <= i <= t.len() && trimmed_start(t) == #[trigger] t.skip(i) && (forall|k: int|
                0 <= k < i ==> white_space(#[trigger] t[k]));
        assert(s.skip(i + 1) =~= t.skip(i));
        assert forall|k: int| 0 <= k < i + 1 implies white_space(#[trigger] s[k]) by {
            if k > 0 {
                assert(t[k - 1] == s[k]);
            }
        }
    } else {
        assert(s.skip(0) =~= s);
    }
}

proof fn lemma_trimmed_end(s: Seq<char>)
    ensures
        exists|n: int|
            0 <= n <= s.len() && trimmed_end(s) == #[trigger] s.take(n) && (forall|k: int|
                n <= k < s.len() ==> white_space(#[trigger] s[k])),
        trimmed_end(s).len() > 0 ==> !white_space(trimmed_end(s).last()),
    decreases s.len(),
{
    if s.len() > 0 && white_space(s.last()) {
        let t = s.drop_last();
        lemma_trimmed_end(t);
        let n = choose|n: int|
            0 <= n <= t.len() && trimmed_end(t) == #[trigger] t.take(n) && (forall|k: int|
                n <= k < t.len() ==> white_space(#[trigger] t[k]));
        assert(s.take(n) =~= t.take(n));
        assert forall|k: int| n <= k < s.len() implies white_space(#[trigger] s[k]) by {
            if k < t.len() {
                assert(t[k] == s[k]);
            }
        }
    } else {
        assert(s.take(s.len() as int) =~= s);
    }
}

/// A choice is the number typed, counted from one, when that many are on offer.
pub proof fn law_choice(line: Seq<char>, count: nat, i: nat)
    ensures
        chosen(line, count) == Some(i) <==> i < count && numeral(trimmed(line)) == Some(i + 1),
        numeral(trimmed(line)) is None ==> chosen(line, count) is None,
        numeral(trimmed(line)) == Some(0nat) ==> chosen(line, count) is None,
{
}

} // verus!
