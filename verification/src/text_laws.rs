//! Laws of texts: decimal notation, searching, replacing, and words.

use crate::text::{
    all_ascii, contains_text, decimal, digit_char, is_space, left_aligned, lower_text, occurs_at,
    replaced, upper_text, words_joined,
};
use vstd::prelude::*;

verus! {

/// The number that digits stand for, the last one for ones.
pub open spec fn number_of(digits: Seq<char>) -> int
    decreases digits.len(),
{
    if digits.len() == 0 {
        0
    } else {
        10 * number_of(digits.drop_last()) + (digits.last() as int - '0' as int)
    }
}

/// Decimal notation has digits only, no zero ahead of others, and stands for its number.
pub proof fn decimal_stands_for_number(n: nat)
    ensures
        number_of(decimal(n)) == n,
        decimal(n).len() > 0,
        forall|i: int| 0 <= i < decimal(n).len() ==> '0' <= #[trigger] decimal(n)[i] <= '9',
        decimal(n).len() > 1 ==> decimal(n)[0] != '0',
    decreases n,
{
    if n < 10 {
        assert(digit_char(n) as int == n + 48);
        assert(decimal(n).drop_last() =~= Seq::<char>::empty());
        assert(number_of(decimal(n).drop_last()) == 0);
        assert(decimal(n).last() == digit_char(n));
    } else {
        decimal_stands_for_number(n / 10);
        assert(decimal(n).drop_last() =~= decimal(n / 10));
        assert(digit_char(n % 10) as int == n % 10 + 48);
        assert(decimal(n).last() == digit_char(n % 10));
        assert(decimal(n)[0] == decimal(n / 10)[0]);
        if decimal(n / 10).len() == 1 {
            assert(n / 10 < 10) by {
                if n / 10 >= 10 {
                    decimal_stands_for_number(n / 100);
                    assert(n / 10 / 10 == n / 100);
                }
            }
            assert(decimal(n / 10)[0] as int == n / 10 + 48);
        }
    }
}

/// A text contains another exactly where it is the other with something ahead of it and
/// something behind it.
pub proof fn contained_texts_have_surroundings(s: Seq<char>, pattern: Seq<char>)
    ensures
        contains_text(s, pattern) <==> exists|a: Seq<char>, b: Seq<char>|
            s == #[trigger] (a + pattern + b),
{
    if contains_text(s, pattern) {
        let at = choose|at: int| occurs_at(s, pattern, at);
        let a = s.take(at);
        let b = s.skip(at + pattern.len());
        assert(a + pattern + b =~= s) by {
            assert forall|i: int| 0 <= i < s.len() implies s[i] == (a + pattern + b)[i] by {
                if at <= i < at + pattern.len() {
                    assert(s.subrange(at, at + pattern.len())[i - at] == pattern[i - at]);
                }
            }
        }
    }
    if exists|a: Seq<char>, b: Seq<char>| s == #[trigger] (a + pattern + b) {
        let (a, b) = choose|a: Seq<char>, b: Seq<char>| s == #[trigger] (a + pattern + b);
        assert(s.subrange(a.len() as int, (a.len() + pattern.len()) as int) =~= pattern);
        assert(occurs_at(s, pattern, a.len() as int));
    }
}

/// The first occurrence of a pattern is replaced, what stands ahead of it stays, and
/// replacing goes on behind it.
pub proof fn first_occurrence_is_replaced(
    a: Seq<char>,
    pattern: Seq<char>,
    b: Seq<char>,
    with: Seq<char>,
)
    requires
        pattern.len() > 0,
        forall|at: int| 0 <= at < a.len() ==> !occurs_at(a + pattern + b, pattern, at),
    ensures
        replaced(a + pattern + b, pattern, with) == a + with + replaced(b, pattern, with),
    decreases a.len(),
{
    let s = a + pattern + b;
    if a.len() == 0 {
        assert(s.subrange(0, pattern.len() as int) =~= pattern);
        assert(occurs_at(s, pattern, 0));
        assert(s.skip(pattern.len() as int) =~= b);
        assert(with + replaced(b, pattern, with) =~= a + with + replaced(b, pattern, with));
    } else {
        let rest = a.skip(1);
        assert(s.skip(1) =~= rest + pattern + b);
        assert forall|at: int| 0 <= at < rest.len() implies !occurs_at(
            rest + pattern + b,
            pattern,
            at,
        ) by {
            assert(!occurs_at(s, pattern, at + 1));
            if occurs_at(rest + pattern + b, pattern, at) {
                assert(s.subrange(at + 1, at + 1 + pattern.len()) =~= (rest + pattern
                    + b).subrange(at, at + pattern.len()));
            }
        }
        first_occurrence_is_replaced(rest, pattern, b, with);
        assert(!occurs_at(s, pattern, 0));
        assert(replaced(s, pattern, with) =~= a + with + replaced(b, pattern, with));
    }
}

/// A text that does not contain a pattern stays.
pub proof fn texts_without_pattern_stay(s: Seq<char>, pattern: Seq<char>, with: Seq<char>)
    requires
        pattern.len() > 0,
        !contains_text(s, pattern),
    ensures
        replaced(s, pattern, with) == s,
    decreases s.len(),
{
    if s.len() > 0 {
        assert(!occurs_at(s, pattern, 0));
        let rest = s.skip(1);
        assert(!contains_text(rest, pattern)) by {
            if contains_text(rest, pattern) {
                let at = choose|at: int| occurs_at(rest, pattern, at);
                assert(s.subrange(at + 1, at + 1 + pattern.len()) =~= rest.subrange(
                    at,
                    at + pattern.len(),
                ));
                assert(occurs_at(s, pattern, at + 1));
            }
        }
        texts_without_pattern_stay(rest, pattern, with);
        assert(seq![s[0]] + rest =~= s);
    } else {
        assert(replaced(s, pattern, with) =~= s);
    }
}

/// The characters of a text that are not white space.
pub open spec fn inked(s: Seq<char>) -> Seq<char> {
    s.filter(|c: char| !is_space(c))
}

/// Joined words have all characters of a text that are not white space, in their order,
/// and no white space but single spaces between two of them.
pub proof fn words_are_kept(s: Seq<char>)
    ensures
        inked(words_joined(s)) == inked(s),
        words_joined(s).len() > 0 ==> !is_space(words_joined(s)[0]) && !is_space(
            words_joined(s).last(),
        ),
        forall|i: int|
            0 <= i < words_joined(s).len() && is_space(#[trigger] words_joined(s)[i])
                ==> words_joined(s)[i] == ' ' && i > 0 && !is_space(words_joined(s)[i - 1]),
    decreases s.len(),
{
    reveal(Seq::filter);
    if s.len() > 0 {
        let before = words_joined(s.drop_last());
        let c = s.last();
        words_are_kept(s.drop_last());
        let all = words_joined(s);
        if is_space(c) {
            assert(all == before);
        } else if before.len() > 0 && is_space(s[s.len() - 2]) {
            let spaced = before.push(' ');
            assert(all == spaced.push(c));
            assert(all.drop_last() =~= spaced);
            assert(spaced.drop_last() =~= before);
            assert(inked(spaced) == inked(before));
            assert(inked(all) == inked(before).push(c));
        } else {
            assert(all == before.push(c));
            assert(all.drop_last() =~= before);
            assert(inked(all) == inked(before).push(c));
        }
        assert(inked(s) == if is_space(c) {
            inked(s.drop_last())
        } else {
            inked(s.drop_last()).push(c)
        });
    } else {
        assert(words_joined(s) =~= s);
    }
}

/// White space between words is kept as one space: a word goes on where none stands
/// ahead of its next character, and a new one starts where some does.
pub proof fn words_are_told_apart(s: Seq<char>, c: char)
    requires
        !is_space(c),
        s.len() > 0,
    ensures
        !is_space(s.last()) ==> words_joined(s.push(c)) == words_joined(s).push(c),
        is_space(s.last()) && words_joined(s).len() > 0 ==> words_joined(s.push(c))
            == words_joined(s).push(' ').push(c),
{
    assert(s.push(c).drop_last() =~= s);
    assert(s.push(c)[s.push(c).len() - 2] == s.last());
}

/// An aligned text has at least the width, starts with the text, and has spaces behind it
/// only as far as the width asks.
pub proof fn aligned_texts_have_width(s: Seq<char>, width: nat)
    ensures
        left_aligned(s, width).len() == if s.len() < width {
            width
        } else {
            s.len()
        },
        left_aligned(s, width).take(s.len() as int) == s,
        forall|i: int|
            s.len() <= i < left_aligned(s, width).len() ==> #[trigger] left_aligned(s, width)[i]
                == ' ',
{
    assert(left_aligned(s, width).take(s.len() as int) =~= s);
}

/// A text of ASCII characters in small letters has a small letter for each capital, at the
/// same place in the alphabet, and keeps its other characters. Capitals likewise.
pub proof fn letters_change_their_case(s: Seq<char>, i: int)
    requires
        0 <= i < s.len(),
        forall|j: int| 0 <= j < s.len() ==> (#[trigger] s[j]) as u32 <= 127,
    ensures
        lower_text(s).len() == s.len(),
        upper_text(s).len() == s.len(),
        'A' <= s[i] <= 'Z' ==> 'a' <= lower_text(s)[i] <= 'z' && lower_text(s)[i] as u32 - ('a' as u32)
            == s[i] as u32 - ('A' as u32),
        !('A' <= s[i] <= 'Z') ==> lower_text(s)[i] == s[i],
        'a' <= s[i] <= 'z' ==> 'A' <= upper_text(s)[i] <= 'Z' && upper_text(s)[i] as u32 - ('A' as u32)
            == s[i] as u32 - ('a' as u32),
        !('a' <= s[i] <= 'z') ==> upper_text(s)[i] == s[i],
{
    assert(all_ascii(s));
}

} // verus!
