//! What holds of the operations on texts.

use crate::text;
use vstd::prelude::*;

verus! {

/// A text is blank exactly if all of its characters are white space.
pub proof fn law_blank_is_all_white_space(s: Seq<char>)
    ensures
        text::blank(s) <==> forall|i: int| 0 <= i < s.len() ==> text::white_space(#[trigger] s[i]),
{
}

/// Trimming takes white space off both ends, all of it, and nothing else.
pub proof fn law_trimming_takes_white_space_off_the_ends(s: Seq<char>) -> (cut: (int, int))
    ensures
        0 <= cut.0 <= cut.1 <= s.len(),
        text::trimmed(s) == s.subrange(cut.0, cut.1),
        forall|i: int| 0 <= i < cut.0 ==> text::white_space(#[trigger] s[i]),
        forall|i: int| cut.1 <= i < s.len() ==> text::white_space(#[trigger] s[i]),
        text::trimmed(s).len() > 0 ==> !text::white_space(text::trimmed(s).first())
            && !text::white_space(text::trimmed(s).last()),
    decreases s.len(),
{
    if s.len() == 0 {
        assert(s.subrange(0, 0) =~= s);
        (0int, 0int)
    } else if text::white_space(s.first()) {
        let rest = s.drop_first();
        let (a, b) = law_trimming_takes_white_space_off_the_ends(rest);
        assert(rest.subrange(a, b) =~= s.subrange(a + 1, b + 1));
        assert forall|i: int| 0 <= i < a + 1 implies text::white_space(#[trigger] s[i]) by {
            if i > 0 {
                assert(s[i] == rest[i - 1]);
            }
        }
        assert forall|i: int| b + 1 <= i < s.len() implies text::white_space(#[trigger] s[i]) by {
            assert(s[i] == rest[i - 1]);
        }
        (a + 1, b + 1)
    } else if text::white_space(s.last()) {
        let rest = s.drop_last();
        let (a, b) = law_trimming_takes_white_space_off_the_ends(rest);
        assert(rest.subrange(a, b) =~= s.subrange(a, b));
        assert forall|i: int| 0 <= i < a implies text::white_space(#[trigger] s[i]) by {
            assert(s[i] == rest[i]);
        }
        assert forall|i: int| b <= i < s.len() implies text::white_space(#[trigger] s[i]) by {
            if i < rest.len() {
                assert(s[i] == rest[i]);
            }
        }
        (a, b)
    } else {
        assert(s.subrange(0, s.len() as int) =~= s);
        (0int, s.len() as int)
    }
}

/// What is found stands there, and nowhere before; what is not found stands nowhere.
pub proof fn law_find_gives_the_first_place(hay: Seq<char>, needle: Seq<char>)
    ensures
        match text::find(hay, needle) {
            Some(i) => {
                &&& 0 <= i <= hay.len() - needle.len()
                &&& hay.subrange(i, i + needle.len()) == needle
                &&& forall|j: int|
                    0 <= j < i ==> #[trigger] hay.subrange(j, j + needle.len()) != needle
            },
            None => forall|j: int|
                0 <= j <= hay.len() - needle.len() ==> #[trigger] hay.subrange(
                    j,
                    j + needle.len(),
                ) != needle,
        },
{
    text::lemma_find(hay, needle);
    match text::find(hay, needle) {
        Some(i) => {
            assert forall|j: int| 0 <= j < i implies #[trigger] hay.subrange(j, j + needle.len())
                != needle by {
                assert(!text::occurs_at(hay, needle, j));
            }
        },
        None => {
            assert forall|j: int| 0 <= j <= hay.len() - needle.len() implies #[trigger] hay.subrange(
                j,
                j + needle.len(),
            ) != needle by {
                assert(!text::occurs_at(hay, needle, j));
            }
        },
    }
}

/// The last place of a character has it, and no later one does.
pub proof fn law_rfind_gives_the_last_place(s: Seq<char>, c: char)
    ensures
        match text::rfind_char(s, c) {
            Some(i) => 0 <= i < s.len() && s[i] == c && forall|j: int|
                i < j < s.len() ==> #[trigger] s[j] != c,
            None => forall|j: int| 0 <= j < s.len() ==> #[trigger] s[j] != c,
        },
    decreases s.len(),
{
    if s.len() > 0 && s.last() != c {
        law_rfind_gives_the_last_place(s.drop_last(), c);
        assert forall|j: int| 0 <= j < s.len() - 1 implies #[trigger] s[j] == s.drop_last()[j] by {}
    }
}

/// Two characters are the same but for the case of an ASCII letter.
pub open spec fn same_letter(a: char, b: char) -> bool {
    ||| a == b
    ||| 'A' <= a <= 'Z' && b as int == a as int + 32
    ||| 'A' <= b <= 'Z' && a as int == b as int + 32
}

/// Two texts are the same but for the case of ASCII letters.
pub open spec fn same_but_for_case(a: Seq<char>, b: Seq<char>) -> bool {
    a.len() == b.len() && forall|i: int| 0 <= i < a.len() ==> same_letter(#[trigger] a[i], b[i])
}

/// Lower case makes two texts equal exactly if they are the same but for the case of ASCII
/// letters.
pub proof fn law_lower_case_forgets_the_case_of_ascii_letters(a: Seq<char>, b: Seq<char>)
    ensures
        text::ascii_lowered(a) == text::ascii_lowered(b) <==> same_but_for_case(a, b),
        text::ascii_lowered(a).len() == a.len(),
{
    let x = text::ascii_lowered(a);
    let y = text::ascii_lowered(b);
    assert forall|c: char, d: char|
        text::ascii_lower(c) == text::ascii_lower(d) <==> #[trigger] same_letter(c, d) by {
        assert('A' <= c <= 'Z' ==> text::ascii_lower(c) as int == c as int + 32);
        assert('A' <= d <= 'Z' ==> text::ascii_lower(d) as int == d as int + 32);
    }
    if x == y {
        assert(x.len() == y.len());
        assert forall|i: int| 0 <= i < a.len() implies same_letter(#[trigger] a[i], b[i]) by {
            assert(x[i] == y[i]);
            assert(x[i] == text::ascii_lower(a[i]) && y[i] == text::ascii_lower(b[i]));
        }
        assert(same_but_for_case(a, b));
    }
    if same_but_for_case(a, b) {
        assert forall|i: int| 0 <= i < x.len() implies x[i] == y[i] by {
            assert(same_letter(a[i], b[i]));
        }
        assert(x =~= y);
    }
}

/// What a digit counts for.
pub open spec fn digit_value(c: char) -> int {
    c as int - '0' as int
}

/// A number is written in the decimal system: no digit is nothing, and each digit more counts the
/// ones before it tenfold.
pub proof fn law_digits_write_a_decimal_number(s: Seq<char>, c: char)
    requires
        '0' <= c <= '9',
    ensures
        text::decimal(seq![]) == 0,
        text::decimal(s.push(c)) == 10 * text::decimal(s) + digit_value(c),
{
    assert(s.push(c).drop_last() =~= s);
}

/// A text without the one plus that may stand before a number.
pub open spec fn without_plus(s: Seq<char>) -> Seq<char> {
    if s.len() > 0 && s[0] == '+' {
        s.skip(1)
    } else {
        s
    }
}

/// One decimal digit or more, and nothing else.
pub open spec fn only_digits(s: Seq<char>) -> bool {
    s.len() > 0 && forall|i: int| 0 <= i < s.len() ==> '0' <= #[trigger] s[i] <= '9'
}

/// A text writes a number exactly if it is one digit or more, perhaps with one plus before them,
/// and the number is not above the limit.
pub proof fn law_what_writes_a_number(s: Seq<char>, max: nat)
    ensures
        text::unsigned_number(s, max) == (if only_digits(without_plus(s)) && text::decimal(
            without_plus(s),
        ) <= max {
            Some(text::decimal(without_plus(s)))
        } else {
            None
        }),
{
    let digits = without_plus(s);
    if s.len() > 0 {
        assert(s.skip(1) =~= s.drop_first());
    }
    assert(only_digits(digits) == text::all_digits(digits));
}

/// Joining puts the separator between neighbours and nowhere else.
pub proof fn law_joining_separates_neighbours(parts: Seq<Seq<char>>, last: Seq<char>, sep: Seq<char>)
    ensures
        text::joined(seq![], sep) == Seq::<char>::empty(),
        text::joined(parts.push(last), sep) == (if parts.len() == 0 {
            last
        } else {
            text::joined(parts, sep) + sep + last
        }),
{
    assert(parts.push(last).drop_last() =~= parts);
}

} // verus!
