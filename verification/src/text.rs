//! Strings as sequences of characters: comparison, search, trimming and number parsing.

use vstd::prelude::*;
use vstd::utf8::*;

verus! {

/// Whether `c` has the Unicode property `White_Space`.
pub open spec fn white_space(c: char) -> bool {
    ||| '\u{9}' <= c <= '\u{d}'
    ||| c == ' '
    ||| c == '\u{85}'
    ||| c == '\u{a0}'
    ||| c == '\u{1680}'
    ||| '\u{2000}' <= c <= '\u{200a}'
    ||| c == '\u{2028}'
    ||| c == '\u{2029}'
    ||| c == '\u{202f}'
    ||| c == '\u{205f}'
    ||| c == '\u{3000}'
}

/// Whether every character of `s` is white space. The empty text is blank.
pub open spec fn blank(s: Seq<char>) -> bool {
    forall|i: int| 0 <= i < s.len() ==> white_space(#[trigger] s[i])
}

/// `s` without its leading and trailing white space.
pub open spec fn trimmed(s: Seq<char>) -> Seq<char>
    decreases s.len(),
{
    if s.len() == 0 {
        s
    } else if white_space(s.first()) {
        trimmed(s.drop_first())
    } else if white_space(s.last()) {
        trimmed(s.drop_last())
    } else {
        s
    }
}

/// `needle` stands in `hay` at position `i`.
pub open spec fn occurs_at(hay: Seq<char>, needle: Seq<char>, i: int) -> bool {
    &&& 0 <= i
    &&& i + needle.len() <= hay.len()
    &&& hay.subrange(i, i + needle.len()) == needle
}

/// `needle` stands somewhere in `hay`.
pub open spec fn has_infix(hay: Seq<char>, needle: Seq<char>) -> bool {
    exists|i: int| occurs_at(hay, needle, i)
}

/// `i` is the first position at which `needle` stands in `hay`.
pub open spec fn first_at(hay: Seq<char>, needle: Seq<char>, i: int) -> bool {
    &&& occurs_at(hay, needle, i)
    &&& forall|j: int| j < i ==> !occurs_at(hay, needle, j)
}

/// The first position at which `needle` stands in `hay`, if it stands there at all.
pub open spec fn find(hay: Seq<char>, needle: Seq<char>) -> Option<int> {
    if has_infix(hay, needle) {
        Some(choose|i: int| first_at(hay, needle, i))
    } else {
        None
    }
}

/// The last position at which `c` stands in `s`, if it stands there at all.
pub open spec fn rfind_char(s: Seq<char>, c: char) -> Option<int>
    decreases s.len(),
{
    if s.len() == 0 {
        None
    } else if s.last() == c {
        Some(s.len() - 1)
    } else {
        rfind_char(s.drop_last(), c)
    }
}

/// `c` with an upper case ASCII letter made lower case.
pub open spec fn ascii_lower(c: char) -> char {
    if 'A' <= c <= 'Z' {
        ((c as u32 + 32) as u32) as char
    } else {
        c
    }
}

/// `s` with every upper case ASCII letter made lower case.
pub open spec fn ascii_lowered(s: Seq<char>) -> Seq<char> {
    s.map_values(|c: char| ascii_lower(c))
}

/// `s` is a nonempty run of decimal digits.
pub open spec fn all_digits(s: Seq<char>) -> bool {
    s.len() > 0 && forall|i: int| 0 <= i < s.len() ==> '0' <= #[trigger] s[i] <= '9'
}

/// The number that a run of decimal digits writes.
pub open spec fn decimal(s: Seq<char>) -> nat
    decreases s.len(),
{
    if s.len() == 0 {
        0
    } else {
        decimal(s.drop_last()) * 10 + (s.last() as nat - '0' as nat) as nat
    }
}

/// The number that `s` writes: an optional `+`, then decimal digits and nothing else. None where
/// `s` has another form or the number is above `max`.
pub open spec fn unsigned_number(s: Seq<char>, max: nat) -> Option<nat> {
    let digits = if s.len() > 0 && s[0] == '+' {
        s.drop_first()
    } else {
        s
    };
    if all_digits(digits) && decimal(digits) <= max {
        Some(decimal(digits))
    } else {
        None
    }
}

/// The parts one after the other, with `sep` between neighbours.
pub open spec fn joined(parts: Seq<Seq<char>>, sep: Seq<char>) -> Seq<char>
    decreases parts.len(),
{
    if parts.len() == 0 {
        seq![]
    } else if parts.len() == 1 {
        parts[0]
    } else {
        joined(parts.drop_last(), sep) + sep + parts.last()
    }
}

/// The parts one after the other.
pub open spec fn concatenated(parts: Seq<Seq<char>>) -> Seq<char>
    decreases parts.len(),
{
    if parts.len() == 0 {
        seq![]
    } else {
        parts[0] + concatenated(parts.drop_first())
    }
}

proof fn lemma_first_at_exists(hay: Seq<char>, needle: Seq<char>, i: int)
    requires
        occurs_at(hay, needle, i),
    ensures
        exists|j: int| first_at(hay, needle, j),
    decreases i,
{
    if forall|j: int| j < i ==> !occurs_at(hay, needle, j) {
        assert(first_at(hay, needle, i));
    } else {
        let j = choose|j: int| j < i && occurs_at(hay, needle, j);
        lemma_first_at_exists(hay, needle, j);
    }
}

/// `find` gives the first position, and only that one.
pub proof fn lemma_find(hay: Seq<char>, needle: Seq<char>)
    ensures
        find(hay, needle) is Some <==> has_infix(hay, needle),
        find(hay, needle) matches Some(i) ==> first_at(hay, needle, i),
        forall|i: int| #[trigger] first_at(hay, needle, i) ==> find(hay, needle) == Some(i),
{
    if has_infix(hay, needle) {
        let i = choose|i: int| occurs_at(hay, needle, i);
        lemma_first_at_exists(hay, needle, i);
        assert forall|j: int| #[trigger] first_at(hay, needle, j) implies find(hay, needle)
            == Some(j) by {
            let k = choose|k: int| first_at(hay, needle, k);
            assert(occurs_at(hay, needle, j) && occurs_at(hay, needle, k));
            assert(!(j < k) && !(k < j));
        }
    }
}

/// What `rfind_char` finds is the last position of the character.
pub proof fn lemma_rfind_char(s: Seq<char>, c: char)
    ensures
        match rfind_char(s, c) {
            Some(i) => 0 <= i < s.len() && s[i] == c && forall|j: int|
                i < j < s.len() ==> s[j] != c,
            None => forall|j: int| 0 <= j < s.len() ==> s[j] != c,
        },
    decreases s.len(),
{
    if s.len() > 0 && s.last() != c {
        lemma_rfind_char(s.drop_last(), c);
        assert forall|j: int| 0 <= j < s.len() - 1 implies s[j] == s.drop_last()[j] by {}
    }
}

/// Whether two texts are the same.
pub fn same_text(a: &str, b: &str) -> (same: bool)
    ensures
        same == (a@ == b@),
{
    let x = a.as_bytes();
    let y = b.as_bytes();
    proof {
        encode_utf8_decode_utf8(a@);
        encode_utf8_decode_utf8(b@);
    }
    if x.len() != y.len() {
        return false;
    }
    let mut i: usize = 0;
    while i < x.len()
        invariant
            x@ == encode_utf8(a@),
            y@ == encode_utf8(b@),
            x@.len() == y@.len(),
            i <= x@.len(),
            forall|j: int| 0 <= j < i ==> x@[j] == y@[j],
        decreases x.len() - i,
    {
        if x[i] != y[i] {
            return false;
        }
        i += 1;
    }
    assert(x@ =~= y@);
    true
}

/// The characters of a text.
pub fn chars_of(s: &str) -> (chars: Vec<char>)
    ensures
        chars@ == s@,
{
    let mut chars: Vec<char> = Vec::new();
    for c in it: s.chars()
        invariant
            it.seq() == s@,
            chars@ == s@.take(it.index() as int),
    {
        chars.push(c);
        assert(s@.take(it.index() + 1) =~= s@.take(it.index() as int).push(c));
    }
    assert(s@.take(s@.len() as int) =~= s@);
    chars
}

/// Whether a character has the Unicode property `White_Space`.
pub fn is_white_space(c: char) -> (white: bool)
    ensures
        white == white_space(c),
{
    ('\u{9}' <= c && c <= '\u{d}') || c == ' ' || c == '\u{85}' || c == '\u{a0}' || c == '\u{1680}'
        || ('\u{2000}' <= c && c <= '\u{200a}') || c == '\u{2028}' || c == '\u{2029}' || c
        == '\u{202f}' || c == '\u{205f}' || c == '\u{3000}'
}

/// Whether a text is empty or holds white space only.
pub fn is_blank(s: &str) -> (res: bool)
    ensures
        res == blank(s@),
{
    let chars = chars_of(s);
    let mut i: usize = 0;
    while i < chars.len()
        invariant
            chars@ == s@,
            i <= chars@.len(),
            forall|j: int| 0 <= j < i ==> white_space(#[trigger] s@[j]),
        decreases chars.len() - i,
    {
        if !is_white_space(chars[i]) {
            return false;
        }
        i += 1;
    }
    true
}

proof fn lemma_trimmed_front(s: Seq<char>, a: int)
    requires
        0 <= a <= s.len(),
        forall|i: int| 0 <= i < a ==> white_space(#[trigger] s[i]),
    ensures
        trimmed(s) == trimmed(s.subrange(a, s.len() as int)),
    decreases a,
{
    if a == 0 {
        assert(s.subrange(0, s.len() as int) =~= s);
    } else {
        let rest = s.drop_first();
        assert forall|i: int| 0 <= i < a - 1 implies white_space(#[trigger] rest[i]) by {
            assert(rest[i] == s[i + 1]);
        }
        lemma_trimmed_front(rest, a - 1);
        assert(rest.subrange(a - 1, rest.len() as int) =~= s.subrange(a, s.len() as int));
        assert(white_space(s[0]));
    }
}

proof fn lemma_trimmed_back(s: Seq<char>, b: int)
    requires
        0 < b <= s.len(),
        !white_space(s[0]),
        !white_space(s[b - 1]),
        forall|i: int| b <= i < s.len() ==> white_space(#[trigger] s[i]),
    ensures
        trimmed(s) == s.take(b),
    decreases s.len(),
{
    if b == s.len() {
        assert(s.take(b) =~= s);
    } else {
        assert(white_space(s[s.len() - 1]));
        lemma_trimmed_back(s.drop_last(), b);
        assert(s.drop_last().take(b) =~= s.take(b));
    }
}

/// Whether a text is `expected` once leading and trailing white space is taken off.
pub fn trims_to(s: &str, expected: &str) -> (res: bool)
    ensures
        res == (trimmed(s@) == expected@),
{
    let chars = chars_of(s);
    let mut a: usize = 0;
    while a < chars.len() && is_white_space(chars[a])
        invariant
            a <= chars@.len(),
            forall|i: int| 0 <= i < a ==> white_space(#[trigger] chars@[i]),
        decreases chars.len() - a,
    {
        a += 1;
    }
    proof {
        lemma_trimmed_front(chars@, a as int);
    }
    let ghost rest = chars@.subrange(a as int, chars@.len() as int);
    let mut b: usize = chars.len();
    if a < chars.len() {
        while is_white_space(chars[b - 1])
            invariant
                a < b <= chars@.len(),
                !white_space(chars@[a as int]),
                forall|i: int| b <= i < chars@.len() ==> white_space(#[trigger] chars@[i]),
            decreases b,
        {
            b -= 1;
        }
        proof {
            assert(rest[b - a - 1] == chars@[b - 1]);
            assert forall|i: int| b - a <= i < rest.len() implies white_space(
                #[trigger] rest[i],
            ) by {
                assert(rest[i] == chars@[i + a]);
            }
            lemma_trimmed_back(rest, b - a);
        }
    }
    assert(trimmed(s@) =~= chars@.subrange(a as int, b as int)) by {
        assert(rest.take(b - a) =~= chars@.subrange(a as int, b as int));
    }
    same_text(s.substring_char(a, b), expected)
}

/// Whether `needle` stands in `hay` at position `i`.
fn occurs(hay: &Vec<char>, needle: &Vec<char>, i: usize) -> (res: bool)
    requires
        i + needle@.len() <= hay@.len(),
    ensures
        res == occurs_at(hay@, needle@, i as int),
{
    let mut k: usize = 0;
    while k < needle.len()
        invariant
            i + needle.len() <= hay.len(),
            k <= needle.len(),
            forall|j: int| 0 <= j < k ==> hay@[i + j] == needle@[j],
        decreases needle.len() - k,
    {
        if hay[i + k] != needle[k] {
            assert(hay@.subrange(i as int, i + needle@.len())[k as int] != needle@[k as int]);
            return false;
        }
        k += 1;
    }
    assert(hay@.subrange(i as int, i + needle@.len()) =~= needle@);
    true
}

/// The first position at which `needle` stands in `hay`.
pub fn find_text(hay: &Vec<char>, needle: &Vec<char>) -> (res: Option<usize>)
    ensures
        match res {
            Some(i) => find(hay@, needle@) == Some(i as int) && i + needle.len() <= hay.len(),
            None => find(hay@, needle@) is None,
        },
{
    proof {
        lemma_find(hay@, needle@);
    }
    if needle.len() > hay.len() {
        return None;
    }
    let mut i: usize = 0;
    while i <= hay.len() - needle.len()
        invariant
            needle@.len() <= hay@.len(),
            i <= hay@.len() - needle@.len() + 1,
            forall|j: int| j < i ==> !occurs_at(hay@, needle@, j),
            forall|j: int| #[trigger]
                first_at(hay@, needle@, j) ==> find(hay@, needle@) == Some(j),
        decreases hay.len() - needle.len() + 1 - i,
    {
        if occurs(hay, needle, i) {
            assert(first_at(hay@, needle@, i as int));
            return Some(i);
        }
        if i == hay.len() - needle.len() {
            return None;
        }
        i += 1;
    }
    None
}

/// The last position at which `c` stands in `s`.
pub fn rfind_in(s: &Vec<char>, c: char) -> (res: Option<usize>)
    ensures
        match res {
            Some(i) => rfind_char(s@, c) == Some(i as int) && i < s@.len(),
            None => rfind_char(s@, c) is None,
        },
{
    let mut i: usize = s.len();
    assert(s@.take(s@.len() as int) =~= s@);
    while i > 0
        invariant
            i <= s@.len(),
            rfind_char(s@, c) == rfind_char(s@.take(i as int), c),
        decreases i,
    {
        assert(s@.take(i as int).drop_last() =~= s@.take(i - 1));
        if s[i - 1] == c {
            return Some(i - 1);
        }
        i -= 1;
    }
    None
}

/// A text with every upper case ASCII letter made lower case, as characters.
pub fn lower_chars(s: &str) -> (lower: Vec<char>)
    ensures
        lower@ == ascii_lowered(s@),
{
    let chars = chars_of(s);
    let mut lower: Vec<char> = Vec::new();
    let mut i: usize = 0;
    while i < chars.len()
        invariant
            chars@ == s@,
            i <= chars@.len(),
            lower@ == ascii_lowered(s@.take(i as int)),
        decreases chars.len() - i,
    {
        let c = chars[i];
        let l = if 'A' <= c && c <= 'Z' {
            (c as u8 + 32) as char
        } else {
            c
        };
        lower.push(l);
        i += 1;
        assert(lower@ =~= ascii_lowered(s@.take(i as int)));
    }
    assert(s@.take(i as int) =~= s@);
    lower
}

proof fn lemma_decimal_grows(s: Seq<char>, i: int)
    requires
        0 <= i <= s.len(),
        all_digits(s),
    ensures
        decimal(s.take(i)) <= decimal(s),
    decreases s.len(),
{
    if i == s.len() {
        assert(s.take(i) =~= s);
    } else if s.len() > 1 {
        let front = s.drop_last();
        assert forall|j: int| 0 <= j < front.len() implies '0' <= #[trigger] front[j] <= '9' by {
            assert(front[j] == s[j]);
        }
        lemma_decimal_grows(front, i);
        assert(front.take(i) =~= s.take(i));
    } else {
        assert(s.take(0).len() == 0);
    }
}

/// The unsigned 64-bit number that a text writes.
pub fn parse_u64(s: &str) -> (res: Option<u64>)
    ensures
        match res {
            Some(n) => unsigned_number(s@, u64::MAX as nat) == Some(n as nat),
            None => unsigned_number(s@, u64::MAX as nat) is None,
        },
{
    let chars = chars_of(s);
    let start: usize = if chars.len() > 0 && chars[0] == '+' {
        1
    } else {
        0
    };
    let ghost digits = chars@.subrange(start as int, chars@.len() as int);
    assert(start == 1 ==> s@.drop_first() =~= digits);
    assert(start == 0 ==> s@ =~= digits);
    if start == chars.len() {
        return None;
    }
    let mut n: u64 = 0;
    let mut i: usize = start;
    while i < chars.len()
        invariant
            start <= i <= chars@.len(),
            digits == chars@.subrange(start as int, chars@.len() as int),
            digits.len() > 0,
            unsigned_number(s@, u64::MAX as nat) == (if all_digits(digits) && decimal(digits)
                <= u64::MAX {
                Some(decimal(digits))
            } else {
                None
            }),
            forall|j: int| 0 <= j < i - start ==> '0' <= #[trigger] digits[j] <= '9',
            n == decimal(digits.take(i - start)),
        decreases chars.len() - i,
    {
        let c = chars[i];
        assert(digits[i - start] == c);
        if c < '0' || '9' < c {
            return None;
        }
        let d: u64 = c as u64 - 48;
        let ghost k = i - start;
        assert(digits.take(k + 1).drop_last() =~= digits.take(k));
        assert(decimal(digits.take(k + 1)) == n * 10 + d);
        proof {
            if all_digits(digits) {
                lemma_decimal_grows(digits, k + 1);
            }
        }
        if n > u64::MAX / 10 {
            return None;
        }
        let m: u64 = n * 10;
        if m > u64::MAX - d {
            return None;
        }
        n = m + d;
        i += 1;
    }
    assert(digits.take(i - start) =~= digits);
    Some(n)
}

/// The unsigned 32-bit number that a text writes.
pub fn parse_u32(s: &str) -> (res: Option<u32>)
    ensures
        match res {
            Some(n) => unsigned_number(s@, u32::MAX as nat) == Some(n as nat),
            None => unsigned_number(s@, u32::MAX as nat) is None,
        },
{
    match parse_u64(s) {
        Some(n) => if n <= u32::MAX as u64 {
            Some(n as u32)
        } else {
            None
        },
        None => None,
    }
}

/// Three texts one after the other.
pub fn concat3(a: &str, b: &str, c: &str) -> (res: String)
    ensures
        res@ == a@ + b@ + c@,
{
    let mut res = a.to_string();
    res.append(b);
    res.append(c);
    res
}

} // verus!
