//! What holds of texts, whatever they are.

use vstd::prelude::*;

use crate::text;

verus! {

// ---------------------------------------------------------------------------------------------
// Order

/// Texts are ordered by the first character in which they differ, and a text comes before every
/// longer one that starts with it.
pub proof fn the_first_difference_decides(
    front: Seq<char>,
    a: char,
    b: char,
    x: Seq<char>,
    y: Seq<char>,
)
    ensures
        a < b ==> text::precedes(front + seq![a] + x, front + seq![b] + y),
        text::precedes(front, front + seq![b] + y),
        !text::precedes(front + seq![b] + y, front),
    decreases front.len(),
{
    let (p, q) = (front + seq![a] + x, front + seq![b] + y);
    if front.len() > 0 {
        the_first_difference_decides(front.drop_first(), a, b, x, y);
        assert(p.drop_first() =~= front.drop_first() + seq![a] + x);
        assert(q.drop_first() =~= front.drop_first() + seq![b] + y);
        assert(p[0] == front[0] && q[0] == front[0]);
    } else {
        assert(p[0] == a && q[0] == b);
    }
}

// ---------------------------------------------------------------------------------------------
// Parts of a text

/// A text begins with another exactly where it is that text and something behind it, and ends with
/// another exactly where it is something and that text behind it.
pub proof fn fronts_and_ends(s: Seq<char>, front: Seq<char>, back: Seq<char>)
    ensures
        text::begins_with(front + back, front),
        text::finishes_with(front + back, back),
        text::begins_with(s, front) ==> s == front + s.skip(front.len() as int),
        text::finishes_with(s, back) ==> back.len() <= s.len() && s == s.take(
            s.len() - back.len(),
        ) + back,
        text::without_suffix(front + back, back) == Some(front),
        text::without_suffix(s, back) matches Some(rest) ==> s == rest + back,
{
    assert((front + back).take(front.len() as int) =~= front);
    assert((front + back).skip(front.len() as int) =~= back);
    if text::begins_with(s, front) {
        assert(s =~= s.take(front.len() as int) + s.skip(front.len() as int));
    }
    if text::finishes_with(s, back) {
        assert(s =~= s.take(s.len() - back.len()) + s.skip(s.len() - back.len()));
    }
}

/// A text stands in another exactly where that is made of something, the text and something more.
pub proof fn occurrences(front: Seq<char>, pattern: Seq<char>, back: Seq<char>)
    ensures
        text::occurs_at(front + pattern + back, pattern, front.len() as int),
        text::occurs_in(front + pattern + back, pattern),
{
    let s = front + pattern + back;
    assert(s.subrange(front.len() as int, (front.len() + pattern.len()) as int) =~= pattern);
    assert(text::occurs_at(s, pattern, front.len() as int));
}

/// A text that stands in another leaves something before and something behind it.
pub proof fn occurrences_split(s: Seq<char>, pattern: Seq<char>, i: int)
    requires
        text::occurs_at(s, pattern, i),
    ensures
        0 <= i <= i + pattern.len() <= s.len(),
        s == s.take(i) + pattern + s.skip(i + pattern.len() as int),
{
    assert(s =~= s.take(i) + s.subrange(i, i + pattern.len() as int) + s.skip(
        i + pattern.len() as int,
    ));
}

/// A text is parted at the first separator: what stands before it does not reach up to an earlier one.
pub proof fn parting_is_at_the_first(front: Seq<char>, separator: Seq<char>, back: Seq<char>)
    requires
        forall|i: int| 0 <= i < front.len() ==> !#[trigger] text::occurs_at(
            front + separator + back,
            separator,
            i,
        ),
    ensures
        text::parted(front + separator + back, separator) == Some((front, back)),
{
    let s = front + separator + back;
    let n = front.len() as int;
    occurrences(front, separator, back);
    assert(text::first_at(s, separator, n)) by {
        assert forall|j: int| #[trigger] text::occurs_at(s, separator, j) implies n <= j by {}
    }
    let i = choose|i: int| text::first_at(s, separator, i);
    assert(i == n);
    assert(s.take(n) =~= front);
    assert(s.skip(n + separator.len() as int) =~= back);
}

/// Where there is no separator, nothing is parted; where there is one, something is.
pub proof fn parting_needs_a_separator(s: Seq<char>, separator: Seq<char>)
    ensures
        text::parted(s, separator) is Some <==> exists|i: int| #[trigger]
            text::occurs_at(s, separator, i),
{
}

/// What follows the last of a character is what stands behind it, and all of the text where there is
/// none.
pub proof fn the_last_segment(front: Seq<char>, c: char, back: Seq<char>)
    requires
        !back.contains(c),
    ensures
        text::after_last(front + seq![c] + back, c) == back,
        text::after_last(back, c) == back,
    decreases back.len(),
{
    let s = front + seq![c] + back;
    if back.len() == 0 {
        assert(s.last() == c);
    } else {
        assert(s.last() == back.last());
        assert(back[back.len() - 1] != c);
        let d = back.drop_last();
        assert(!d.contains(c)) by {
            if d.contains(c) {
                let i = choose|i: int| 0 <= i < d.len() && d[i] == c;
                assert(back[i] == c);
            }
        }
        assert(s.drop_last() =~= front + seq![c] + d);
        the_last_segment(front, c, d);
        assert(d.push(back.last()) =~= back);
    }
}

// ---------------------------------------------------------------------------------------------
// Replacing and joining

/// Replacing takes the first occurrence, puts the other text in its place and goes on behind it.
pub proof fn replacing_goes_from_left_to_right(
    front: Seq<char>,
    pattern: Seq<char>,
    back: Seq<char>,
    other: Seq<char>,
)
    requires
        pattern.len() > 0,
        forall|i: int| 0 <= i < front.len() ==> !#[trigger] text::occurs_at(
            front + pattern + back,
            pattern,
            i,
        ),
    ensures
        text::replaced(front + pattern + back, pattern, other) == front + other + text::replaced(
            back,
            pattern,
            other,
        ),
    decreases front.len(),
{
    let s = front + pattern + back;
    let p = pattern.len() as int;
    if front.len() == 0 {
        assert(s =~= pattern + back);
        assert(s.take(p) =~= pattern);
        assert(s.skip(p) =~= back);
        assert(front + other =~= other);
    } else {
        let d = front.drop_first();
        assert(s.drop_first() =~= d + pattern + back);
        assert(!text::occurs_at(s, pattern, 0));
        assert(s.take(p) =~= s.subrange(0, p));
        assert forall|i: int| 0 <= i < d.len() implies !#[trigger] text::occurs_at(
            d + pattern + back,
            pattern,
            i,
        ) by {
            assert(!text::occurs_at(s, pattern, i + 1));
            assert((d + pattern + back).subrange(i, i + p) =~= s.subrange(i + 1, i + 1 + p));
        }
        replacing_goes_from_left_to_right(d, pattern, back, other);
        assert(seq![s[0]] + (d + other + text::replaced(back, pattern, other)) =~= front + other
            + text::replaced(back, pattern, other));
    }
}

/// Joining puts the separator between the texts, and nowhere else.
pub proof fn joining_separates(a: Seq<Seq<char>>, b: Seq<Seq<char>>, separator: Seq<char>)
    ensures
        a.len() == 1 ==> text::joined(a, separator) == a[0],
        a.len() == 0 ==> text::joined(a, separator).len() == 0,
        a.len() > 0 && b.len() > 0 ==> text::joined(a + b, separator) == text::joined(a, separator)
            + separator + text::joined(b, separator),
    decreases b.len(),
{
    if a.len() > 0 && b.len() > 0 {
        assert((a + b).drop_last() =~= a + b.drop_last());
        assert((a + b).last() == b.last());
        if b.len() == 1 {
            assert(a + b.drop_last() =~= a);
        } else {
            joining_separates(a, b.drop_last(), separator);
            assert(text::joined(a + b, separator) =~= text::joined(a, separator) + separator
                + text::joined(b, separator));
        }
    }
}

// ---------------------------------------------------------------------------------------------
// White space and letters

/// White space is what Unicode calls so: the controls from tab to carriage return, the spaces of all
/// widths, and the separators of lines and paragraphs.
pub proof fn white_space_is_what_unicode_calls_so(c: char)
    ensures
        text::white_space(c) <==> {
            let code = c as u32;
            ||| 9 <= code <= 13
            ||| code == 32 || code == 133 || code == 160 || code == 5760
            ||| 8192 <= code <= 8202
            ||| code == 8232 || code == 8233 || code == 8239 || code == 8287 || code == 12288
        },
{
}

/// Trimming takes white space off both ends, all of it and nothing else.
pub proof fn trimming_takes_white_space_off(s: Seq<char>)
    ensures
        text::trimmed(s).len() > 0 ==> !text::white_space(text::trimmed(s)[0])
            && !text::white_space(text::trimmed(s).last()),
        exists|i: int, j: int|
            0 <= i <= j <= s.len() && text::trimmed(s) == #[trigger] s.subrange(i, j) && (forall|
                k: int,
            |
                0 <= k < s.len() && !(i <= k < j) ==> text::white_space(#[trigger] s[k])),
{
    let f = text::front_trimmed(s);
    front_trims(s);
    back_trims(f);
    let i = s.len() - f.len();
    let t = text::trimmed(s);
    let j = i + t.len();
    assert(f =~= s.skip(i));
    assert(t =~= f.take(t.len() as int));
    assert(t =~= s.subrange(i, j));
    assert forall|k: int| 0 <= k < s.len() && !(i <= k < j) implies text::white_space(
        #[trigger] s[k],
    ) by {
        if k >= j {
            assert(f[k - i] == s[k]);
        }
    }
    if t.len() > 0 {
        assert(t[0] == f[0]);
    }
}

proof fn front_trims(s: Seq<char>)
    ensures
        ({
            let f = text::front_trimmed(s);
            &&& f.len() <= s.len()
            &&& f == s.skip(s.len() - f.len())
            &&& f.len() > 0 ==> !text::white_space(f[0])
            &&& forall|k: int| 0 <= k < s.len() - f.len() ==> text::white_space(#[trigger] s[k])
        }),
    decreases s.len(),
{
    let f = text::front_trimmed(s);
    if s.len() > 0 && text::white_space(s[0]) {
        let d = s.drop_first();
        front_trims(d);
        assert(s.skip(s.len() - f.len()) =~= d.skip(d.len() - f.len()));
        assert forall|k: int| 0 <= k < s.len() - f.len() implies text::white_space(
            #[trigger] s[k],
        ) by {
            if k > 0 {
                assert(d[k - 1] == s[k]);
            }
        }
    } else {
        assert(s.skip(0) =~= s);
    }
}

proof fn back_trims(s: Seq<char>)
    ensures
        ({
            let t = text::back_trimmed(s);
            &&& t.len() <= s.len()
            &&& t == s.take(t.len() as int)
            &&& t.len() > 0 ==> !text::white_space(t.last())
            &&& forall|k: int| t.len() <= k < s.len() ==> text::white_space(#[trigger] s[k])
        }),
    decreases s.len(),
{
    let t = text::back_trimmed(s);
    if s.len() > 0 && text::white_space(s.last()) {
        let d = s.drop_last();
        back_trims(d);
        assert(s.take(t.len() as int) =~= d.take(t.len() as int));
        assert forall|k: int| t.len() <= k < s.len() implies text::white_space(#[trigger] s[k]) by {
            if k < d.len() {
                assert(d[k] == s[k]);
            }
        }
    } else {
        assert(s.take(s.len() as int) =~= s);
    }
}

/// Lowering a letter changes the twenty-six capitals and nothing else, each to the letter thirty-two
/// places further on.
pub proof fn only_capitals_are_lowered(s: Seq<char>, i: int)
    requires
        0 <= i < s.len(),
    ensures
        text::ascii_lowered(s).len() == s.len(),
        ({
            let c = s[i];
            let r = text::ascii_lowered(s)[i];
            if 'A' <= c && c <= 'Z' {
                r as u32 == c as u32 + 32
            } else {
                r == c
            }
        }),
{
}

// ---------------------------------------------------------------------------------------------
// Numbers

/// The number that digits stand for.
pub open spec fn value_of(digits: Seq<char>, base: nat) -> int
    decreases digits.len(),
{
    if digits.len() == 0 {
        0
    } else {
        value_of(digits.drop_last(), base) * base + (digits.last() as u32 - '0' as u32)
    }
}

/// Decimal digits stand for the number that they were written for, without a leading zero.
pub proof fn decimals_read_back(n: nat)
    ensures
        value_of(text::decimal(n), 10) == n,
        text::decimal(n).len() > 0,
        text::decimal(n)[0] == '0' ==> n == 0,
        forall|i: int|
            0 <= i < text::decimal(n).len() ==> '0' <= #[trigger] text::decimal(n)[i] && text::decimal(
                n,
            )[i] <= '9',
    decreases n,
{
    let d = text::decimal(n);
    if n >= 10 {
        decimals_read_back(n / 10);
        assert(d.drop_last() =~= text::decimal(n / 10));
        assert(d[0] == text::decimal(n / 10)[0]);
    } else {
        assert(d.drop_last() =~= Seq::empty());
        reveal_with_fuel(value_of, 2);
    }
}

/// Octal digits stand for the number that they were written for, without a leading zero.
pub proof fn octals_read_back(n: nat)
    ensures
        value_of(text::octal(n), 8) == n,
        text::octal(n).len() > 0,
        text::octal(n)[0] == '0' ==> n == 0,
        forall|i: int|
            0 <= i < text::octal(n).len() ==> '0' <= #[trigger] text::octal(n)[i] && text::octal(
                n,
            )[i] <= '7',
    decreases n,
{
    let d = text::octal(n);
    if n >= 8 {
        octals_read_back(n / 8);
        assert(d.drop_last() =~= text::octal(n / 8));
        assert(d[0] == text::octal(n / 8)[0]);
    } else {
        assert(d.drop_last() =~= Seq::empty());
        reveal_with_fuel(value_of, 2);
    }
}

/// A number that is negative is written with a sign and its magnitude, any other one without a sign.
pub proof fn signs_are_written(n: int)
    ensures
        n >= 0 ==> value_of(text::signed_decimal(n), 10) == n && text::signed_decimal(n)[0] != '-',
        n < 0 ==> text::signed_decimal(n)[0] == '-' && value_of(
            text::signed_decimal(n).drop_first(),
            10,
        ) == -n,
{
    if n >= 0 {
        decimals_read_back(n as nat);
    } else {
        reveal_strlit("-");
        decimals_read_back((-n) as nat);
        assert(text::signed_decimal(n).drop_first() =~= text::decimal((-n) as nat));
    }
}

/// The digit that a hexadecimal character stands for.
pub open spec fn hex_value(c: char) -> int {
    if c <= '9' {
        c as u32 - '0' as u32
    } else {
        c as u32 - 'a' as u32 + 10
    }
}

/// Every byte is written as two hexadecimal digits, the one that counts more in front.
pub proof fn bytes_are_two_digits(bytes: Seq<u8>, i: int)
    requires
        0 <= i < bytes.len(),
    ensures
        text::hex(bytes).len() == 2 * bytes.len(),
        hex_value(text::hex(bytes)[2 * i]) * 16 + hex_value(text::hex(bytes)[2 * i + 1])
            == bytes[i],
{
    assert((2 * i) / 2 == i && (2 * i + 1) / 2 == i);
    assert((2 * i) % 2 == 0 && (2 * i + 1) % 2 == 1);
}

} // verus!
