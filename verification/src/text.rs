//! Text as sequences of Unicode scalar values.
//!
//! Every function here is stated over `Seq<char>`, the view of `str` and `String`.

use vstd::prelude::*;

verus! {

/// How one text stands to another in the order of [`precedes`].
#[derive(Debug, Clone, Copy, PartialEq, Eq, Structural)]
pub enum Order {
    Less,
    Equal,
    Greater,
}

/// Whether `a` comes strictly before `b`: character by character, a proper prefix first.
///
/// UTF-8 keeps code-point order, so this is also the order of the encoded bytes.
pub open spec fn precedes(a: Seq<char>, b: Seq<char>) -> bool
    decreases a.len(),
{
    if b.len() == 0 {
        false
    } else if a.len() == 0 {
        true
    } else if a[0] != b[0] {
        a[0] < b[0]
    } else {
        precedes(a.drop_first(), b.drop_first())
    }
}

/// Whether `a` comes before `b` or is the same text.
pub open spec fn at_most(a: Seq<char>, b: Seq<char>) -> bool {
    !precedes(b, a)
}

/// No text comes before itself.
pub proof fn precedes_irreflexive(a: Seq<char>)
    ensures
        !precedes(a, a),
    decreases a.len(),
{
    if a.len() > 0 {
        precedes_irreflexive(a.drop_first());
    }
}

/// Of two different texts exactly one comes before the other.
pub proof fn precedes_total(a: Seq<char>, b: Seq<char>)
    ensures
        a != b ==> precedes(a, b) != precedes(b, a),
        a == b ==> !precedes(a, b),
    decreases a.len(),
{
    if a == b {
        precedes_irreflexive(a);
    } else if a.len() == 0 || b.len() == 0 {
        if a.len() == b.len() {
            assert(a =~= b);
        }
    } else if a[0] == b[0] {
        if a.drop_first() == b.drop_first() {
            assert(a =~= seq![a[0]] + a.drop_first());
            assert(b =~= seq![b[0]] + b.drop_first());
        }
        precedes_total(a.drop_first(), b.drop_first());
    }
}

/// The order is transitive.
pub proof fn precedes_transitive(a: Seq<char>, b: Seq<char>, c: Seq<char>)
    requires
        precedes(a, b),
        precedes(b, c),
    ensures
        precedes(a, c),
    decreases a.len(),
{
    if a.len() > 0 && a[0] == b[0] && b[0] == c[0] {
        precedes_transitive(a.drop_first(), b.drop_first(), c.drop_first());
    }
}

/// `at_most` is transitive too.
pub proof fn at_most_transitive(a: Seq<char>, b: Seq<char>, c: Seq<char>)
    requires
        at_most(a, b),
        at_most(b, c),
    ensures
        at_most(a, c),
{
    precedes_total(a, b);
    precedes_total(b, c);
    precedes_total(a, c);
    if a != b && b != c {
        precedes_transitive(a, b, c);
    }
}

/// The characters of a text, one after the other.
pub fn characters(s: &str) -> (chars: Vec<char>)
    ensures
        chars@ == s@,
{
    let mut out: Vec<char> = Vec::new();
    for c in it: s.chars()
        invariant
            it.seq() == s@,
            out@ == s@.take(it.index()),
    {
        assert(s@.take(it.index() + 1) =~= s@.take(it.index()).push(c));
        out.push(c);
    }
    assert(s@.take(s@.len() as int) =~= s@);
    out
}

/// `String::push`: appends one character to the end of the text.
pub assume_specification[ String::push ](s: &mut String, c: char)
    ensures
        final(s)@ == old(s)@.push(c),
;

/// The text made of the characters from `from` up to `to`.
pub fn slice(chars: &Vec<char>, from: usize, to: usize) -> (s: String)
    requires
        from <= to <= chars@.len(),
    ensures
        s@ == chars@.subrange(from as int, to as int),
{
    let mut out = String::new();
    let mut i: usize = from;
    while i < to
        invariant
            from <= i <= to <= chars@.len(),
            out@ == chars@.subrange(from as int, i as int),
        decreases to - i,
    {
        assert(chars@.subrange(from as int, i + 1) =~= chars@.subrange(from as int, i as int).push(
            chars@[i as int],
        ));
        out.push(chars[i]);
        i += 1;
    }
    out
}

/// Whether two texts are the same.
pub fn same(a: &str, b: &str) -> (r: bool)
    ensures
        r == (a@ == b@),
{
    a.to_owned() == b.to_owned()
}

/// Where `a` stands relative to `b`.
pub fn compare(a: &str, b: &str) -> (r: Order)
    ensures
        r == Order::Less <==> precedes(a@, b@),
        r == Order::Greater <==> precedes(b@, a@),
        r == Order::Equal <==> a@ == b@,
{
    let x = characters(a);
    let y = characters(b);
    let mut i: usize = 0;
    proof {
        precedes_total(a@, b@);
        assert(a@.skip(0) =~= a@);
        assert(b@.skip(0) =~= b@);
    }
    while i < x.len() && i < y.len()
        invariant
            x@ == a@,
            y@ == b@,
            i <= x@.len(),
            i <= y@.len(),
            a@.take(i as int) == b@.take(i as int),
            precedes(a@, b@) == precedes(a@.skip(i as int), b@.skip(i as int)),
            precedes(b@, a@) == precedes(b@.skip(i as int), a@.skip(i as int)),
            a@ != b@ ==> precedes(a@, b@) != precedes(b@, a@),
        decreases x.len() - i,
    {
        let ghost (s, t) = (a@.skip(i as int), b@.skip(i as int));
        if x[i] != y[i] {
            assert(s[0] == x@[i as int] && t[0] == y@[i as int]);
            if x[i] < y[i] {
                return Order::Less;
            }
            return Order::Greater;
        }
        proof {
            assert(s.drop_first() =~= a@.skip(i + 1));
            assert(t.drop_first() =~= b@.skip(i + 1));
            assert(a@.take(i + 1) =~= a@.take(i as int).push(a@[i as int]));
            assert(b@.take(i + 1) =~= b@.take(i as int).push(b@[i as int]));
        }
        i += 1;
    }
    if i < y.len() {
        Order::Less
    } else if i < x.len() {
        Order::Greater
    } else {
        proof {
            assert(a@.take(i as int) =~= a@);
            assert(b@.take(i as int) =~= b@);
            precedes_irreflexive(a@);
        }
        Order::Equal
    }
}

/// The lower-case hexadecimal digit for a number below sixteen.
pub open spec fn hex_digit(n: u8) -> char {
    if n < 10 {
        (('0' as u8) + n) as char
    } else {
        (('a' as u8) + (n - 10)) as char
    }
}

/// Two lower-case hexadecimal digits per byte, the high one first.
pub open spec fn hex(bytes: Seq<u8>) -> Seq<char> {
    Seq::new(
        2 * bytes.len(),
        |i: int| hex_digit(if i % 2 == 0 { bytes[i / 2] / 16 } else { bytes[i / 2] % 16 }),
    )
}

/// Whether `c` is a decimal digit or one of the letters `a` to `f`.
pub open spec fn is_hex_digit(c: char) -> bool {
    '0' <= c <= '9' || 'a' <= c <= 'f'
}

/// Hexadecimal text holds nothing but lower-case digits.
pub proof fn hex_is_lower_case(bytes: Seq<u8>)
    ensures
        forall|i: int| 0 <= i < hex(bytes).len() ==> is_hex_digit(#[trigger] hex(bytes)[i]),
{
}

proof fn hex_digit_injective(m: u8, n: u8)
    requires
        m < 16,
        n < 16,
        hex_digit(m) == hex_digit(n),
    ensures
        m == n,
{
}

/// No two byte strings have the same hexadecimal form.
pub proof fn hex_injective(a: Seq<u8>, b: Seq<u8>)
    requires
        hex(a) == hex(b),
    ensures
        a == b,
{
    assert(hex(a).len() == 2 * a.len());
    assert(hex(b).len() == 2 * b.len());
    assert forall|i: int| 0 <= i < a.len() implies a[i] == b[i] by {
        assert(hex(a)[2 * i] == hex(b)[2 * i]);
        assert(hex(a)[2 * i + 1] == hex(b)[2 * i + 1]);
        assert((2 * i) / 2 == i && (2 * i + 1) / 2 == i);
        assert((2 * i) % 2 == 0 && (2 * i + 1) % 2 == 1);
        assert(hex(a)[2 * i] == hex_digit(a[i] / 16) && hex(b)[2 * i] == hex_digit(b[i] / 16));
        assert(hex(a)[2 * i + 1] == hex_digit(a[i] % 16));
        assert(hex(b)[2 * i + 1] == hex_digit(b[i] % 16));
        hex_digit_injective(a[i] / 16, b[i] / 16);
        hex_digit_injective(a[i] % 16, b[i] % 16);
    }
    assert(a =~= b);
}

fn hex_character(n: u8) -> (c: char)
    requires
        n < 16,
    ensures
        c == hex_digit(n),
{
    if n < 10 {
        (48 + n) as char
    } else {
        (97 + (n - 10)) as char
    }
}

/// The hexadecimal form of `bytes`, appended to `out`.
pub fn append_hex(out: &mut String, bytes: &Vec<u8>)
    ensures
        final(out)@ == old(out)@ + hex(bytes@),
{
    let ghost start = out@;
    let mut i: usize = 0;
    assert(out@ =~= start + hex(bytes@).take(0));
    while i < bytes.len()
        invariant
            i <= bytes@.len(),
            out@ == start + hex(bytes@).take(2 * i),
        decreases bytes.len() - i,
    {
        let byte = bytes[i];
        out.push(hex_character(byte / 16));
        out.push(hex_character(byte % 16));
        proof {
            let all = hex(bytes@);
            assert((2 * i) / 2 == i && (2 * i + 1) / 2 == i);
            assert(all[2 * i] == hex_digit(byte / 16));
            assert(all[2 * i + 1] == hex_digit(byte % 16));
            assert(out@ =~= start + all.take(2 * (i + 1)));
        }
        i += 1;
    }
    assert(hex(bytes@).take(2 * i) =~= hex(bytes@));
}

/// Whether a text begins with `prefix`.
pub open spec fn begins_with(s: Seq<char>, prefix: Seq<char>) -> bool {
    prefix.len() <= s.len() && s.take(prefix.len() as int) == prefix
}

/// Whether `s` begins with `prefix`.
pub fn starts_with(s: &str, prefix: &str) -> (r: bool)
    ensures
        r == begins_with(s@, prefix@),
{
    let x = characters(s);
    let y = characters(prefix);
    if y.len() > x.len() {
        return false;
    }
    let mut i: usize = 0;
    while i < y.len()
        invariant
            x@ == s@,
            y@ == prefix@,
            i <= y@.len() <= x@.len(),
            forall|k: int| 0 <= k < i ==> x@[k] == y@[k],
        decreases y.len() - i,
    {
        if x[i] != y[i] {
            assert(s@.take(prefix@.len() as int)[i as int] != prefix@[i as int]);
            return false;
        }
        i += 1;
    }
    assert(s@.take(prefix@.len() as int) =~= prefix@);
    true
}

// ---------------------------------------------------------------------------------------------
// Searching and replacing

/// Whether `pattern` stands in `s` at position `i`.
pub open spec fn occurs_at(s: Seq<char>, pattern: Seq<char>, i: int) -> bool {
    0 <= i && i + pattern.len() <= s.len() && s.subrange(i, i + pattern.len() as int) == pattern
}

/// Whether `pattern` stands anywhere in `s`.
pub open spec fn occurs_in(s: Seq<char>, pattern: Seq<char>) -> bool {
    exists|i: int| #[trigger] occurs_at(s, pattern, i)
}

/// Whether `i` is the first position at which `pattern` stands in `s`.
pub open spec fn first_at(s: Seq<char>, pattern: Seq<char>, i: int) -> bool {
    occurs_at(s, pattern, i) && forall|j: int| #[trigger] occurs_at(s, pattern, j) ==> i <= j
}

/// What stands before and after the first `separator` in `s`, if there is one.
pub open spec fn parted(s: Seq<char>, separator: Seq<char>) -> Option<(Seq<char>, Seq<char>)> {
    if occurs_in(s, separator) {
        let i = choose|i: int| first_at(s, separator, i);
        Some((s.take(i), s.skip(i + separator.len() as int)))
    } else {
        None
    }
}

/// `s` with every occurrence of `pattern` replaced, from left to right and without overlaps.
pub open spec fn replaced(s: Seq<char>, pattern: Seq<char>, by: Seq<char>) -> Seq<char>
    decreases s.len(),
{
    if pattern.len() == 0 || s.len() < pattern.len() {
        s
    } else if s.take(pattern.len() as int) == pattern {
        by + replaced(s.skip(pattern.len() as int), pattern, by)
    } else {
        seq![s[0]] + replaced(s.drop_first(), pattern, by)
    }
}

/// Where the pattern does not occur, nothing is replaced.
pub proof fn nothing_replaced(s: Seq<char>, pattern: Seq<char>, by: Seq<char>)
    requires
        !occurs_in(s, pattern),
    ensures
        replaced(s, pattern, by) == s,
    decreases s.len(),
{
    if pattern.len() > 0 && s.len() >= pattern.len() {
        assert(s.take(pattern.len() as int) =~= s.subrange(0, pattern.len() as int));
        assert(!occurs_at(s, pattern, 0));
        occurs_further_on(s, pattern, 1);
        assert(s.skip(1) =~= s.drop_first());
        nothing_replaced(s.drop_first(), pattern, by);
        assert(seq![s[0]] + s.drop_first() =~= s);
    }
}

/// What does not occur in a text does not occur in its tail.
proof fn occurs_further_on(s: Seq<char>, pattern: Seq<char>, n: int)
    requires
        0 <= n <= s.len(),
        !occurs_in(s, pattern),
    ensures
        !occurs_in(s.skip(n), pattern),
{
    if occurs_in(s.skip(n), pattern) {
        let i = choose|i: int| #[trigger] occurs_at(s.skip(n), pattern, i);
        assert(s.skip(n).subrange(i, i + pattern.len() as int) =~= s.subrange(
            n + i,
            n + i + pattern.len() as int,
        ));
        assert(occurs_at(s, pattern, n + i));
    }
}

/// Up to the first mark, what was replaced by marks is as it was.
proof fn unmarked_is_untouched(s: Seq<char>, pattern: Seq<char>, mark: Seq<char>, n: int)
    requires
        mark.len() > 0,
        0 <= n <= replaced(s, pattern, mark).len(),
        forall|i: int| 0 <= i < n ==> #[trigger] replaced(s, pattern, mark)[i] != mark[0],
    ensures
        n <= s.len(),
        replaced(s, pattern, mark).take(n) == s.take(n),
    decreases s.len(),
{
    let r = replaced(s, pattern, mark);
    if n > 0 && pattern.len() > 0 && s.len() >= pattern.len() {
        if s.take(pattern.len() as int) == pattern {
            assert(r[0] == mark[0]);
        } else {
            let rest = replaced(s.drop_first(), pattern, mark);
            assert forall|i: int| 0 <= i < n - 1 implies #[trigger] rest[i] != mark[0] by {
                assert(r[i + 1] == rest[i]);
            }
            unmarked_is_untouched(s.drop_first(), pattern, mark, n - 1);
            assert forall|i: int| 0 <= i < n implies r[i] == s[i] by {
                if i > 0 {
                    assert(r[i] == rest.take(n - 1)[i - 1]);
                    assert(s[i] == s.drop_first().take(n - 1)[i - 1]);
                }
            }
            assert(r.take(n) =~= s.take(n));
        }
    }
}

/// A pattern that was replaced by a mark is restored by replacing the mark, where the mark was not
/// in the text before. A mark is a text whose first character occurs in it once.
pub proof fn replacement_is_undone(s: Seq<char>, pattern: Seq<char>, mark: Seq<char>)
    requires
        pattern.len() > 0,
        mark.len() > 0,
        forall|i: int| 0 < i < mark.len() ==> #[trigger] mark[i] != mark[0],
        !occurs_in(s, mark),
    ensures
        replaced(replaced(s, pattern, mark), mark, pattern) == s,
    decreases s.len(),
{
    let r = replaced(s, pattern, mark);
    let m = mark.len() as int;
    let p = pattern.len() as int;
    if s.len() < p {
        nothing_replaced(s, mark, pattern);
    } else if s.take(p) == pattern {
        let rest = replaced(s.skip(p), pattern, mark);
        occurs_further_on(s, mark, p);
        replacement_is_undone(s.skip(p), pattern, mark);
        assert(r.take(m) =~= mark);
        assert(r.skip(m) =~= rest);
        assert(pattern + s.skip(p) =~= s);
    } else {
        let rest = replaced(s.drop_first(), pattern, mark);
        assert(s.skip(1) =~= s.drop_first());
        occurs_further_on(s, mark, 1);
        replacement_is_undone(s.drop_first(), pattern, mark);
        assert(r.drop_first() =~= rest);
        assert(r[0] == s[0]);
        assert(seq![s[0]] + s.drop_first() =~= s);
        if r.len() >= m && r.take(m) == mark {
            assert forall|i: int| 0 <= i < m - 1 implies #[trigger] rest[i] != mark[0] by {
                assert(rest[i] == r.take(m)[i + 1]);
            }
            unmarked_is_untouched(s.drop_first(), pattern, mark, m - 1);
            assert forall|i: int| 0 <= i < m implies s[i] == mark[i] by {
                assert(r.take(m)[i] == mark[i]);
                if i > 0 {
                    assert(rest.take(m - 1)[i - 1] == s.drop_first().take(m - 1)[i - 1]);
                }
            }
            assert(s.subrange(0, m) =~= mark);
            assert(occurs_at(s, mark, 0));
        }
    }
}

/// Whether a text ends with `suffix`.
pub open spec fn finishes_with(s: Seq<char>, suffix: Seq<char>) -> bool {
    suffix.len() <= s.len() && s.skip(s.len() - suffix.len()) == suffix
}

/// What follows the last `c` in `s`; all of `s` where there is none.
pub open spec fn after_last(s: Seq<char>, c: char) -> Seq<char>
    decreases s.len(),
{
    if s.len() == 0 || s.last() == c {
        Seq::empty()
    } else {
        after_last(s.drop_last(), c).push(s.last())
    }
}

/// `s` without `suffix`, where it ends with it.
pub open spec fn without_suffix(s: Seq<char>, suffix: Seq<char>) -> Option<Seq<char>> {
    if finishes_with(s, suffix) {
        Some(s.take(s.len() - suffix.len()))
    } else {
        None
    }
}

/// Whether `pattern` stands at position `at`.
fn matches_at(s: &Vec<char>, pattern: &Vec<char>, at: usize) -> (r: bool)
    requires
        at <= s@.len(),
    ensures
        r == occurs_at(s@, pattern@, at as int),
{
    if s.len() - at < pattern.len() {
        return false;
    }
    let mut i: usize = 0;
    while i < pattern.len()
        invariant
            i <= pattern@.len(),
            at + pattern@.len() <= s.len(),
            forall|k: int| 0 <= k < i ==> s@[at + k] == pattern@[k],
        decreases pattern.len() - i,
    {
        if s[at + i] != pattern[i] {
            assert(s@.subrange(at as int, at + pattern@.len() as int)[i as int] != pattern@[i as int]);
            return false;
        }
        i += 1;
    }
    assert(s@.subrange(at as int, at + pattern@.len() as int) =~= pattern@);
    true
}

/// The first position of `pattern` in `s`.
fn find(s: &Vec<char>, pattern: &Vec<char>) -> (r: Option<usize>)
    ensures
        match r {
            Some(i) => first_at(s@, pattern@, i as int),
            None => !occurs_in(s@, pattern@),
        },
{
    let mut i: usize = 0;
    while i < s.len()
        invariant
            i <= s@.len(),
            forall|j: int| 0 <= j < i ==> !#[trigger] occurs_at(s@, pattern@, j),
        decreases s.len() - i,
    {
        if matches_at(s, pattern, i) {
            return Some(i);
        }
        i += 1;
    }
    if matches_at(s, pattern, i) {
        return Some(i);
    }
    assert forall|j: int| !#[trigger] occurs_at(s@, pattern@, j) by {
        if j == i {
        } else if 0 <= j < i {
        }
    }
    None
}

/// Whether `pattern` stands anywhere in `s`.
pub fn contains(s: &str, pattern: &str) -> (r: bool)
    ensures
        r == occurs_in(s@, pattern@),
{
    match find(&characters(s), &characters(pattern)) {
        Some(_) => true,
        None => false,
    }
}

/// Parts `s` at the first `separator`.
pub fn split_once(s: &str, separator: &str) -> (r: Option<(String, String)>)
    ensures
        r.deep_view() == parted(s@, separator@),
{
    let chars = characters(s);
    let pattern = characters(separator);
    match find(&chars, &pattern) {
        Some(i) => {
            proof {
                assert(occurs_in(s@, separator@));
                let k = choose|k: int| first_at(s@, separator@, k);
                assert(first_at(s@, separator@, i as int));
                assert(k <= i && i <= k);
                assert(i + pattern@.len() <= chars.len());
                assert(s@.subrange(0, i as int) =~= s@.take(i as int));
                assert(s@.subrange(i + pattern@.len() as int, s@.len() as int) =~= s@.skip(
                    i + pattern@.len() as int,
                ));
            }
            Some((slice(&chars, 0, i), slice(&chars, i + pattern.len(), chars.len())))
        },
        None => None,
    }
}

/// A text that was parted is its parts with the separator between them.
pub proof fn parted_rejoins(s: Seq<char>, separator: Seq<char>)
    requires
        occurs_in(s, separator),
    ensures
        parted(s, separator) matches Some((before, after)) && before + separator + after == s,
{
    first_exists(s, separator);
    let i = choose|i: int| first_at(s, separator, i);
    assert(s.take(i) + separator + s.skip(i + separator.len() as int) =~= s) by {
        assert(s.subrange(i, i + separator.len() as int) == separator);
        assert(s =~= s.take(i) + s.subrange(i, i + separator.len() as int) + s.skip(
            i + separator.len() as int,
        ));
    }
}

/// What occurs has a first occurrence.
proof fn first_exists(s: Seq<char>, pattern: Seq<char>)
    requires
        occurs_in(s, pattern),
    ensures
        exists|i: int| first_at(s, pattern, i),
{
    let i = choose|i: int| occurs_at(s, pattern, i);
    first_up_to(s, pattern, i);
}

proof fn first_up_to(s: Seq<char>, pattern: Seq<char>, i: int)
    requires
        occurs_at(s, pattern, i),
    ensures
        exists|k: int| first_at(s, pattern, k),
    decreases i,
{
    if forall|j: int| #[trigger] occurs_at(s, pattern, j) ==> i <= j {
        assert(first_at(s, pattern, i));
    } else {
        let j = choose|j: int| #[trigger] occurs_at(s, pattern, j) && j < i;
        first_up_to(s, pattern, j);
    }
}

/// A text is its own last segment exactly where it does not hold the character.
pub proof fn last_segment_marks(s: Seq<char>, c: char)
    ensures
        after_last(s, c) == s <==> !s.contains(c),
        after_last(s, c).len() <= s.len(),
    decreases s.len(),
{
    if s.len() > 0 {
        let d = s.drop_last();
        last_segment_marks(d, c);
        assert(s =~= d.push(s.last()));
        if s.last() == c {
            assert(s[s.len() - 1] == c);
        } else {
            if d.contains(c) {
                let k = choose|k: int| 0 <= k < d.len() && d[k] == c;
                assert(s[k] == c);
                assert(after_last(s, c).drop_last() =~= after_last(d, c));
                assert(s.drop_last() =~= d);
            } else {
                assert forall|k: int| 0 <= k < s.len() implies s[k] != c by {
                    if k < d.len() {
                        assert(d[k] == s[k]);
                    }
                }
            }
        }
    } else {
        assert(s =~= Seq::empty());
    }
}

/// Replaces every occurrence of `pattern` in `s`.
pub fn replace(s: &str, pattern: &str, by: &str) -> (r: String)
    requires
        pattern@.len() > 0,
    ensures
        r@ == replaced(s@, pattern@, by@),
{
    let chars = characters(s);
    let wanted = characters(pattern);
    let mut out = String::new();
    let mut i: usize = 0;
    assert(s@.skip(0) =~= s@);
    while i < chars.len() && chars.len() - i >= wanted.len()
        invariant
            chars@ == s@,
            wanted@ == pattern@,
            pattern@.len() > 0,
            i <= chars@.len(),
            out@ + replaced(s@.skip(i as int), pattern@, by@) == replaced(s@, pattern@, by@),
        decreases chars.len() - i,
    {
        let ghost rest = s@.skip(i as int);
        let ghost before = out@;
        assert(rest.take(pattern@.len() as int) =~= s@.subrange(
            i as int,
            i + pattern@.len() as int,
        ));
        if matches_at(&chars, &wanted, i) {
            out.append(by);
            proof {
                assert(rest.skip(pattern@.len() as int) =~= s@.skip(i + pattern@.len() as int));
                assert(out@ + replaced(rest.skip(pattern@.len() as int), pattern@, by@) =~= before
                    + replaced(rest, pattern@, by@));
            }
            i += wanted.len();
        } else {
            out.push(chars[i]);
            proof {
                assert(rest.drop_first() =~= s@.skip(i + 1));
                assert(rest[0] == chars@[i as int]);
                assert(out@ + replaced(rest.drop_first(), pattern@, by@) =~= before + replaced(
                    rest,
                    pattern@,
                    by@,
                ));
            }
            i += 1;
        }
    }
    let tail = slice(&chars, i, chars.len());
    assert(tail@ =~= s@.skip(i as int));
    out.append(tail.as_str());
    out
}

/// Whether `s` ends with `suffix`.
pub fn ends_with(s: &str, suffix: &str) -> (r: bool)
    ensures
        r == finishes_with(s@, suffix@),
{
    let chars = characters(s);
    let wanted = characters(suffix);
    if wanted.len() > chars.len() {
        return false;
    }
    let at: usize = chars.len() - wanted.len();
    assert(s@.subrange(at as int, s@.len() as int) =~= s@.skip(at as int));
    matches_at(&chars, &wanted, at)
}

/// `s` without `suffix`, where it ends with it.
pub fn strip_suffix(s: &str, suffix: &str) -> (r: Option<String>)
    ensures
        r.deep_view() == without_suffix(s@, suffix@),
{
    if !ends_with(s, suffix) {
        return None;
    }
    let chars = characters(s);
    let wanted = characters(suffix);
    let to: usize = chars.len() - wanted.len();
    assert(s@.subrange(0, to as int) =~= s@.take(to as int));
    Some(slice(&chars, 0, to))
}

/// The part of `s` behind its last `c`.
pub fn last_segment(s: &str, c: char) -> (r: String)
    ensures
        r@ == after_last(s@, c),
{
    let chars = characters(s);
    let mut i: usize = chars.len();
    assert(s@.take(i as int) =~= s@);
    assert(s@.skip(i as int) =~= Seq::empty());
    while i > 0 && chars[i - 1] != c
        invariant
            chars@ == s@,
            i <= chars@.len(),
            after_last(s@, c) == after_last(s@.take(i as int), c) + s@.skip(i as int),
        decreases i,
    {
        proof {
            let head = s@.take(i as int);
            assert(head.last() == s@[i - 1]);
            assert(head.drop_last() =~= s@.take(i - 1));
            assert(after_last(head, c) + s@.skip(i as int) =~= after_last(s@.take(i - 1), c)
                + s@.skip(i - 1));
        }
        i -= 1;
    }
    proof {
        assert(i > 0 ==> s@.take(i as int).last() == s@[i - 1]);
        assert(after_last(s@.take(i as int), c) =~= Seq::empty());
        assert(s@.subrange(i as int, s@.len() as int) =~= s@.skip(i as int));
        assert(after_last(s@, c) =~= s@.skip(i as int));
    }
    slice(&chars, i, chars.len())
}

/// Whether a character has the Unicode property `White_Space`.
pub open spec fn white_space(c: char) -> bool {
    ||| '\u{9}' <= c <= '\u{d}'
    ||| c == ' '
    ||| c == '\u{85}'
    ||| c == '\u{a0}'
    ||| c == '\u{1680}'
    ||| '\u{2000}' <= c <= '\u{200a}'
    ||| c == '\u{2028}'
    ||| c == '\u{2029}'
    ||| c == '\u{202f}'
    ||| c == '\u{205f}'
    ||| c == '\u{3000}'
}

/// Whether a character is white space.
pub fn is_white_space(c: char) -> (r: bool)
    ensures
        r == white_space(c),
{
    ('\u{9}' <= c && c <= '\u{d}') || c == ' ' || c == '\u{85}' || c == '\u{a0}' || c == '\u{1680}' || (
    '\u{2000}' <= c && c <= '\u{200a}') || c == '\u{2028}' || c == '\u{2029}' || c == '\u{202f}' || c
        == '\u{205f}' || c == '\u{3000}'
}

/// `s` without the white space at its front.
pub open spec fn front_trimmed(s: Seq<char>) -> Seq<char>
    decreases s.len(),
{
    if s.len() > 0 && white_space(s[0]) {
        front_trimmed(s.drop_first())
    } else {
        s
    }
}

/// `s` without the white space at its end.
pub open spec fn back_trimmed(s: Seq<char>) -> Seq<char>
    decreases s.len(),
{
    if s.len() > 0 && white_space(s.last()) {
        back_trimmed(s.drop_last())
    } else {
        s
    }
}

/// `s` without the white space at either end.
pub open spec fn trimmed(s: Seq<char>) -> Seq<char> {
    back_trimmed(front_trimmed(s))
}

proof fn front_trimming_ignores_the_end(s: Seq<char>, c: char)
    requires
        white_space(c),
    ensures
        front_trimmed(s.push(c)) == if front_trimmed(s).len() == 0 {
            Seq::empty()
        } else {
            front_trimmed(s).push(c)
        },
    decreases s.len(),
{
    if s.len() == 0 {
        reveal_with_fuel(front_trimmed, 2);
        assert(s.push(c).drop_first() =~= Seq::empty());
    } else if white_space(s[0]) {
        assert(s.push(c).drop_first() =~= s.drop_first().push(c));
        front_trimming_ignores_the_end(s.drop_first(), c);
    }
}

/// White space at either end of a text does not change what is left of it.
pub proof fn trimming_ignores_white_space(s: Seq<char>, c: char)
    requires
        white_space(c),
    ensures
        trimmed(s.push(c)) == trimmed(s),
        trimmed(seq![c] + s) == trimmed(s),
{
    front_trimming_ignores_the_end(s, c);
    let f = front_trimmed(s);
    if f.len() == 0 {
        assert(f =~= Seq::empty());
    } else {
        assert(f.push(c).drop_last() =~= f);
    }
    assert((seq![c] + s).drop_first() =~= s);
}

/// Trims the white space off both ends.
pub fn trim(s: &str) -> (r: String)
    ensures
        r@ == trimmed(s@),
{
    let chars = characters(s);
    let mut from: usize = 0;
    assert(s@.skip(0) =~= s@);
    while from < chars.len() && is_white_space(chars[from])
        invariant
            chars@ == s@,
            from <= chars@.len(),
            front_trimmed(s@) == front_trimmed(s@.skip(from as int)),
        decreases chars.len() - from,
    {
        proof {
            let rest = s@.skip(from as int);
            assert(rest[0] == s@[from as int]);
            assert(rest.drop_first() =~= s@.skip(from + 1));
        }
        from += 1;
    }
    let mut to: usize = chars.len();
    let ghost rest = s@.skip(from as int);
    proof {
        assert(from < s@.len() ==> rest[0] == s@[from as int]);
        assert(front_trimmed(s@) == rest);
        assert(rest =~= s@.subrange(from as int, to as int));
    }
    while to > from && is_white_space(chars[to - 1])
        invariant
            chars@ == s@,
            from <= to <= chars@.len(),
            back_trimmed(rest) == back_trimmed(s@.subrange(from as int, to as int)),
        decreases to,
    {
        proof {
            let held = s@.subrange(from as int, to as int);
            assert(held.last() == s@[to - 1]);
            assert(held.drop_last() =~= s@.subrange(from as int, to - 1));
        }
        to -= 1;
    }
    proof {
        let held = s@.subrange(from as int, to as int);
        assert(to > from ==> held.last() == s@[to - 1]);
    }
    slice(&chars, from, to)
}

/// The decimal digits of `n`.
pub open spec fn decimal(n: nat) -> Seq<char>
    decreases n,
{
    if n < 10 {
        seq![(('0' as u8) + n) as char]
    } else {
        decimal(n / 10).push((('0' as u8) + n % 10) as char)
    }
}

/// The lower-case form of an ASCII letter; any other character as it is.
pub open spec fn ascii_lower(c: char) -> char {
    if 'A' <= c && c <= 'Z' {
        ((c as u32) + 32) as char
    } else {
        c
    }
}

/// A text with its ASCII letters in lower case.
pub open spec fn ascii_lowered(s: Seq<char>) -> Seq<char> {
    s.map_values(|c: char| ascii_lower(c))
}

/// Puts the ASCII letters of `s` in lower case.
pub fn to_ascii_lowercase(s: &str) -> (r: String)
    ensures
        r@ == ascii_lowered(s@),
{
    let chars = characters(s);
    let mut out = String::new();
    let mut i: usize = 0;
    assert(ascii_lowered(s@.take(0)) =~= out@);
    while i < chars.len()
        invariant
            chars@ == s@,
            i <= chars@.len(),
            out@ == ascii_lowered(s@.take(i as int)),
        decreases chars.len() - i,
    {
        let c = chars[i];
        let ghost before = out@;
        if 'A' <= c && c <= 'Z' {
            let code: u32 = c as u32;
            let small: u8 = code as u8 + 32;
            out.push(small as char);
        } else {
            out.push(c);
        }
        assert(s@.take(i + 1) =~= s@.take(i as int).push(c));
        assert(out@ =~= ascii_lowered(s@.take(i + 1)));
        i += 1;
    }
    assert(s@.take(i as int) =~= s@);
    out
}

/// The octal digits of `n`.
pub open spec fn octal(n: nat) -> Seq<char>
    decreases n,
{
    if n < 8 {
        seq![(('0' as u8) + n) as char]
    } else {
        octal(n / 8).push((('0' as u8) + n % 8) as char)
    }
}

/// `n` in octal.
pub fn octal_number(n: u32) -> (s: String)
    ensures
        s@ == octal(n as nat),
    decreases n,
{
    if n < 8 {
        let mut s = String::new();
        s.push((48 + n as u8) as char);
        assert(s@ =~= octal(n as nat));
        s
    } else {
        let mut s = octal_number(n / 8);
        s.push((48 + (n % 8) as u8) as char);
        s
    }
}

/// `n` in decimal, with a sign where it is negative.
pub open spec fn signed_decimal(n: int) -> Seq<char> {
    if n < 0 {
        "-"@ + decimal((-n) as nat)
    } else {
        decimal(n as nat)
    }
}

/// `n` in decimal.
pub fn signed_number(n: i128) -> (s: String)
    ensures
        s@ == signed_decimal(n as int),
{
    if n < 0 {
        let mut s = "-".to_owned();
        let magnitude: u128 = (-(n + 1)) as u128 + 1;
        s.append(number(magnitude).as_str());
        s
    } else {
        number(n as u128)
    }
}

/// `n` in decimal.
pub fn number(n: u128) -> (s: String)
    ensures
        s@ == decimal(n as nat),
    decreases n,
{
    if n < 10 {
        let mut s = String::new();
        s.push((48 + n as u8) as char);
        assert(s@ =~= decimal(n as nat));
        s
    } else {
        let mut s = number(n / 10);
        s.push((48 + (n % 10) as u8) as char);
        s
    }
}

// ---------------------------------------------------------------------------------------------
// Lists of texts

/// A copy of a list of texts.
pub fn copy_all(list: &Vec<String>) -> (r: Vec<String>)
    ensures
        r.deep_view() == list.deep_view(),
{
    let r = list.clone();
    assert(r.deep_view() =~= list.deep_view());
    r
}

/// Whether two lists of texts are the same.
pub fn same_all(a: &Vec<String>, b: &Vec<String>) -> (r: bool)
    ensures
        r == (a.deep_view() == b.deep_view()),
{
    if a.len() != b.len() {
        assert(a.deep_view().len() != b.deep_view().len());
        return false;
    }
    let mut i: usize = 0;
    while i < a.len()
        invariant
            i <= a@.len() == b@.len(),
            forall|k: int| 0 <= k < i ==> a@[k]@ == b@[k]@,
        decreases a.len() - i,
    {
        if a[i] != b[i] {
            assert(a.deep_view()[i as int] != b.deep_view()[i as int]);
            return false;
        }
        i += 1;
    }
    assert(a.deep_view() =~= b.deep_view());
    true
}

/// Whether every text of one list stands in another.
pub fn all_among(a: &Vec<String>, b: &Vec<String>) -> (r: bool)
    ensures
        r == (forall|i: int|
            0 <= i < a.deep_view().len() ==> b.deep_view().contains(#[trigger] a.deep_view()[i])),
{
    let ghost (x, y) = (a.deep_view(), b.deep_view());
    let mut i: usize = 0;
    while i < a.len()
        invariant
            i <= a@.len(),
            x == a.deep_view(),
            y == b.deep_view(),
            forall|k: int| 0 <= k < i ==> y.contains(#[trigger] x[k]),
        decreases a.len() - i,
    {
        let mut found = false;
        let mut j: usize = 0;
        while j < b.len() && !found
            invariant
                i < a@.len(),
                j <= b@.len(),
                x == a.deep_view(),
                y == b.deep_view(),
                found ==> y.contains(x[i as int]),
                !found ==> forall|k: int| 0 <= k < j ==> #[trigger] y[k] != x[i as int],
            decreases b.len() - j,
        {
            if same(a[i].as_str(), b[j].as_str()) {
                assert(y[j as int] == x[i as int]);
                found = true;
            }
            j += 1;
        }
        if !found {
            assert(!y.contains(x[i as int]));
            return false;
        }
        i += 1;
    }
    true
}

/// Whether two optional texts are the same. are the same.
pub fn same_option(a: &Option<String>, b: &Option<String>) -> (r: bool)
    ensures
        r == (a.deep_view() == b.deep_view()),
{
    match (a, b) {
        (Some(a), Some(b)) => *a == *b,
        (None, None) => true,
        _ => false,
    }
}

/// Whether `list` holds `s`.
pub fn is_member(list: &Vec<String>, s: &str) -> (r: bool)
    ensures
        r == list.deep_view().contains(s@),
{
    let mut i: usize = 0;
    while i < list.len()
        invariant
            i <= list@.len(),
            forall|k: int| 0 <= k < i ==> list@[k]@ != s@,
        decreases list.len() - i,
    {
        if same(list[i].as_str(), s) {
            assert(list.deep_view()[i as int] == s@);
            return true;
        }
        i += 1;
    }
    assert forall|k: int| 0 <= k < list.deep_view().len() implies list.deep_view()[k] != s@ by {
        assert(list@[k]@ != s@);
    }
    false
}

/// The texts of a list with `separator` between them.
pub open spec fn joined(list: Seq<Seq<char>>, separator: Seq<char>) -> Seq<char>
    decreases list.len(),
{
    if list.len() == 0 {
        Seq::empty()
    } else if list.len() == 1 {
        list[0]
    } else {
        joined(list.drop_last(), separator) + separator + list.last()
    }
}

/// Joins the texts of a list.
pub fn join(list: &Vec<String>, separator: &str) -> (r: String)
    ensures
        r@ == joined(list.deep_view(), separator@),
{
    let ghost all = list.deep_view();
    let mut out = String::new();
    let mut i: usize = 0;
    assert(all.take(0) =~= Seq::empty());
    while i < list.len()
        invariant
            i <= list@.len(),
            all == list.deep_view(),
            out@ == joined(all.take(i as int), separator@),
        decreases list.len() - i,
    {
        proof {
            assert(all.take(i + 1).drop_last() =~= all.take(i as int));
            assert(all.take(i + 1).last() == list@[i as int]@);
        }
        if i > 0 {
            out.append(separator);
        }
        out.append(list[i].as_str());
        if i == 0 {
            assert(out@ =~= all.take(1)[0]);
        }
        i += 1;
    }
    assert(all.take(i as int) =~= all);
    out
}

} // verus!
