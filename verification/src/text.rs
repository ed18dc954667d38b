//! Character-level helpers on strings: splitting at a separator, finding a
//! character, and the few facts of std's string and number handling that the
//! protocol code relies on.
use vstd::prelude::*;

verus! {

broadcast use vstd::string::group_string_axioms;

/// The pieces of `s` between occurrences of `sep`, as `str::split` with a
/// one-character pattern yields them: `n` separators give `n + 1` pieces,
/// empty ones included.
pub open spec fn split_on(s: Seq<char>, sep: char) -> Seq<Seq<char>>
    decreases s.len(),
{
    if s.len() == 0 {
        seq![Seq::<char>::empty()]
    } else {
        let prev = split_on(s.drop_last(), sep);
        if s.last() == sep {
            prev.push(Seq::<char>::empty())
        } else {
            prev.update(prev.len() - 1, prev.last().push(s.last()))
        }
    }
}

/// The position of the first occurrence of `c` in `s`, if any.
pub open spec fn first_index_of(s: Seq<char>, c: char) -> Option<int>
    decreases s.len(),
{
    if s.len() == 0 {
        None
    } else if s[0] == c {
        Some(0)
    } else {
        match first_index_of(s.drop_first(), c) {
            Some(i) => Some(i + 1),
            None => None,
        }
    }
}

/// What follows the first occurrence of `c` in `s` (the second half of
/// `str::split_once`), if `c` occurs.
pub open spec fn after_first(s: Seq<char>, c: char) -> Option<Seq<char>> {
    match first_index_of(s, c) {
        Some(i) => Some(s.subrange(i + 1, s.len() as int)),
        None => None,
    }
}

/// Whether `s` starts with the character `c`.
pub open spec fn starts_with_char(s: Seq<char>, c: char) -> bool {
    s.len() > 0 && s[0] == c
}

/// An ASCII letter or digit (`char::is_ascii_alphanumeric`).
pub open spec fn is_ascii_alnum(c: char) -> bool {
    ('0' <= c && c <= '9') || ('a' <= c && c <= 'z') || ('A' <= c && c <= 'Z')
}

/// The characters of `s` that are ASCII letters or digits, in order.
pub open spec fn keep_ascii_alnum(s: Seq<char>) -> Seq<char>
    decreases s.len(),
{
    if s.len() == 0 {
        s
    } else if is_ascii_alnum(s.last()) {
        keep_ascii_alnum(s.drop_last()).push(s.last())
    } else {
        keep_ascii_alnum(s.drop_last())
    }
}

/// [`keep_ascii_alnum`] filters `s` by any test that holds of exactly the
/// ASCII letters and digits.
proof fn lemma_keep_ascii_alnum_filter(s: Seq<char>, p: spec_fn(char) -> bool)
    requires
        forall|c: char| #[trigger] p(c) == is_ascii_alnum(c),
    ensures
        keep_ascii_alnum(s) == s.filter(p),
    decreases s.len(),
{
    reveal(Seq::filter);
    if s.len() > 0 {
        lemma_keep_ascii_alnum_filter(s.drop_last(), p);
        assert(p(s.last()) == is_ascii_alnum(s.last()));
    }
}

/// Only what is not an ASCII letter or digit is dropped from a name: the
/// result is the subsequence of the characters of `s` that are ASCII
/// letters (`a` to `z`, `A` to `Z`) or digits (`0` to `9`), each kept in
/// order, so a name made of such characters alone is kept whole.
pub proof fn law_keep_ascii_alnum_keeps_letters_and_digits(s: Seq<char>)
    ensures
        keep_ascii_alnum(s) == s.filter(
            |c: char| ('0' <= c && c <= '9') || ('a' <= c && c <= 'z') || ('A' <= c && c <= 'Z'),
        ),
        (forall|i: int|
            0 <= i < s.len() ==> ('0' <= #[trigger] s[i] && s[i] <= '9') || ('a' <= s[i] && s[i]
                <= 'z') || ('A' <= s[i] && s[i] <= 'Z')) ==> keep_ascii_alnum(s) == s,
    decreases s.len(),
{
    let p = |c: char| ('0' <= c && c <= '9') || ('a' <= c && c <= 'z') || ('A' <= c && c <= 'Z');
    lemma_keep_ascii_alnum_filter(s, p);
    if s.len() > 0 {
        law_keep_ascii_alnum_keeps_letters_and_digits(s.drop_last());
        if forall|i: int|
            0 <= i < s.len() ==> ('0' <= #[trigger] s[i] && s[i] <= '9') || ('a' <= s[i] && s[i]
                <= 'z') || ('A' <= s[i] && s[i] <= 'Z') {
            let t = s.drop_last();
            assert forall|i: int|
                0 <= i < t.len() implies ('0' <= #[trigger] t[i] && t[i] <= '9') || ('a' <= t[i]
                && t[i] <= 'z') || ('A' <= t[i] && t[i] <= 'Z') by {
                assert(t[i] == s[i]);
            }
            assert(s[s.len() - 1] == s.last());
            assert(t.push(s.last()) =~= s);
        }
    }
}

/// An ASCII decimal digit.
pub open spec fn is_decimal_digit(c: char) -> bool {
    '0' <= c && c <= '9'
}

/// The value of a string of decimal digits.
pub open spec fn decimal_value(d: Seq<char>) -> int
    decreases d.len(),
{
    if d.len() == 0 {
        0
    } else {
        decimal_value(d.drop_last()) * 10 + (d.last() as int - '0' as int)
    }
}

/// What `str::parse::<i32>` gives: an optional `+` or `-` followed by at
/// least one decimal digit, whose value fits in an `i32`.
pub open spec fn decimal_i32(s: Seq<char>) -> Option<i32> {
    let body = unsigned_part(s);
    let value = if s.len() > 0 && s[0] == '-' {
        -decimal_value(body)
    } else {
        decimal_value(body)
    };
    if body.len() > 0 && (forall|i: int| 0 <= i < body.len() ==> is_decimal_digit(#[trigger] body[i]))
        && i32::MIN <= value <= i32::MAX {
        Some(value as i32)
    } else {
        None
    }
}

/// The value of decimal digits is not negative, and no smaller than the
/// value of any of its prefixes.
proof fn lemma_decimal_prefix(d: Seq<char>, k: int)
    requires
        0 <= k <= d.len(),
        forall|i: int| 0 <= i < d.len() ==> is_decimal_digit(#[trigger] d[i]),
    ensures
        0 <= decimal_value(d.take(k)) <= decimal_value(d),
    decreases d.len(),
{
    if k == d.len() {
        assert(d.take(k) =~= d);
        if d.len() > 0 {
            lemma_decimal_prefix(d.drop_last(), k - 1);
            assert(d.drop_last().take(k - 1) =~= d.drop_last());
            assert(is_decimal_digit(d[d.len() - 1]));
        }
    } else {
        let d2 = d.drop_last();
        assert forall|i: int| 0 <= i < d2.len() implies is_decimal_digit(#[trigger] d2[i]) by {
            assert(d2[i] == d[i]);
        }
        lemma_decimal_prefix(d2, k);
        assert(d2.take(k) =~= d.take(k));
        assert(is_decimal_digit(d[d.len() - 1]));
    }
}

/// The digits of `s` after its sign, if it has one.
pub open spec fn unsigned_part(s: Seq<char>) -> Seq<char> {
    if s.len() > 0 && (s[0] == '+' || s[0] == '-') {
        s.drop_first()
    } else {
        s
    }
}

/// A character that is no digit after the sign leaves no value.
proof fn lemma_decimal_i32_not_digit(s: Seq<char>, j: int)
    requires
        0 <= j < unsigned_part(s).len(),
        !is_decimal_digit(unsigned_part(s)[j]),
    ensures
        decimal_i32(s) is None,
{
    assert(!is_decimal_digit(unsigned_part(s)[j]));
}

/// Digits whose prefix is already above 2^31 leave no value.
proof fn lemma_decimal_i32_too_big(s: Seq<char>, k: int)
    requires
        0 <= k <= unsigned_part(s).len(),
        decimal_value(unsigned_part(s).take(k)) > 2147483648,
    ensures
        decimal_i32(s) is None,
{
    let body = unsigned_part(s);
    if forall|i: int| 0 <= i < body.len() ==> is_decimal_digit(#[trigger] body[i]) {
        lemma_decimal_prefix(body, k);
        assert(decimal_value(body) > 2147483648);
    } else {
        let j = choose|j: int| 0 <= j < body.len() && !is_decimal_digit(#[trigger] body[j]);
        lemma_decimal_i32_not_digit(s, j);
    }
}

/// `str::parse::<i32>`: an optional `+` or `-` sign followed by decimal
/// digits whose value fits in an `i32` (see [`decimal_i32`]); an empty digit
/// string, any other character or a value out of range gives `None`.
pub fn parse_i32(s: &str) -> (r: Option<i32>)
    ensures
        r == decimal_i32(s@),
{
    let chars = chars_of(s);
    let n: usize = chars.len();
    let signed = n > 0 && (chars[0] == '+' || chars[0] == '-');
    let negative = signed && chars[0] == '-';
    let start: usize = if signed { 1 } else { 0 };
    let ghost body = unsigned_part(s@);
    proof {
        assert(body =~= s@.subrange(start as int, n as int));
    }
    if start >= n {
        return None;
    }
    let mut v: u64 = 0;
    let mut i: usize = start;
    proof {
        assert(body.take(0) =~= Seq::<char>::empty());
    }
    while i < n
        invariant
            chars@ == s@,
            n == s@.len(),
            signed == (s@.len() > 0 && (s@[0] == '+' || s@[0] == '-')),
            negative == (signed && s@[0] == '-'),
            start == (if signed { 1usize } else { 0usize }),
            body == unsigned_part(s@),
            start <= i <= n,
            body =~= s@.subrange(start as int, n as int),
            v == decimal_value(body.take(i - start)),
            v <= 2147483648,
            forall|j: int| 0 <= j < i - start ==> is_decimal_digit(#[trigger] body[j]),
        decreases n - i,
    {
        let c = chars[i];
        proof {
            assert(body[i - start] == c);
        }
        if !('0' <= c && c <= '9') {
            proof {
                lemma_decimal_i32_not_digit(s@, i - start);
            }
            return None;
        }
        let digit: u64 = (c as u32 - '0' as u32) as u64;
        proof {
            let t = body.take(i - start + 1);
            assert(t.drop_last() =~= body.take(i - start));
            assert(t.last() == c);
        }
        v = v * 10 + digit;
        if v > 2147483648 {
            proof {
                lemma_decimal_i32_too_big(s@, i - start + 1);
            }
            return None;
        }
        i = i + 1;
    }
    proof {
        assert(body.take(n - start) =~= body);
    }
    if negative {
        let w: i64 = -(v as i64);
        Some(w as i32)
    } else if v <= 2147483647 {
        Some(v as i32)
    } else {
        None
    }
}

/// Calls `String::push`, which appends one character.
#[verifier::external_body]
pub(crate) fn push_char(s: &mut String, c: char)
    ensures
        final(s)@ == old(s)@.push(c),
{
    s.push(c)
}

/// The characters of `s`, one per element.
pub fn chars_of(s: &str) -> (v: Vec<char>)
    ensures
        v@ == s@,
{
    let n: usize = s.unicode_len();
    let mut v: Vec<char> = Vec::new();
    let mut i: usize = 0;
    while i < n
        invariant
            n == s@.len(),
            i <= n,
            v@ == s@.take(i as int),
        decreases n - i,
    {
        v.push(s.get_char(i));
        i = i + 1;
        assert(v@ =~= s@.take(i as int));
    }
    assert(v@ =~= s@);
    v
}

/// The piece of `s` between `from` and `to`, as a new string.
pub fn substring(s: &str, from: usize, to: usize) -> (r: String)
    requires
        from <= to <= s@.len(),
    ensures
        r@ == s@.subrange(from as int, to as int),
{
    s.substring_char(from, to).to_owned()
}

/// Splits `s` at every occurrence of `sep`, as `str::split` does.
pub fn split_on_char(s: &str, sep: char) -> (pieces: Vec<String>)
    ensures
        pieces@.map_values(|p: String| p@) == split_on(s@, sep),
{
    let chars = chars_of(s);
    let n: usize = chars.len();
    let mut pieces: Vec<String> = Vec::new();
    let mut start: usize = 0;
    let mut i: usize = 0;
    proof {
        assert(s@.take(0) =~= Seq::<char>::empty());
    }
    while i < n
        invariant
            n == s@.len(),
            chars@ == s@,
            start <= i <= n,
            split_on(s@.take(i as int), sep) == pieces@.map_values(|p: String| p@).push(
                s@.subrange(start as int, i as int),
            ),
        decreases n - i,
    {
        let ghost old_pieces = pieces@.map_values(|p: String| p@);
        proof {
            assert(s@.take(i + 1).drop_last() =~= s@.take(i as int));
            assert(s@.take(i + 1).last() == s@[i as int]);
        }
        if chars[i] == sep {
            let piece = substring(s, start, i);
            pieces.push(piece);
            start = i + 1;
            proof {
                assert(pieces@.map_values(|p: String| p@) =~= old_pieces.push(piece@));
                assert(s@.subrange(start as int, (i + 1) as int) =~= Seq::<char>::empty());
            }
        } else {
            proof {
                assert(s@.subrange(start as int, i as int).push(s@[i as int]) =~= s@.subrange(
                    start as int,
                    (i + 1) as int,
                ));
            }
        }
        i = i + 1;
    }
    let last = substring(s, start, n);
    let ghost before = pieces@.map_values(|p: String| p@);
    pieces.push(last);
    proof {
        assert(s@.take(n as int) =~= s@);
        assert(pieces@.map_values(|p: String| p@) =~= before.push(last@));
    }
    pieces
}

/// What follows the first `c` in `s`, if `c` occurs (`str::split_once`).
pub fn split_after_first(s: &str, c: char) -> (r: Option<String>)
    ensures
        match r {
            Some(t) => after_first(s@, c) == Some(t@),
            None => after_first(s@, c) is None,
        },
{
    let chars = chars_of(s);
    let n: usize = chars.len();
    let mut i: usize = 0;
    while i < n
        invariant
            n == s@.len(),
            chars@ == s@,
            i <= n,
            forall|j: int| 0 <= j < i ==> s@[j] != c,
        decreases n - i,
    {
        if chars[i] == c {
            proof {
                lemma_first_index_of(s@, c, i as int);
            }
            return Some(substring(s, i + 1, n));
        }
        i = i + 1;
    }
    proof {
        lemma_first_index_of_none(s@, c);
    }
    None
}

/// The first index of `c` is the first position holding it.
pub proof fn lemma_first_index_of(s: Seq<char>, c: char, i: int)
    requires
        0 <= i < s.len(),
        s[i] == c,
        forall|j: int| 0 <= j < i ==> s[j] != c,
    ensures
        first_index_of(s, c) == Some(i),
    decreases s.len(),
{
    if i > 0 {
        lemma_first_index_of(s.drop_first(), c, i - 1);
    }
}

/// Without any occurrence there is no first index.
pub proof fn lemma_first_index_of_none(s: Seq<char>, c: char)
    requires
        forall|j: int| 0 <= j < s.len() ==> s[j] != c,
    ensures
        first_index_of(s, c) is None,
    decreases s.len(),
{
    if s.len() > 0 {
        lemma_first_index_of_none(s.drop_first(), c);
    }
}

/// Whether `s` starts with `c`.
pub fn begins_with(s: &str, c: char) -> (b: bool)
    ensures
        b == starts_with_char(s@, c),
{
    if s.unicode_len() == 0 {
        false
    } else {
        s.get_char(0) == c
    }
}

/// A character that nostr's name pattern allows between the first and the
/// last: an ASCII letter or digit, `_` or `-`.
pub open spec fn is_inner_name_char(c: char) -> bool {
    is_ascii_alnum(c) || c == '_' || c == '-'
}

/// A name that nostr takes for user or channel metadata: the pattern
/// `^[a-zA-Z0-9][a-zA-Z_\-0-9]+[a-zA-Z0-9]$`, that is at least three
/// characters, an ASCII letter or digit at both ends and letters, digits,
/// `_` or `-` between.
pub open spec fn is_metadata_name(s: Seq<char>) -> bool {
    &&& s.len() >= 3
    &&& is_ascii_alnum(s[0])
    &&& is_ascii_alnum(s[s.len() - 1])
    &&& forall|i: int| 1 <= i < s.len() - 1 ==> is_inner_name_char(#[trigger] s[i])
}

/// Whether `s` is a name that nostr takes for metadata (see
/// [`is_metadata_name`]).
pub fn check_metadata_name(s: &str) -> (b: bool)
    ensures
        b == is_metadata_name(s@),
{
    let chars = chars_of(s);
    let n: usize = chars.len();
    if n < 3 {
        return false;
    }
    let first = chars[0];
    let last = chars[n - 1];
    if !(('0' <= first && first <= '9') || ('a' <= first && first <= 'z') || ('A' <= first
        && first <= 'Z')) {
        return false;
    }
    if !(('0' <= last && last <= '9') || ('a' <= last && last <= 'z') || ('A' <= last && last
        <= 'Z')) {
        return false;
    }
    let mut i: usize = 1;
    while i < n - 1
        invariant
            n == s@.len(),
            chars@ == s@,
            3 <= n,
            1 <= i <= n - 1,
            forall|j: int| 1 <= j < i ==> is_inner_name_char(#[trigger] s@[j]),
        decreases n - 1 - i,
    {
        let c = chars[i];
        if !(('0' <= c && c <= '9') || ('a' <= c && c <= 'z') || ('A' <= c && c <= 'Z') || c
            == '_' || c == '-') {
            return false;
        }
        i = i + 1;
    }
    true
}

/// The ASCII letters and digits of `s`, in order; the other characters are
/// dropped.
pub fn filter_ascii_alnum(s: &str) -> (r: String)
    ensures
        r@ == keep_ascii_alnum(s@),
{
    let chars = chars_of(s);
    let n: usize = chars.len();
    let mut r = String::new();
    let mut i: usize = 0;
    proof {
        assert(s@.take(0) =~= Seq::<char>::empty());
    }
    while i < n
        invariant
            n == s@.len(),
            chars@ == s@,
            i <= n,
            r@ == keep_ascii_alnum(s@.take(i as int)),
        decreases n - i,
    {
        let c = chars[i];
        proof {
            assert(s@.take(i + 1).drop_last() =~= s@.take(i as int));
        }
        if ('0' <= c && c <= '9') || ('a' <= c && c <= 'z') || ('A' <= c && c <= 'Z') {
            push_char(&mut r, c);
        }
        i = i + 1;
    }
    proof {
        assert(s@.take(n as int) =~= s@);
    }
    r
}

} // verus!
