//! Plain text operations, specified over sequences of characters.

use vstd::prelude::*;

verus! {

/// The characters of a text, one by one.
pub fn chars_of(s: &str) -> (r: Vec<char>)
    ensures
        r@ == s@,
{
    let mut r: Vec<char> = Vec::new();
    for c in it: s.chars()
        invariant
            it.seq() == s@,
            r@ == it.seq().take(it.index() as int),
    {
        r.push(c);
    }
    r
}

/// Whether two texts hold the same characters.
pub fn same_text(a: &str, b: &str) -> (r: bool)
    ensures
        r == (a@ == b@),
{
    let x = chars_of(a);
    let y = chars_of(b);
    if x.len() != y.len() {
        return false;
    }
    let mut i: usize = 0;
    while i < x.len()
        invariant
            i <= x@.len(),
            x@.len() == y@.len(),
            x@ == a@,
            y@ == b@,
            forall|j: int| 0 <= j < i ==> x@[j] == y@[j],
        decreases x@.len() - i,
    {
        if x[i] != y[i] {
            return false;
        }
        i += 1;
    }
    assert(a@ =~= b@);
    true
}

/// The decimal digit `d`.
pub open spec fn digit_char(d: nat) -> char {
    ('0' as nat + d) as char
}

/// The shortest decimal notation of a natural number.
pub open spec fn decimal(n: nat) -> Seq<char>
    decreases n,
{
    if n < 10 {
        seq![digit_char(n)]
    } else {
        decimal(n / 10).push(digit_char(n % 10))
    }
}

fn digit_text(d: u128) -> (r: &'static str)
    requires
        d < 10,
    ensures
        r@ == seq![digit_char(d as nat)],
{
    proof {
        reveal_strlit("0");
        reveal_strlit("1");
        reveal_strlit("2");
        reveal_strlit("3");
        reveal_strlit("4");
        reveal_strlit("5");
        reveal_strlit("6");
        reveal_strlit("7");
        reveal_strlit("8");
        reveal_strlit("9");
    }
    match d {
        0 => "0",
        1 => "1",
        2 => "2",
        3 => "3",
        4 => "4",
        5 => "5",
        6 => "6",
        7 => "7",
        8 => "8",
        _ => "9",
    }
}

/// Writes a number in decimal.
pub fn decimal_text(n: u128) -> (r: String)
    ensures
        r@ == decimal(n as nat),
    decreases n,
{
    if n < 10 {
        digit_text(n).to_string()
    } else {
        let mut r = decimal_text(n / 10);
        r.append(digit_text(n % 10));
        assert(r@ =~= decimal(n as nat));
        r
    }
}

/// The decimal notation of an integer, with a leading minus sign below zero.
pub open spec fn signed_decimal(n: int) -> Seq<char> {
    if n < 0 {
        seq!['-'] + decimal((-n) as nat)
    } else {
        decimal(n as nat)
    }
}

/// Writes a signed number in decimal.
pub fn signed_decimal_text(n: i64) -> (r: String)
    ensures
        r@ == signed_decimal(n as int),
{
    if n < 0 {
        let m: u128 = (-(n + 1)) as u128 + 1;
        let mut r = "-".to_string();
        r.append(decimal_text(m).as_str());
        proof {
            reveal_strlit("-");
        }
        assert(r@ =~= signed_decimal(n as int));
        r
    } else {
        decimal_text(n as u128)
    }
}

pub open spec fn is_digit(c: char) -> bool {
    '0' <= c <= '9'
}

/// The value of a decimal digit.
pub open spec fn digit_value(c: char) -> nat {
    (c as nat - '0' as nat) as nat
}

/// Whether a text is made of decimal digits only.
pub open spec fn all_digits(s: Seq<char>) -> bool {
    forall|i: int| 0 <= i < s.len() ==> is_digit(#[trigger] s[i])
}

/// The number that a text of decimal digits denotes.
pub open spec fn digits_value(s: Seq<char>) -> nat
    decreases s.len(),
{
    if s.len() == 0 {
        0
    } else {
        digits_value(s.drop_last()) * 10 + digit_value(s.last())
    }
}

/// A text without its leading plus sign, if it has one.
pub open spec fn unsigned_part(s: Seq<char>) -> Seq<char> {
    if s.len() > 0 && s[0] == '+' {
        s.skip(1)
    } else {
        s
    }
}

/// The number that a text denotes: an optional plus sign, then at least one
/// decimal digit and nothing else, within the range of `usize`.
pub open spec fn parsed_usize(s: Seq<char>) -> Option<usize> {
    let digits = unsigned_part(s);
    if digits.len() > 0 && all_digits(digits) && digits_value(digits) <= usize::MAX {
        Some(digits_value(digits) as usize)
    } else {
        None
    }
}

/// A digit sequence denotes at least what any of its prefixes denotes.
proof fn lemma_digits_value_prefix(s: Seq<char>, n: int)
    requires
        0 <= n <= s.len(),
    ensures
        digits_value(s.take(n)) <= digits_value(s),
    decreases s.len(),
{
    if n < s.len() {
        assert(s.drop_last().take(n) =~= s.take(n));
        lemma_digits_value_prefix(s.drop_last(), n);
    } else {
        assert(s.take(n) =~= s);
    }
}

/// Reads a number, as [`parsed_usize`] says.
pub fn parse_usize(s: &str) -> (r: Option<usize>)
    ensures
        r == parsed_usize(s@),
{
    let chars = chars_of(s);
    let start: usize = if chars.len() > 0 && chars[0] == '+' {
        1
    } else {
        0
    };
    let ghost digits = unsigned_part(s@);
    assert(digits =~= chars@.skip(start as int));
    if start == chars.len() {
        return None;
    }
    let mut value: usize = 0;
    let mut i: usize = start;
    while i < chars.len()
        invariant
            start <= i <= chars@.len(),
            digits == chars@.skip(start as int),
            all_digits(digits.take(i - start)),
            value == digits_value(digits.take(i - start)),
            digits == unsigned_part(s@),
        decreases chars@.len() - i,
    {
        let c = chars[i];
        let ghost k = i - start;
        assert(c == digits[k]);
        assert(digits.take(k + 1).drop_last() =~= digits.take(k));
        assert(digits.take(k + 1).last() == c);
        if !(c >= '0' && c <= '9') {
            assert(!is_digit(digits[k]));
            return None;
        }
        let d: usize = (c as u32 - '0' as u32) as usize;
        proof {
            lemma_digits_value_prefix(digits, k + 1);
        }
        match value.checked_mul(10) {
            None => {
                return None;
            },
            Some(tens) => match tens.checked_add(d) {
                None => {
                    return None;
                },
                Some(next) => {
                    value = next;
                },
            },
        }
        assert forall|j: int| 0 <= j < digits.take(k + 1).len() implies is_digit(
            #[trigger] digits.take(k + 1)[j],
        ) by {
            if j < k {
                assert(digits.take(k + 1)[j] == digits.take(k)[j]);
            }
        }
        i += 1;
    }
    assert(digits.take(i - start) =~= digits);
    Some(value)
}

/// Decimal notation consists of digits and denotes the number it was made of.
pub proof fn lemma_decimal_digits(n: nat)
    ensures
        decimal(n).len() > 0,
        all_digits(decimal(n)),
        digits_value(decimal(n)) == n,
    decreases n,
{
    if n < 10 {
        let s = seq![digit_char(n)];
        assert(s.drop_last() =~= Seq::<char>::empty());
        assert(digits_value(s.drop_last()) == 0);
    } else {
        lemma_decimal_digits(n / 10);
        let s = decimal(n);
        assert(s.drop_last() =~= decimal(n / 10));
        assert forall|i: int| 0 <= i < s.len() implies is_digit(#[trigger] s[i]) by {
            if i < s.len() - 1 {
                assert(s[i] == decimal(n / 10)[i]);
            }
        }
    }
}

/// What is written in decimal is read back as the same number.
pub proof fn law_decimal_round_trip(n: usize)
    ensures
        parsed_usize(decimal(n as nat)) == Some(n),
{
    lemma_decimal_digits(n as nat);
    assert(is_digit(decimal(n as nat)[0]));
}

/// Different numbers have different decimal notations.
pub proof fn law_decimal_injective(m: nat, n: nat)
    requires
        decimal(m) == decimal(n),
    ensures
        m == n,
{
    lemma_decimal_digits(m);
    lemma_decimal_digits(n);
}

/// The white space characters of Unicode.
pub open spec fn is_white(c: char) -> bool {
    let n = c as u32;
    ||| 0x9 <= n <= 0xd
    ||| n == 0x20
    ||| n == 0x85
    ||| n == 0xa0
    ||| n == 0x1680
    ||| 0x2000 <= n <= 0x200a
    ||| n == 0x2028
    ||| n == 0x2029
    ||| n == 0x202f
    ||| n == 0x205f
    ||| n == 0x3000
}

/// Whether a character is white space.
pub fn is_whitespace(c: char) -> (r: bool)
    ensures
        r == is_white(c),
{
    let n: u32 = c as u32;
    (n >= 0x9 && n <= 0xd) || n == 0x20 || n == 0x85 || n == 0xa0 || n == 0x1680 || (n >= 0x2000
        && n <= 0x200a) || n == 0x2028 || n == 0x2029 || n == 0x202f || n == 0x205f || n == 0x3000
}

/// How many characters stand before the first white space.
pub open spec fn word_len(s: Seq<char>) -> nat
    decreases s.len(),
{
    if s.len() == 0 || is_white(s[0]) {
        0
    } else {
        1 + word_len(s.skip(1))
    }
}

proof fn lemma_word_len(s: Seq<char>, n: int)
    requires
        0 <= n <= s.len(),
        forall|i: int| 0 <= i < n ==> !is_white(#[trigger] s[i]),
        n < s.len() ==> is_white(s[n]),
    ensures
        word_len(s) == n,
    decreases n,
{
    if n > 0 {
        assert forall|i: int| 0 <= i < n - 1 implies !is_white(#[trigger] s.skip(1)[i]) by {
            assert(s.skip(1)[i] == s[i + 1]);
        }
        lemma_word_len(s.skip(1), n - 1);
    }
}

/// A word is no longer than the text that it begins.
pub proof fn lemma_word_len_bound(s: Seq<char>)
    ensures
        word_len(s) <= s.len(),
    decreases s.len(),
{
    if s.len() > 0 && !is_white(s[0]) {
        lemma_word_len_bound(s.skip(1));
    }
}

/// The pieces of a text between its white space, none of them empty.
pub open spec fn words(s: Seq<char>) -> Seq<Seq<char>>
    decreases s.len(),
{
    if s.len() == 0 {
        Seq::empty()
    } else if is_white(s[0]) {
        words(s.skip(1))
    } else {
        proof {
            lemma_word_len_bound(s);
        }
        seq![s.take(word_len(s) as int)] + words(s.skip(word_len(s) as int))
    }
}

/// What a list of texts holds.
pub open spec fn texts(v: Seq<String>) -> Seq<Seq<char>> {
    v.map_values(|t: String| t@)
}

/// Splits a text at white space.
pub fn split_whitespace(s: &str) -> (r: Vec<String>)
    ensures
        texts(r@) == words(s@),
{
    let chars = chars_of(s);
    let mut r: Vec<String> = Vec::new();
    let mut i: usize = 0;
    assert(s@.skip(0) =~= s@);
    assert(texts(r@) + words(s@) =~= words(s@));
    while i < chars.len()
        invariant
            i <= chars@.len(),
            chars@ == s@,
            texts(r@) + words(s@.skip(i as int)) == words(s@),
        decreases chars@.len() - i,
    {
        let ghost rest = s@.skip(i as int);
        assert(rest[0] == chars@[i as int]);
        if is_whitespace(chars[i]) {
            assert(rest.skip(1) =~= s@.skip(i + 1));
            i += 1;
        } else {
            let mut j: usize = i;
            while j < chars.len() && !is_whitespace(chars[j])
                invariant
                    i <= j <= chars@.len(),
                    chars@ == s@,
                    rest == s@.skip(i as int),
                    forall|k: int| 0 <= k < j - i ==> !is_white(#[trigger] rest[k]),
                decreases chars@.len() - j,
            {
                assert(rest[j - i] == chars@[j as int]);
                j += 1;
            }
            proof {
                if j < chars@.len() {
                    assert(rest[j - i] == chars@[j as int]);
                }
                lemma_word_len(rest, j - i);
            }
            assert(j > i);
            let word = s.substring_char(i, j).to_string();
            assert(word@ =~= rest.take(j - i));
            let ghost before = texts(r@);
            r.push(word);
            assert(texts(r@) =~= before.push(word@));
            assert(rest.skip(j - i) =~= s@.skip(j as int));
            assert(texts(r@) + words(s@.skip(j as int)) =~= before + (seq![word@] + words(
                s@.skip(j as int),
            )));
            i = j;
        }
    }
    assert(s@.skip(i as int) =~= Seq::<char>::empty());
    assert(texts(r@) + words(s@.skip(i as int)) =~= texts(r@));
    r
}

/// Whether a text is a single word.
pub open spec fn is_word(s: Seq<char>) -> bool {
    s.len() > 0 && forall|i: int| 0 <= i < s.len() ==> !is_white(#[trigger] s[i])
}

/// A word is the only word of its text.
pub proof fn lemma_words_single(word: Seq<char>)
    requires
        is_word(word),
    ensures
        words(word) == seq![word],
{
    lemma_word_len(word, word.len() as int);
    let rest = word.skip(word.len() as int);
    assert(word.take(word.len() as int) =~= word);
    assert(rest =~= Seq::<char>::empty());
    assert(words(rest) =~= Seq::<Seq<char>>::empty());
    assert(words(word) =~= seq![word]);
}

/// A word that a space follows is the first word of its text.
pub proof fn lemma_words_first(word: Seq<char>, rest: Seq<char>)
    requires
        is_word(word),
    ensures
        words(word + seq![' '] + rest) == seq![word] + words(rest),
{
    let s = word + seq![' '] + rest;
    let n = word.len() as int;
    assert forall|i: int| 0 <= i < n implies !is_white(#[trigger] s[i]) by {
        assert(s[i] == word[i]);
    }
    assert(s[n] == ' ');
    lemma_word_len(s, n);
    assert(s.take(n) =~= word);
    assert(s.skip(n)[0] == ' ');
    assert(s.skip(n).skip(1) =~= rest);
    assert(words(s.skip(n)) == words(rest));
}

/// The decimal notation of a number is a word.
pub proof fn lemma_decimal_word(n: nat)
    ensures
        is_word(decimal(n)),
{
    lemma_decimal_digits(n);
    assert forall|i: int| 0 <= i < decimal(n).len() implies !is_white(#[trigger] decimal(n)[i]) by {
        assert(is_digit(decimal(n)[i]));
    }
}

/// A text without the slashes at its end.
pub open spec fn without_end_slashes(s: Seq<char>) -> Seq<char>
    decreases s.len(),
{
    if s.len() > 0 && s.last() == '/' {
        without_end_slashes(s.drop_last())
    } else {
        s
    }
}

/// Removes the slashes at the end of a text.
pub fn trim_end_slashes(s: &str) -> (r: String)
    ensures
        r@ == without_end_slashes(s@),
{
    let chars = chars_of(s);
    let mut n: usize = chars.len();
    assert(s@.take(n as int) =~= s@);
    while n > 0 && chars[n - 1] == '/'
        invariant
            n <= chars@.len(),
            chars@ == s@,
            without_end_slashes(s@.take(n as int)) == without_end_slashes(s@),
        decreases n,
    {
        assert(s@.take(n as int).last() == '/');
        assert(s@.take(n as int).drop_last() =~= s@.take(n - 1));
        n -= 1;
    }
    proof {
        if n > 0 {
            assert(s@.take(n as int).last() == chars@[n - 1]);
        }
    }
    assert(s@.subrange(0, n as int) =~= s@.take(n as int));
    s.substring_char(0, n).to_string()
}

/// Adding a slash at the end of a text makes no difference once the slashes at
/// its end are removed.
pub proof fn lemma_end_slash_ignored(s: Seq<char>)
    ensures
        without_end_slashes(s.push('/')) == without_end_slashes(s),
{
    assert(s.push('/').drop_last() =~= s);
}

/// Slashes at the end are all removed at once.
pub proof fn lemma_end_slashes_once(s: Seq<char>)
    ensures
        without_end_slashes(without_end_slashes(s)) == without_end_slashes(s),
    decreases s.len(),
{
    if s.len() > 0 && s.last() == '/' {
        lemma_end_slashes_once(s.drop_last());
    }
}

/// Whether a text begins with another.
pub open spec fn begins_with(s: Seq<char>, prefix: Seq<char>) -> bool {
    prefix.len() <= s.len() && s.take(prefix.len() as int) == prefix
}

/// A text in which every occurrence of a pattern, taken from left to right
/// without overlap, is replaced.
pub open spec fn replaced(s: Seq<char>, pattern: Seq<char>, by: Seq<char>) -> Seq<char>
    decreases s.len(),
{
    if s.len() == 0 || pattern.len() == 0 {
        s
    } else if begins_with(s, pattern) {
        by + replaced(s.skip(pattern.len() as int), pattern, by)
    } else {
        seq![s[0]] + replaced(s.skip(1), pattern, by)
    }
}

fn occurs_at(chars: &Vec<char>, at: usize, pattern: &Vec<char>) -> (r: bool)
    requires
        at <= chars@.len(),
    ensures
        r == begins_with(chars@.skip(at as int), pattern@),
{
    let ghost rest = chars@.skip(at as int);
    let n: usize = chars.len();
    if pattern.len() > n - at {
        return false;
    }
    let mut k: usize = 0;
    while k < pattern.len()
        invariant
            k <= pattern@.len(),
            n == chars@.len(),
            at + pattern@.len() <= n,
            rest == chars@.skip(at as int),
            forall|j: int| 0 <= j < k ==> rest[j] == #[trigger] pattern@[j],
        decreases pattern@.len() - k,
    {
        if chars[at + k] != pattern[k] {
            assert(rest.take(pattern@.len() as int)[k as int] != pattern@[k as int]);
            return false;
        }
        k += 1;
    }
    assert(rest.take(pattern@.len() as int) =~= pattern@);
    true
}

/// Replaces every occurrence of a pattern in a text.
pub fn replace(s: &str, pattern: &str, by: &str) -> (r: String)
    requires
        pattern@.len() > 0,
    ensures
        r@ == replaced(s@, pattern@, by@),
{
    let chars = chars_of(s);
    let pat = chars_of(pattern);
    let mut r = String::new();
    let mut i: usize = 0;
    assert(s@.skip(0) =~= s@);
    assert(r@ + replaced(s@, pattern@, by@) =~= replaced(s@, pattern@, by@));
    while i < chars.len()
        invariant
            i <= chars@.len(),
            chars@ == s@,
            pat@ == pattern@,
            pattern@.len() > 0,
            r@ + replaced(s@.skip(i as int), pattern@, by@) == replaced(s@, pattern@, by@),
        decreases chars@.len() - i,
    {
        let ghost rest = s@.skip(i as int);
        let ghost before = r@;
        if occurs_at(&chars, i, &pat) {
            r.append(by);
            assert(rest.skip(pattern@.len() as int) =~= s@.skip(i + pattern@.len()));
            assert(r@ + replaced(s@.skip(i + pattern@.len()), pattern@, by@) =~= before + (by@
                + replaced(s@.skip(i + pattern@.len()), pattern@, by@)));
            i += pat.len();
        } else {
            let piece = s.substring_char(i, i + 1);
            r.append(piece);
            assert(piece@ =~= seq![rest[0]]);
            assert(rest.skip(1) =~= s@.skip(i + 1));
            assert(r@ + replaced(s@.skip(i + 1), pattern@, by@) =~= before + (seq![rest[0]]
                + replaced(s@.skip(i + 1), pattern@, by@)));
            i += 1;
        }
    }
    assert(s@.skip(i as int) =~= Seq::<char>::empty());
    assert(r@ + replaced(s@.skip(i as int), pattern@, by@) =~= r@);
    r
}

/// A pattern that does not hold a separator occurs on either side of the
/// separator, never across it.
pub proof fn lemma_replaced_around(
    a: Seq<char>,
    separator: char,
    b: Seq<char>,
    pattern: Seq<char>,
    by: Seq<char>,
)
    requires
        !pattern.contains(separator),
    ensures
        replaced(a + seq![separator] + b, pattern, by) == replaced(a, pattern, by) + seq![separator]
            + replaced(b, pattern, by),
    decreases a.len(),
{
    let s = a + seq![separator] + b;
    if pattern.len() == 0 {
    } else if a.len() == 0 {
        assert(s[0] == separator);
        if begins_with(s, pattern) {
            assert(pattern[0] == s.take(pattern.len() as int)[0]);
            assert(pattern.contains(separator));
        }
        assert(s.skip(1) =~= b);
        assert(replaced(a, pattern, by) =~= Seq::<char>::empty());
        assert(replaced(s, pattern, by) =~= replaced(a, pattern, by) + seq![separator] + replaced(
            b,
            pattern,
            by,
        ));
    } else if begins_with(a, pattern) {
        let n = pattern.len() as int;
        assert(s.take(n) =~= a.take(n));
        assert(s.skip(n) =~= a.skip(n) + seq![separator] + b);
        lemma_replaced_around(a.skip(n), separator, b, pattern, by);
        assert(replaced(s, pattern, by) =~= replaced(a, pattern, by) + seq![separator] + replaced(
            b,
            pattern,
            by,
        ));
    } else {
        let n = pattern.len() as int;
        if begins_with(s, pattern) {
            if n <= a.len() {
                assert(s.take(n) =~= a.take(n));
            } else {
                assert(pattern[a.len() as int] == s.take(n)[a.len() as int]);
                assert(pattern.contains(separator));
            }
        }
        assert(s.skip(1) =~= a.skip(1) + seq![separator] + b);
        lemma_replaced_around(a.skip(1), separator, b, pattern, by);
        assert(replaced(s, pattern, by) =~= replaced(a, pattern, by) + seq![separator] + replaced(
            b,
            pattern,
            by,
        ));
    }
}

/// A text that lacks a character of the pattern is not changed by replacing it.
pub proof fn lemma_replaced_absent(s: Seq<char>, pattern: Seq<char>, by: Seq<char>, c: char)
    requires
        pattern.contains(c),
        !s.contains(c),
    ensures
        replaced(s, pattern, by) == s,
    decreases s.len(),
{
    if s.len() > 0 {
        if begins_with(s, pattern) {
            let i = choose|i: int| 0 <= i < pattern.len() && pattern[i] == c;
            assert(s[i] == s.take(pattern.len() as int)[i]);
            assert(s.contains(c));
        }
        let rest = s.skip(1);
        if rest.contains(c) {
            let i = choose|i: int| 0 <= i < rest.len() && rest[i] == c;
            assert(s[i + 1] == c);
        }
        lemma_replaced_absent(rest, pattern, by, c);
        assert(replaced(s, pattern, by) =~= s);
    }
}

/// Replacing brings in no character that neither the text nor the replacement
/// holds.
pub proof fn lemma_replaced_lacks(s: Seq<char>, pattern: Seq<char>, by: Seq<char>, c: char)
    requires
        !s.contains(c),
        !by.contains(c),
    ensures
        !replaced(s, pattern, by).contains(c),
    decreases s.len(),
{
    if s.len() > 0 && pattern.len() > 0 {
        let (head, n) = if begins_with(s, pattern) {
            (by, pattern.len() as int)
        } else {
            (seq![s[0]], 1int)
        };
        let rest = s.skip(n);
        if rest.contains(c) {
            let i = choose|i: int| 0 <= i < rest.len() && rest[i] == c;
            assert(s[i + n] == c);
        }
        lemma_replaced_lacks(rest, pattern, by, c);
        let r = replaced(s, pattern, by);
        let tail = replaced(rest, pattern, by);
        assert(r == head + tail);
        if r.contains(c) {
            let i = choose|i: int| 0 <= i < r.len() && r[i] == c;
            if i < head.len() {
                assert(head[i] == c);
                assert(head.contains(c));
            } else {
                assert(tail[i - head.len()] == c);
            }
        }
    }
}

/// A text is split at the first separator in one way only.
pub proof fn lemma_split_unique(
    a: Seq<char>,
    b: Seq<char>,
    c: Seq<char>,
    d: Seq<char>,
    separator: char,
)
    requires
        !a.contains(separator),
        !c.contains(separator),
        a + seq![separator] + b == c + seq![separator] + d,
    ensures
        a == c,
        b == d,
{
    let s = a + seq![separator] + b;
    let t = c + seq![separator] + d;
    if a.len() < c.len() {
        assert(s[a.len() as int] == separator);
        assert(t[a.len() as int] == c[a.len() as int]);
    } else if c.len() < a.len() {
        assert(t[c.len() as int] == separator);
        assert(s[c.len() as int] == a[c.len() as int]);
    } else {
        assert forall|i: int| 0 <= i < a.len() implies a[i] == c[i] by {
            assert(s[i] == a[i]);
            assert(t[i] == c[i]);
        }
        assert(a =~= c);
        assert(s.len() == t.len());
        assert forall|i: int| 0 <= i < b.len() implies b[i] == d[i] by {
            assert(s[i + a.len() + 1] == b[i]);
            assert(t[i + a.len() + 1] == d[i]);
        }
        assert(b =~= d);
    }
}

/// A text without the given character.
pub open spec fn without_char(s: Seq<char>, c: char) -> Seq<char> {
    s.filter(|x: char| x != c)
}

/// Removes every occurrence of a character.
pub fn remove_char(s: &str, c: char) -> (r: String)
    ensures
        r@ == without_char(s@, c),
{
    let chars = chars_of(s);
    let mut r = String::new();
    let mut i: usize = 0;
    proof {
        reveal(Seq::filter);
    }
    assert(without_char(s@.take(0), c) =~= Seq::<char>::empty());
    while i < chars.len()
        invariant
            i <= chars@.len(),
            chars@ == s@,
            r@ == without_char(s@.take(i as int), c),
        decreases chars@.len() - i,
    {
        proof {
            reveal(Seq::filter);
        }
        assert(s@.take(i + 1).drop_last() =~= s@.take(i as int));
        if chars[i] != c {
            let piece = s.substring_char(i, i + 1);
            assert(piece@ =~= seq![s@[i as int]]);
            let ghost before = r@;
            r.append(piece);
            assert(r@ =~= before.push(s@[i as int]));
        }
        i += 1;
    }
    assert(s@.take(i as int) =~= s@);
    r
}

/// The first `n` characters of a text, or all of them where there are fewer.
pub open spec fn first_chars(s: Seq<char>, n: nat) -> Seq<char> {
    if s.len() <= n {
        s
    } else {
        s.take(n as int)
    }
}

/// Cuts a text after `n` characters.
pub fn take_chars(s: &str, n: usize) -> (r: String)
    ensures
        r@ == first_chars(s@, n as nat),
{
    if s.unicode_len() <= n {
        s.to_string()
    } else {
        assert(s@.subrange(0, n as int) =~= s@.take(n as int));
        s.substring_char(0, n).to_string()
    }
}

/// The given pieces with a separator between each two of them.
pub open spec fn joined(pieces: Seq<Seq<char>>, separator: Seq<char>) -> Seq<char>
    decreases pieces.len(),
{
    if pieces.len() == 0 {
        Seq::empty()
    } else if pieces.len() == 1 {
        pieces[0]
    } else {
        joined(pieces.drop_last(), separator) + separator + pieces.last()
    }
}

/// Joins texts with a separator.
pub fn join(pieces: &Vec<String>, separator: &str) -> (r: String)
    ensures
        r@ == joined(texts(pieces@), separator@),
{
    let mut r = String::new();
    let mut i: usize = 0;
    let ghost all = texts(pieces@);
    assert(all.take(0) =~= Seq::<Seq<char>>::empty());
    while i < pieces.len()
        invariant
            i <= pieces@.len(),
            all == texts(pieces@),
            r@ == joined(all.take(i as int), separator@),
        decreases pieces@.len() - i,
    {
        let ghost next = all.take(i + 1);
        assert(next.drop_last() =~= all.take(i as int));
        assert(next.last() == pieces@[i as int]@);
        if i > 0 {
            r.append(separator);
        }
        r.append(pieces[i].as_str());
        proof {
            if i == 0 {
                assert(r@ =~= next[0]);
            }
        }
        i += 1;
    }
    assert(all.take(i as int) =~= all);
    r
}

/// How an optional number is shown in a cache key.
pub open spec fn shown_option(n: Option<usize>) -> Seq<char> {
    match n {
        Some(v) => "Some("@ + decimal(v as nat) + ")"@,
        None => "None"@,
    }
}

/// Writes an optional number.
pub fn option_text(n: Option<usize>) -> (r: String)
    ensures
        r@ == shown_option(n),
{
    match n {
        Some(v) => "Some(".to_string().concat(decimal_text(v as u128).as_str()).concat(")"),
        None => "None".to_string(),
    }
}

/// An optional number is shown without separators and without the letter x.
pub proof fn lemma_shown_option(n: Option<usize>, c: char)
    requires
        c == '|' || c == 'x',
    ensures
        !shown_option(n).contains(c),
{
    reveal_strlit("Some(");
    reveal_strlit(")");
    reveal_strlit("None");
    match n {
        Some(v) => {
            lemma_decimal_digits(v as nat);
            let d = decimal(v as nat);
            let s = shown_option(n);
            assert forall|i: int| 0 <= i < s.len() implies s[i] != c by {
                if 5 <= i < 5 + d.len() {
                    assert(s[i] == d[i - 5]);
                    assert(is_digit(d[i - 5]));
                }
            }
        },
        None => {},
    }
}

/// Different optional numbers are shown differently.
pub proof fn law_shown_option_injective(m: Option<usize>, n: Option<usize>)
    requires
        shown_option(m) == shown_option(n),
    ensures
        m == n,
{
    reveal_strlit("Some(");
    reveal_strlit(")");
    reveal_strlit("None");
    let s = shown_option(m);
    match (m, n) {
        (Some(a), Some(b)) => {
            let x = decimal(a as nat);
            let y = decimal(b as nat);
            assert(s.len() == 5 + x.len() + 1);
            assert(shown_option(n).len() == 5 + y.len() + 1);
            assert(x =~= s.subrange(5, s.len() - 1));
            assert(y =~= shown_option(n).subrange(5, s.len() - 1));
            law_decimal_injective(a as nat, b as nat);
        },
        (Some(_), None) => {
            assert(s[0] == 'S');
            assert(shown_option(n)[0] == 'N');
        },
        (None, Some(_)) => {
            assert(s[0] == 'N');
            assert(shown_option(n)[0] == 'S');
        },
        (None, None) => {},
    }
}

/// Decimal notation has no leading zeros, and its last character is the last
/// digit.
pub proof fn law_decimal_shortest(n: nat)
    ensures
        n > 0 ==> decimal(n)[0] != '0',
        n < 10 ==> decimal(n).len() == 1,
        decimal(n).last() as nat == '0' as nat + n % 10,
    decreases n,
{
    if n >= 10 {
        law_decimal_shortest(n / 10);
        lemma_decimal_digits(n / 10);
        assert(decimal(n)[0] == decimal(n / 10)[0]);
    }
}

/// A negative number is written as a minus sign and what is written for its
/// opposite.
pub proof fn law_signed_decimal(n: nat)
    ensures
        signed_decimal(n as int) == decimal(n),
        n > 0 ==> signed_decimal(-(n as int)) == seq!['-'] + decimal(n),
{
}

/// What is read as a number consists of digits, at least one, behind at most one
/// plus sign.
pub proof fn law_parsed_are_digits(s: Seq<char>, i: int)
    requires
        parsed_usize(s) is Some,
        0 <= i < s.len(),
    ensures
        '0' <= s[i] <= '9' || (i == 0 && s[0] == '+' && s.len() > 1),
        s.len() > 0,
{
    if s[0] == '+' {
        if i > 0 {
            assert(is_digit(s.skip(1)[i - 1]));
        }
    } else {
        assert(is_digit(s[i]));
    }
}

/// Leading zeros and a plus sign make no difference to the number that is read.
pub proof fn law_parsed_prefixes(s: Seq<char>)
    requires
        s.len() > 0,
        '0' <= s[0] <= '9',
    ensures
        parsed_usize(seq!['0'] + s) == parsed_usize(s),
        parsed_usize(seq!['+'] + s) == parsed_usize(s),
{
    assert((seq!['+'] + s).skip(1) =~= s);
    lemma_zero_first(s);
    let z = seq!['0'] + s;
    assert(z[0] == '0');
    if all_digits(s) {
        assert forall|i: int| 0 <= i < z.len() implies is_digit(#[trigger] z[i]) by {
            if i > 0 {
                assert(z[i] == s[i - 1]);
            }
        }
    }
    if all_digits(z) {
        assert forall|i: int| 0 <= i < s.len() implies is_digit(#[trigger] s[i]) by {
            assert(z[i + 1] == s[i]);
        }
    }
}

proof fn lemma_zero_first(s: Seq<char>)
    ensures
        digits_value(seq!['0'] + s) == digits_value(s),
    decreases s.len(),
{
    let z = seq!['0'] + s;
    if s.len() == 0 {
        assert(z.drop_last() =~= Seq::<char>::empty());
        assert(digits_value(z.drop_last()) == 0);
    } else {
        assert(z.drop_last() =~= seq!['0'] + s.drop_last());
        lemma_zero_first(s.drop_last());
    }
}

/// A number that is too large is not read.
pub proof fn law_parsed_too_large(n: nat)
    requires
        n > usize::MAX,
    ensures
        parsed_usize(decimal(n)) is None,
{
    lemma_decimal_digits(n);
    assert(is_digit(decimal(n)[0]));
}

/// White space before a word and between words separates them and is no part of
/// them.
pub proof fn law_words_separated(word: Seq<char>, space: char, rest: Seq<char>)
    requires
        is_white(space),
    ensures
        words(Seq::<char>::empty()).len() == 0,
        words(seq![space] + rest) == words(rest),
        is_word(word) ==> words(word) == seq![word],
        is_word(word) ==> words(word + seq![space] + rest) == seq![word] + words(rest),
{
    let t = seq![space] + rest;
    assert(t.skip(1) =~= rest);
    assert(words(t) == words(rest));
    if is_word(word) {
        lemma_words_single(word);
        let s = word + seq![space] + rest;
        let n = word.len() as int;
        assert forall|i: int| 0 <= i < n implies !is_white(#[trigger] s[i]) by {
            assert(s[i] == word[i]);
        }
        assert(s[n] == space);
        lemma_word_len(s, n);
        assert(s.take(n) =~= word);
        assert(s.skip(n) =~= t);
    }
}

/// What is left of a path without the slashes at its end does not end with one,
/// and only slashes were removed.
pub proof fn law_end_slashes(s: Seq<char>)
    ensures
        ({
            let r = without_end_slashes(s);
            &&& r.len() <= s.len()
            &&& s.take(r.len() as int) == r
            &&& r.len() > 0 ==> r.last() != '/'
            &&& forall|i: int| r.len() <= i < s.len() ==> (#[trigger] s[i]) == '/'
        }),
    decreases s.len(),
{
    if s.len() > 0 && s.last() == '/' {
        let t = s.drop_last();
        law_end_slashes(t);
        let r = without_end_slashes(s);
        assert(s.take(r.len() as int) =~= t.take(r.len() as int));
        assert forall|i: int| r.len() <= i < s.len() implies (#[trigger] s[i]) == '/' by {
            if i < t.len() {
                assert(t[i] == s[i]);
            }
        }
    } else {
        assert(s.take(s.len() as int) =~= s);
    }
}

/// Where a pattern begins a text it is replaced, and the search goes on behind it;
/// where it does not, the first character stays, and the search goes on behind
/// that.
pub proof fn law_replaced_in_turn(
    s: Seq<char>,
    c: char,
    pattern: Seq<char>,
    by: Seq<char>,
)
    requires
        pattern.len() > 0,
    ensures
        replaced(Seq::<char>::empty(), pattern, by).len() == 0,
        replaced(pattern + s, pattern, by) == by + replaced(s, pattern, by),
        !pattern.is_prefix_of(seq![c] + s) ==> replaced(seq![c] + s, pattern, by) == seq![c]
            + replaced(s, pattern, by),
{
    let t = pattern + s;
    let n = pattern.len() as int;
    assert(t.take(n) =~= pattern);
    assert(t.skip(n) =~= s);
    let u = seq![c] + s;
    assert(u.skip(1) =~= s);
    assert(u[0] == c);
    if begins_with(u, pattern) {
        assert(u.take(n) =~= u.subrange(0, n));
        assert(pattern.is_prefix_of(u));
    }
}

/// Removing a character removes it everywhere and nothing else: texts are treated
/// character by character.
pub proof fn law_without_char(s: Seq<char>, x: char, c: char)
    ensures
        without_char(Seq::<char>::empty(), c).len() == 0,
        x != c ==> without_char(s.push(x), c) == without_char(s, c).push(x),
        without_char(s.push(c), c) == without_char(s, c),
        !without_char(s, c).contains(c),
    decreases s.len(),
{
    reveal(Seq::filter);
    assert(s.push(x).drop_last() =~= s);
    assert(s.push(c).drop_last() =~= s);
    if s.len() > 0 {
        law_without_char(s.drop_last(), x, c);
        let before = without_char(s.drop_last(), c);
        let r = without_char(s, c);
        if r.contains(c) {
            let i = choose|i: int| 0 <= i < r.len() && r[i] == c;
            assert(i < before.len() ==> before[i] == c);
        }
    }
}

/// A text that is cut is cut to the given number of characters from its beginning;
/// a text that is no longer stays as it is.
pub proof fn law_first_chars(s: Seq<char>, n: nat)
    ensures
        first_chars(s, n).is_prefix_of(s),
        s.len() <= n ==> first_chars(s, n) == s,
        s.len() > n ==> first_chars(s, n).len() == n,
{
    let r = first_chars(s, n);
    assert(r =~= s.subrange(0, r.len() as int));
}

/// Texts are joined with the separator between each two, and nowhere else.
pub proof fn law_joined(pieces: Seq<Seq<char>>, last: Seq<char>, separator: Seq<char>)
    ensures
        joined(Seq::<Seq<char>>::empty(), separator).len() == 0,
        joined(seq![last], separator) == last,
        pieces.len() > 0 ==> joined(pieces.push(last), separator) == joined(pieces, separator)
            + separator + last,
{
    assert(pieces.push(last).drop_last() =~= pieces);
}

} // verus!
