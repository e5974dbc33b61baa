//! Reading numbers and flags from text.

use vstd::prelude::*;

verus! {

/// ASCII decimal digit.
pub open spec fn is_digit(b: u8) -> bool {
    48 <= b <= 57
}

/// All bytes are decimal digits.
pub open spec fn all_digits(s: Seq<u8>) -> bool {
    forall|i: int| 0 <= i < s.len() ==> is_digit(#[trigger] s[i])
}

/// The number with the given decimal digits.
pub open spec fn digits_value(s: Seq<u8>) -> nat
    decreases s.len(),
{
    if s.len() == 0 {
        0
    } else {
        10 * digits_value(s.drop_last()) + (s.last() - 48) as nat
    }
}

/// The digits of a decimal number: what follows an optional plus sign.
pub open spec fn number_digits(s: Seq<u8>) -> Seq<u8> {
    if s.len() > 0 && s[0] == 43 {
        s.drop_first()
    } else {
        s
    }
}

/// The number that a decimal numeral denotes, where it is one and at most `max`.
pub open spec fn numeral_value(s: Seq<u8>, max: nat) -> Option<nat> {
    let d = number_digits(s);
    if d.len() > 0 && all_digits(d) && digits_value(d) <= max {
        Some(digits_value(d))
    } else {
        None
    }
}

/// A longer run of digits denotes no smaller number.
pub proof fn lemma_prefix_value(s: Seq<u8>, n: int)
    requires
        0 <= n <= s.len(),
        all_digits(s),
    ensures
        digits_value(s.take(n)) <= digits_value(s),
    decreases s.len(),
{
    if n < s.len() {
        let t = s.drop_last();
        assert(is_digit(s.last()));
        assert forall|i: int| 0 <= i < t.len() implies is_digit(#[trigger] t[i]) by {
            assert(t[i] == s[i]);
        }
        lemma_prefix_value(t, n);
        assert(t.take(n) =~= s.take(n));
    } else {
        assert(s.take(n) =~= s);
    }
}

/// Read a run of digits as a number of at most `max`.
pub fn parse_digits(d: &[u8], max: u64) -> (r: Option<u64>)
    ensures
        r == (if d@.len() > 0 && all_digits(d@) && digits_value(d@) <= max {
            Some(digits_value(d@) as u64)
        } else {
            None
        }),
{
    if d.len() == 0 {
        return None;
    }
    let mut value: u64 = 0;
    let mut i: usize = 0;
    assert(digits_value(d@.take(0)) == 0);
    while i < d.len()
        invariant
            i <= d.len(),
            d@.len() > 0,
            forall|j: int| 0 <= j < i ==> is_digit(#[trigger] d@[j]),
            value == digits_value(d@.take(i as int)),
            value <= max,
        decreases d.len() - i,
    {
        let b: u8 = d[i];
        if b < 48 || b > 57 {
            assert(!is_digit(d@[i as int]));
            return None;
        }
        let digit: u64 = (b - 48) as u64;
        proof {
            let t = d@.take(i + 1);
            assert(t.drop_last() =~= d@.take(i as int));
            assert(t.last() == b);
            assert(digits_value(t) == 10 * value + digit);
        }
        if digit > max || value > (max - digit) / 10 {
            proof {
                assert(10 * value + digit > max);
                if all_digits(d@) {
                    lemma_prefix_value(d@, i + 1);
                }
            }
            return None;
        }
        value = 10 * value + digit;
        i += 1;
    }
    assert(d@.take(d@.len() as int) =~= d@);
    Some(value)
}

/// Read a decimal numeral of at most `max`.
pub fn parse_numeral(text: &str, max: u64) -> (r: Option<u64>)
    ensures
        match r {
            Some(n) => numeral_value(vstd::utf8::encode_utf8(text@), max as nat) == Some(n as nat),
            None => numeral_value(vstd::utf8::encode_utf8(text@), max as nat) is None,
        },
{
    let s: &[u8] = text.as_bytes();
    if s.len() > 0 && s[0] == 43 {
        let d = vstd::slice::slice_subrange(s, 1, s.len());
        assert(d@ =~= s@.drop_first());
        parse_digits(d, max)
    } else {
        parse_digits(s, max)
    }
}

/// Unicode white space.
pub open spec fn is_space(c: char) -> bool {
    let n = c as u32;
    ||| 0x9 <= n <= 0xd
    ||| n == 0x20
    ||| n == 0x85
    ||| n == 0xa0
    ||| n == 0x1680
    ||| 0x2000 <= n <= 0x200a
    ||| n == 0x2028
    ||| n == 0x2029
    ||| n == 0x202f
    ||| n == 0x205f
    ||| n == 0x3000
}

/// Whether a character is Unicode white space.
pub fn is_white_space(c: char) -> (b: bool)
    ensures
        b == is_space(c),
{
    let n: u32 = c as u32;
    (0x9 <= n && n <= 0xd) || n == 0x20 || n == 0x85 || n == 0xa0 || n == 0x1680 || (0x2000 <= n
        && n <= 0x200a) || n == 0x2028 || n == 0x2029 || n == 0x202f || n == 0x205f || n == 0x3000
}

/// Without leading white space.
pub open spec fn trim_front(s: Seq<char>) -> Seq<char>
    decreases s.len(),
{
    if s.len() > 0 && is_space(s[0]) {
        trim_front(s.drop_first())
    } else {
        s
    }
}

/// Without trailing white space.
pub open spec fn trim_back(s: Seq<char>) -> Seq<char>
    decreases s.len(),
{
    if s.len() > 0 && is_space(s.last()) {
        trim_back(s.drop_last())
    } else {
        s
    }
}

/// Without white space at either end.
pub open spec fn trimmed(s: Seq<char>) -> Seq<char> {
    trim_back(trim_front(s))
}

/// ASCII upper-case letters lowered, others kept.
pub open spec fn lower_char(c: char) -> char {
    if 65 <= c as u32 <= 90 {
        ((c as u32) + 32) as char
    } else {
        c
    }
}

/// ASCII upper-case letters lowered, others kept.
pub open spec fn lowered(s: Seq<char>) -> Seq<char> {
    s.map_values(|c: char| lower_char(c))
}

/// The characters of a text.
pub fn chars_of(text: &str) -> (v: Vec<char>)
    ensures
        v@ == text@,
{
    let n: usize = text.unicode_len();
    let mut v: Vec<char> = Vec::new();
    let mut i: usize = 0;
    while i < n
        invariant
            i <= n,
            n == text@.len(),
            v@ == text@.take(i as int),
        decreases n - i,
    {
        v.push(text.get_char(i));
        assert(v@ =~= text@.take(i + 1));
        i += 1;
    }
    assert(v@ =~= text@);
    v
}

/// The characters without white space at either end.
pub fn trim_chars(v: &Vec<char>) -> (r: Vec<char>)
    ensures
        r@ == trimmed(v@),
{
    let mut a: usize = 0;
    assert(v@.skip(0) =~= v@);
    while a < v.len() && is_white_space(v[a])
        invariant
            a <= v.len(),
            trim_front(v@) == trim_front(v@.skip(a as int)),
        decreases v.len() - a,
    {
        assert(v@.skip(a as int).drop_first() =~= v@.skip(a + 1));
        a += 1;
    }
    let mut b: usize = v.len();
    assert(v@.subrange(a as int, b as int) =~= v@.skip(a as int));
    while b > a && is_white_space(v[b - 1])
        invariant
            a <= b <= v.len(),
            trimmed(v@) == trim_back(v@.subrange(a as int, b as int)),
        decreases b,
    {
        assert(v@.subrange(a as int, b as int).drop_last() =~= v@.subrange(a as int, b - 1));
        b -= 1;
    }
    let mut r: Vec<char> = Vec::new();
    let mut i: usize = a;
    while i < b
        invariant
            a <= i <= b <= v.len(),
            r@ == v@.subrange(a as int, i as int),
        decreases b - i,
    {
        r.push(v[i]);
        assert(r@ =~= v@.subrange(a as int, i + 1));
        i += 1;
    }
    r
}

/// Whether characters, ASCII letters lowered, spell `word`.
pub fn spells(v: &Vec<char>, word: &str) -> (b: bool)
    ensures
        b == (lowered(v@) == word@),
{
    let n: usize = word.unicode_len();
    if v.len() != n {
        return false;
    }
    let mut i: usize = 0;
    while i < n
        invariant
            i <= n,
            n == v.len(),
            n == word@.len(),
            forall|j: int| 0 <= j < i ==> lower_char(#[trigger] v@[j]) == word@[j],
        decreases n - i,
    {
        let c: char = v[i];
        let w: char = word.get_char(i);
        let code: u32 = c as u32;
        let want: u32 = w as u32;
        let low: u32 = if 65 <= code && code <= 90 {
            code + 32
        } else {
            code
        };
        if low != want {
            assert(lowered(v@)[i as int] == lower_char(v@[i as int]));
            assert(lowered(v@)[i as int] as u32 == low);
            return false;
        }
        assert(lower_char(v@[i as int]) == word@[i as int]);
        i += 1;
    }
    assert(lowered(v@) =~= word@);
    true
}

/// The flag that a text denotes, white space and case aside.
pub open spec fn flag_value(s: Seq<char>) -> Option<bool> {
    let w = lowered(trimmed(s));
    if w == "true"@ || w == "1"@ || w == "yes"@ {
        Some(true)
    } else if w == "false"@ || w == "0"@ || w == "no"@ {
        Some(false)
    } else {
        None
    }
}

/// Read a flag.
pub fn parse_flag(text: &str) -> (r: Option<bool>)
    ensures
        r == flag_value(text@),
{
    let v = chars_of(text);
    let w = trim_chars(&v);
    if spells(&w, "true") || spells(&w, "1") || spells(&w, "yes") {
        Some(true)
    } else if spells(&w, "false") || spells(&w, "0") || spells(&w, "no") {
        Some(false)
    } else {
        None
    }
}

/// The decimal notation of a number is read as that number where it is at most the bound,
/// with or without a plus sign, and is refused where it is more.
pub proof fn numerals_are_read_back(n: nat, max: nat)
    ensures
        n <= max ==> numeral_value(crate::text::decimal_bytes(n), max) == Some(n),
        n <= max ==> numeral_value(seq![43u8] + crate::text::decimal_bytes(n), max) == Some(n),
        n > max ==> numeral_value(crate::text::decimal_bytes(n), max) is None,
{
    let s = crate::text::decimal_bytes(n);
    notations_denote_their_number(n);
    assert(is_digit(s[0]));
    assert((seq![43u8] + s).drop_first() =~= s);
}

/// The decimal notation of a number has digits alone, and they denote the number.
pub proof fn notations_denote_their_number(n: nat)
    ensures
        crate::text::decimal_bytes(n).len() > 0,
        all_digits(crate::text::decimal_bytes(n)),
        digits_value(crate::text::decimal_bytes(n)) == n,
    decreases n,
{
    let s = crate::text::decimal_bytes(n);
    let d = crate::text::decimal_digits(n);
    crate::text::decimal_digits_denote_the_number(n);
    assert forall|i: int| 0 <= i < s.len() implies is_digit(#[trigger] s[i]) by {
        assert(d[i] < 10);
    }
    if n >= 10 {
        notations_denote_their_number(n / 10);
        assert(s.drop_last() =~= crate::text::decimal_bytes(n / 10));
        assert(s.last() == (48 + n % 10) as u8);
    } else {
        assert(s =~= seq![(48 + n) as u8]);
        assert(digits_value(s.drop_last()) == 0);
    }
}

/// A text with anything but digits behind its first character, or with a first character
/// that is neither a digit nor a plus sign, or without a digit, is no number.
pub proof fn other_texts_are_no_numerals(s: Seq<u8>, max: nat, i: int)
    ensures
        0 < i < s.len() && !(48 <= s[i] <= 57) ==> numeral_value(s, max) is None,
        s.len() > 0 && s[0] != 43 && !(48 <= s[0] <= 57) ==> numeral_value(s, max) is None,
        s.len() == 0 ==> numeral_value(s, max) is None,
        s == seq![43u8] ==> numeral_value(s, max) is None,
{
    let d = number_digits(s);
    if 0 < i < s.len() && !(48 <= s[i] <= 57) {
        if s[0] == 43 {
            assert(d[i - 1] == s[i]);
        } else {
            assert(d[i] == s[i]);
        }
    }
    if s.len() > 0 && s[0] != 43 && !(48 <= s[0] <= 57) {
        assert(d[0] == s[0]);
    }
}

proof fn lemma_trim_front(s: Seq<char>) -> (a: int)
    ensures
        0 <= a <= s.len(),
        trim_front(s) == s.skip(a),
        forall|i: int| 0 <= i < a ==> is_space(#[trigger] s[i]),
        a < s.len() ==> !is_space(s[a]),
    decreases s.len(),
{
    if s.len() > 0 && is_space(s[0]) {
        let rest = s.drop_first();
        let a = lemma_trim_front(rest);
        assert(rest.skip(a) =~= s.skip(a + 1));
        assert forall|i: int| 0 <= i < a + 1 implies is_space(#[trigger] s[i]) by {
            if i > 0 {
                assert(rest[i - 1] == s[i]);
            }
        }
        a + 1
    } else {
        assert(s.skip(0) =~= s);
        0
    }
}

proof fn lemma_trim_back(s: Seq<char>) -> (b: int)
    ensures
        0 <= b <= s.len(),
        trim_back(s) == s.take(b),
        forall|i: int| b <= i < s.len() ==> is_space(#[trigger] s[i]),
        b > 0 ==> !is_space(s[b - 1]),
    decreases s.len(),
{
    if s.len() > 0 && is_space(s.last()) {
        let rest = s.drop_last();
        let b = lemma_trim_back(rest);
        assert(rest.take(b) =~= s.take(b));
        assert forall|i: int| b <= i < s.len() implies is_space(#[trigger] s[i]) by {
            if i < rest.len() {
                assert(rest[i] == s[i]);
            }
        }
        b
    } else {
        assert(s.take(s.len() as int) =~= s);
        s.len() as int
    }
}

/// Trimming takes white space off both ends and nothing else: what is left stands in the
/// text between white space, and neither begins nor ends with any.
pub proof fn trimming_takes_white_space_only(s: Seq<char>) -> (r: (int, int))
    ensures
        0 <= r.0 <= r.1 <= s.len(),
        trimmed(s) == s.subrange(r.0, r.1),
        forall|i: int| 0 <= i < r.0 || r.1 <= i < s.len() ==> is_space(#[trigger] s[i]),
        r.0 < r.1 ==> !is_space(s[r.0]) && !is_space(s[r.1 - 1]),
{
    let a = lemma_trim_front(s);
    let f = s.skip(a);
    let b = lemma_trim_back(f);
    assert(f.take(b) =~= s.subrange(a, a + b));
    assert forall|i: int| a + b <= i < s.len() implies is_space(#[trigger] s[i]) by {
        assert(f[i - a] == s[i]);
    }
    if b > 0 {
        assert(f[b - 1] == s[a + b - 1]);
    }
    (a, a + b)
}

/// A text that spells `true`, `yes` or `1` once white space is trimmed and its letters are
/// lowered is a flag that is set, one that spells `false`, `no` or `0` is a flag that is
/// not, and every other is no flag.
pub proof fn flags_are_spelled_out(s: Seq<char>)
    ensures
        ({
            let w = trimmed(s).map_values(|c: char| lower_char(c));
            &&& flag_value(s) == Some(true) <==> w == seq!['t', 'r', 'u', 'e'] || w == seq!['1']
                || w == seq!['y', 'e', 's']
            &&& flag_value(s) == Some(false) <==> w == seq!['f', 'a', 'l', 's', 'e'] || w
                == seq!['0'] || w == seq!['n', 'o']
        }),
{
    reveal_strlit("true");
    reveal_strlit("1");
    reveal_strlit("yes");
    reveal_strlit("false");
    reveal_strlit("0");
    reveal_strlit("no");
    assert("true"@ =~= seq!['t', 'r', 'u', 'e']);
    assert("1"@ =~= seq!['1']);
    assert("yes"@ =~= seq!['y', 'e', 's']);
    assert("false"@ =~= seq!['f', 'a', 'l', 's', 'e']);
    assert("0"@ =~= seq!['0']);
    assert("no"@ =~= seq!['n', 'o']);
    let w = lowered(trimmed(s));
    assert(w =~= trimmed(s).map_values(|c: char| lower_char(c)));
    assert(seq!['t', 'r', 'u', 'e'].len() == 4 && seq!['1'].len() == 1 && seq!['y', 'e', 's'].len()
        == 3 && seq!['f', 'a', 'l', 's', 'e'].len() == 5 && seq!['0'].len() == 1 && seq![
        'n',
        'o',
    ].len() == 2);
    assert(seq!['1'][0] == '1' && seq!['0'][0] == '0');
}

/// Lowering keeps every character but the letters `A` to `Z`, which become `a` to `z`.
pub proof fn lowering_is_for_letters(c: char)
    ensures
        'A' <= c <= 'Z' ==> 'a' <= lower_char(c) <= 'z' && lower_char(c) as u32 == c as u32 + 32,
        !('A' <= c <= 'Z') ==> lower_char(c) == c,
{
}

} // verus!
