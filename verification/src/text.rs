//! Building byte strings and texts with exact contents.

use vstd::prelude::*;

verus! {

/// The decimal digits of a number, most significant first.
pub open spec fn decimal_digits(n: nat) -> Seq<nat>
    decreases n,
{
    if n < 10 {
        seq![n]
    } else {
        decimal_digits(n / 10).push(n % 10)
    }
}

/// Decimal notation as ASCII bytes.
pub open spec fn decimal_bytes(n: nat) -> Seq<u8> {
    decimal_digits(n).map_values(|d: nat| (48 + d) as u8)
}

/// The character for a decimal digit.
pub open spec fn digit_char(d: nat) -> char {
    (48 + d) as char
}

/// Decimal notation as text.
pub open spec fn decimal_text(n: nat) -> Seq<char> {
    decimal_digits(n).map_values(|d: nat| digit_char(d))
}

/// Append the decimal notation of `n`.
pub fn push_decimal(buf: &mut Vec<u8>, n: u64)
    ensures
        final(buf)@ == old(buf)@ + decimal_bytes(n as nat),
    decreases n,
{
    if n < 10 {
        buf.push(48 + n as u8);
        assert(decimal_bytes(n as nat) =~= seq![(48 + n) as u8]);
        assert(buf@ =~= old(buf)@ + decimal_bytes(n as nat));
    } else {
        push_decimal(buf, n / 10);
        buf.push(48 + (n % 10) as u8);
        assert(decimal_bytes(n as nat) =~= decimal_bytes((n / 10) as nat).push(
            (48 + n % 10) as u8,
        ));
        assert(buf@ =~= old(buf)@ + decimal_bytes(n as nat));
    }
}

/// Append the UTF-8 bytes of `text`.
pub fn push_text(buf: &mut Vec<u8>, text: &str)
    ensures
        final(buf)@ == old(buf)@ + vstd::utf8::encode_utf8(text@),
{
    push_bytes(buf, text.as_bytes());
}

/// Append `bytes`.
pub fn push_bytes(buf: &mut Vec<u8>, bytes: &[u8])
    ensures
        final(buf)@ == old(buf)@ + bytes@,
{
    let mut i: usize = 0;
    assert(buf@ =~= old(buf)@ + bytes@.take(0));
    while i < bytes.len()
        invariant
            i <= bytes.len(),
            buf@ == old(buf)@ + bytes@.take(i as int),
        decreases bytes.len() - i,
    {
        buf.push(bytes[i]);
        assert(bytes@.take(i + 1) =~= bytes@.take(i as int).push(bytes@[i as int]));
        assert(buf@ =~= old(buf)@ + bytes@.take(i + 1));
        i += 1;
    }
    assert(bytes@.take(bytes@.len() as int) =~= bytes@);
}

/// A copy of `bytes`.
pub fn copy_bytes(bytes: &[u8]) -> (v: Vec<u8>)
    ensures
        v@ == bytes@,
{
    let mut v: Vec<u8> = Vec::new();
    push_bytes(&mut v, bytes);
    assert(v@ =~= bytes@);
    v
}

/// Append one decimal digit.
fn append_digit(text: &mut String, d: u8)
    requires
        d < 10,
    ensures
        final(text)@ == old(text)@.push(digit_char(d as nat)),
{
    proof {
        reveal_strlit("0");
        reveal_strlit("1");
        reveal_strlit("2");
        reveal_strlit("3");
        reveal_strlit("4");
        reveal_strlit("5");
        reveal_strlit("6");
        reveal_strlit("7");
        reveal_strlit("8");
        reveal_strlit("9");
    }
    let lit: &str = match d {
        0 => "0",
        1 => "1",
        2 => "2",
        3 => "3",
        4 => "4",
        5 => "5",
        6 => "6",
        7 => "7",
        8 => "8",
        _ => "9",
    };
    assert(lit@ =~= seq![digit_char(d as nat)]);
    text.append(lit);
    assert(text@ =~= old(text)@.push(digit_char(d as nat)));
}

/// Append the decimal notation of `n`.
pub fn append_decimal(text: &mut String, n: u64)
    ensures
        final(text)@ == old(text)@ + decimal_text(n as nat),
    decreases n,
{
    if n < 10 {
        append_digit(text, n as u8);
        assert(decimal_text(n as nat) =~= seq![digit_char(n as nat)]);
        assert(text@ =~= old(text)@ + decimal_text(n as nat));
    } else {
        append_decimal(text, n / 10);
        append_digit(text, (n % 10) as u8);
        assert(decimal_text(n as nat) =~= decimal_text((n / 10) as nat).push(
            digit_char((n % 10) as nat),
        ));
        assert(text@ =~= old(text)@ + decimal_text(n as nat));
    }
}

/// The character for a lower-case hexadecimal digit.
pub open spec fn hex_char(d: nat) -> char {
    if d < 10 {
        (48 + d) as char
    } else {
        (87 + d) as char
    }
}

/// The low `count` hexadecimal digits of `n`, most significant first.
pub open spec fn hex_text(n: nat, count: nat) -> Seq<char>
    decreases count,
{
    if count == 0 {
        Seq::empty()
    } else {
        hex_text(n / 16, (count - 1) as nat).push(hex_char(n % 16))
    }
}

/// Append one lower-case hexadecimal digit.
fn append_hex_digit(text: &mut String, d: u8)
    requires
        d < 16,
    ensures
        final(text)@ == old(text)@.push(hex_char(d as nat)),
{
    if d < 10 {
        append_digit(text, d);
        return;
    }
    proof {
        reveal_strlit("a");
        reveal_strlit("b");
        reveal_strlit("c");
        reveal_strlit("d");
        reveal_strlit("e");
        reveal_strlit("f");
    }
    let lit: &str = match d {
        10 => "a",
        11 => "b",
        12 => "c",
        13 => "d",
        14 => "e",
        _ => "f",
    };
    assert(lit@ =~= seq![hex_char(d as nat)]);
    text.append(lit);
    assert(text@ =~= old(text)@.push(hex_char(d as nat)));
}

/// Append the low `count` hexadecimal digits of `n`.
pub fn append_hex(text: &mut String, n: u128, count: u8)
    ensures
        final(text)@ == old(text)@ + hex_text(n as nat, count as nat),
    decreases count,
{
    if count == 0 {
        assert(text@ =~= old(text)@ + hex_text(n as nat, 0));
    } else {
        append_hex(text, n / 16, count - 1);
        append_hex_digit(text, (n % 16) as u8);
        assert(text@ =~= old(text)@ + hex_text(n as nat, count as nat));
    }
}

/// A host identifier in hyphenated form: groups of 8, 4, 4, 4 and 12 digits.
pub open spec fn host_text(id: u128) -> Seq<char> {
    hex_text(id as nat / 0x1_0000_0000_0000_0000_0000_0000, 8) + "-"@ + hex_text(
        id as nat / 0x1_0000_0000_0000_0000_0000,
        4,
    ) + "-"@ + hex_text(id as nat / 0x1_0000_0000_0000_0000, 4) + "-"@ + hex_text(
        id as nat / 0x1_0000_0000_0000,
        4,
    ) + "-"@ + hex_text(id as nat, 12)
}

/// Append a host identifier in hyphenated form.
pub fn append_host(text: &mut String, id: u128)
    ensures
        final(text)@ == old(text)@ + host_text(id),
{
    append_hex(text, id / 0x1_0000_0000_0000_0000_0000_0000, 8);
    text.append("-");
    append_hex(text, id / 0x1_0000_0000_0000_0000_0000, 4);
    text.append("-");
    append_hex(text, id / 0x1_0000_0000_0000_0000, 4);
    text.append("-");
    append_hex(text, id / 0x1_0000_0000_0000, 4);
    text.append("-");
    append_hex(text, id, 12);
    assert(text@ =~= old(text)@ + host_text(id));
}

/// The fractional part of a number of seconds, from its thousandths, without
/// trailing zeros.
pub open spec fn fraction_text(thousandths: nat) -> Seq<char> {
    if thousandths == 0 {
        Seq::empty()
    } else if thousandths % 100 == 0 {
        "."@ + seq![digit_char(thousandths / 100)]
    } else if thousandths % 10 == 0 {
        "."@ + seq![digit_char(thousandths / 100), digit_char(thousandths / 10 % 10)]
    } else {
        "."@ + seq![
            digit_char(thousandths / 100),
            digit_char(thousandths / 10 % 10),
            digit_char(thousandths % 10),
        ]
    }
}

/// A duration in seconds where it has any, else in milliseconds.
pub open spec fn duration_text(ms: nat) -> Seq<char> {
    if ms >= 1000 {
        decimal_text(ms / 1000) + fraction_text(ms % 1000) + "s"@
    } else if ms > 0 {
        decimal_text(ms) + "ms"@
    } else {
        "0ns"@
    }
}

/// Append a duration.
pub fn append_duration(text: &mut String, ms: u64)
    ensures
        final(text)@ == old(text)@ + duration_text(ms as nat),
{
    if ms >= 1000 {
        append_decimal(text, ms / 1000);
        let f: u64 = ms % 1000;
        if f > 0 {
            text.append(".");
            append_digit(text, (f / 100) as u8);
            if f % 100 != 0 {
                append_digit(text, (f / 10 % 10) as u8);
                if f % 10 != 0 {
                    append_digit(text, (f % 10) as u8);
                }
            }
        }
        text.append("s");
        assert(text@ =~= old(text)@ + duration_text(ms as nat));
    } else if ms > 0 {
        append_decimal(text, ms);
        text.append("ms");
        assert(text@ =~= old(text)@ + duration_text(ms as nat));
    } else {
        text.append("0ns");
    }
}

/// Views of a list of texts.
pub open spec fn text_views(items: Seq<String>) -> Seq<Seq<char>> {
    Seq::new(items.len(), |i: int| items[i]@)
}

/// Texts with a comma and a space between them.
pub open spec fn comma_joined(items: Seq<Seq<char>>) -> Seq<char>
    decreases items.len(),
{
    if items.len() == 0 {
        Seq::empty()
    } else if items.len() == 1 {
        items[0]
    } else {
        comma_joined(items.drop_last()) + ", "@ + items.last()
    }
}

/// A list in brackets.
pub open spec fn bracketed(items: Seq<Seq<char>>) -> Seq<char> {
    "["@ + comma_joined(items) + "]"@
}

/// Append a list in brackets.
pub fn append_bracketed(text: &mut String, items: &[String])
    ensures
        final(text)@ == old(text)@ + bracketed(text_views(items@)),
{
    let ghost all = text_views(items@);
    let ghost start = old(text)@;
    text.append("[");
    let mut i: usize = 0;
    assert(text@ =~= start + "["@ + comma_joined(all.take(0)));
    while i < items.len()
        invariant
            i <= items.len(),
            all == text_views(items@),
            text@ == start + "["@ + comma_joined(all.take(i as int)),
        decreases items.len() - i,
    {
        proof {
            assert(all.take(i + 1).drop_last() =~= all.take(i as int));
            assert(all.take(i + 1).last() == items@[i as int]@);
        }
        if i > 0 {
            text.append(", ");
        }
        text.append(items[i].as_str());
        i = i + 1;
        assert(text@ =~= start + "["@ + comma_joined(all.take(i as int)));
    }
    assert(all.take(i as int) =~= all);
    text.append("]");
    assert(text@ =~= start + bracketed(all));
}

/// Decimal notations of a list of numbers.
pub open spec fn decimal_texts(items: Seq<u64>) -> Seq<Seq<char>> {
    Seq::new(items.len(), |i: int| decimal_text(items[i] as nat))
}

/// Decimal notations of a list of numbers.
pub fn decimal_list(items: &[u64]) -> (v: Vec<String>)
    ensures
        text_views(v@) == decimal_texts(items@),
{
    let mut v: Vec<String> = Vec::new();
    let mut i: usize = 0;
    while i < items.len()
        invariant
            i <= items.len(),
            v@.len() == i,
            forall|k: int| 0 <= k < i ==> (#[trigger] v@[k])@ == decimal_text(items@[k] as nat),
        decreases items.len() - i,
    {
        let mut t = "".to_owned();
        proof {
            reveal_strlit("");
        }
        append_decimal(&mut t, items[i]);
        assert(t@ =~= decimal_text(items@[i as int] as nat));
        v.push(t);
        i = i + 1;
    }
    assert(text_views(v@) =~= decimal_texts(items@));
    v
}

/// Hyphenated notations of a list of host ids.
pub open spec fn host_texts(items: Seq<u128>) -> Seq<Seq<char>> {
    Seq::new(items.len(), |i: int| host_text(items[i]))
}

/// Hyphenated notations of a list of host ids.
pub fn host_list(items: &[u128]) -> (v: Vec<String>)
    ensures
        text_views(v@) == host_texts(items@),
{
    let mut v: Vec<String> = Vec::new();
    let mut i: usize = 0;
    while i < items.len()
        invariant
            i <= items.len(),
            v@.len() == i,
            forall|k: int| 0 <= k < i ==> (#[trigger] v@[k])@ == host_text(items@[k]),
        decreases items.len() - i,
    {
        let mut t = "".to_owned();
        proof {
            reveal_strlit("");
        }
        append_host(&mut t, items[i]);
        assert(t@ =~= host_text(items@[i as int]));
        v.push(t);
        i = i + 1;
    }
    assert(text_views(v@) =~= host_texts(items@));
    v
}

/// The number that a list of digits denotes in base ten.
pub open spec fn digits_number(d: Seq<nat>) -> nat
    decreases d.len(),
{
    if d.len() == 0 {
        0
    } else {
        10 * digits_number(d.drop_last()) + d.last()
    }
}

/// The decimal digits of a number are below ten, denote the number, and begin with zero
/// for zero alone.
pub proof fn decimal_digits_denote_the_number(n: nat)
    ensures
        decimal_digits(n).len() > 0,
        forall|i: int| 0 <= i < decimal_digits(n).len() ==> #[trigger] decimal_digits(n)[i] < 10,
        digits_number(decimal_digits(n)) == n,
        n > 0 ==> decimal_digits(n)[0] != 0,
        decimal_digits(n).last() == n % 10,
        n >= 10 ==> decimal_digits(n).drop_last() == decimal_digits(n / 10),
        n < 10 ==> decimal_digits(n).len() == 1,
    decreases n,
{
    let d = decimal_digits(n);
    if n >= 10 {
        decimal_digits_denote_the_number(n / 10);
        assert(d.drop_last() =~= decimal_digits(n / 10));
        assert(d.last() == n % 10);
        assert(d[0] == decimal_digits(n / 10)[0]);
        assert forall|i: int| 0 <= i < d.len() implies #[trigger] d[i] < 10 by {
            if i < d.len() - 1 {
                assert(d[i] == decimal_digits(n / 10)[i]);
            }
        }
    } else {
        assert(d.drop_last() =~= Seq::<nat>::empty());
        assert(digits_number(d.drop_last()) == 0);
    }
}

/// Numbers with the same decimal notation are the same, as bytes and as text; the notation
/// has the digits `0` to `9` alone.
pub proof fn decimal_texts_differ(a: nat, b: nat)
    ensures
        decimal_text(a) == decimal_text(b) ==> a == b,
        decimal_bytes(a) == decimal_bytes(b) ==> a == b,
        decimal_text(a).len() > 0,
        decimal_bytes(a).len() == decimal_text(a).len(),
        forall|i: int|
            0 <= i < decimal_text(a).len() ==> '0' <= #[trigger] decimal_text(a)[i] <= '9'
                && decimal_bytes(a)[i] as char == decimal_text(a)[i],
        decimal_text(a).last() == (48 + a % 10) as char,
        a >= 10 ==> decimal_text(a).drop_last() == decimal_text(a / 10),
        a < 10 ==> decimal_text(a).len() == 1,
{
    if a >= 10 {
        assert(decimal_digits(a).drop_last() =~= decimal_digits(a / 10));
        assert(decimal_text(a).drop_last() =~= decimal_text(a / 10));
    }
    decimal_digits_denote_the_number(a);
    decimal_digits_denote_the_number(b);
    let x = decimal_digits(a);
    let y = decimal_digits(b);
    if decimal_text(a) == decimal_text(b) {
        assert(decimal_text(a).len() == x.len() && decimal_text(b).len() == y.len());
        assert forall|i: int| 0 <= i < x.len() implies x[i] == y[i] by {
            assert(decimal_text(a)[i] == digit_char(x[i]));
            assert(decimal_text(b)[i] == digit_char(y[i]));
        }
        assert(x =~= y);
    }
    if decimal_bytes(a) == decimal_bytes(b) {
        assert(decimal_bytes(a).len() == x.len() && decimal_bytes(b).len() == y.len());
        assert forall|i: int| 0 <= i < x.len() implies x[i] == y[i] by {
            assert(decimal_bytes(a)[i] == (48 + x[i]) as u8);
            assert(decimal_bytes(b)[i] == (48 + y[i]) as u8);
        }
        assert(x =~= y);
    }
    assert forall|i: int| 0 <= i < decimal_text(a).len() implies '0' <= #[trigger] decimal_text(a)[i]
        <= '9' && decimal_bytes(a)[i] as char == decimal_text(a)[i] by {
        assert(x[i] < 10);
        assert(decimal_text(a)[i] == digit_char(x[i]));
        assert(decimal_bytes(a)[i] == (48 + x[i]) as u8);
    }
}

/// Texts are joined in order, with a comma and a space between each two, and stand in
/// brackets.
pub proof fn lists_are_joined_in_order(items: Seq<Seq<char>>, more: Seq<char>)
    ensures
        comma_joined(Seq::empty()).len() == 0,
        items.len() == 0 ==> comma_joined(items.push(more)) == more,
        items.len() > 0 ==> comma_joined(items.push(more)) == comma_joined(items) + seq![',', ' ']
            + more,
        bracketed(items) == seq!['['] + comma_joined(items) + seq![']'],
{
    reveal_strlit(", ");
    reveal_strlit("[");
    reveal_strlit("]");
    assert(items.push(more).drop_last() =~= items);
    assert(", "@ =~= seq![',', ' ']);
    assert("["@ =~= seq!['[']);
    assert("]"@ =~= seq![']']);
}

/// The least number that does not fit into so many hexadecimal digits.
pub open spec fn hex_bound(count: nat) -> nat
    decreases count,
{
    if count == 0 {
        1
    } else {
        16 * hex_bound((count - 1) as nat)
    }
}

/// A number in hexadecimal digits has as many as asked for, each of `0` to `9` or `a` to
/// `f`; two numbers that fit and have the same digits are the same. The last digit is the
/// remainder by sixteen, and those before it are the digits of the quotient.
pub proof fn hexadecimal_texts_differ(a: nat, b: nat, count: nat)
    ensures
        hex_text(a, count).len() == count,
        forall|i: int|
            0 <= i < count ==> '0' <= #[trigger] hex_text(a, count)[i] <= '9' || 'a' <= hex_text(
                a,
                count,
            )[i] <= 'f',
        a < hex_bound(count) && b < hex_bound(count) && hex_text(a, count) == hex_text(b, count)
            ==> a == b,
        count > 0 ==> hex_text(a, count).last() == (if a % 16 < 10 {
            (48 + a % 16) as char
        } else {
            (87 + a % 16) as char
        }),
        count > 0 ==> hex_text(a, count).drop_last() == hex_text(a / 16, (count - 1) as nat),
    decreases count,
{
    if count > 0 {
        let less = (count - 1) as nat;
        hexadecimal_texts_differ(a / 16, b / 16, less);
        hexadecimal_texts_differ(b / 16, a / 16, less);
        let x = hex_text(a, count);
        let y = hex_text(b, count);
        assert(x.drop_last() =~= hex_text(a / 16, less));
        assert(y.drop_last() =~= hex_text(b / 16, less));
        assert(x.last() == hex_char(a % 16) && y.last() == hex_char(b % 16));
        assert forall|i: int| 0 <= i < count implies '0' <= #[trigger] x[i] <= '9' || 'a' <= x[i]
            <= 'f' by {
            if i < less {
                assert(x[i] == hex_text(a / 16, less)[i]);
            }
        }
    }
}

/// A duration of a second or more is given in seconds, with what is left of it behind a
/// point; a shorter one in milliseconds; and none as no nanoseconds.
pub proof fn durations_are_given_in_their_unit(secs: nat, ms: nat)
    ensures
        secs > 0 ==> duration_text(1000 * secs) == decimal_text(secs) + "s"@,
        secs > 0 && 0 < ms < 1000 ==> duration_text(1000 * secs + ms) == decimal_text(secs)
            + fraction_text(ms) + "s"@,
        0 < ms < 1000 ==> duration_text(ms) == decimal_text(ms) + "ms"@,
        duration_text(0) == "0ns"@,
{
    assert(decimal_text(secs) + Seq::<char>::empty() =~= decimal_text(secs));
}

/// A fraction has a point and its three digits, but for zeros at the end.
pub proof fn fractions_drop_their_zeros(a: nat, b: nat, c: nat)
    requires
        a < 10,
        b < 10,
        c < 10,
    ensures
        fraction_text(0).len() == 0,
        c > 0 ==> fraction_text(100 * a + 10 * b + c) == seq![
            '.',
            digit_char(a),
            digit_char(b),
            digit_char(c),
        ],
        b > 0 ==> fraction_text(100 * a + 10 * b) == seq!['.', digit_char(a), digit_char(b)],
        a > 0 ==> fraction_text(100 * a) == seq!['.', digit_char(a)],
{
    reveal_strlit(".");
    let x = 100 * a + 10 * b + c;
    assert(x / 100 == a && x / 10 % 10 == b && x % 10 == c);
    let y = 100 * a + 10 * b;
    assert(y / 100 == a && y / 10 % 10 == b && y % 10 == 0);
    let z = 100 * a;
    assert(z / 100 == a && z % 100 == 0);
    assert(c > 0 ==> x % 100 != 0);
    assert(b > 0 ==> y % 100 != 0);
    if c > 0 {
        assert(fraction_text(x) =~= seq!['.', digit_char(a), digit_char(b), digit_char(c)]);
    }
    if b > 0 {
        assert(fraction_text(y) =~= seq!['.', digit_char(a), digit_char(b)]);
    }
    if a > 0 {
        assert(fraction_text(z) =~= seq!['.', digit_char(a)]);
    }
}

/// Only the low digits of a number are written.
proof fn lemma_hex_of_remainder(n: nat, count: nat)
    ensures
        hex_text(n, count) == hex_text(n % hex_bound(count), count),
        hex_bound(count) > 0,
    decreases count,
{
    if count > 0 {
        let less = (count - 1) as nat;
        let p = hex_bound(less);
        lemma_hex_of_remainder(n / 16, less);
        vstd::arithmetic::div_mod::lemma_mod_breakdown(n as int, 16, p as int);
        let m = n % (16 * p);
        assert(m == 16 * ((n / 16) % p) + n % 16);
        assert(m / 16 == (n / 16) % p);
        assert(m % 16 == n % 16);
        lemma_hex_of_remainder(m / 16, less);
        vstd::arithmetic::div_mod::lemma_mod_twice((n / 16) as int, p as int);
    }
}

/// Numbers whose low digits are the same have the same remainder.
proof fn lemma_same_digits(n: nat, m: nat, count: nat)
    requires
        hex_text(n, count) == hex_text(m, count),
    ensures
        n % hex_bound(count) == m % hex_bound(count),
{
    lemma_hex_of_remainder(n, count);
    lemma_hex_of_remainder(m, count);
    let p = hex_bound(count);
    assert(n % p < p && m % p < p);
    hexadecimal_texts_differ(n % p, m % p, count);
}

/// The groups of a host id's text.
proof fn lemma_host_groups(id: u128)
    ensures
        ({
            let x = host_text(id);
            let n = id as nat;
            &&& x.len() == 36
            &&& x[8] == '-' && x[13] == '-' && x[18] == '-' && x[23] == '-'
            &&& x.subrange(0, 8) == hex_text(n / 0x1_0000_0000_0000_0000_0000_0000, 8)
            &&& x.subrange(9, 13) == hex_text(n / 0x1_0000_0000_0000_0000_0000, 4)
            &&& x.subrange(14, 18) == hex_text(n / 0x1_0000_0000_0000_0000, 4)
            &&& x.subrange(19, 23) == hex_text(n / 0x1_0000_0000_0000, 4)
            &&& x.subrange(24, 36) == hex_text(n, 12)
        }),
{
    reveal_strlit("-");
    let x = host_text(id);
    let n = id as nat;
    let g0 = hex_text(n / 0x1_0000_0000_0000_0000_0000_0000, 8);
    let g1 = hex_text(n / 0x1_0000_0000_0000_0000_0000, 4);
    let g2 = hex_text(n / 0x1_0000_0000_0000_0000, 4);
    let g3 = hex_text(n / 0x1_0000_0000_0000, 4);
    let g4 = hex_text(n, 12);
    hexadecimal_texts_differ(n / 0x1_0000_0000_0000_0000_0000_0000, 0, 8);
    hexadecimal_texts_differ(n / 0x1_0000_0000_0000_0000_0000, 0, 4);
    hexadecimal_texts_differ(n / 0x1_0000_0000_0000_0000, 0, 4);
    hexadecimal_texts_differ(n / 0x1_0000_0000_0000, 0, 4);
    hexadecimal_texts_differ(n, 0, 12);
    assert(x == g0 + "-"@ + g1 + "-"@ + g2 + "-"@ + g3 + "-"@ + g4);
    assert(x.subrange(0, 8) =~= g0);
    assert(x.subrange(9, 13) =~= g1);
    assert(x.subrange(14, 18) =~= g2);
    assert(x.subrange(19, 23) =~= g3);
    assert(x.subrange(24, 36) =~= g4);
}

/// A host id is determined by the numbers of its groups.
proof fn lemma_host_of_groups(n: nat, m: nat)
    requires
        n / 0x1_0000_0000_0000_0000_0000_0000 == m / 0x1_0000_0000_0000_0000_0000_0000,
        (n / 0x1_0000_0000_0000_0000_0000) % 0x1_0000 == (m / 0x1_0000_0000_0000_0000_0000)
            % 0x1_0000,
        (n / 0x1_0000_0000_0000_0000) % 0x1_0000 == (m / 0x1_0000_0000_0000_0000) % 0x1_0000,
        (n / 0x1_0000_0000_0000) % 0x1_0000 == (m / 0x1_0000_0000_0000) % 0x1_0000,
        n % 0x1_0000_0000_0000 == m % 0x1_0000_0000_0000,
    ensures
        n == m,
{
    lemma_next_group(n, m, 0x1_0000_0000_0000_0000_0000, 0x1_0000_0000_0000_0000_0000_0000);
    lemma_next_group(n, m, 0x1_0000_0000_0000_0000, 0x1_0000_0000_0000_0000_0000);
    lemma_next_group(n, m, 0x1_0000_0000_0000, 0x1_0000_0000_0000_0000);
    vstd::arithmetic::div_mod::lemma_fundamental_div_mod(n as int, 0x1_0000_0000_0000);
    vstd::arithmetic::div_mod::lemma_fundamental_div_mod(m as int, 0x1_0000_0000_0000);
}

/// What stands above a group, and the group, determine what stands above the next one.
proof fn lemma_next_group(n: nat, m: nat, low: nat, high: nat)
    requires
        low > 0,
        high == low * 0x1_0000,
        n / high == m / high,
        (n / low) % 0x1_0000 == (m / low) % 0x1_0000,
    ensures
        n / low == m / low,
{
    vstd::arithmetic::div_mod::lemma_div_denominator(n as int, low as int, 0x1_0000);
    vstd::arithmetic::div_mod::lemma_div_denominator(m as int, low as int, 0x1_0000);
    vstd::arithmetic::div_mod::lemma_fundamental_div_mod((n / low) as int, 0x1_0000);
    vstd::arithmetic::div_mod::lemma_fundamental_div_mod((m / low) as int, 0x1_0000);
}

proof fn lemma_hex_bounds()
    ensures
        hex_bound(4) == 0x1_0000,
        hex_bound(8) == 0x1_0000_0000,
        hex_bound(12) == 0x1_0000_0000_0000,
{
    reveal_with_fuel(hex_bound, 13);
}

/// Two host ids with the same text are the same. The text has thirty-two digits, in groups of
/// eight, four, four, four and twelve with a hyphen between each two; the groups come from
/// the highest digits down to the lowest.
pub proof fn host_texts_differ(a: u128, b: u128)
    ensures
        host_text(a).len() == 36,
        host_text(a).subrange(0, 8) == hex_text(
            a as nat / 0x1_0000_0000_0000_0000_0000_0000,
            8,
        ),
        host_text(a).subrange(9, 13) == hex_text(a as nat / 0x1_0000_0000_0000_0000_0000, 4),
        host_text(a).subrange(14, 18) == hex_text(a as nat / 0x1_0000_0000_0000_0000, 4),
        host_text(a).subrange(19, 23) == hex_text(a as nat / 0x1_0000_0000_0000, 4),
        host_text(a).subrange(24, 36) == hex_text(a as nat, 12),
        host_text(a)[8] == '-' && host_text(a)[13] == '-' && host_text(a)[18] == '-'
            && host_text(a)[23] == '-',
        host_text(a) == host_text(b) ==> a == b,
{
    lemma_host_groups(a);
    lemma_host_groups(b);
    if host_text(a) == host_text(b) {
        let n = a as nat;
        let m = b as nat;
        lemma_hex_bounds();
        let p = 0x1_0000_0000_0000_0000_0000_0000nat;
        lemma_same_digits(n / p, m / p, 8);
        assert(n / p < 0x1_0000_0000 && m / p < 0x1_0000_0000);
        lemma_same_digits(
            n / 0x1_0000_0000_0000_0000_0000,
            m / 0x1_0000_0000_0000_0000_0000,
            4,
        );
        lemma_same_digits(n / 0x1_0000_0000_0000_0000, m / 0x1_0000_0000_0000_0000, 4);
        lemma_same_digits(n / 0x1_0000_0000_0000, m / 0x1_0000_0000_0000, 4);
        lemma_same_digits(n, m, 12);
        lemma_host_of_groups(n, m);
    }
}

/// Lists of texts, of numbers and of host ids are written item by item.
pub proof fn lists_are_written_item_by_item(
    texts: Seq<String>,
    numbers: Seq<u64>,
    hosts: Seq<u128>,
    i: int,
)
    ensures
        text_views(texts).len() == texts.len(),
        decimal_texts(numbers).len() == numbers.len(),
        host_texts(hosts).len() == hosts.len(),
        0 <= i < texts.len() ==> text_views(texts)[i] == texts[i]@,
        0 <= i < numbers.len() ==> decimal_texts(numbers)[i] == decimal_text(numbers[i] as nat),
        0 <= i < hosts.len() ==> host_texts(hosts)[i] == host_text(hosts[i]),
{
}

} // verus!
