//! Decimal numerals, with and without thousands separators.

use vstd::prelude::*;
use crate::text::string_from_chars;

verus! {

/// The numeral of a digit from 0 to 9.
pub open spec fn digit_char(d: nat) -> char {
    if d == 0 {
        '0'
    } else if d == 1 {
        '1'
    } else if d == 2 {
        '2'
    } else if d == 3 {
        '3'
    } else if d == 4 {
        '4'
    } else if d == 5 {
        '5'
    } else if d == 6 {
        '6'
    } else if d == 7 {
        '7'
    } else if d == 8 {
        '8'
    } else {
        '9'
    }
}

/// The value of a numeral character; 0 for any other character.
pub open spec fn digit_value(c: char) -> nat {
    if c == '1' {
        1
    } else if c == '2' {
        2
    } else if c == '3' {
        3
    } else if c == '4' {
        4
    } else if c == '5' {
        5
    } else if c == '6' {
        6
    } else if c == '7' {
        7
    } else if c == '8' {
        8
    } else if c == '9' {
        9
    } else {
        0
    }
}

/// The decimal numeral of `n`, without leading zeros, as `to_string` writes it.
pub open spec fn decimal_of(n: nat) -> Seq<char>
    decreases n,
{
    if n < 10 {
        seq![digit_char(n)]
    } else {
        decimal_of(n / 10).push(digit_char(n % 10))
    }
}

/// `d` grouped in threes from the right, the groups separated by `,`.
pub open spec fn group_thousands(d: Seq<char>) -> Seq<char>
    decreases d.len(),
{
    if d.len() <= 3 {
        d
    } else {
        group_thousands(d.subrange(0, d.len() - 3)) + seq![','] + d.subrange(
            d.len() - 3,
            d.len() as int,
        )
    }
}

fn digit(d: usize) -> (r: char)
    requires
        d < 10,
    ensures
        r == digit_char(d as nat),
{
    if d == 0 {
        '0'
    } else if d == 1 {
        '1'
    } else if d == 2 {
        '2'
    } else if d == 3 {
        '3'
    } else if d == 4 {
        '4'
    } else if d == 5 {
        '5'
    } else if d == 6 {
        '6'
    } else if d == 7 {
        '7'
    } else if d == 8 {
        '8'
    } else {
        '9'
    }
}

/// The decimal digits of `n`.
pub fn decimal_chars(n: usize) -> (r: Vec<char>)
    ensures
        r@ == decimal_of(n as nat),
    decreases n,
{
    if n < 10 {
        let mut v: Vec<char> = Vec::new();
        v.push(digit(n));
        assert(v@ =~= seq![digit_char(n as nat)]);
        v
    } else {
        let mut v = decimal_chars(n / 10);
        v.push(digit(n % 10));
        v
    }
}

/// The decimal numeral of `n`.
pub fn decimal(n: usize) -> (r: String)
    ensures
        r@ == decimal_of(n as nat),
{
    let v = decimal_chars(n);
    string_from_chars(v.as_slice())
}

fn group_prefix(d: &Vec<char>, end: usize) -> (r: Vec<char>)
    requires
        end <= d.len(),
    ensures
        r@ == group_thousands(d@.subrange(0, end as int)),
    decreases end,
{
    if end <= 3 {
        let mut r: Vec<char> = Vec::new();
        let mut i: usize = 0;
        while i < end
            invariant
                i <= end <= d.len(),
                r@ =~= d@.subrange(0, i as int),
            decreases end - i,
        {
            r.push(d[i]);
            i = i + 1;
        }
        r
    } else {
        let mut r = group_prefix(d, end - 3);
        r.push(',');
        r.push(d[end - 3]);
        r.push(d[end - 2]);
        r.push(d[end - 1]);
        let ghost s = d@.subrange(0, end as int);
        assert(s.subrange(0, s.len() - 3) =~= d@.subrange(0, end - 3));
        assert(r@ =~= group_thousands(d@.subrange(0, end - 3)) + seq![','] + s.subrange(
            s.len() - 3,
            s.len() as int,
        ));
        r
    }
}

/// `n` in decimal with a `,` between each group of three digits, counted
/// from the right: 1234567 is written `1,234,567`.
pub fn format_number(n: usize) -> (r: String)
    ensures
        r@ == group_thousands(decimal_of(n as nat)),
{
    let d = decimal_chars(n);
    let g = group_prefix(&d, d.len());
    assert(d@.subrange(0, d@.len() as int) =~= d@);
    string_from_chars(g.as_slice())
}

/// The value that the numeral `s` stands for.
pub open spec fn numeral_value(s: Seq<char>) -> nat
    decreases s.len(),
{
    if s.len() == 0 {
        0
    } else {
        numeral_value(s.drop_last()) * 10 + digit_value(s.last())
    }
}

/// The numeral of `n` reads back as `n`.
pub proof fn lemma_decimal_value(n: nat)
    ensures
        numeral_value(decimal_of(n)) == n,
        decimal_of(n).len() >= 1,
    decreases n,
{
    if n >= 10 {
        lemma_decimal_value(n / 10);
        let d = decimal_of(n);
        assert(d.drop_last() =~= decimal_of(n / 10));
        assert(d.last() == digit_char(n % 10));
        assert(digit_value(digit_char(n % 10)) == n % 10);
        assert((n / 10) * 10 + n % 10 == n) by (nonlinear_arith);
    } else {
        let d = decimal_of(n);
        assert(d.drop_last() =~= Seq::<char>::empty());
        assert(numeral_value(Seq::<char>::empty()) == 0);
        assert(digit_value(digit_char(n)) == n);
    }
}

/// `s` without its `,` characters.
pub open spec fn without_commas(s: Seq<char>) -> Seq<char>
    decreases s.len(),
{
    if s.len() == 0 {
        s
    } else if s.last() == ',' {
        without_commas(s.drop_last())
    } else {
        without_commas(s.drop_last()).push(s.last())
    }
}

/// Taking out the commas of a concatenation takes them out of each part.
pub proof fn lemma_without_commas_concat(a: Seq<char>, b: Seq<char>)
    ensures
        without_commas(a + b) == without_commas(a) + without_commas(b),
    decreases b.len(),
{
    if b.len() == 0 {
        assert(a + b =~= a);
        assert(without_commas(a) + without_commas(b) =~= without_commas(a));
    } else {
        lemma_without_commas_concat(a, b.drop_last());
        assert((a + b).drop_last() =~= a + b.drop_last());
        assert((a + b).last() == b.last());
        if b.last() != ',' {
            assert(without_commas(a) + without_commas(b.drop_last()).push(b.last()) =~= (
            without_commas(a) + without_commas(b.drop_last())).push(b.last()));
        }
    }
}

/// A text with no commas is its own text without commas.
pub proof fn lemma_without_commas_none(s: Seq<char>)
    requires
        forall|i: int| 0 <= i < s.len() ==> s[i] != ',',
    ensures
        without_commas(s) == s,
    decreases s.len(),
{
    if s.len() > 0 {
        lemma_without_commas_none(s.drop_last());
        assert(without_commas(s.drop_last()).push(s.last()) =~= s);
    }
}

/// Taking the separators back out of grouped digits gives back the digits.
pub proof fn lemma_group_thousands_digits(d: Seq<char>)
    requires
        forall|i: int| 0 <= i < d.len() ==> d[i] != ',',
    ensures
        without_commas(group_thousands(d)) == d,
    decreases d.len(),
{
    if d.len() <= 3 {
        lemma_without_commas_none(d);
    } else {
        let a = d.subrange(0, d.len() - 3);
        let b = d.subrange(d.len() - 3, d.len() as int);
        lemma_group_thousands_digits(a);
        lemma_without_commas_concat(group_thousands(a) + seq![','], b);
        lemma_without_commas_concat(group_thousands(a), seq![',']);
        assert(without_commas(seq![',']) =~= Seq::<char>::empty()) by {
            assert(seq![','].drop_last() =~= Seq::<char>::empty());
            assert(without_commas(Seq::<char>::empty()) == Seq::<char>::empty());
        }
        lemma_without_commas_none(b);
        assert(a + b =~= d);
    }
}

/// No numeral character is a comma.
pub proof fn lemma_decimal_no_commas(n: nat)
    ensures
        forall|i: int| 0 <= i < decimal_of(n).len() ==> decimal_of(n)[i] != ',',
    decreases n,
{
    if n >= 10 {
        lemma_decimal_no_commas(n / 10);
        let d = decimal_of(n);
        assert forall|i: int| 0 <= i < d.len() implies d[i] != ',' by {
            if i < d.len() - 1 {
                assert(d[i] == decimal_of(n / 10)[i]);
            }
        }
    } else {
        assert(decimal_of(n)[0] == digit_char(n));
    }
}

/// A number written with thousands separators reads back, once the commas are
/// taken out, as the number itself: the separators change nothing but the
/// look of the numeral.
pub proof fn lemma_format_number_value(n: nat)
    ensures
        without_commas(group_thousands(decimal_of(n))) == decimal_of(n),
        numeral_value(without_commas(group_thousands(decimal_of(n)))) == n,
{
    lemma_decimal_no_commas(n);
    lemma_group_thousands_digits(decimal_of(n));
    lemma_decimal_value(n);
}

/// The shape of grouped digits: a `,` stands exactly where a multiple of four
/// characters, but not all of them, follow it, so the first group has one to
/// three digits and every later group three; the first character is kept.
pub proof fn lemma_group_thousands_shape(d: Seq<char>)
    requires
        d.len() >= 1,
        forall|i: int| 0 <= i < d.len() ==> d[i] != ',',
    ensures
        group_thousands(d).len() == d.len() + (d.len() - 1) / 3,
        forall|i: int|
            0 <= i < group_thousands(d).len() ==> (#[trigger] group_thousands(d)[i] == ',' <==> (i
                > 0 && (group_thousands(d).len() - i) % 4 == 0)),
        group_thousands(d)[0] == d[0],
    decreases d.len(),
{
    let g = group_thousands(d);
    if d.len() > 3 {
        let a = d.subrange(0, d.len() - 3);
        let b = d.subrange(d.len() - 3, d.len() as int);
        lemma_group_thousands_shape(a);
        let ga = group_thousands(a);
        assert(g == ga + seq![','] + b);
        assert forall|i: int| 0 <= i < g.len() implies (#[trigger] g[i] == ',' <==> (i > 0 && (g.len()
            - i) % 4 == 0)) by {
            if i < ga.len() {
                assert(g[i] == ga[i]);
            } else if i == ga.len() {
                assert(g[i] == ',');
            } else {
                assert(g[i] == b[i - ga.len() - 1]);
                assert(b[i - ga.len() - 1] == d[d.len() - 3 + (i - ga.len() - 1)]);
            }
        }
        assert(g[0] == ga[0]);
    }
}

/// A decimal numeral begins with `0` only when the number is 0.
pub proof fn lemma_decimal_leading_zero(n: nat)
    ensures
        decimal_of(n).len() >= 1,
        decimal_of(n)[0] == '0' ==> n == 0,
    decreases n,
{
    if n >= 10 {
        lemma_decimal_leading_zero(n / 10);
        assert(decimal_of(n)[0] == decimal_of(n / 10)[0]);
    }
}

/// The shape of `format_number(n)`: its length is that of the numeral plus one
/// comma for each full group of three digits after the first; a comma stands
/// exactly where a positive multiple of four characters follows it, so it
/// neither begins nor ends the text, no two commas touch, the first group has
/// one to three digits and every later group three; and it begins with `0`
/// only when `n` is 0.
pub proof fn lemma_format_number_shape(n: nat)
    ensures
        ({
            let d = decimal_of(n);
            let g = group_thousands(d);
            &&& g.len() == d.len() + (d.len() - 1) / 3
            &&& forall|i: int| 0 <= i < g.len() ==> (#[trigger] g[i] == ',' <==> (i > 0 && (g.len() - i) % 4 == 0))
            &&& g[0] != ','
            &&& g[g.len() - 1] != ','
            &&& forall|i: int| 0 <= i < g.len() - 1 ==> !(#[trigger] g[i] == ',' && g[i + 1] == ',')
            &&& (g[0] == '0' ==> n == 0)
        }),
{
    let d = decimal_of(n);
    lemma_decimal_no_commas(n);
    lemma_decimal_leading_zero(n);
    lemma_group_thousands_shape(d);
    let g = group_thousands(d);
    assert(g[0] == d[0]);
    assert(g[g.len() - 1] == ',' <==> (g.len() - 1 > 0 && (g.len() - (g.len() - 1)) % 4 == 0));
    assert forall|i: int| 0 <= i < g.len() - 1 implies !(#[trigger] g[i] == ',' && g[i + 1] == ',') by {
        assert(g[i + 1] == ',' <==> (i + 1 > 0 && (g.len() - (i + 1)) % 4 == 0));
    }
}

/// An ASCII decimal digit.
pub open spec fn is_digit_char(c: char) -> bool {
    '0' <= c && c <= '9'
}

/// Every character of a decimal numeral is a digit.
pub proof fn lemma_decimal_digits(n: nat)
    ensures
        forall|i: int| 0 <= i < decimal_of(n).len() ==> is_digit_char(#[trigger] decimal_of(n)[i]),
    decreases n,
{
    if n >= 10 {
        lemma_decimal_digits(n / 10);
        let d = decimal_of(n);
        assert forall|i: int| 0 <= i < d.len() implies is_digit_char(#[trigger] d[i]) by {
            if i < d.len() - 1 {
                assert(d[i] == decimal_of(n / 10)[i]);
            }
        }
    } else {
        assert(decimal_of(n)[0] == digit_char(n));
    }
}

/// Grouping adds nothing but commas: every other character is one of the digits.
pub proof fn lemma_group_thousands_digits_only(d: Seq<char>)
    requires
        forall|i: int| 0 <= i < d.len() ==> is_digit_char(#[trigger] d[i]),
    ensures
        forall|i: int|
            0 <= i < group_thousands(d).len() ==> #[trigger] group_thousands(d)[i] == ',' || is_digit_char(
                group_thousands(d)[i],
            ),
    decreases d.len(),
{
    let g = group_thousands(d);
    if d.len() > 3 {
        let a = d.subrange(0, d.len() - 3);
        let b = d.subrange(d.len() - 3, d.len() as int);
        assert forall|i: int| 0 <= i < a.len() implies is_digit_char(#[trigger] a[i]) by {
            assert(a[i] == d[i]);
        }
        lemma_group_thousands_digits_only(a);
        let ga = group_thousands(a);
        assert(g == ga + seq![','] + b);
        assert forall|i: int| 0 <= i < g.len() implies #[trigger] g[i] == ',' || is_digit_char(g[i]) by {
            if i < ga.len() {
                assert(g[i] == ga[i]);
            } else if i > ga.len() {
                assert(g[i] == b[i - ga.len() - 1]);
                assert(b[i - ga.len() - 1] == d[d.len() - 3 + (i - ga.len() - 1)]);
            }
        }
    }
}

/// Every character of `format_number(n)` other than a comma is a digit.
pub proof fn lemma_format_number_digits(n: nat)
    ensures
        forall|i: int|
            0 <= i < group_thousands(decimal_of(n)).len() ==> #[trigger] group_thousands(
                decimal_of(n),
            )[i] == ',' || is_digit_char(group_thousands(decimal_of(n))[i]),
{
    lemma_decimal_digits(n);
    lemma_group_thousands_digits_only(decimal_of(n));
}

} // verus!
