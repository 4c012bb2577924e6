//! What a Roman numeral denotes, and the proof that the numerals the list
//! formatter writes denote their numbers.
use vstd::prelude::*;
use crate::list_marker::{roman, roman_from, roman_step_symbol, roman_step_value, upper_ascii};

verus! {

/// Value of one Roman digit, in either case (0 for anything else).
pub open spec fn roman_digit_value(c: char) -> int {
    if c == 'm' || c == 'M' {
        1000
    } else if c == 'd' || c == 'D' {
        500
    } else if c == 'c' || c == 'C' {
        100
    } else if c == 'l' || c == 'L' {
        50
    } else if c == 'x' || c == 'X' {
        10
    } else if c == 'v' || c == 'V' {
        5
    } else if c == 'i' || c == 'I' {
        1
    } else {
        0
    }
}

/// The number a Roman numeral denotes, read left to right: a digit followed
/// by a larger one is a subtractive pair, any other digit adds its value.
pub open spec fn roman_value(s: Seq<char>) -> int
    decreases s.len(),
{
    if s.len() == 0 {
        0
    } else if s.len() >= 2 && roman_digit_value(s[0]) < roman_digit_value(s[1]) {
        roman_digit_value(s[1]) - roman_digit_value(s[0]) + roman_value(s.skip(2))
    } else {
        roman_digit_value(s[0]) + roman_value(s.skip(1))
    }
}

/// The largest leading digit of any step from `k` on.
spec fn roman_lead_bound(k: int) -> int {
    if k <= 0 {
        1000
    } else if k <= 2 {
        500
    } else if k <= 4 {
        100
    } else if k <= 6 {
        50
    } else if k <= 8 {
        10
    } else if k <= 10 {
        5
    } else if k <= 12 {
        1
    } else {
        0
    }
}

/// A numeral written from step `k` on starts with a digit no larger than any
/// step from `k` on starts with.
proof fn lemma_roman_lead(n: nat, k: int)
    requires
        0 <= k <= 13,
    ensures
        roman_from(n, k).len() > 0 ==> roman_digit_value(roman_from(n, k)[0]) <= roman_lead_bound(
            k,
        ),
    decreases 13 - k, n,
{
    if k < 13 {
        if n >= roman_step_value(k) {
        } else {
            lemma_roman_lead(n, k + 1);
        }
    }
}

/// What is written from step `k` on denotes the rest of the number.
proof fn lemma_roman_from_value(n: nat, k: int)
    requires
        0 <= k <= 13,
        k == 13 ==> n == 0,
    ensures
        roman_value(roman_from(n, k)) == n,
    decreases 13 - k, n,
{
    if k < 13 {
        let v = roman_step_value(k);
        if n >= v {
            let sym = roman_step_symbol(k);
            let rest = roman_from((n - v) as nat, k);
            lemma_roman_from_value((n - v) as nat, k);
            lemma_roman_lead((n - v) as nat, k);
            let s = sym + rest;
            assert(roman_from(n, k) == s);
            if sym.len() == 2 {
                assert(s.skip(2) =~= rest);
            } else {
                assert(s.skip(1) =~= rest);
                if s.len() >= 2 {
                    assert(s[1] == rest[0]);
                }
            }
        } else {
            lemma_roman_from_value(n, k + 1);
        }
    } else {
        assert(roman_from(n, k) =~= Seq::<char>::empty());
    }
}

/// Upper-casing a numeral does not change what it denotes.
proof fn lemma_roman_value_upper(s: Seq<char>)
    ensures
        roman_value(upper_ascii(s)) == roman_value(s),
    decreases s.len(),
{
    let u = upper_ascii(s);
    if s.len() > 0 {
        assert(roman_digit_value(u[0]) == roman_digit_value(s[0]));
        if s.len() >= 2 {
            assert(roman_digit_value(u[1]) == roman_digit_value(s[1]));
            assert(u.skip(2) =~= upper_ascii(s.skip(2)));
            lemma_roman_value_upper(s.skip(2));
        }
        assert(u.skip(1) =~= upper_ascii(s.skip(1)));
        lemma_roman_value_upper(s.skip(1));
    }
}

/// The Roman numeral written for `n`, in either case, denotes `n`.
pub proof fn lemma_roman_numeral_denotes(n: nat, upper: bool)
    ensures
        roman_value(roman(n, upper)) == n,
{
    lemma_roman_from_value(n, 0);
    if upper {
        lemma_roman_value_upper(roman_from(n, 0));
    }
}

/// A decimal place of a Roman numeral in its standard form: digit `d` of a
/// place whose unit, five and ten are `one`, `five` and `ten` (`i v x`,
/// `x l c` or `c d m`), e.g. 4 as `iv`, 9 as `ix`, 7 as `vii`.
pub open spec fn roman_place(d: nat, one: char, five: char, ten: char) -> Seq<char> {
    if d == 0 {
        Seq::empty()
    } else if d == 1 {
        seq![one]
    } else if d == 2 {
        seq![one, one]
    } else if d == 3 {
        seq![one, one, one]
    } else if d == 4 {
        seq![one, five]
    } else if d == 5 {
        seq![five]
    } else if d == 6 {
        seq![five, one]
    } else if d == 7 {
        seq![five, one, one]
    } else if d == 8 {
        seq![five, one, one, one]
    } else {
        seq![one, ten]
    }
}

/// The four greedy steps from `k` on (nine, five, four and one times `u`)
/// write digit `d` of a place in its standard form.
proof fn lemma_roman_place(d: nat, r: nat, k: int, u: nat, one: char, five: char, ten: char)
    requires
        d < 10,
        r < u,
        1 <= k <= 9,
        roman_step_value(k) == 9 * u,
        roman_step_value(k + 1) == 5 * u,
        roman_step_value(k + 2) == 4 * u,
        roman_step_value(k + 3) == u,
        roman_step_symbol(k) == seq![one, ten],
        roman_step_symbol(k + 1) == seq![five],
        roman_step_symbol(k + 2) == seq![one, five],
        roman_step_symbol(k + 3) == seq![one],
    ensures
        roman_from((d * u + r) as nat, k) == roman_place(d, one, five, ten) + roman_from(r, k + 4),
{
    if d == 0 {
        assert(roman_from((0 * u + r) as nat, k + 0) == roman_from((0 * u + r) as nat, k + 1));
        assert(roman_from((0 * u + r) as nat, k + 1) == roman_from((0 * u + r) as nat, k + 2));
        assert(roman_from((0 * u + r) as nat, k + 2) == roman_from((0 * u + r) as nat, k + 3));
        assert(roman_from((0 * u + r) as nat, k + 3) == roman_from((0 * u + r) as nat, k + 4));
        assert(roman_from((d * u + r) as nat, k) =~= roman_place(d, one, five, ten) + roman_from(r, k + 4));
    } else if d == 1 {
        assert(roman_from((1 * u + r) as nat, k + 0) == roman_from((1 * u + r) as nat, k + 1));
        assert(roman_from((1 * u + r) as nat, k + 1) == roman_from((1 * u + r) as nat, k + 2));
        assert(roman_from((1 * u + r) as nat, k + 2) == roman_from((1 * u + r) as nat, k + 3));
        assert(roman_from((1 * u + r) as nat, k + 3) == roman_step_symbol(k + 3) + roman_from((0 * u + r) as nat, k + 3));
        assert(roman_from((0 * u + r) as nat, k + 3) == roman_from((0 * u + r) as nat, k + 4));
        assert(roman_from((d * u + r) as nat, k) =~= roman_place(d, one, five, ten) + roman_from(r, k + 4));
    } else if d == 2 {
        assert(roman_from((2 * u + r) as nat, k + 0) == roman_from((2 * u + r) as nat, k + 1));
        assert(roman_from((2 * u + r) as nat, k + 1) == roman_from((2 * u + r) as nat, k + 2));
        assert(roman_from((2 * u + r) as nat, k + 2) == roman_from((2 * u + r) as nat, k + 3));
        assert(roman_from((2 * u + r) as nat, k + 3) == roman_step_symbol(k + 3) + roman_from((1 * u + r) as nat, k + 3));
        assert(roman_from((1 * u + r) as nat, k + 3) == roman_step_symbol(k + 3) + roman_from((0 * u + r) as nat, k + 3));
        assert(roman_from((0 * u + r) as nat, k + 3) == roman_from((0 * u + r) as nat, k + 4));
        assert(roman_from((d * u + r) as nat, k) =~= roman_place(d, one, five, ten) + roman_from(r, k + 4));
    } else if d == 3 {
        assert(roman_from((3 * u + r) as nat, k + 0) == roman_from((3 * u + r) as nat, k + 1));
        assert(roman_from((3 * u + r) as nat, k + 1) == roman_from((3 * u + r) as nat, k + 2));
        assert(roman_from((3 * u + r) as nat, k + 2) == roman_from((3 * u + r) as nat, k + 3));
        assert(roman_from((3 * u + r) as nat, k + 3) == roman_step_symbol(k + 3) + roman_from((2 * u + r) as nat, k + 3));
        assert(roman_from((2 * u + r) as nat, k + 3) == roman_step_symbol(k + 3) + roman_from((1 * u + r) as nat, k + 3));
        assert(roman_from((1 * u + r) as nat, k + 3) == roman_step_symbol(k + 3) + roman_from((0 * u + r) as nat, k + 3));
        assert(roman_from((0 * u + r) as nat, k + 3) == roman_from((0 * u + r) as nat, k + 4));
        assert(roman_from((d * u + r) as nat, k) =~= roman_place(d, one, five, ten) + roman_from(r, k + 4));
    } else if d == 4 {
        assert(roman_from((4 * u + r) as nat, k + 0) == roman_from((4 * u + r) as nat, k + 1));
        assert(roman_from((4 * u + r) as nat, k + 1) == roman_from((4 * u + r) as nat, k + 2));
        assert(roman_from((4 * u + r) as nat, k + 2) == roman_step_symbol(k + 2) + roman_from((0 * u + r) as nat, k + 2));
        assert(roman_from((0 * u + r) as nat, k + 2) == roman_from((0 * u + r) as nat, k + 3));
        assert(roman_from((0 * u + r) as nat, k + 3) == roman_from((0 * u + r) as nat, k + 4));
        assert(roman_from((d * u + r) as nat, k) =~= roman_place(d, one, five, ten) + roman_from(r, k + 4));
    } else if d == 5 {
        assert(roman_from((5 * u + r) as nat, k + 0) == roman_from((5 * u + r) as nat, k + 1));
        assert(roman_from((5 * u + r) as nat, k + 1) == roman_step_symbol(k + 1) + roman_from((0 * u + r) as nat, k + 1));
        assert(roman_from((0 * u + r) as nat, k + 1) == roman_from((0 * u + r) as nat, k + 2));
        assert(roman_from((0 * u + r) as nat, k + 2) == roman_from((0 * u + r) as nat, k + 3));
        assert(roman_from((0 * u + r) as nat, k + 3) == roman_from((0 * u + r) as nat, k + 4));
        assert(roman_from((d * u + r) as nat, k) =~= roman_place(d, one, five, ten) + roman_from(r, k + 4));
    } else if d == 6 {
        assert(roman_from((6 * u + r) as nat, k + 0) == roman_from((6 * u + r) as nat, k + 1));
        assert(roman_from((6 * u + r) as nat, k + 1) == roman_step_symbol(k + 1) + roman_from((1 * u + r) as nat, k + 1));
        assert(roman_from((1 * u + r) as nat, k + 1) == roman_from((1 * u + r) as nat, k + 2));
        assert(roman_from((1 * u + r) as nat, k + 2) == roman_from((1 * u + r) as nat, k + 3));
        assert(roman_from((1 * u + r) as nat, k + 3) == roman_step_symbol(k + 3) + roman_from((0 * u + r) as nat, k + 3));
        assert(roman_from((0 * u + r) as nat, k + 3) == roman_from((0 * u + r) as nat, k + 4));
        assert(roman_from((d * u + r) as nat, k) =~= roman_place(d, one, five, ten) + roman_from(r, k + 4));
    } else if d == 7 {
        assert(roman_from((7 * u + r) as nat, k + 0) == roman_from((7 * u + r) as nat, k + 1));
        assert(roman_from((7 * u + r) as nat, k + 1) == roman_step_symbol(k + 1) + roman_from((2 * u + r) as nat, k + 1));
        assert(roman_from((2 * u + r) as nat, k + 1) == roman_from((2 * u + r) as nat, k + 2));
        assert(roman_from((2 * u + r) as nat, k + 2) == roman_from((2 * u + r) as nat, k + 3));
        assert(roman_from((2 * u + r) as nat, k + 3) == roman_step_symbol(k + 3) + roman_from((1 * u + r) as nat, k + 3));
        assert(roman_from((1 * u + r) as nat, k + 3) == roman_step_symbol(k + 3) + roman_from((0 * u + r) as nat, k + 3));
        assert(roman_from((0 * u + r) as nat, k + 3) == roman_from((0 * u + r) as nat, k + 4));
        assert(roman_from((d * u + r) as nat, k) =~= roman_place(d, one, five, ten) + roman_from(r, k + 4));
    } else if d == 8 {
        assert(roman_from((8 * u + r) as nat, k + 0) == roman_from((8 * u + r) as nat, k + 1));
        assert(roman_from((8 * u + r) as nat, k + 1) == roman_step_symbol(k + 1) + roman_from((3 * u + r) as nat, k + 1));
        assert(roman_from((3 * u + r) as nat, k + 1) == roman_from((3 * u + r) as nat, k + 2));
        assert(roman_from((3 * u + r) as nat, k + 2) == roman_from((3 * u + r) as nat, k + 3));
        assert(roman_from((3 * u + r) as nat, k + 3) == roman_step_symbol(k + 3) + roman_from((2 * u + r) as nat, k + 3));
        assert(roman_from((2 * u + r) as nat, k + 3) == roman_step_symbol(k + 3) + roman_from((1 * u + r) as nat, k + 3));
        assert(roman_from((1 * u + r) as nat, k + 3) == roman_step_symbol(k + 3) + roman_from((0 * u + r) as nat, k + 3));
        assert(roman_from((0 * u + r) as nat, k + 3) == roman_from((0 * u + r) as nat, k + 4));
        assert(roman_from((d * u + r) as nat, k) =~= roman_place(d, one, five, ten) + roman_from(r, k + 4));
    } else if d == 9 {
        assert(roman_from((9 * u + r) as nat, k + 0) == roman_step_symbol(k + 0) + roman_from((0 * u + r) as nat, k + 0));
        assert(roman_from((0 * u + r) as nat, k + 0) == roman_from((0 * u + r) as nat, k + 1));
        assert(roman_from((0 * u + r) as nat, k + 1) == roman_from((0 * u + r) as nat, k + 2));
        assert(roman_from((0 * u + r) as nat, k + 2) == roman_from((0 * u + r) as nat, k + 3));
        assert(roman_from((0 * u + r) as nat, k + 3) == roman_from((0 * u + r) as nat, k + 4));
        assert(roman_from((d * u + r) as nat, k) =~= roman_place(d, one, five, ten) + roman_from(r, k + 4));
    }
}

/// All thousands come first, one `m` each.
proof fn lemma_roman_thousands(n: nat)
    ensures
        roman_from(n, 0) == Seq::new(n / 1000, |i: int| 'm') + roman_from(n % 1000, 1),
    decreases n,
{
    if n >= 1000 {
        let m = (n - 1000) as nat;
        lemma_roman_thousands(m);
        assert(m / 1000 == n / 1000 - 1);
        assert(m % 1000 == n % 1000);
        assert(roman_from(n, 0) == seq!['m'] + roman_from(m, 0));
        assert(Seq::new(n / 1000, |i: int| 'm') =~= seq!['m'] + Seq::new(m / 1000, |i: int| 'm'));
    } else {
        assert(Seq::new(n / 1000, |i: int| 'm') =~= Seq::<char>::empty());
    }
}

/// The numeral for `n` is in standard form: one `m` per thousand, then the
/// hundreds, tens and units digits each written with their place's unit, five
/// and ten (`c d m`, `x l c`, `i v x`): 40 is `xl`, 400 is `cd`, 1994 is
/// `mcmxciv`; below 4000 no digit is repeated more than three times.
pub proof fn lemma_roman_standard_form(n: nat)
    ensures
        roman(n, false) == Seq::new(n / 1000, |i: int| 'm') + roman_place((n / 100) % 10, 'c', 'd', 'm')
            + roman_place((n / 10) % 10, 'x', 'l', 'c') + roman_place(n % 10, 'i', 'v', 'x'),
{
    lemma_roman_thousands(n);
    let h = (n / 100) % 10;
    let t = (n / 10) % 10;
    let o = n % 10;
    assert(n % 1000 == h * 100 + n % 100) by (nonlinear_arith)
        requires
            h == (n / 100) % 10,
    ;
    assert(n % 100 == t * 10 + n % 10) by (nonlinear_arith)
        requires
            t == (n / 10) % 10,
    ;
    lemma_roman_place(h, n % 100, 1, 100, 'c', 'd', 'm');
    lemma_roman_place(t, n % 10, 5, 10, 'x', 'l', 'c');
    lemma_roman_place(o, 0, 9, 1, 'i', 'v', 'x');
    assert(o * 1 + 0 == n % 10);
    assert(roman_from(0, 13) =~= Seq::<char>::empty());
    assert(roman(n, false) =~= Seq::new(n / 1000, |i: int| 'm') + roman_place(h, 'c', 'd', 'm')
        + roman_place(t, 'x', 'l', 'c') + roman_place(o, 'i', 'v', 'x'));
}

/// The capital of a Roman digit letter (`m d c l x v i` to `M D C L X V I`);
/// any other character is left as it is.
pub open spec fn roman_capital(c: char) -> char {
    if c == 'm' {
        'M'
    } else if c == 'd' {
        'D'
    } else if c == 'c' {
        'C'
    } else if c == 'l' {
        'L'
    } else if c == 'x' {
        'X'
    } else if c == 'v' {
        'V'
    } else if c == 'i' {
        'I'
    } else {
        c
    }
}

/// Whether `s` is written with the lower-case Roman digits alone.
spec fn roman_letters_only(s: Seq<char>) -> bool {
    forall|i: int|
        0 <= i < s.len() ==> {
            let c = #[trigger] s[i];
            c == 'm' || c == 'd' || c == 'c' || c == 'l' || c == 'x' || c == 'v' || c == 'i'
        }
}

proof fn lemma_place_letters(d: nat, one: char, five: char, ten: char)
    requires
        roman_letters_only(seq![one, five, ten]),
    ensures
        roman_letters_only(roman_place(d, one, five, ten)),
{
    let w = seq![one, five, ten];
    assert(w[0] == one && w[1] == five && w[2] == ten);
}

/// The upper-case numeral of `n` is the lower-case one with each letter
/// replaced by its capital.
pub proof fn lemma_roman_upper_is_capitals(n: nat)
    ensures
        roman(n, true) == roman(n, false).map_values(|c: char| roman_capital(c)),
{
    lemma_roman_standard_form(n);
    let ms = Seq::new(n / 1000, |i: int| 'm');
    let h = roman_place((n / 100) % 10, 'c', 'd', 'm');
    let t = roman_place((n / 10) % 10, 'x', 'l', 'c');
    let o = roman_place(n % 10, 'i', 'v', 'x');
    assert(roman_letters_only(seq!['c', 'd', 'm']));
    assert(roman_letters_only(seq!['x', 'l', 'c']));
    assert(roman_letters_only(seq!['i', 'v', 'x']));
    lemma_place_letters((n / 100) % 10, 'c', 'd', 'm');
    lemma_place_letters((n / 10) % 10, 'x', 'l', 'c');
    lemma_place_letters(n % 10, 'i', 'v', 'x');
    let low = roman(n, false);
    assert(low == ms + h + t + o);
    assert(roman_letters_only(low)) by {
        assert forall|i: int| 0 <= i < low.len() implies {
            let c = #[trigger] low[i];
            c == 'm' || c == 'd' || c == 'c' || c == 'l' || c == 'x' || c == 'v' || c == 'i'
        } by {
            if i < ms.len() {
                assert(low[i] == ms[i]);
            } else if i < ms.len() + h.len() {
                assert(low[i] == h[i - ms.len()]);
            } else if i < ms.len() + h.len() + t.len() {
                assert(low[i] == t[i - ms.len() - h.len()]);
            } else {
                assert(low[i] == o[i - ms.len() - h.len() - t.len()]);
            }
        }
    }
    assert(roman(n, true) =~= low.map_values(|c: char| roman_capital(c))) by {
        assert forall|i: int| 0 <= i < low.len() implies #[trigger] upper_ascii(low)[i]
            == roman_capital(low[i]) by {
            let c = low[i];
            assert(c == 'm' || c == 'd' || c == 'c' || c == 'l' || c == 'x' || c == 'v' || c
                == 'i');
        }
    }
}

} // verus!
