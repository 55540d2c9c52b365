use crate::money::{div_floor, round_half_up, Amount, AMOUNT_LIMIT};
use crate::time::{digits_at, is_digit, number_at};
use rusty_money::iso::SEK;
use vstd::prelude::*;
use vstd::string::StrSliceExecFns;

verus! {

/// `10` to the power `n`.
pub open spec fn pow10(n: nat) -> int
    decreases n,
{
    if n == 0 {
        1
    } else {
        10 * pow10((n - 1) as nat)
    }
}

/// A quote's text with digit-group spaces removed and a decimal point written
/// as the decimal comma that Swedish amounts use.
pub open spec fn normalize(s: Seq<char>) -> Seq<char>
    decreases s.len(),
{
    if s.len() == 0 {
        s
    } else {
        let c = s.last();
        let rest = normalize(s.drop_last());
        if c == ' ' {
            rest
        } else if c == '.' {
            rest.push(',')
        } else {
            rest.push(c)
        }
    }
}

pub open spec fn is_negative(t: Seq<char>) -> bool {
    t.len() > 0 && t[0] == '-'
}

/// The text after a leading minus sign, if any.
pub open spec fn magnitude(t: Seq<char>) -> Seq<char> {
    if is_negative(t) {
        t.subrange(1, t.len() as int)
    } else {
        t
    }
}

pub open spec fn signed(t: Seq<char>, v: int) -> int {
    if is_negative(t) {
        -v
    } else {
        v
    }
}

/// Whether `b` is a whole number of 1 to 20 digits.
pub open spec fn whole_amount_text(b: Seq<char>) -> bool {
    1 <= b.len() <= 20 && digits_at(b, 0, b.len() as int)
}

/// Whether `b` is digits, a decimal comma at `k`, and 1 to 9 more digits, 20
/// characters at most.
pub open spec fn split_amount_text(b: Seq<char>, k: int) -> bool {
    &&& 1 <= k
    &&& k + 2 <= b.len() <= 20
    &&& b.len() - k - 1 <= 9
    &&& b[k] == ','
    &&& digits_at(b, 0, k)
    &&& digits_at(b, k + 1, b.len() - k - 1)
}

/// The digits of `b` around a decimal comma at `k`, read as one whole number.
pub open spec fn split_mantissa(b: Seq<char>, k: int) -> int {
    number_at(b, 0, k as nat) * pow10((b.len() - k - 1) as nat) + number_at(
        b,
        k + 1,
        (b.len() - k - 1) as nat,
    )
}

/// The exact decimal that a quote's text writes, as a mantissa and a number of
/// decimals; `None` where the text writes no amount.
pub open spec fn quote_decimal(s: Seq<char>) -> Option<(int, int)> {
    let t = normalize(s);
    let b = magnitude(t);
    if whole_amount_text(b) {
        Some((signed(t, number_at(b, 0, b.len()) * 100), 2))
    } else if exists|k: int| split_amount_text(b, k) {
        let k = choose|k: int| split_amount_text(b, k);
        Some((signed(t, split_mantissa(b, k)), b.len() - k - 1))
    } else {
        None
    }
}

/// The price per kWh, in amount units, of a quote of `m / 10^d` kronor per MWh,
/// rounded half up where it has more than three decimals.
pub open spec fn energy_units(m: int, d: int) -> int {
    round_half_up(m * 1000, pow10(d as nat))
}

pub open spec fn is_separator(c: char) -> bool {
    c == ',' || c == '.'
}

/// Whether a space at `i`, if there is one, separates digit groups of the whole
/// part: a digit before it, exactly three digits after it, and no decimal
/// separator before it.
pub open spec fn space_in_place(s: Seq<char>, i: int) -> bool {
    s[i] == ' ' ==> {
        &&& 1 <= i
        &&& is_digit(s[i - 1])
        &&& i + 3 < s.len()
        &&& digits_at(s, i + 1, 3)
        &&& (i + 4 == s.len() || s[i + 4] == ' ' || is_separator(s[i + 4]))
        &&& forall|j: int| 0 <= j < i ==> !is_separator(#[trigger] s[j])
    }
}

/// Whether every space of a quote's text separates digit groups of three.
pub open spec fn spaces_in_place(s: Seq<char>) -> bool {
    forall|i: int| 0 <= i < s.len() ==> #[trigger] space_in_place(s, i)
}

/// The energy price per kWh that a quote's text gives, if it writes an amount.
pub open spec fn spec_energy_of_quote(s: Seq<char>) -> Option<Amount> {
    if !spaces_in_place(s) {
        None
    } else {
        match quote_decimal(s) {
            Some((m, d)) => Some(Amount { units: energy_units(m, d) as i128 }),
            None => None,
        }
    }
}

/// Relies on rusty_money's `Money::from_str` for SEK, whose decimal separator is
/// a comma: for a plain signed decimal text it gives the exact amount, with
/// two decimals where the text has none (its `Decimal`'s mantissa and scale).
#[verifier::external_body]
fn parse_sek(text: &Vec<char>) -> (r: (i128, u32))
    requires
        whole_amount_text(magnitude(text@)) || exists|k: int|
            split_amount_text(magnitude(text@), k),
    ensures
        whole_amount_text(magnitude(text@)) ==> r.0 == signed(
            text@,
            number_at(magnitude(text@), 0, magnitude(text@).len()) * 100,
        ) && r.1 == 2,
        forall|k: int|
            split_amount_text(magnitude(text@), k) ==> r.0 == signed(
                text@,
                split_mantissa(magnitude(text@), k),
            ) && r.1 == magnitude(text@).len() - k - 1,
{
    let s: String = text.iter().collect();
    rusty_money::Money::from_str(&s, SEK).map(|m| (m.amount().mantissa(), m.amount().scale())).unwrap_or(
        (0, 0),
    )
}

} // verus!

verus! {

proof fn lemma_pow10_monotone(a: nat, b: nat)
    requires
        a <= b,
    ensures
        1 <= pow10(a) <= pow10(b),
    decreases b,
{
    if b > a {
        lemma_pow10_monotone(a, (b - 1) as nat);
    } else if a > 0 {
        lemma_pow10_monotone((a - 1) as nat, (a - 1) as nat);
    }
}

proof fn lemma_pow10_values()
    ensures
        pow10(9) == 1_000_000_000,
        pow10(20) == 100_000_000_000_000_000_000,
        pow10(30) == 1_000_000_000_000_000_000_000_000_000_000,
{
    reveal_with_fuel(pow10, 31);
}

proof fn lemma_number_bound(s: Seq<char>, from: int, n: nat)
    requires
        digits_at(s, from, n as int),
    ensures
        0 <= number_at(s, from, n) < pow10(n),
    decreases n,
{
    if n > 0 {
        lemma_number_bound(s, from, (n - 1) as nat);
        assert(is_digit(s[from + n - 1]));
    }
}

fn pow10_of(n: u32) -> (r: i128)
    requires
        n <= 30,
    ensures
        r == pow10(n as nat),
{
    let mut r: i128 = 1;
    let mut i: u32 = 0;
    while i < n
        invariant
            i <= n <= 30,
            r == pow10(i as nat),
        decreases n - i,
    {
        proof {
            lemma_pow10_monotone((i + 1) as nat, 30);
            lemma_pow10_values();
        }
        r = r * 10;
        i = i + 1;
    }
    r
}

/// The text of a quote with digit-group spaces removed and a decimal point made a comma.
fn normalize_quote(s: &str) -> (t: Vec<char>)
    ensures
        t@ == normalize(s@),
{
    let n = s.unicode_len();
    let mut t: Vec<char> = Vec::new();
    let mut i: usize = 0;
    while i < n
        invariant
            i <= n == s@.len(),
            t@ == normalize(s@.subrange(0, i as int)),
        decreases n - i,
    {
        let c = s.get_char(i);
        proof {
            let p = s@.subrange(0, i as int + 1);
            assert(p.drop_last() =~= s@.subrange(0, i as int));
            assert(p.last() == c);
        }
        if c == ' ' {
        } else if c == '.' {
            t.push(',');
        } else {
            t.push(c);
        }
        i = i + 1;
    }
    assert(s@.subrange(0, n as int) =~= s@);
    t
}

/// The first index from `from` on that holds no decimal digit, or the length.
fn digits_end(t: &Vec<char>, from: usize) -> (k: usize)
    requires
        from <= t@.len(),
    ensures
        from <= k <= t@.len(),
        digits_at(t@, from as int, k - from),
        k < t@.len() ==> !is_digit(t@[k as int]),
{
    let mut k = from;
    while k < t.len() && '0' <= t[k] && t[k] <= '9'
        invariant
            from <= k <= t@.len(),
            digits_at(t@, from as int, k - from),
        decreases t@.len() - k,
    {
        k = k + 1;
    }
    k
}

/// The energy price per kWh, in amount units, of a quote of `m / 10^d` kronor per
/// MWh.
fn energy_units_of(m: i128, d: u32) -> (r: i128)
    requires
        -200_000_000_000_000_000_000_000_000_000 <= m <= 200_000_000_000_000_000_000_000_000_000,
        d <= 20,
    ensures
        r == energy_units(m as int, d as int),
        -AMOUNT_LIMIT <= r <= AMOUNT_LIMIT,
{
    let p = pow10_of(d);
    proof {
        lemma_pow10_monotone(d as nat, 20);
        lemma_pow10_values();
    }
    let n = 2 * (m * 1000) + p;
    let q = div_floor(n, 2 * p);
    proof {
        let ni = n as int;
        let di = 2 * p as int;
        vstd::arithmetic::div_mod::lemma_fundamental_div_mod(ni, di);
        let rem = ni % di;
        assert(-AMOUNT_LIMIT <= q <= AMOUNT_LIMIT) by (nonlinear_arith)
            requires
                ni == di * (q as int) + rem,
                0 <= rem < di,
                di >= 2,
                -500_000_000_000_000_000_000_000_000_000_000 <= ni
                    <= 500_000_000_000_000_000_000_000_000_000_000,
                AMOUNT_LIMIT == 1_000_000_000_000_000_000_000_000_000_000_000_000,
        ;
    }
    q
}

/// The index of the first decimal separator of `s`, or its length.
fn first_separator(s: &str) -> (k: usize)
    ensures
        k <= s@.len(),
        forall|j: int| 0 <= j < k ==> !is_separator(#[trigger] s@[j]),
        k < s@.len() ==> is_separator(s@[k as int]),
{
    let n = s.unicode_len();
    let mut k: usize = 0;
    while k < n
        invariant
            k <= n == s@.len(),
            forall|j: int| 0 <= j < k ==> !is_separator(#[trigger] s@[j]),
        decreases n - k,
    {
        let c = s.get_char(k);
        if c == ',' || c == '.' {
            return k;
        }
        k = k + 1;
    }
    k
}

/// Whether every space of `s` separates digit groups of three in the whole part.
fn check_spaces(s: &str) -> (r: bool)
    ensures
        r == spaces_in_place(s@),
{
    let n = s.unicode_len();
    let sep = first_separator(s);
    let mut i: usize = 0;
    while i < n
        invariant
            i <= n == s@.len(),
            sep <= n,
            forall|j: int| 0 <= j < sep ==> !is_separator(#[trigger] s@[j]),
            sep < n ==> is_separator(s@[sep as int]),
            forall|j: int| 0 <= j < i ==> #[trigger] space_in_place(s@, j),
        decreases n - i,
    {
        if s.get_char(i) == ' ' {
            let ok = i >= 1 && i < sep && n > 3 && i < n - 3 && {
                let p = s.get_char(i - 1);
                let a = s.get_char(i + 1);
                let b = s.get_char(i + 2);
                let c = s.get_char(i + 3);
                '0' <= p && p <= '9' && '0' <= a && a <= '9' && '0' <= b && b <= '9' && '0' <= c
                    && c <= '9'
            } && (i + 4 == n || {
                let e = s.get_char(i + 4);
                e == ' ' || e == ',' || e == '.'
            });
            if !ok {
                assert(!space_in_place(s@, i as int)) by {
                    if i >= 1 && i >= sep && sep < n {
                        assert(is_separator(s@[sep as int]));
                    }
                    if i + 3 < n && space_in_place(s@, i as int) {
                        assert(is_digit(s@[i + 1]) && is_digit(s@[i + 2]) && is_digit(s@[i + 3]));
                    }
                }
                return false;
            }
            assert(space_in_place(s@, i as int));
        }
        i = i + 1;
    }
    true
}

/// The energy price per kWh of a quote's text in kronor per MWh; `None` where the
/// text writes no amount. Spaces may only separate groups of three digits in
/// the whole part, and are then ignored; a decimal point is read as a decimal
/// comma.
pub fn energy_of_quote(s: &str) -> (r: Option<Amount>)
    ensures
        r == spec_energy_of_quote(s@),
        r matches Some(a) ==> a.in_range(),
{
    if !check_spaces(s) {
        return None;
    }
    let t = normalize_quote(s);
    let ghost tv = t@;
    let ghost b = magnitude(tv);
    let len = t.len();
    let st: usize = if len > 0 && t[0] == '-' {
        1
    } else {
        0
    };
    assert(b =~= tv.subrange(st as int, len as int));
    if len - st > 20 {
        assert(!exists|k: int| split_amount_text(b, k));
        return None;
    }
    let k = digits_end(&t, st);
    if k == len {
        if k == st {
            assert(!exists|j: int| split_amount_text(b, j));
            return None;
        }
        assert(whole_amount_text(b));
        let (m, d) = parse_sek(&t);
        proof {
            lemma_number_bound(b, 0, b.len());
            lemma_pow10_monotone(b.len(), 20);
            lemma_pow10_values();
        }
        return Some(Amount { units: energy_units_of(m, d) });
    }
    assert(!whole_amount_text(b)) by {
        assert(!is_digit(b[k - st]));
    }
    if t[k] != ',' || k == st {
        assert forall|j: int| !split_amount_text(b, j) by {
            if split_amount_text(b, j) {
                if j + st < k {
                    assert(b[j] == tv[j + st]);
                } else if j + st > k {
                    assert(is_digit(b[k - st]));
                }
            }
        }
        return None;
    }
    let e = digits_end(&t, k + 1);
    let f = len - k - 1;
    let ghost kb = k - st;
    if e != len || f == 0 || f > 9 {
        assert forall|j: int| !split_amount_text(b, j) by {
            if split_amount_text(b, j) {
                if j < kb {
                    assert(b[j] == tv[j + st]);
                } else if j > kb {
                    assert(is_digit(b[kb]));
                } else if e != len {
                    assert(is_digit(b[e - st]));
                }
            }
        }
        return None;
    }
    assert(split_amount_text(b, kb));
    assert forall|j: int| split_amount_text(b, j) implies j == kb by {
        if j < kb {
            assert(!is_digit(b[j]));
        } else if j > kb {
            assert(is_digit(b[kb]));
        }
    }
    let (m, d) = parse_sek(&t);
    proof {
        lemma_number_bound(b, 0, kb as nat);
        lemma_number_bound(b, kb + 1, f as nat);
        lemma_pow10_monotone(kb as nat, 20);
        lemma_pow10_monotone(f as nat, 9);
        lemma_pow10_values();
        let i = number_at(b, 0, kb as nat);
        let fr = number_at(b, kb + 1, f as nat);
        let pf = pow10(f as nat);
        assert(0 <= i * pf <= 100_000_000_000_000_000_000 * 1_000_000_000) by (nonlinear_arith)
            requires
                0 <= i < 100_000_000_000_000_000_000,
                1 <= pf <= 1_000_000_000,
        ;
    }
    Some(Amount { units: energy_units_of(m, d) })
}

} // verus!
