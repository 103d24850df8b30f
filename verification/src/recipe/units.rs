//! Unit normalisation for shopping-list aggregation.
//!
//! Every quantity normalises to a canonical metric unit per dimension
//! (gram, millilitre or piece). Amounts are exact fixed-point numbers in
//! millionths of the canonical unit.

use crate::text::{lemma_digits_val_grows, lemma_digits_val_nonneg, 
    all_digits, chars_of, dec, digit, digit_char, digits_val, is_digit, push_dec, push_str,
    str_eq, string_of, to_ascii_lowercase, trimmed, lower_ascii_seq, trim,
};
use vstd::prelude::*;

verus! {

/// Millionths per unit.
pub open spec fn micro() -> nat {
    1_000_000
}

/// Physical dimension of a quantity.
#[derive(Debug, Clone, Copy, PartialEq, Eq, Hash, Structural)]
pub enum Dimension {
    Mass,
    Volume,
    Count,
}

/// Display name of a dimension.
pub open spec fn dimension_text(d: Dimension) -> Seq<char> {
    match d {
        Dimension::Mass => "mass"@,
        Dimension::Volume => "volume"@,
        Dimension::Count => "count"@,
    }
}

impl Dimension {
    /// The dimension's display name (`mass`, `volume` or `count`).
    pub fn to_text(self) -> (r: String)
        ensures
            r@ == dimension_text(self),
    {
        match self {
            Dimension::Mass => String::from_str("mass"),
            Dimension::Volume => String::from_str("volume"),
            Dimension::Count => String::from_str("count"),
        }
    }
}

/// The view of a unit error.
pub enum UnitErrorView {
    UnknownUnit(Seq<char>),
}

/// A unit that is not a recognised metric alias.
#[derive(Debug, Clone, PartialEq)]
pub enum UnitError {
    UnknownUnit(String),
}

impl View for UnitError {
    type V = UnitErrorView;

    open spec fn view(&self) -> UnitErrorView {
        match self {
            UnitError::UnknownUnit(u) => UnitErrorView::UnknownUnit(u@),
        }
    }
}

/// Message of a unit error.
pub open spec fn unit_error_message(e: UnitErrorView) -> Seq<char> {
    match e {
        UnitErrorView::UnknownUnit(u) => "unknown unit `"@ + u
            + "`; expected metric (g, ml, l, kg, dl, cl, pc, …) or none"@,
    }
}

impl UnitError {
    /// The error message.
    pub fn message(&self) -> (r: String)
        ensures
            r@ == unit_error_message(self@),
    {
        let mut out = String::new();
        match self {
            UnitError::UnknownUnit(u) => {
                push_str(&mut out, "unknown unit `");
                push_str(&mut out, u.as_str());
                push_str(&mut out, "`; expected metric (g, ml, l, kg, dl, cl, pc, …) or none");
            },
        }
        out
    }
}

/// A canonical amount (millionths of a gram, millilitre or piece) and its dimension.
#[derive(Debug, Clone, Copy, PartialEq, Eq, Structural)]
pub struct Canonical {
    pub amount: u128,
    pub dimension: Dimension,
}

/// Grams per unit of a mass alias.
pub open spec fn mass_factor(u: Seq<char>) -> Option<nat> {
    if u == "g"@ || u == "gram"@ || u == "grams"@ {
        Some(1)
    } else if u == "kg"@ || u == "kilogram"@ || u == "kilograms"@ {
        Some(1000)
    } else {
        None
    }
}

/// Millilitres per unit of a volume alias.
pub open spec fn volume_factor(u: Seq<char>) -> Option<nat> {
    if u == "ml"@ || u == "millilitre"@ || u == "millilitres"@ || u == "milliliter"@ || u
        == "milliliters"@ {
        Some(1)
    } else if u == "cl"@ || u == "centilitre"@ || u == "centilitres"@ {
        Some(10)
    } else if u == "dl"@ || u == "decilitre"@ || u == "decilitres"@ {
        Some(100)
    } else if u == "l"@ || u == "litre"@ || u == "litres"@ || u == "liter"@ || u == "liters"@ {
        Some(1000)
    } else {
        None
    }
}

/// A piece alias.
pub open spec fn count_unit(u: Seq<char>) -> bool {
    u == "pc"@ || u == "pcs"@ || u == "piece"@ || u == "pieces"@
}

/// Grams per unit for a (lowercased) mass unit.
pub fn mass_factor_to_grams(u: &str) -> (r: Option<u128>)
    ensures
        match mass_factor(u@) {
            Some(f) => r == Some(f as u128),
            None => r is None,
        },
        r matches Some(f) ==> f <= 1000,
{
    if str_eq(u, "g") || str_eq(u, "gram") || str_eq(u, "grams") {
        Some(1)
    } else if str_eq(u, "kg") || str_eq(u, "kilogram") || str_eq(u, "kilograms") {
        Some(1000)
    } else {
        None
    }
}

/// Millilitres per unit for a (lowercased) volume unit.
pub fn volume_factor_to_ml(u: &str) -> (r: Option<u128>)
    ensures
        match volume_factor(u@) {
            Some(f) => r == Some(f as u128),
            None => r is None,
        },
        r matches Some(f) ==> f <= 1000,
{
    if str_eq(u, "ml") || str_eq(u, "millilitre") || str_eq(u, "millilitres") || str_eq(
        u,
        "milliliter",
    ) || str_eq(u, "milliliters") {
        Some(1)
    } else if str_eq(u, "cl") || str_eq(u, "centilitre") || str_eq(u, "centilitres") {
        Some(10)
    } else if str_eq(u, "dl") || str_eq(u, "decilitre") || str_eq(u, "decilitres") {
        Some(100)
    } else if str_eq(u, "l") || str_eq(u, "litre") || str_eq(u, "litres") || str_eq(u, "liter")
        || str_eq(u, "liters") {
        Some(1000)
    } else {
        None
    }
}

/// Whether a (lowercased) unit names pieces.
pub fn is_count_unit(u: &str) -> (r: bool)
    ensures
        r == count_unit(u@),
{
    str_eq(u, "pc") || str_eq(u, "pcs") || str_eq(u, "piece") || str_eq(u, "pieces")
}

/// Values given to `canonicalize` stay below this bound, so that a unit
/// factor cannot overflow.
pub open spec fn amount_bound() -> nat {
    10_000_000_000_000_000_000_000_000_000_000_000
}

/// Parsed decimal numbers stay below this bound (in millionths), so that
/// scaling by a `u32` serving count stays below `amount_bound`.
pub open spec fn parse_bound() -> nat {
    1_000_000_000_000_000_000_000_000
}

/// `canonicalize(value, unit)`: `None` is a counted item; a unit is trimmed
/// and ASCII-lowercased, then looked up among the mass, volume and piece aliases.
pub open spec fn canonical_spec(value: nat, unit: Option<Seq<char>>) -> Result<(nat, Dimension), Seq<char>> {
    match unit {
        None => Ok((value, Dimension::Count)),
        Some(u) => {
            let lower = lower_ascii_seq(trim(u));
            match mass_factor(lower) {
                Some(f) => Ok((value * f, Dimension::Mass)),
                None => match volume_factor(lower) {
                    Some(f) => Ok((value * f, Dimension::Volume)),
                    None => if count_unit(lower) {
                        Ok((value, Dimension::Count))
                    } else {
                        Err(u)
                    },
                },
            }
        },
    }
}

/// View of a canonicalisation result.
pub open spec fn canonical_view(r: Result<Canonical, UnitError>) -> Result<(nat, Dimension), Seq<char>> {
    match r {
        Ok(c) => Ok((c.amount as nat, c.dimension)),
        Err(UnitError::UnknownUnit(u)) => Err(u@),
    }
}

/// Convert a value (millionths) and unit to canonical units.
pub fn canonicalize(value: u128, unit: Option<&str>) -> (r: Result<Canonical, UnitError>)
    requires
        value < amount_bound(),
    ensures
        canonical_view(r) == canonical_spec(value as nat, match unit {
            Some(u) => Some(u@),
            None => None,
        }),
{
    match unit {
        None => Ok(Canonical { amount: value, dimension: Dimension::Count }),
        Some(u) => {
            let t = trimmed(u);
            let lower = to_ascii_lowercase(t.as_str());
            if let Some(f) = mass_factor_to_grams(lower.as_str()) {
                assert(value * f <= 10_000_000_000_000_000_000_000_000_000_000_000_000) by (nonlinear_arith)
                    requires
                        value < 10_000_000_000_000_000_000_000_000_000_000_000,
                        f <= 1000,
                ;
                Ok(Canonical { amount: value * f, dimension: Dimension::Mass })
            } else if let Some(f) = volume_factor_to_ml(lower.as_str()) {
                assert(value * f <= 10_000_000_000_000_000_000_000_000_000_000_000_000) by (nonlinear_arith)
                    requires
                        value < 10_000_000_000_000_000_000_000_000_000_000_000,
                        f <= 1000,
                ;
                Ok(Canonical { amount: value * f, dimension: Dimension::Volume })
            } else if is_count_unit(lower.as_str()) {
                Ok(Canonical { amount: value, dimension: Dimension::Count })
            } else {
                Err(UnitError::UnknownUnit(String::from_str(u)))
            }
        },
    }
}

/// `10^k`.
pub open spec fn pow10(k: nat) -> nat
    decreases k,
{
    if k == 0 {
        1
    } else {
        10 * pow10((k - 1) as nat)
    }
}

/// `m / d` rounded to nearest, halves up (the scaling of amounts).
pub open spec fn round_div(m: nat, d: nat) -> nat {
    if d == 0 {
        0
    } else {
        ((2 * m + d) / (2 * d)) as nat
    }
}

/// `m / d` rounded to nearest, halves up.
pub fn round_div_exec(m: u128, d: u128) -> (r: u128)
    requires
        d > 1,
    ensures
        r == round_div(m as nat, d as nat),
        r <= m / d + 1,
{
    let q = m / d;
    let rem = m % d;
    assert(q * d + rem == m && 0 <= rem < d) by (nonlinear_arith)
        requires
            d > 1,
            q == m / d,
            rem == m % d,
    ;
    assert(q < u128::MAX) by (nonlinear_arith)
        requires
            d > 1,
            q == m / d,
            m <= u128::MAX,
    ;
    if rem >= d - rem {
        assert((2 * m + d) / (2 * d) == q + 1) by (nonlinear_arith)
            requires
                q * d + rem == m,
                0 <= rem < d,
                2 * rem >= d,
                d > 1,
        ;
        q + 1
    } else {
        assert((2 * m + d) / (2 * d) == q) by (nonlinear_arith)
            requires
                q * d + rem == m,
                0 <= rem < d,
                2 * rem < d,
                d > 1,
        ;
        q
    }
}

/// Digits of a fraction, first six taken, scaled to millionths, rounded half up by the seventh.
pub open spec fn frac_micros(f: Seq<char>) -> nat {
    let k = if f.len() < 6 { f.len() } else { 6 };
    let base = (digits_val(f.subrange(0, k as int)) * pow10((6 - k) as nat)) as nat;
    if f.len() > 6 && f[6] >= '5' {
        base + 1
    } else {
        base
    }
}

/// Index of the first `'.'` in `s`, or `s.len()`.
pub open spec fn dot_index(s: Seq<char>) -> int {
    crate::index::scan::find_char(s, '.')
}

/// A plain decimal number (`digits[.digits]`, as `f64`'s `Display` writes a
/// finite non-negative value) in millionths, rounded half up; `None` for
/// anything else or for a value not below the amount bound.
pub open spec fn decimal_micros(s: Seq<char>) -> Option<nat> {
    let p = dot_index(s);
    let ip = s.subrange(0, p);
    let fp = if p < s.len() { s.subrange(p + 1, s.len() as int) } else { Seq::<char>::empty() };
    if ip.len() == 0 || !all_digits(ip) || !all_digits(fp) || (p < s.len() && fp.len() == 0) {
        None
    } else {
        let v = (digits_val(ip) * micro() + frac_micros(fp)) as nat;
        if v < parse_bound() {
            Some(v)
        } else {
            None
        }
    }
}

/// Value of the digits `cs[lo..hi]` (all digits, value at most `limit`),
/// or `None` if a character is not a digit or the value exceeds `limit`.
fn digits_upto(cs: &Vec<char>, lo: usize, hi: usize, limit: u128) -> (r: Option<u128>)
    requires
        lo <= hi <= cs@.len(),
        limit < 1_000_000_000_000_000_000_000_000_000,
    ensures
        match r {
            Some(v) => all_digits(cs@.subrange(lo as int, hi as int)) && v == digits_val(
                cs@.subrange(lo as int, hi as int),
            ) && v <= limit,
            None => !all_digits(cs@.subrange(lo as int, hi as int)) || digits_val(
                cs@.subrange(lo as int, hi as int),
            ) > limit,
        },
{
    let ghost d = cs@.subrange(lo as int, hi as int);
    let mut acc: u128 = 0;
    let mut i = lo;
    assert(cs@.subrange(lo as int, lo as int) =~= Seq::<char>::empty());
    while i < hi
        invariant
            lo <= i <= hi <= cs@.len(),
            d == cs@.subrange(lo as int, hi as int),
            forall|j: int| lo <= j < i ==> is_digit(#[trigger] cs@[j]),
            acc == digits_val(cs@.subrange(lo as int, i as int)),
            acc <= limit,
            limit < 1_000_000_000_000_000_000_000_000_000,
        decreases hi - i,
    {
        let c = cs[i];
        if !('0' <= c && c <= '9') {
            assert(!is_digit(d[i - lo]));
            return None;
        }
        let ghost pre = cs@.subrange(lo as int, i + 1);
        assert(pre.drop_last() =~= cs@.subrange(lo as int, i as int));
        let v = acc * 10 + (c as u128 - 48);
        assert(v == digits_val(pre));
        if v > limit {
            proof {
                if all_digits(d) {
                    lemma_digits_val_grows(d, i + 1 - lo);
                    assert(d.subrange(0, i + 1 - lo) =~= pre);
                }
            }
            return None;
        }
        acc = v;
        i = i + 1;
    }
    assert(cs@.subrange(lo as int, i as int) =~= d);
    proof {
        assert forall|j: int| 0 <= j < d.len() implies is_digit(#[trigger] d[j]) by {
            assert(d[j] == cs@[lo + j]);
        };
    }
    Some(acc)
}

proof fn lemma_pow10_values()
    ensures
        pow10(0) == 1,
        pow10(1) == 10,
        pow10(2) == 100,
        pow10(3) == 1000,
        pow10(4) == 10_000,
        pow10(5) == 100_000,
        pow10(6) == 1_000_000,
{
    reveal_with_fuel(pow10, 7);
}

proof fn lemma_digits_bound(s: Seq<char>)
    requires
        all_digits(s),
    ensures
        0 <= digits_val(s) < pow10(s.len()),
    decreases s.len(),
{
    if s.len() > 0 {
        let t = s.drop_last();
        assert(all_digits(t)) by {
            assert forall|j: int| 0 <= j < t.len() implies is_digit(#[trigger] t[j]) by {
                assert(t[j] == s[j]);
            };
        };
        lemma_digits_bound(t);
        assert(is_digit(s[s.len() - 1]));
        let x = digits_val(t);
        let p = pow10(t.len());
        assert(pow10(s.len()) == 10 * p);
        assert(x * 10 + 9 < 10 * p) by (nonlinear_arith)
            requires
                0 <= x < p,
        ;
    }
}

/// Whether `cs[lo..hi]` are all ASCII digits.
fn all_digits_exec(cs: &Vec<char>, lo: usize, hi: usize) -> (r: bool)
    requires
        lo <= hi <= cs@.len(),
    ensures
        r == all_digits(cs@.subrange(lo as int, hi as int)),
{
    let mut i = lo;
    while i < hi
        invariant
            lo <= i <= hi <= cs@.len(),
            forall|j: int| lo <= j < i ==> is_digit(#[trigger] cs@[j]),
        decreases hi - i,
    {
        if !('0' <= cs[i] && cs[i] <= '9') {
            assert(!is_digit(cs@.subrange(lo as int, hi as int)[i - lo]));
            return false;
        }
        i = i + 1;
    }
    assert forall|j: int| 0 <= j < hi - lo implies is_digit(#[trigger] cs@.subrange(lo as int, hi as int)[j]) by {
        assert(cs@.subrange(lo as int, hi as int)[j] == cs@[lo + j]);
    };
    true
}

/// Parse a plain decimal number into millionths (see `decimal_micros`).
pub fn parse_decimal(s: &str) -> (r: Option<u128>)
    ensures
        match decimal_micros(s@) {
            Some(v) => r == Some(v as u128),
            None => r is None,
        },
{
    let cs = chars_of(s);
    let n = cs.len();
    let mut p: usize = 0;
    while p < n && cs[p] != '.'
        invariant
            p <= n == cs@.len(),
            forall|j: int| 0 <= j < p ==> cs@[j] != '.',
        decreases n - p,
    {
        p = p + 1;
    }
    proof {
        crate::index::scan::lemma_find_char(cs@, '.', p as int);
    }
    let ghost ip = cs@.subrange(0, p as int);
    let fstart = if p < n { p + 1 } else { n };
    let ghost fp = if p < n { cs@.subrange(p + 1, n as int) } else { Seq::<char>::empty() };
    assert(fp =~= cs@.subrange(fstart as int, n as int));
    if p == 0 || !all_digits_exec(&cs, 0, p) || !all_digits_exec(&cs, fstart, n) || (p < n
        && fstart == n) {
        return None;
    }
    let ipart = match digits_upto(&cs, 0, p, 999_999_999_999_999_999) {
        Some(v) => v,
        None => {
            proof {
                let k = if fp.len() < 6 { fp.len() } else { 6 };
                assert(all_digits(fp.subrange(0, k as int))) by {
                    assert forall|j: int| 0 <= j < k implies is_digit(#[trigger] fp.subrange(0, k as int)[j]) by {
                        assert(fp.subrange(0, k as int)[j] == fp[j]);
                    };
                };
                lemma_digits_bound(fp.subrange(0, k as int));
                lemma_pow10_values();
                assert(pow10((6 - k) as nat) >= 1);
                let dv = digits_val(fp.subrange(0, k as int));
                let pw = pow10((6 - k) as nat);
                assert(dv * pw >= 0) by (nonlinear_arith)
                    requires
                        dv >= 0,
                        pw >= 1,
                ;
            }
            return None;
        },
    };
    let k = if n - fstart < 6 { n - fstart } else { 6 };
    assert(cs@.subrange(fstart as int, (fstart + k) as int) =~= fp.subrange(0, k as int));
    assert(all_digits(fp.subrange(0, k as int))) by {
        assert forall|j: int| 0 <= j < k implies is_digit(#[trigger] fp.subrange(0, k as int)[j]) by {
            assert(fp.subrange(0, k as int)[j] == fp[j]);
        };
    };
    proof {
        lemma_digits_bound(fp.subrange(0, k as int));
        lemma_pow10_values();
    }
    let fdigits = match digits_upto(&cs, fstart, fstart + k, 999_999) {
        Some(v) => v,
        None => {
            return None;
        },
    };
    let scale: u128 = if k == 0 {
        1_000_000
    } else if k == 1 {
        100_000
    } else if k == 2 {
        10_000
    } else if k == 3 {
        1000
    } else if k == 4 {
        100
    } else if k == 5 {
        10
    } else {
        1
    };
    assert(scale == pow10((6 - k) as nat));
    let ghost pk = pow10(k as nat);
    assert(pk * scale == 1_000_000);
    assert(fdigits * scale < 1_000_000) by (nonlinear_arith)
        requires
            fdigits < pk,
            pk * scale == 1_000_000,
            scale >= 1,
    ;
    let mut frac = fdigits * scale;
    if n - fstart > 6 && cs[fstart + 6] >= '5' {
        frac = frac + 1;
    }
    assert(frac == frac_micros(fp));
    assert(ipart * 1_000_000 <= 999_999_999_999_999_999_000_000) by (nonlinear_arith)
        requires
            ipart <= 999_999_999_999_999_999,
    ;
    let v = ipart * 1_000_000 + frac;
    if v < 1_000_000_000_000_000_000_000_000 {
        Some(v)
    } else {
        None
    }
}

/// `m / d` rounded to nearest, exact halves to the even neighbour (as the
/// standard library's decimal formatting of a float rounds an exact tie).
pub open spec fn round_even(m: nat, d: nat) -> nat {
    if d == 0 {
        0
    } else {
        let q = m / d;
        let r = m % d;
        if 2 * r > d || (2 * r == d && q % 2 == 1) {
            q + 1
        } else {
            q
        }
    }
}

/// `m / d` rounded to nearest, exact halves to even.
pub fn round_even_exec(m: u128, d: u128) -> (r: u128)
    requires
        d > 1,
    ensures
        r == round_even(m as nat, d as nat),
{
    let q = m / d;
    let rem = m % d;
    assert(q < u128::MAX) by (nonlinear_arith)
        requires
            d > 1,
            q == m / d,
            m <= u128::MAX,
    ;
    if rem > d - rem || (rem == d - rem && q % 2 == 1) {
        q + 1
    } else {
        q
    }
}

/// A count of tenths with one decimal: `X.d`.
pub open spec fn one_dp(t: nat) -> Seq<char> {
    dec(t / 10) + seq!['.', digit_char((t % 10) as int)]
}

/// A count of tenths with its decimal dropped when it is zero: `X` or `X.d`.
pub open spec fn tenths_trimmed(t: nat) -> Seq<char> {
    if t % 10 == 0 {
        dec(t / 10)
    } else {
        one_dp(t)
    }
}

/// A count of hundredths with two decimals: `X.dd`.
pub open spec fn two_dp(h: nat) -> Seq<char> {
    dec(h / 100) + seq!['.', digit_char(((h % 100) / 10) as int), digit_char((h % 10) as int)]
}

/// A count of hundredths with trailing zero decimals (and then the point) dropped.
pub open spec fn hundredths_trimmed(h: nat) -> Seq<char> {
    if h % 100 == 0 {
        dec(h / 100)
    } else if h % 10 == 0 {
        dec(h / 100) + seq!['.', digit_char(((h % 100) / 10) as int)]
    } else {
        two_dp(h)
    }
}

/// `trim_number(v, 1)`: rounded to one decimal, a zero decimal dropped.
pub open spec fn trim_number_spec(m: nat) -> Seq<char> {
    tenths_trimmed(round_even(m, 100_000))
}

/// The "best display unit" text of a canonical amount: mass from 1000 g in kg
/// with two decimals, volume from 1000 ml in l with two decimals, otherwise
/// the canonical unit with at most one decimal; counts whole, or with one decimal.
pub open spec fn display_spec(amount: nat, dim: Dimension) -> Seq<char> {
    match dim {
        Dimension::Mass => if amount >= 1000 * micro() {
            two_dp(round_even(amount, 10_000_000)) + " kg"@
        } else {
            trim_number_spec(amount) + " g"@
        },
        Dimension::Volume => if amount >= 1000 * micro() {
            two_dp(round_even(amount, 10_000_000)) + " l"@
        } else {
            trim_number_spec(amount) + " ml"@
        },
        Dimension::Count => if amount % micro() == 0 {
            dec(amount / micro())
        } else {
            one_dp(round_even(amount, 100_000))
        },
    }
}

/// `format_number`: whole numbers plain, otherwise two decimals with
/// trailing zeros dropped.
pub open spec fn number_text(m: nat) -> Seq<char> {
    hundredths_trimmed(round_even(m, 10_000))
}

fn push_one_dp(out: &mut String, t: u128)
    ensures
        final(out)@ == old(out)@ + one_dp(t as nat),
{
    push_dec(out, (t / 10) as u128);
    out.push('.');
    out.push(digit((t % 10) as u128));
    assert(final(out)@ =~= old(out)@ + one_dp(t as nat));
}

fn push_two_dp(out: &mut String, h: u128)
    ensures
        final(out)@ == old(out)@ + two_dp(h as nat),
{
    push_dec(out, (h / 100) as u128);
    out.push('.');
    out.push(digit(((h % 100) / 10) as u128));
    out.push(digit((h % 10) as u128));
    assert(final(out)@ =~= old(out)@ + two_dp(h as nat));
}

/// `trim_number(m, 1)` on an amount in millionths.
pub fn trim_number(m: u128) -> (r: String)
    ensures
        r@ == trim_number_spec(m as nat),
{
    let t = round_even_exec(m, 100_000);
    let mut out = String::new();
    if t % 10 == 0 {
        push_dec(&mut out, (t / 10) as u128);
    } else {
        push_one_dp(&mut out, t);
    }
    out
}

/// Format a canonical amount using the best display unit.
pub fn format_display(c: Canonical) -> (r: String)
    ensures
        r@ == display_spec(c.amount as nat, c.dimension),
{
    match c.dimension {
        Dimension::Mass => {
            if c.amount >= 1_000_000_000 {
                let mut out = String::new();
                push_two_dp(&mut out, round_even_exec(c.amount, 10_000_000));
                push_str(&mut out, " kg");
                out
            } else {
                let mut out = trim_number(c.amount);
                push_str(&mut out, " g");
                out
            }
        },
        Dimension::Volume => {
            if c.amount >= 1_000_000_000 {
                let mut out = String::new();
                push_two_dp(&mut out, round_even_exec(c.amount, 10_000_000));
                push_str(&mut out, " l");
                out
            } else {
                let mut out = trim_number(c.amount);
                push_str(&mut out, " ml");
                out
            }
        },
        Dimension::Count => {
            let mut out = String::new();
            if c.amount % 1_000_000 == 0 {
                push_dec(&mut out, (c.amount / 1_000_000) as u128);
            } else {
                push_one_dp(&mut out, round_even_exec(c.amount, 100_000));
            }
            out
        },
    }
}

/// `format_number` on a value in millionths.
pub fn format_number(m: u128) -> (r: String)
    ensures
        r@ == number_text(m as nat),
{
    let h = round_even_exec(m, 10_000);
    let mut out = String::new();
    if h % 100 == 0 {
        push_dec(&mut out, (h / 100) as u128);
    } else if h % 10 == 0 {
        push_dec(&mut out, (h / 100) as u128);
        out.push('.');
        out.push(digit(((h % 100) / 10) as u128));
        assert(out@ =~= number_text(m as nat));
    } else {
        push_two_dp(&mut out, h);
    }
    out
}

} // verus!
