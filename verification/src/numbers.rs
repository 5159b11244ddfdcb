//! Numbers typed at the warehouse prompts: barcodes and material numbers.
use vstd::prelude::*;
use vstd::string::*;
use vstd::utf8::{encode_utf8, is_ascii_chars, is_ascii_chars_encode_utf8};

use crate::text::{chars_of, lemma_trimmed_idempotent, trim, trimmed};

verus! {

/// The number that a short-hand material number is completed from.
pub const MATERIAL_BASE: u64 = 1_000_000_000_000;

/// The length of a full barcode or material number.
pub const CODE_LEN: usize = 13;

/// Whether `c` is a decimal digit.
pub open spec fn is_digit(c: char) -> bool {
    '0' <= c && c <= '9'
}

/// The value of a decimal digit.
pub open spec fn digit_value(c: char) -> nat {
    ((c as int) - ('0' as int)) as nat
}

/// The value of a string of decimal digits.
pub open spec fn decimal_value(d: Seq<char>) -> nat
    decreases d.len(),
{
    if d.len() == 0 {
        0
    } else {
        decimal_value(d.drop_last()) * 10 + digit_value(d.last())
    }
}

/// The digits of an unsigned number as `str::parse` reads them: an optional
/// leading `+`, then the rest.
pub open spec fn unsigned_digits(s: Seq<char>) -> Seq<char> {
    if s.len() > 0 && s[0] == '+' {
        s.drop_first()
    } else {
        s
    }
}

/// `s` read as a `u64`, as `str::parse::<u64>` reads it: `None` when it is
/// not a number or does not fit.
pub open spec fn parsed_u64(s: Seq<char>) -> Option<u64> {
    let d = unsigned_digits(s);
    if d.len() > 0 && (forall|i: int| 0 <= i < d.len() ==> is_digit(#[trigger] d[i]))
        && decimal_value(d) <= u64::MAX {
        Some(decimal_value(d) as u64)
    } else {
        None
    }
}

/// Ten to the power `e`.
pub open spec fn power_of_ten(e: nat) -> nat
    decreases e,
{
    if e == 0 {
        1
    } else {
        10 * power_of_ten((e - 1) as nat)
    }
}

/// The number of decimal digits of `n`, as its decimal text has them.
pub open spec fn decimal_digits(n: nat) -> nat
    decreases n,
{
    if n < 10 {
        1
    } else {
        1 + decimal_digits(n / 10)
    }
}

/// What a number typed at a prompt comes to.
#[derive(Debug, Clone, Copy, PartialEq, Eq)]
pub enum NumberInput {
    /// The number is taken.
    Accepted(u64),
    /// A number, but of the wrong length; it is asked for again.
    WrongLength,
    /// Not a number; it is asked for again.
    NotANumber,
}

/// Whether every character of `t` is a decimal digit.
pub open spec fn all_digits(t: Seq<char>) -> bool {
    forall|i: int| 0 <= i < t.len() ==> is_digit(#[trigger] t[i])
}

/// A typed barcode: exactly 13 decimal digits. Digits of another length are
/// a wrong length; anything else, a sign included, is not a number.
pub open spec fn barcode_of(input: Seq<char>) -> NumberInput {
    let t = trimmed(input);
    if !all_digits(t) {
        NumberInput::NotANumber
    } else {
        match parsed_u64(t) {
            Some(n) => if t.len() == 13 {
                NumberInput::Accepted(n)
            } else {
                NumberInput::WrongLength
            },
            None => NumberInput::NotANumber,
        }
    }
}

/// A typed material number, read as `str::parse::<u64>` reads it (an
/// optional `+`, then digits): a number of 13 characters is taken as it is,
/// one of 1 to 12 characters is completed to `1000000000000 + n`. A number
/// of more characters is a wrong length; anything else is not a number.
pub open spec fn material_of(input: Seq<char>) -> NumberInput {
    let t = trimmed(input);
    match parsed_u64(t) {
        Some(n) => if t.len() == 13 {
            NumberInput::Accepted(n)
        } else if 0 < t.len() < 13 {
            NumberInput::Accepted((MATERIAL_BASE + n) as u64)
        } else {
            NumberInput::WrongLength
        },
        None => NumberInput::NotANumber,
    }
}

/// Whether every character of `s` is a decimal digit.
pub fn is_all_digits(s: &str) -> (r: bool)
    ensures
        r == all_digits(s@),
{
    let v = chars_of(s);
    let mut i: usize = 0;
    while i < v.len()
        invariant
            v@ == s@,
            i <= v@.len(),
            forall|k: int| 0 <= k < i ==> is_digit(#[trigger] v@[k]),
        decreases v@.len() - i,
    {
        let c = v[i];
        if !('0' <= c && c <= '9') {
            assert(!is_digit(v@[i as int]));
            return false;
        }
        i = i + 1;
    }
    true
}

/// `s` read as a `u64`: an optional `+`, then decimal digits.
pub fn parse_u64(s: &str) -> (r: Option<u64>)
    ensures
        r == parsed_u64(s@),
        s@.len() <= usize::MAX,
{
    let v = chars_of(s);
    let n = v.len();
    let start: usize = if n > 0 && v[0] == '+' {
        1
    } else {
        0
    };
    let ghost d = unsigned_digits(s@);
    assert(d =~= v@.skip(start as int));
    if start == n {
        return None;
    }
    let mut acc: u64 = 0;
    let mut over = false;
    let mut i = start;
    assert(d.take(0) =~= Seq::<char>::empty());
    while i < n
        invariant
            start <= i <= n == v@.len(),
            start < n,
            v@ == s@,
            d == unsigned_digits(s@),
            d == v@.skip(start as int),
            forall|k: int| 0 <= k < i - start ==> is_digit(#[trigger] d[k]),
            !over ==> acc as nat == decimal_value(d.take(i - start)),
            over ==> decimal_value(d.take(i - start)) > u64::MAX,
        decreases n - i,
    {
        let c = v[i];
        if !('0' <= c && c <= '9') {
            assert(d[i - start] == c);
            assert(!is_digit(d[i - start]));
            return None;
        }
        let dv: u64 = (c as u32 - '0' as u32) as u64;
        let ghost prefix = d.take(i - start);
        assert(d.take(i + 1 - start).drop_last() =~= prefix);
        assert(d.take(i + 1 - start).last() == c);
        if !over {
            match acc.checked_mul(10) {
                Some(m) => match m.checked_add(dv) {
                    Some(a) => {
                        acc = a;
                    },
                    None => {
                        over = true;
                    },
                },
                None => {
                    over = true;
                },
            }
        }
        i = i + 1;
    }
    assert(d.take(n - start) =~= d);
    if over {
        None
    } else {
        Some(acc)
    }
}

/// The number of decimal digits of `n`.
pub fn count_digits(n: u64) -> (r: u32)
    ensures
        r as nat == decimal_digits(n as nat),
        1 <= r <= 20,
{
    proof {
        lemma_u64_digits(n as nat);
    }
    let mut m = n;
    let mut count: u32 = 1;
    while m >= 10
        invariant
            1 <= count,
            decimal_digits(n as nat) <= 20,
            decimal_digits(m as nat) >= 1,
            count as nat + decimal_digits(m as nat) == 1 + decimal_digits(n as nat),
        decreases m,
    {
        proof {
            lemma_digits_positive(m as nat / 10);
        }
        m = m / 10;
        count = count + 1;
    }
    count
}

/// Every number has at least one digit.
proof fn lemma_digits_positive(n: nat)
    ensures
        decimal_digits(n) >= 1,
    decreases n,
{
    if n >= 10 {
        lemma_digits_positive(n / 10);
    }
}

/// A `u64` has at most 20 digits.
proof fn lemma_u64_digits(n: nat)
    requires
        n <= u64::MAX,
    ensures
        decimal_digits(n) <= 20,
        decimal_digits(n) >= 1,
{
    assert(power_of_ten(20) == 100_000_000_000_000_000_000) by {
        reveal_with_fuel(power_of_ten, 21);
    }
    lemma_digits_at_most(n, 20);
    lemma_digits_positive(n);
}

/// Ten to the power `e`.
pub fn power_of_ten_u64(e: u32) -> (r: u64)
    requires
        e <= 19,
    ensures
        r as nat == power_of_ten(e as nat),
{
    let mut r: u64 = 1;
    let mut i: u32 = 0;
    while i < e
        invariant
            i <= e <= 19,
            r as nat == power_of_ten(i as nat),
        decreases e - i,
    {
        proof {
            lemma_power_of_ten_bound(i as nat);
        }
        r = r * 10;
        i = i + 1;
    }
    r
}

/// A barcode typed at the prompt: the trimmed input, when it is exactly 13
/// decimal digits; otherwise it is asked for again.
pub fn barcode_from_input(input: &str) -> (r: NumberInput)
    ensures
        r == barcode_of(input@),
        r is Accepted <==> trimmed(input@).len() == 13 && all_digits(trimmed(input@)),
        trimmed(input@).len() == 13 && all_digits(trimmed(input@)) ==> r == NumberInput::Accepted(
            decimal_value(trimmed(input@)) as u64,
        ),
{
    let command = trim(input);
    let t = trim(command.as_str());
    proof {
        lemma_trimmed_idempotent(input@);
    }
    if !is_all_digits(t.as_str()) {
        return NumberInput::NotANumber;
    }
    proof {
        lemma_digit_text_parses(t@);
    }
    match parse_u64(t.as_str()) {
        Some(num) => {
            proof {
                lemma_parsed_is_ascii(t@);
            }
            if t.as_str().len() == CODE_LEN {
                NumberInput::Accepted(num)
            } else {
                NumberInput::WrongLength
            }
        },
        None => NumberInput::NotANumber,
    }
}

/// A material number typed at the prompt: a number of 13 characters is
/// taken as it is; one of 1 to 12 characters fills the end of
/// `1000000000000`, so that `2748` becomes `1000000002748`; anything else
/// is asked for again.
pub fn material_from_input(input: &str) -> (r: NumberInput)
    ensures
        r == material_of(input@),
        r is Accepted <==> 0 < trimmed(input@).len() <= 13 && parsed_u64(trimmed(input@)) is Some,
        trimmed(input@).len() == 13 && parsed_u64(trimmed(input@)) is Some ==> r
            == NumberInput::Accepted(parsed_u64(trimmed(input@)).unwrap()),
        0 < trimmed(input@).len() < 13 && parsed_u64(trimmed(input@)) is Some ==> r
            == NumberInput::Accepted(
            (1_000_000_000_000 + parsed_u64(trimmed(input@)).unwrap()) as u64,
        ),
{
    let material: u64 = MATERIAL_BASE;
    let material_len: usize = CODE_LEN;
    let command = trim(input);
    let t = trim(command.as_str());
    proof {
        lemma_trimmed_idempotent(input@);
    }
    match parse_u64(t.as_str()) {
        Some(new_material) => {
            proof {
                lemma_parsed_is_ascii(t@);
            }
            let len = t.as_str().len();
            if len == material_len {
                NumberInput::Accepted(new_material)
            } else if len > 0 && len < material_len {
                proof {
                    lemma_short_number_bound(t@);
                    lemma_digits_at_most(new_material as nat, 12);
                }
                let num_digits_to_replace = count_digits(new_material);
                let p = power_of_ten_u64(num_digits_to_replace);
                proof {
                    lemma_base_split(num_digits_to_replace as nat);
                }
                let temp_material = material / p;
                assert(temp_material as nat * p as nat == MATERIAL_BASE as nat);
                let completed = temp_material * p + new_material;
                NumberInput::Accepted(completed)
            } else {
                NumberInput::WrongLength
            }
        },
        None => NumberInput::NotANumber,
    }
}

/// A text of 1 to 13 digits reads as its decimal value.
proof fn lemma_digit_text_parses(t: Seq<char>)
    requires
        all_digits(t),
    ensures
        0 < t.len() <= 13 ==> parsed_u64(t) == Some(decimal_value(t) as u64),
{
    if 0 < t.len() <= 13 {
        assert(!(t[0] == '+')) by {
            assert(is_digit(t[0]));
        }
        assert(unsigned_digits(t) == t);
        lemma_value_bound(t);
        lemma_power_of_ten_monotone(t.len(), 13);
        assert(power_of_ten(13) == 10_000_000_000_000) by {
            reveal_with_fuel(power_of_ten, 14);
        }
    }
}

/// A text that reads as a number is ASCII, so its byte length is its length.
proof fn lemma_parsed_is_ascii(t: Seq<char>)
    requires
        parsed_u64(t) is Some,
    ensures
        is_ascii_chars(t),
        encode_utf8(t).len() == t.len(),
{
    let d = unsigned_digits(t);
    assert forall|i: int| 0 <= i < t.len() implies '\0' <= #[trigger] t[i] <= '\u{7f}' by {
        if t.len() > 0 && t[0] == '+' {
            if i > 0 {
                assert(d[i - 1] == t[i]);
                assert(is_digit(d[i - 1]));
            }
        } else {
            assert(d[i] == t[i]);
            assert(is_digit(d[i]));
        }
    }
    assert(is_ascii_chars(t));
    is_ascii_chars_encode_utf8(t);
}

/// A number of at most 12 characters is below `10^12`.
proof fn lemma_short_number_bound(t: Seq<char>)
    requires
        parsed_u64(t) is Some,
        t.len() <= 12,
    ensures
        parsed_u64(t).unwrap() < power_of_ten(12),
        parsed_u64(t).unwrap() < 1_000_000_000_000,
{
    let d = unsigned_digits(t);
    lemma_value_bound(d);
    lemma_power_of_ten_monotone(d.len(), 12);
    assert(power_of_ten(12) == 1_000_000_000_000) by {
        reveal_with_fuel(power_of_ten, 13);
    }
}

/// `m` digits have a value below `10^m`.
proof fn lemma_value_bound(d: Seq<char>)
    requires
        forall|i: int| 0 <= i < d.len() ==> is_digit(#[trigger] d[i]),
    ensures
        decimal_value(d) < power_of_ten(d.len()),
    decreases d.len(),
{
    if d.len() > 0 {
        let p = d.drop_last();
        assert forall|i: int| 0 <= i < p.len() implies is_digit(#[trigger] p[i]) by {
            assert(p[i] == d[i]);
        }
        lemma_value_bound(p);
        assert(is_digit(d[d.len() - 1]));
        assert(digit_value(d.last()) <= 9);
    }
}

/// Powers of ten grow with the exponent.
proof fn lemma_power_of_ten_monotone(a: nat, b: nat)
    requires
        a <= b,
    ensures
        power_of_ten(a) <= power_of_ten(b),
    decreases b,
{
    if a < b {
        lemma_power_of_ten_monotone(a, (b - 1) as nat);
    }
}

/// Ten to the power 19 and below fits in a `u64` with a factor ten to spare
/// below the nineteenth power.
proof fn lemma_power_of_ten_bound(e: nat)
    requires
        e < 19,
    ensures
        power_of_ten(e) * 10 <= u64::MAX,
{
    lemma_power_of_ten_monotone(e, 18);
    reveal_with_fuel(power_of_ten, 19);
}

/// A number below `10^k` has at most `k` digits.
proof fn lemma_digits_at_most(n: nat, k: nat)
    requires
        k >= 1,
        n < power_of_ten(k),
    ensures
        decimal_digits(n) <= k,
    decreases k,
{
    if n >= 10 {
        assert(k >= 2) by {
            if k == 1 {
                reveal_with_fuel(power_of_ten, 2);
            }
        }
        lemma_digits_at_most(n / 10, (k - 1) as nat);
    }
}

/// Powers of ten multiply by adding exponents.
proof fn lemma_power_of_ten_adds(a: nat, b: nat)
    ensures
        power_of_ten(a + b) == power_of_ten(a) * power_of_ten(b),
    decreases a,
{
    if a > 0 {
        let a1 = (a - 1) as nat;
        lemma_power_of_ten_adds(a1, b);
        let x = power_of_ten(a1);
        let y = power_of_ten(b);
        assert(power_of_ten(a1 + b) == x * y);
        assert((10 * x) * y == 10 * (x * y)) by (nonlinear_arith);
        assert(a1 + b + 1 == a + b);
        assert(power_of_ten(a + b) == 10 * power_of_ten(a1 + b));
        assert(power_of_ten(a) == 10 * x);
    } else {
        assert(power_of_ten(a) == 1);
        assert(a + b == b);
    }
}

/// Dividing `10^12` by `10^d` and multiplying back gives `10^12`, for
/// `1 <= d <= 12`.
proof fn lemma_base_split(d: nat)
    requires
        1 <= d <= 12,
    ensures
        power_of_ten(d) > 0,
        (MATERIAL_BASE as nat / power_of_ten(d)) * power_of_ten(d) == MATERIAL_BASE as nat,
{
    lemma_power_of_ten_adds((12 - d) as nat, d);
    assert(power_of_ten(12) == MATERIAL_BASE as nat) by {
        reveal_with_fuel(power_of_ten, 13);
    }
    lemma_power_of_ten_monotone(0, d);
    let q = power_of_ten((12 - d) as nat);
    let p = power_of_ten(d);
    assert((12 - d) as nat + d == 12);
    assert((q * p) / p == q) by (nonlinear_arith)
        requires
            p > 0,
    ;
}

/// A material number of exactly 13 characters is taken as the number it
/// reads as, and one of 1 to 12 characters is added to `1000000000000`.
pub proof fn material_number_is_taken_or_completed(input: Seq<char>)
    ensures
        trimmed(input).len() == 13 && parsed_u64(trimmed(input)) is Some ==> material_of(input)
            == NumberInput::Accepted(parsed_u64(trimmed(input)).unwrap()),
        0 < trimmed(input).len() < 13 && parsed_u64(trimmed(input)) is Some ==> material_of(input)
            == NumberInput::Accepted((1_000_000_000_000 + parsed_u64(trimmed(input)).unwrap()) as u64),
        parsed_u64(trimmed(input)) is None ==> material_of(input) == NumberInput::NotANumber,
{
}

/// A barcode of exactly 13 decimal digits is taken as the number they
/// spell, and nothing else is taken.
pub proof fn barcode_is_thirteen_digits(input: Seq<char>)
    ensures
        trimmed(input).len() == 13 && all_digits(trimmed(input)) ==> barcode_of(input)
            == NumberInput::Accepted(decimal_value(trimmed(input)) as u64),
        barcode_of(input) is Accepted ==> trimmed(input).len() == 13 && all_digits(trimmed(input)),
{
    if all_digits(trimmed(input)) {
        lemma_digit_text_parses(trimmed(input));
    }
}

/// A short-hand material number is completed by adding it to
/// `1000000000000`: for every typed number of 1 to 12 characters, the result is
/// `1000000000000 + n`, which stays below `2000000000000`.
pub proof fn lemma_short_material_completion(input: Seq<char>)
    requires
        parsed_u64(trimmed(input)) is Some,
        0 < trimmed(input).len() < 13,
    ensures
        material_of(input) == NumberInput::Accepted(
            (MATERIAL_BASE + parsed_u64(trimmed(input)).unwrap()) as u64,
        ),
        parsed_u64(trimmed(input)).unwrap() < 1_000_000_000_000,
{
    lemma_short_number_bound(trimmed(input));
}

} // verus!
