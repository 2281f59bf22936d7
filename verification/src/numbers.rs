//! The language's numbers: decimal fixed-point values with ten fractional
//! digits, held as `u128` counts of the smallest unit. The largest value is
//! `NUM_MAX` units; parsing and addition saturate there. Two numbers are
//! `same` when they lie strictly within `TOLERANCE` units (a billionth) of
//! each other, and `not equal` when they differ by strictly more than that.

use vstd::prelude::*;

verus! {

/// Units per whole number: ten fractional decimal digits.
pub const SCALE: u128 = 10_000_000_000;

/// The largest representable number, in units.
pub const NUM_MAX: u128 = 100_000_000_000_000_000_000_000_000_000_000_000_000;

/// `same` tolerance in units: one billionth.
pub const TOLERANCE: u128 = 10;

/// The integer part may not exceed `NUM_MAX / SCALE` units of one.
pub const INT_CAP: u128 = 10_000_000_000_000_000_000_000_000_000;

pub open spec fn is_digit_char(c: char) -> bool {
    c == '0' || c == '1' || c == '2' || c == '3' || c == '4' || c == '5' || c == '6' || c == '7'
        || c == '8' || c == '9'
}

pub open spec fn digit_of_char(c: char) -> int {
    if c == '0' {
        0
    } else if c == '1' {
        1
    } else if c == '2' {
        2
    } else if c == '3' {
        3
    } else if c == '4' {
        4
    } else if c == '5' {
        5
    } else if c == '6' {
        6
    } else if c == '7' {
        7
    } else if c == '8' {
        8
    } else {
        9
    }
}

pub open spec fn char_of_digit(d: int) -> char {
    if d == 0 {
        '0'
    } else if d == 1 {
        '1'
    } else if d == 2 {
        '2'
    } else if d == 3 {
        '3'
    } else if d == 4 {
        '4'
    } else if d == 5 {
        '5'
    } else if d == 6 {
        '6'
    } else if d == 7 {
        '7'
    } else if d == 8 {
        '8'
    } else {
        '9'
    }
}

/// The value of a digit string, most significant digit first.
pub open spec fn digits_val(s: Seq<char>) -> int
    decreases s.len(),
{
    if s.len() == 0 {
        0
    } else {
        digits_val(s.drop_last()) * 10 + digit_of_char(s.last())
    }
}

pub open spec fn all_digits(s: Seq<char>) -> bool {
    forall|i: int| 0 <= i < s.len() ==> is_digit_char(s[i])
}

pub open spec fn pow10(n: nat) -> int
    decreases n,
{
    if n == 0 {
        1
    } else {
        10 * pow10((n - 1) as nat)
    }
}

/// Well-formed numeric literal text: only digits and dots, at most one dot,
/// and at least one digit.
pub open spec fn valid_number_text(s: Seq<char>) -> bool {
    &&& forall|i: int| 0 <= i < s.len() ==> (is_digit_char(s[i]) || s[i] == '.')
    &&& forall|i: int, j: int| 0 <= i < j < s.len() && s[i] == '.' ==> s[j] != '.'
    &&& exists|i: int| 0 <= i < s.len() && is_digit_char(s[i])
}

/// Position of the dot in well-formed text, or the length when there is none.
pub open spec fn dot_index(s: Seq<char>) -> int {
    if exists|i: int| 0 <= i < s.len() && s[i] == '.' {
        choose|i: int| 0 <= i < s.len() && s[i] == '.'
    } else {
        s.len() as int
    }
}

/// Clamp an unbounded value into the representable range.
pub open spec fn sat_units(raw: int) -> u128 {
    if raw > NUM_MAX {
        NUM_MAX
    } else {
        raw as u128
    }
}

/// The number a well-formed literal denotes: integer digits scaled up, plus
/// the first ten fractional digits right-padded to ten places.
pub open spec fn spec_parse_number(s: Seq<char>) -> Option<u128> {
    if !valid_number_text(s) {
        None
    } else {
        let d = dot_index(s);
        let ip = s.take(d);
        let fp_all = if d < s.len() {
            s.skip(d + 1)
        } else {
            Seq::<char>::empty()
        };
        let fp = if fp_all.len() <= 10 {
            fp_all
        } else {
            fp_all.take(10)
        };
        Some(sat_units(digits_val(ip) * SCALE + digits_val(fp) * pow10((10 - fp.len()) as nat)))
    }
}

/// Minimal decimal digit string of a non-negative value.
pub open spec fn spec_digits(n: int) -> Seq<char>
    decreases n,
{
    if n <= 0 {
        seq!['0']
    } else if n < 10 {
        seq![char_of_digit(n)]
    } else {
        spec_digits(n / 10).push(char_of_digit(n % 10))
    }
}

/// A value right-aligned in exactly `w` digit places.
pub open spec fn spec_padded(n: int, w: nat) -> Seq<char>
    decreases w,
{
    if w == 0 {
        Seq::<char>::empty()
    } else {
        spec_padded(n / 10, (w - 1) as nat).push(char_of_digit(n % 10))
    }
}

/// Drop trailing zero digits.
pub open spec fn trim_zeros(s: Seq<char>) -> Seq<char>
    decreases s.len(),
{
    if s.len() > 0 && s.last() == '0' {
        trim_zeros(s.drop_last())
    } else {
        s
    }
}

/// Decimal text of a number: the integer part, then, when the fractional part
/// is not zero, a dot and the fractional digits with trailing zeros removed.
pub open spec fn spec_render_number(u: u128) -> Seq<char> {
    if u % SCALE == 0 {
        spec_digits((u / SCALE) as int)
    } else {
        spec_digits((u / SCALE) as int) + seq!['.'] + trim_zeros(
            spec_padded((u % SCALE) as int, 10),
        )
    }
}

/// Saturating addition of two numbers.
pub open spec fn spec_plus_number(a: u128, b: u128) -> u128 {
    sat_units(a + b)
}

/// Two numbers within a billionth of each other.
pub open spec fn spec_same_number(a: u128, b: u128) -> bool {
    if a >= b {
        a - b < TOLERANCE
    } else {
        b - a < TOLERANCE
    }
}

/// Two numbers more than a billionth apart.
pub open spec fn spec_not_equal_number(a: u128, b: u128) -> bool {
    if a >= b {
        a - b > TOLERANCE
    } else {
        b - a > TOLERANCE
    }
}

pub fn digit_value(c: char) -> (r: Option<u8>)
    ensures
        r is Some <==> is_digit_char(c),
        r is Some ==> r->0 as int == digit_of_char(c),
{
    match c {
        '0' => Some(0),
        '1' => Some(1),
        '2' => Some(2),
        '3' => Some(3),
        '4' => Some(4),
        '5' => Some(5),
        '6' => Some(6),
        '7' => Some(7),
        '8' => Some(8),
        '9' => Some(9),
        _ => None,
    }
}

pub fn digit_char(d: u8) -> (r: char)
    requires
        d < 10,
    ensures
        r == char_of_digit(d as int),
{
    match d {
        0 => '0',
        1 => '1',
        2 => '2',
        3 => '3',
        4 => '4',
        5 => '5',
        6 => '6',
        7 => '7',
        8 => '8',
        _ => '9',
    }
}

/// Saturating `plus` on two numbers.
pub fn plus_number(a: u128, b: u128) -> (r: u128)
    ensures
        r == spec_plus_number(a, b),
{
    if b > NUM_MAX || a > NUM_MAX - b {
        NUM_MAX
    } else {
        a + b
    }
}

/// `same` on two numbers: within a billionth of each other.
pub fn same_number(a: u128, b: u128) -> (r: bool)
    ensures
        r == spec_same_number(a, b),
{
    if a >= b {
        a - b < TOLERANCE
    } else {
        b - a < TOLERANCE
    }
}

/// `not equal` on two numbers: more than a billionth apart.
pub fn not_equal_number(a: u128, b: u128) -> (r: bool)
    ensures
        r == spec_not_equal_number(a, b),
{
    if a >= b {
        a - b > TOLERANCE
    } else {
        b - a > TOLERANCE
    }
}

pub proof fn lemma_pow10_pos(n: nat)
    ensures
        pow10(n) >= 1,
    decreases n,
{
    if n > 0 {
        lemma_pow10_pos((n - 1) as nat);
    }
}

pub proof fn lemma_pow10_monotone(a: nat, b: nat)
    requires
        a <= b,
    ensures
        pow10(a) <= pow10(b),
    decreases b,
{
    if a < b {
        lemma_pow10_monotone(a, (b - 1) as nat);
        lemma_pow10_pos((b - 1) as nat);
    }
}

pub proof fn lemma_pow10_adds(a: nat, b: nat)
    ensures
        pow10(a) * pow10(b) == pow10((a + b) as nat),
    decreases a,
{
    if a == 0 {
        assert(pow10(0) * pow10(b) == pow10(b));
    } else {
        lemma_pow10_adds((a - 1) as nat, b);
        assert(pow10(a) * pow10(b) == 10 * (pow10((a - 1) as nat) * pow10(b)))
            by (nonlinear_arith)
            requires
                pow10(a) == 10 * pow10((a - 1) as nat),
        ;
    }
}

pub proof fn lemma_scale_pow10()
    ensures
        pow10(10) == SCALE as int,
        pow10(28) * pow10(10) == NUM_MAX as int,
{
    reveal_with_fuel(pow10, 29);
    assert(pow10(10) == SCALE as int);
    assert(pow10(28) == INT_CAP as int);
    assert(pow10(28) * pow10(10) == NUM_MAX as int);
}

/// The value of any digit string is non-negative and below `pow10` of its
/// length.
pub proof fn lemma_digits_val_bounds(s: Seq<char>)
    ensures
        0 <= digits_val(s) < pow10(s.len()),
    decreases s.len(),
{
    if s.len() > 0 {
        lemma_digits_val_bounds(s.drop_last());
    }
}

/// Left-to-right accumulation step for digit values.
pub proof fn lemma_digits_val_step(s: Seq<char>, a: int, b: int)
    requires
        0 <= a <= b < s.len(),
    ensures
        digits_val(s.subrange(a, b + 1)) == digits_val(s.subrange(a, b)) * 10 + digit_of_char(
            s[b],
        ),
{
    assert(s.subrange(a, b + 1).drop_last() =~= s.subrange(a, b));
    assert(s.subrange(a, b + 1).last() == s[b]);
}

/// Rendering a non-negative value and reading the digits back recovers it.
pub proof fn lemma_digits_val_of_digits(n: int)
    requires
        n >= 0,
    ensures
        digits_val(spec_digits(n)) == n,
        spec_digits(n).len() >= 1,
        all_digits(spec_digits(n)),
    decreases n,
{
    if n < 10 {
        assert(spec_digits(n).drop_last() =~= Seq::<char>::empty());
        assert(spec_digits(n).last() == char_of_digit(n));
        assert(digit_of_char(char_of_digit(n)) == n);
        assert(digits_val(spec_digits(n)) == digits_val(spec_digits(n).drop_last()) * 10
            + digit_of_char(spec_digits(n).last()));
        assert(digits_val(spec_digits(n).drop_last()) == 0);
        assert(digits_val(spec_digits(n)) == n);
    } else {
        lemma_digits_val_of_digits(n / 10);
        vstd::arithmetic::div_mod::lemma_fundamental_div_mod(n, 10);
        assert(spec_digits(n).drop_last() =~= spec_digits(n / 10));
        assert(spec_digits(n).last() == char_of_digit(n % 10));
        assert(digit_of_char(char_of_digit(n % 10)) == n % 10);
        assert(digits_val(spec_digits(n)) == digits_val(spec_digits(n).drop_last()) * 10
            + digit_of_char(spec_digits(n).last()));
        assert(digits_val(spec_digits(n).drop_last()) == n / 10);
        assert forall|i: int| 0 <= i < spec_digits(n).len() implies is_digit_char(
            spec_digits(n)[i],
        ) by {
            if i < spec_digits(n).len() - 1 {
                assert(spec_digits(n)[i] == spec_digits(n / 10)[i]);
            }
        }
    }
}

/// A value below `pow10(w)` padded to `w` places reads back as itself.
pub proof fn lemma_padded_val(n: int, w: nat)
    requires
        0 <= n < pow10(w),
    ensures
        digits_val(spec_padded(n, w)) == n,
        spec_padded(n, w).len() == w,
        all_digits(spec_padded(n, w)),
    decreases w,
{
    if w == 0 {
    } else {
        vstd::arithmetic::div_mod::lemma_fundamental_div_mod(n, 10);
        assert(n / 10 < pow10((w - 1) as nat));
        lemma_padded_val(n / 10, (w - 1) as nat);
        assert(spec_padded(n, w).drop_last() =~= spec_padded(n / 10, (w - 1) as nat));
        assert forall|i: int| 0 <= i < spec_padded(n, w).len() implies is_digit_char(
            spec_padded(n, w)[i],
        ) by {
            if i < spec_padded(n, w).len() - 1 {
                assert(spec_padded(n, w)[i] == spec_padded(n / 10, (w - 1) as nat)[i]);
            }
        }
    }
}

/// Trimming trailing zeros divides the value by the matching power of ten.
pub proof fn lemma_trim(s: Seq<char>)
    ensures
        trim_zeros(s).len() <= s.len(),
        digits_val(s) == digits_val(trim_zeros(s)) * pow10((s.len() - trim_zeros(s).len()) as nat),
        all_digits(s) ==> all_digits(trim_zeros(s)),
    decreases s.len(),
{
    if s.len() > 0 && s.last() == '0' {
        lemma_trim(s.drop_last());
        let t = trim_zeros(s);
        let k = (s.len() - 1 - t.len()) as nat;
        assert(digits_val(s) == digits_val(s.drop_last()) * 10);
        assert(digits_val(s.drop_last()) == digits_val(t) * pow10(k));
        assert((digits_val(t) * pow10(k)) * 10 == digits_val(t) * (pow10(k) * 10))
            by (nonlinear_arith);
        assert(pow10(k) * 10 == pow10((k + 1) as nat));
        if all_digits(s) {
            assert forall|i: int| 0 <= i < s.drop_last().len() implies is_digit_char(
                s.drop_last()[i],
            ) by {
                assert(s.drop_last()[i] == s[i]);
            }
        }
    }
}

/// In text with at most one dot, the dot's position is `dot_index`.
pub proof fn lemma_dot_index_at(s: Seq<char>, p: int)
    requires
        0 <= p < s.len(),
        s[p] == '.',
        forall|i: int, j: int| 0 <= i < j < s.len() && s[i] == '.' ==> s[j] != '.',
    ensures
        dot_index(s) == p,
{
    assert(exists|i: int| 0 <= i < s.len() && s[i] == '.');
    let q = dot_index(s);
    assert(0 <= q < s.len() && s[q] == '.');
    if q < p {
        assert(s[p] != '.');
    } else if p < q {
        assert(s[q] != '.');
    }
}

/// Parsing the rendered text of a representable number recovers the number
/// exactly: the decimal rendering round-trips.
pub proof fn lemma_parse_render_round_trip(u: u128)
    requires
        u <= NUM_MAX,
    ensures
        spec_parse_number(spec_render_number(u)) == Some(u),
{
    lemma_scale_pow10();
    let q = (u / SCALE) as int;
    let f = (u % SCALE) as int;
    vstd::arithmetic::div_mod::lemma_fundamental_div_mod(u as int, SCALE as int);
    lemma_digits_val_of_digits(q);
    let a = spec_digits(q);
    if f == 0 {
        let s = spec_render_number(u);
        assert(s == a);
        assert(valid_number_text(s)) by {
            assert(is_digit_char(s[0]));
        }
        assert(forall|i: int| 0 <= i < s.len() ==> s[i] != '.');
        assert(!exists|i: int| 0 <= i < s.len() && s[i] == '.');
        assert(dot_index(s) == s.len());
        assert(s.take(s.len() as int) =~= s);
        assert(digits_val(Seq::<char>::empty()) == 0);
        assert(q * SCALE + 0 * pow10(10) == u);
        assert(spec_parse_number(s) == Some(sat_units(q * SCALE)));
        assert(sat_units(q * SCALE) == u);
    } else {
        lemma_padded_val(f, 10);
        lemma_trim(spec_padded(f, 10));
        let b = trim_zeros(spec_padded(f, 10));
        let k = (10 - b.len()) as nat;
        assert(digits_val(b) * pow10(k) == f);
        let s = a + seq!['.'] + b;
        assert(spec_render_number(u) == s);
        let p = a.len() as int;
        assert(s[p] == '.');
        assert(forall|i: int| 0 <= i < p ==> s[i] == a[i] && is_digit_char(s[i]));
        assert(forall|i: int| p < i < s.len() ==> s[i] == b[i - p - 1] && is_digit_char(s[i]));
        assert(valid_number_text(s)) by {
            assert(is_digit_char(s[0]));
            assert forall|i: int, j: int|
                0 <= i < j < s.len() && s[i] == '.' implies s[j] != '.' by {
                assert(i == p);
            }
        }
        lemma_dot_index_at(s, p);
        assert(s.take(p) =~= a);
        assert(s.skip(p + 1) =~= b);
        assert(b.len() <= 10);
        assert(spec_parse_number(s) == Some(sat_units(digits_val(a) * SCALE + digits_val(b)
            * pow10(k))));
        assert(digits_val(a) * SCALE + digits_val(b) * pow10(k) == q * SCALE + f);
        assert(sat_units(q * SCALE + f) == u);
    }
}

/// Reads numeric literal text. Well-formed text (digits with at most one dot)
/// yields the number it denotes, clamped into range; anything else is `None`.
pub fn parse_number(s: &str) -> (r: Option<u128>)
    ensures
        r == spec_parse_number(s@),
{
    let n = s.unicode_len();
    let mut dot: Option<usize> = None;
    let mut digit_seen: bool = false;
    let mut chars_ok: bool = true;
    let mut two_dots: bool = false;
    let mut i: usize = 0;
    while i < n
        invariant
            n == s@.len(),
            i <= n,
            chars_ok == forall|j: int| 0 <= j < i ==> (is_digit_char(s@[j]) || s@[j] == '.'),
            two_dots == exists|j: int, k: int| 0 <= j < k < i && s@[j] == '.' && s@[k] == '.',
            digit_seen == exists|j: int| 0 <= j < i && is_digit_char(s@[j]),
            match dot {
                Some(p) => p < i && s@[p as int] == '.' && (forall|j: int|
                    0 <= j < p ==> s@[j] != '.'),
                None => forall|j: int| 0 <= j < i ==> s@[j] != '.',
            },
        decreases n - i,
    {
        let c = s.get_char(i);
        if c == '.' {
            match dot {
                Some(_) => {
                    two_dots = true;
                },
                None => {
                    dot = Some(i);
                },
            }
        } else {
            match digit_value(c) {
                Some(_) => {
                    digit_seen = true;
                },
                None => {
                    chars_ok = false;
                },
            }
        }
        i = i + 1;
    }
    if !chars_ok || two_dots || !digit_seen {
        proof {
            assert(!valid_number_text(s@));
        }
        return None;
    }
    proof {
        assert(valid_number_text(s@));
    }
    let d: usize = match dot {
        Some(p) => p,
        None => n,
    };
    proof {
        match dot {
            Some(p) => {
                assert forall|j: int, k: int|
                    0 <= j < k < s@.len() && s@[j] == '.' implies s@[k] != '.' by {
                    if s@[k] == '.' {
                        assert(j == p as int && k == p as int);
                    }
                }
                lemma_dot_index_at(s@, p as int);
            },
            None => {
                assert(!exists|j: int| 0 <= j < s@.len() && s@[j] == '.');
            },
        }
        assert(dot_index(s@) == d as int);
        assert(forall|j: int| 0 <= j < d ==> is_digit_char(s@[j]));
    }
    let mut acc: u128 = 0;
    let mut big: bool = false;
    let mut j: usize = 0;
    while j < d
        invariant
            d <= n,
            n == s@.len(),
            j <= d,
            forall|t: int| 0 <= t < d ==> is_digit_char(s@[t]),
            !big ==> acc as int == digits_val(s@.subrange(0, j as int)) && acc <= INT_CAP,
            big ==> digits_val(s@.subrange(0, j as int)) > INT_CAP,
        decreases d - j,
    {
        let c = s.get_char(j);
        let dv: u8 = match digit_value(c) {
            Some(v) => v,
            None => {
                proof {
                    assert(false);
                }
                0
            },
        };
        proof {
            lemma_digits_val_step(s@, 0, j as int);
            lemma_digits_val_bounds(s@.subrange(0, j as int));
        }
        if !big {
            let next: u128 = acc * 10 + dv as u128;
            if next > INT_CAP {
                big = true;
            } else {
                acc = next;
            }
        }
        j = j + 1;
    }
    let fl: usize = if d < n {
        let rest = n - d - 1;
        if rest > 10 {
            10
        } else {
            rest
        }
    } else {
        0
    };
    proof {
        lemma_scale_pow10();
    }
    let ghost fp_seq: Seq<char> = if (d as int) < s@.len() {
        s@.subrange(d + 1, d + 1 + fl)
    } else {
        Seq::<char>::empty()
    };
    let mut facc: u128 = 0;
    let mut k: usize = 0;
    while k < fl
        invariant
            d < n || fl == 0,
            d < n ==> d + 1 + fl <= n,
            fl <= 10,
            n == s@.len(),
            k <= fl,
            dot_index(s@) == d as int,
            valid_number_text(s@),
            d <= n,
            fp_seq == (if (d as int) < s@.len() {
                s@.subrange(d + 1, d + 1 + fl)
            } else {
                Seq::<char>::empty()
            }),
            facc as int == digits_val(fp_seq.take(k as int)),
            (facc as int) < pow10(k as nat),
            pow10(10) == SCALE as int,
        decreases fl - k,
    {
        let c = s.get_char(d + 1 + k);
        proof {
            assert(s@[d + 1 + k] != '.');
            assert(is_digit_char(s@[d + 1 + k]));
            assert(fp_seq[k as int] == s@[d + 1 + k]);
        }
        let dv: u8 = match digit_value(c) {
            Some(v) => v,
            None => {
                proof {
                    assert(false);
                }
                0
            },
        };
        proof {
            lemma_digits_val_step(fp_seq, 0, k as int);
            assert(fp_seq.take(k + 1) =~= fp_seq.subrange(0, k + 1));
            assert(fp_seq.take(k as int) =~= fp_seq.subrange(0, k as int));
            lemma_pow10_monotone((k + 1) as nat, 10);
        }
        facc = facc * 10 + dv as u128;
        k = k + 1;
    }
    let mut p10: u128 = 1;
    let mut t: usize = fl;
    while t < 10
        invariant
            fl <= t <= 10,
            p10 as int == pow10((t - fl) as nat),
            p10 <= SCALE,
            pow10(10) == SCALE as int,
        decreases 10 - t,
    {
        proof {
            lemma_pow10_monotone((t + 1 - fl) as nat, 10);
        }
        p10 = p10 * 10;
        t = t + 1;
    }
    proof {
        lemma_pow10_adds(fl as nat, (10 - fl) as nat);
        lemma_pow10_pos((10 - fl) as nat);
        assert(fp_seq.take(fl as int) =~= fp_seq);
        assert((facc as int) * (p10 as int) < SCALE as int) by (nonlinear_arith)
            requires
                (facc as int) < pow10(fl as nat),
                p10 as int == pow10((10 - fl) as nat),
                pow10(fl as nat) * pow10((10 - fl) as nat) == pow10(10),
                pow10(10) == SCALE as int,
                facc >= 0,
                p10 >= 1,
        {
        }
    }
    let fr: u128 = facc * p10;
    proof {
        let ip = s@.take(d as int);
        assert(ip =~= s@.subrange(0, d as int));
        let fp_all = if (d as int) < s@.len() {
            s@.skip(d + 1)
        } else {
            Seq::<char>::empty()
        };
        let fp = if fp_all.len() <= 10 {
            fp_all
        } else {
            fp_all.take(10)
        };
        assert(fp =~= fp_seq) by {
            if (d as int) < s@.len() {
                assert(fp_all =~= s@.subrange(d + 1, n as int));
            }
        }
        assert(fp.len() == fl);
        assert(fr as int == digits_val(fp) * pow10((10 - fp.len()) as nat));
    }
    if big {
        proof {
            let ip = s@.subrange(0, d as int);
            lemma_digits_val_bounds(fp_seq);
            assert(digits_val(ip) * SCALE > NUM_MAX as int) by (nonlinear_arith)
                requires
                    digits_val(ip) > INT_CAP as int,
                    INT_CAP as int * SCALE as int == NUM_MAX as int,
                    SCALE >= 1,
            {
            }
        }
        Some(NUM_MAX)
    } else {
        let total: u128 = acc * SCALE + fr;
        if total > NUM_MAX {
            Some(NUM_MAX)
        } else {
            Some(total)
        }
    }
}

/// Appends the minimal decimal digits of `n`.
pub fn push_digits(n: u128, out: &mut Vec<char>)
    ensures
        final(out)@ == old(out)@ + spec_digits(n as int),
    decreases n,
{
    if n < 10 {
        out.push(digit_char(n as u8));
        proof {
            assert(old(out)@.push(char_of_digit(n as int)) =~= old(out)@ + spec_digits(n as int));
        }
    } else {
        push_digits(n / 10, out);
        out.push(digit_char((n % 10) as u8));
        proof {
            assert((old(out)@ + spec_digits((n / 10) as int)).push(char_of_digit(n as int % 10))
                =~= old(out)@ + spec_digits(n as int));
        }
    }
}

/// Appends `n` right-aligned in exactly `w` digit places.
pub fn push_padded(n: u128, w: usize, out: &mut Vec<char>)
    ensures
        final(out)@ == old(out)@ + spec_padded(n as int, w as nat),
    decreases w,
{
    if w == 0 {
        proof {
            assert(old(out)@ + spec_padded(n as int, 0) =~= old(out)@);
        }
    } else {
        push_padded(n / 10, w - 1, out);
        out.push(digit_char((n % 10) as u8));
        proof {
            assert((old(out)@ + spec_padded((n / 10) as int, (w - 1) as nat)).push(
                char_of_digit(n as int % 10),
            ) =~= old(out)@ + spec_padded(n as int, w as nat));
        }
    }
}

/// Decimal text of a number: integer part, and the non-zero fractional part
/// after a dot with trailing zeros removed.
pub fn render_number(u: u128) -> (r: String)
    ensures
        r@ == spec_render_number(u),
{
    proof {
        lemma_scale_pow10();
    }
    let mut out: Vec<char> = Vec::new();
    let q: u128 = u / SCALE;
    let f: u128 = u % SCALE;
    push_digits(q, &mut out);
    if f != 0 {
        out.push('.');
        let mut ff: u128 = f;
        let mut w: usize = 10;
        while ff % 10 == 0
            invariant
                ff != 0,
                1 <= w <= 10,
                (ff as int) < pow10(w as nat),
                trim_zeros(spec_padded(ff as int, w as nat)) == trim_zeros(
                    spec_padded(f as int, 10),
                ),
            decreases w,
        {
            proof {
                assert(spec_padded(ff as int, w as nat).last() == char_of_digit(ff as int % 10));
                assert(char_of_digit(ff as int % 10) == '0');
                assert(spec_padded(ff as int, w as nat).drop_last() =~= spec_padded(
                    (ff as int) / 10,
                    (w - 1) as nat,
                ));
                assert(ff as int / 10 < pow10((w - 1) as nat));
                if w == 1 {
                    assert(ff as int / 10 < pow10(0));
                    assert(ff >= 10);
                    assert(false);
                }
            }
            ff = ff / 10;
            w = w - 1;
        }
        proof {
            assert(char_of_digit(ff as int % 10) != '0');
            assert(spec_padded(ff as int, w as nat).last() == char_of_digit(ff as int % 10));
            assert(trim_zeros(spec_padded(ff as int, w as nat)) == spec_padded(
                ff as int,
                w as nat,
            ));
        }
        let ghost mid = out@;
        push_padded(ff, w, &mut out);
        proof {
            assert(mid =~= old_render_prefix(u));
            assert(out@ =~= spec_render_number(u));
        }
    }
    crate::text::string_from_chars(&out)
}

/// The digits and dot that precede the fractional digits of a rendering.
pub open spec fn old_render_prefix(u: u128) -> Seq<char> {
    spec_digits((u / SCALE) as int) + seq!['.']
}

/// `plus` on two numbers is commutative.
pub proof fn lemma_plus_number_commutes(a: u128, b: u128)
    ensures
        spec_plus_number(a, b) == spec_plus_number(b, a),
{
}

/// `same` and `not equal` on two numbers are each other's negation, except
/// when the two differ by exactly the tolerance, where both are false.
pub proof fn lemma_not_equal_negates_same(a: u128, b: u128)
    requires
        (if a >= b {
            a - b
        } else {
            b - a
        }) != TOLERANCE,
    ensures
        spec_not_equal_number(a, b) == !spec_same_number(a, b),
{
}

} // verus!
