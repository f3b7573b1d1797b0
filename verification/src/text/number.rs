//! Reading and writing unsigned numerals.

use vstd::arithmetic::power::pow;
use vstd::prelude::*;

verus! {

/// `String::push`: the character goes to the end of the string.
pub assume_specification[ String::push ](s: &mut String, c: char)
    ensures
        final(s)@ == old(s)@.push(c),
;

/// What a digit stands for: `0` to `9`, then `a` to `z` in either case.
pub open spec fn digit_value(c: char) -> Option<int> {
    if '0' <= c <= '9' {
        Some(c as int - '0' as int)
    } else if 'a' <= c <= 'z' {
        Some(c as int - 'a' as int + 10)
    } else if 'A' <= c <= 'Z' {
        Some(c as int - 'A' as int + 10)
    } else {
        None
    }
}

/// `c` is a digit in base `radix`.
pub open spec fn is_digit(c: char, radix: int) -> bool {
    digit_value(c) is Some && digit_value(c)->0 < radix
}

/// Every character is a digit in base `radix`.
pub open spec fn all_digits(s: Seq<char>, radix: int) -> bool {
    forall|i: int| 0 <= i < s.len() ==> is_digit(#[trigger] s[i], radix)
}

/// The number that a row of digits stands for, the most significant digit first.
pub open spec fn digits_value(s: Seq<char>, radix: int) -> int
    decreases s.len(),
{
    if s.len() == 0 {
        0
    } else {
        digits_value(s.drop_last(), radix) * radix + digit_value(s.last())->0
    }
}

/// A numeral without the one plus sign that may stand in front of it.
pub open spec fn unsigned_body(s: Seq<char>) -> Seq<char> {
    if s.len() > 1 && s[0] == '+' {
        s.skip(1)
    } else {
        s
    }
}

/// The number that `s` denotes in base `radix`, if it is a numeral whose value is addressable.
pub open spec fn numeral(s: Seq<char>, radix: int) -> Option<usize> {
    let body = unsigned_body(s);
    if body.len() > 0 && all_digits(body, radix) && digits_value(body, radix) <= usize::MAX {
        Some(digits_value(body, radix) as usize)
    } else {
        None
    }
}

/// The digit for a value below 16, in lower case.
pub open spec fn digit_char(d: int) -> char {
    if d < 10 {
        ('0' as int + d) as char
    } else {
        ('a' as int + d - 10) as char
    }
}

/// The digits of `n` in base `radix`, without leading zeros.
pub open spec fn digits(n: nat, radix: nat) -> Seq<char>
    decreases n,
{
    if radix < 2 || n < radix {
        seq![digit_char(n as int)]
    } else {
        proof {
            assert(n / radix < n) by (nonlinear_arith)
                requires
                    n >= radix,
                    radix >= 2,
            ;
        }
        digits(n / radix, radix).push(digit_char((n % radix) as int))
    }
}

/// `n` in decimal, with a minus sign where it is negative.
pub open spec fn signed_decimal(n: int) -> Seq<char> {
    if n < 0 {
        seq!['-'] + digits((-n) as nat, 10)
    } else {
        digits(n as nat, 10)
    }
}

/// The characters of a string.
pub fn chars_of(s: &str) -> (chars: Vec<char>)
    ensures
        chars@ == s@,
{
    let mut chars: Vec<char> = Vec::new();
    for c in it: s.chars()
        invariant
            it.seq() == s@,
            chars@ == s@.take(it.index() as int),
    {
        chars.push(c);
        assert(s@.take(it.index() + 1) =~= s@.take(it.index() as int).push(c));
    }
    assert(s@.take(s@.len() as int) =~= s@);
    chars
}

fn digit_of(c: char) -> (d: Option<u32>)
    ensures
        d is Some <==> digit_value(c) is Some,
        d is Some ==> d->0 == digit_value(c)->0,
{
    if '0' <= c && c <= '9' {
        Some(c as u32 - '0' as u32)
    } else if 'a' <= c && c <= 'z' {
        Some(c as u32 - 'a' as u32 + 10)
    } else if 'A' <= c && c <= 'Z' {
        Some(c as u32 - 'A' as u32 + 10)
    } else {
        None
    }
}

/// Reads the numeral that begins at `from`.
pub fn parse_numeral(chars: &Vec<char>, from: usize, radix: usize) -> (n: Option<usize>)
    requires
        from <= chars.len(),
        2 <= radix <= 36,
    ensures
        n == numeral(chars@.skip(from as int), radix as int),
{
    let ghost s = chars@.skip(from as int);
    let mut start: usize = from;
    if chars.len() - from > 1 && chars[from] == '+' {
        start = from + 1;
    }
    let ghost body = chars@.skip(start as int);
    assert(unsigned_body(s) =~= body);
    if start == chars.len() {
        return None;
    }
    let mut i: usize = start;
    let mut value: usize = 0;
    assert(body.take(0) =~= Seq::empty());
    while i < chars.len()
        invariant
            start <= i <= chars.len(),
            body == chars@.skip(start as int),
            unsigned_body(s) == body,
            s == chars@.skip(from as int),
            2 <= radix <= 36,
            all_digits(body.take(i - start), radix as int),
            value == digits_value(body.take(i - start), radix as int),
        decreases chars.len() - i,
    {
        let c = chars[i];
        assert(body[i - start] == c);
        assert(body.take(i - start + 1).drop_last() =~= body.take(i - start));
        let ghost k = i - start;
        match digit_of(c) {
            None => {
                assert(!is_digit(body[k], radix as int));
                return None;
            },
            Some(d) => {
                if d as usize >= radix {
                    assert(!is_digit(body[k], radix as int));
                    return None;
                }
                proof {
                    assert(digits_value(body.take(k + 1), radix as int) == value * radix + d);
                    if all_digits(body, radix as int) {
                        lemma_digits_value_grows(body, radix as int, k + 1);
                    }
                }
                match value.checked_mul(radix) {
                    None => {
                        return None;
                    },
                    Some(scaled) => match scaled.checked_add(d as usize) {
                        None => {
                            return None;
                        },
                        Some(next) => {
                            value = next;
                        },
                    },
                }
                assert(all_digits(body.take(k + 1), radix as int)) by {
                    assert forall|j: int| 0 <= j < k + 1 implies is_digit(
                        #[trigger] body.take(k + 1)[j],
                        radix as int,
                    ) by {
                        if j < k {
                            assert(body.take(k)[j] == body.take(k + 1)[j]);
                        }
                    }
                }
            },
        }
        i += 1;
    }
    assert(body.take(body.len() as int) =~= body);
    Some(value)
}

/// A longer row of digits stands for a number at least as large as each of its prefixes.
proof fn lemma_digits_value_grows(s: Seq<char>, radix: int, k: int)
    requires
        0 <= k <= s.len(),
        radix >= 1,
        all_digits(s, radix),
    ensures
        0 <= digits_value(s.take(k), radix) <= digits_value(s, radix),
    decreases s.len(),
{
    if k == s.len() {
        assert(s.take(k) =~= s);
        lemma_digits_value_nonnegative(s, radix);
    } else {
        let t = s.drop_last();
        assert forall|i: int| 0 <= i < t.len() implies is_digit(#[trigger] t[i], radix) by {
            assert(t[i] == s[i]);
        }
        lemma_digits_value_grows(t, radix, k);
        assert(t.take(k) =~= s.take(k));
        let v = digits_value(t, radix);
        assert(v <= v * radix) by (nonlinear_arith)
            requires
                v >= 0,
                radix >= 1,
        ;
        assert(is_digit(s.last(), radix));
    }
}

proof fn lemma_digits_value_nonnegative(s: Seq<char>, radix: int)
    requires
        radix >= 1,
        all_digits(s, radix),
    ensures
        digits_value(s, radix) >= 0,
    decreases s.len(),
{
    if s.len() > 0 {
        let t = s.drop_last();
        assert forall|i: int| 0 <= i < t.len() implies is_digit(#[trigger] t[i], radix) by {
            assert(t[i] == s[i]);
        }
        lemma_digits_value_nonnegative(t, radix);
        let v = digits_value(t, radix);
        assert(0 <= v * radix) by (nonlinear_arith)
            requires
                v >= 0,
                radix >= 1,
        ;
        assert(is_digit(s.last(), radix));
    }
}

fn digit_text(d: usize) -> (c: char)
    requires
        d < 16,
    ensures
        c == digit_char(d as int),
{
    if d < 10 {
        (48u8 + d as u8) as char
    } else {
        (97u8 + (d - 10) as u8) as char
    }
}

/// Appends the digits of `n` in base `radix` to `out`.
pub fn push_digits(out: &mut String, n: usize, radix: usize)
    requires
        2 <= radix <= 16,
    ensures
        final(out)@ == old(out)@ + digits(n as nat, radix as nat),
    decreases n,
{
    if n < radix {
        out.push(digit_text(n));
        assert(out@ =~= old(out)@ + digits(n as nat, radix as nat));
    } else {
        assert((n as int) / (radix as int) < n as int) by (nonlinear_arith)
            requires
                n >= radix,
                radix >= 2,
        ;
        assert(0 <= (n as int) % (radix as int) && (n as int) % (radix as int) < radix as int) by (nonlinear_arith)
            requires
                radix >= 2,
        ;
        push_digits(out, n / radix, radix);
        out.push(digit_text(n % radix));
        assert(out@ =~= old(out)@ + digits(n as nat, radix as nat));
    }
}

/// Appends `n` in decimal to `out`.
pub fn push_signed(out: &mut String, n: i32)
    ensures
        final(out)@ == old(out)@ + signed_decimal(n as int),
{
    if n < 0 {
        out.push('-');
        let magnitude: i64 = -(n as i64);
        push_digits(out, magnitude as usize, 10);
        assert(out@ =~= old(out)@ + signed_decimal(n as int));
    } else {
        push_digits(out, n as usize, 10);
    }
}

/// A number written out in base `radix` is a row of digits that stands for that number.
pub proof fn law_digits_denote(n: nat, radix: nat)
    requires
        2 <= radix <= 16,
    ensures
        digits(n, radix).len() > 0,
        all_digits(digits(n, radix), radix as int),
        digits_value(digits(n, radix), radix as int) == n,
    decreases n,
{
    let s = digits(n, radix);
    if n < radix {
        assert(s.drop_last() =~= Seq::empty());
        assert(s.last() == digit_char(n as int));
        assert(digits_value(s.drop_last(), radix as int) * radix == 0);
    } else {
        assert(n / radix < n) by (nonlinear_arith)
            requires
                n >= radix,
                radix >= 2,
        ;
        assert(n % radix < radix && (n / radix) * radix + n % radix == n) by (nonlinear_arith)
            requires
                radix >= 2,
        ;
        law_digits_denote(n / radix, radix);
        let t = digits(n / radix, radix);
        assert(s.drop_last() =~= t);
        assert(s.last() == digit_char((n % radix) as int));
        assert forall|i: int| 0 <= i < s.len() implies is_digit(#[trigger] s[i], radix as int) by {
            if i < t.len() {
                assert(s[i] == t[i]);
            }
        }
    }
}

/// A number that is written out in base `radix` reads back as itself.
pub proof fn law_numeral_reads_back(n: usize, radix: nat)
    requires
        2 <= radix <= 16,
    ensures
        numeral(digits(n as nat, radix), radix as int) == Some(n),
{
    law_digits_denote(n as nat, radix);
    let s = digits(n as nat, radix);
    assert(is_digit(s[0], radix as int));
    assert(unsigned_body(s) == s);
}

/// A text with its letters from `a` to `z` in upper case.
pub open spec fn upper_case(s: Seq<char>) -> Seq<char> {
    s.map_values(
        |c: char|
            if 'a' <= c <= 'z' {
                (c as int - 'a' as int + 'A' as int) as char
            } else {
                c
            },
    )
}

/// Digits in upper case stand for the same number as in lower case.
pub proof fn law_case_of_digits_is_free(s: Seq<char>, radix: int)
    requires
        all_digits(s, radix),
    ensures
        upper_case(s).len() == s.len(),
        all_digits(upper_case(s), radix),
        digits_value(upper_case(s), radix) == digits_value(s, radix),
    decreases s.len(),
{
    let t = upper_case(s);
    assert forall|i: int| 0 <= i < t.len() implies is_digit(#[trigger] t[i], radix) by {
        assert(is_digit(s[i], radix));
    }
    if s.len() > 0 {
        let shorter = s.drop_last();
        assert forall|i: int| 0 <= i < shorter.len() implies is_digit(
            #[trigger] shorter[i],
            radix,
        ) by {
            assert(shorter[i] == s[i]);
        }
        law_case_of_digits_is_free(shorter, radix);
        assert(t.drop_last() =~= upper_case(shorter));
        assert(digit_value(t.last()) == digit_value(s.last()));
    }
}

/// The digits, by their codes: the ten figures stand for 0 to 9, and the letters of the alphabet, in
/// either case, for 10 to 35. No other character is a digit.
pub proof fn law_figures_and_letters_are_digits(c: char)
    ensures
        ({
            let code = c as int;
            &&& 48 <= code <= 57 ==> digit_value(c) == Some(code - 48)
            &&& 65 <= code <= 90 ==> digit_value(c) == Some(code - 55)
            &&& 97 <= code <= 122 ==> digit_value(c) == Some(code - 87)
            &&& digit_value(c) is Some ==> 48 <= code <= 57 || 65 <= code <= 90 || 97 <= code
                <= 122
        }),
{
}

/// Digits count by their place: a digit that is followed by `k` others counts `radix` to the power
/// of `k` times what it stands for.
pub proof fn law_digits_count_by_their_place(s: Seq<char>, radix: int, k: int)
    requires
        0 <= k < s.len(),
    ensures
        digits_value(s.skip(k), radix) == digit_value(s[k])->0 * pow(radix, (s.len() - 1 - k) as nat)
            + digits_value(s.skip(k + 1), radix),
        digits_value(s.skip(s.len() as int), radix) == 0,
    decreases s.len() - k,
{
    assert(s.skip(s.len() as int) =~= Seq::empty());
    lemma_first_digit(s.skip(k), radix);
    assert(s.skip(k).skip(1) =~= s.skip(k + 1));
}

proof fn lemma_first_digit(s: Seq<char>, radix: int)
    requires
        s.len() > 0,
    ensures
        digits_value(s, radix) == digit_value(s[0])->0 * pow(radix, (s.len() - 1) as nat)
            + digits_value(s.skip(1), radix),
    decreases s.len(),
{
    reveal(pow);
    let d = digit_value(s[0])->0;
    if s.len() == 1 {
        assert(s.drop_last() =~= Seq::empty());
        assert(s.skip(1) =~= Seq::empty());
        assert(pow(radix, 0) == 1);
        assert(digits_value(s.drop_last(), radix) * radix == 0);
    } else {
        let t = s.drop_last();
        lemma_first_digit(t, radix);
        assert(t.skip(1) =~= s.skip(1).drop_last());
        let p = pow(radix, (t.len() - 1) as nat);
        let rest = digits_value(t.skip(1), radix);
        assert(pow(radix, (s.len() - 1) as nat) == radix * p);
        assert((d * p + rest) * radix == d * (radix * p) + rest * radix) by (nonlinear_arith);
        assert(s.last() == s.skip(1).last());
    }
}

/// A text denotes a number exactly when it is a row of digits, at least one, perhaps after one plus
/// sign, that stands for that number.
pub proof fn law_numerals_are_rows_of_digits(s: Seq<char>, radix: int, n: usize)
    requires
        2 <= radix <= 36,
    ensures
        numeral(s, radix) == Some(n) <==> {
            ||| s.len() > 0 && all_digits(s, radix) && digits_value(s, radix) == n
            ||| s.len() > 1 && s[0] == '+' && all_digits(s.skip(1), radix) && digits_value(
                s.skip(1),
                radix,
            ) == n
        },
        numeral(s, radix) is None <==> !{
            ||| s.len() > 0 && all_digits(s, radix) && digits_value(s, radix) <= usize::MAX
            ||| s.len() > 1 && s[0] == '+' && all_digits(s.skip(1), radix) && digits_value(
                s.skip(1),
                radix,
            ) <= usize::MAX
        },
{
    if s.len() > 0 && s[0] == '+' {
        assert(!is_digit(s[0], radix));
        assert(!all_digits(s, radix));
    }
    if all_digits(s, radix) {
        lemma_digits_value_nonnegative(s, radix);
    }
    if all_digits(s.skip(1), radix) {
        lemma_digits_value_nonnegative(s.skip(1), radix);
    }
}

/// A number that is written out has no leading zero, unless it is zero, and no upper-case digit.
pub proof fn law_digits_are_plain(n: nat, radix: nat)
    requires
        2 <= radix <= 16,
    ensures
        n > 0 ==> digits(n, radix)[0] != '0',
        n == 0 ==> digits(n, radix) == seq!['0'],
        forall|i: int|
            0 <= i < digits(n, radix).len() ==> {
                let c = #[trigger] digits(n, radix)[i];
                '0' <= c <= '9' || 'a' <= c <= 'f'
            },
    decreases n,
{
    if n >= radix {
        assert(n / radix < n && n / radix > 0) by (nonlinear_arith)
            requires
                n >= radix,
                radix >= 2,
        ;
        assert(n % radix < radix) by (nonlinear_arith)
            requires
                radix >= 2,
        ;
        law_digits_are_plain(n / radix, radix);
        law_digits_denote(n / radix, radix);
        let t = digits(n / radix, radix);
        assert forall|i: int| 0 <= i < digits(n, radix).len() implies ({
            let c = #[trigger] digits(n, radix)[i];
            '0' <= c <= '9' || 'a' <= c <= 'f'
        }) by {
            if i < t.len() {
                assert(digits(n, radix)[i] == t[i]);
            }
        }
    }
}

/// A negative number is written as a minus sign and its magnitude, any other as itself.
pub proof fn law_signed_decimal(n: nat)
    ensures
        signed_decimal(n as int) == digits(n, 10),
        n > 0 ==> signed_decimal(-(n as int)) == seq!['-'] + digits(n, 10),
{
}

} // verus!
