//! The ways to name a place in the debugged program.

use crate::text::number::{
    all_digits, chars_of, digits, digits_value, is_digit, law_case_of_digits_is_free,
    law_digits_denote, law_figures_and_letters_are_digits, law_numeral_reads_back,
    law_numerals_are_rows_of_digits, numeral, parse_numeral, unsigned_body, upper_case,
};
use vstd::prelude::*;

verus! {

/// A place in the program, as the user names it.
#[derive(Clone, Copy, PartialEq, Eq, Debug)]
pub enum Location {
    /// An address in memory, unless its numeral cannot be read.
    Address(Option<usize>),
    /// A line of the source.
    Line(usize),
    /// A function, named by the whole text.
    Function,
}

/// A hexadecimal numeral without the prefix `0x` that may stand in front of it.
pub open spec fn hex_body(s: Seq<char>) -> Seq<char> {
    if s.len() >= 2 && s[0] == '0' && (s[1] == 'x' || s[1] == 'X') {
        s.skip(2)
    } else {
        s
    }
}

/// The place that a text names: after an asterisk an address in hexadecimal; else, if it is a
/// decimal numeral, a line; else a function.
pub open spec fn location_of(s: Seq<char>) -> Location {
    if s.len() > 0 && s[0] == '*' {
        Location::Address(numeral(hex_body(s.skip(1)), 16))
    } else if numeral(s, 10) is Some {
        Location::Line(numeral(s, 10)->0)
    } else {
        Location::Function
    }
}

/// Reads the name of a place: an address, a line number or a function name.
pub fn parse_address(addr: &str) -> (location: Location)
    ensures
        location == location_of(addr@),
{
    let chars: Vec<char> = chars_of(addr);
    assert(addr@.skip(0) =~= addr@);
    if chars.len() > 0 && chars[0] == '*' {
        let ghost rest = addr@.skip(1);
        let mut from: usize = 1;
        if chars.len() >= 3 && chars[1] == '0' && (chars[2] == 'x' || chars[2] == 'X') {
            from = 3;
            assert(rest.skip(2) =~= addr@.skip(3));
        }
        return Location::Address(parse_numeral(&chars, from, 16));
    }
    match parse_numeral(&chars, 0, 10) {
        Some(line) => Location::Line(line),
        None => Location::Function,
    }
}

/// A row of hexadecimal digits after an asterisk, in upper or lower case or both, and with the
/// prefix `0x`, the prefix `0X` or none, names the address that the digits stand for.
pub proof fn law_hexadecimal_names_an_address(hex: Seq<char>)
    requires
        hex.len() > 0,
        all_digits(hex, 16),
        digits_value(hex, 16) <= usize::MAX,
    ensures
        location_of(seq!['*', '0', 'x'] + hex) == Location::Address(
            Some(digits_value(hex, 16) as usize),
        ),
        location_of(seq!['*', '0', 'X'] + hex) == Location::Address(
            Some(digits_value(hex, 16) as usize),
        ),
        location_of(seq!['*'] + hex) == Location::Address(Some(digits_value(hex, 16) as usize)),
{
    assert(is_digit(hex[0], 16));
    assert(unsigned_body(hex) == hex);
    let small = seq!['*', '0', 'x'] + hex;
    assert(small.skip(1).skip(2) =~= hex);
    assert(hex_body(small.skip(1)) == hex);
    let large = seq!['*', '0', 'X'] + hex;
    assert(large.skip(1).skip(2) =~= hex);
    assert(hex_body(large.skip(1)) == hex);
    let bare = seq!['*'] + hex;
    assert(bare.skip(1) =~= hex);
    if hex.len() >= 2 {
        assert(is_digit(hex[1], 16));
    }
    assert(hex_body(hex) == hex);
}

/// An address that is written out in hexadecimal after an asterisk, in lower case or in upper case,
/// and with the prefix `0x`, the prefix `0X` or none, names that address.
pub proof fn law_address_reads_back(n: usize)
    ensures
        ({
            let lower = digits(n as nat, 16);
            let upper = upper_case(lower);
            &&& location_of(seq!['*', '0', 'x'] + lower) == Location::Address(Some(n))
            &&& location_of(seq!['*', '0', 'X'] + lower) == Location::Address(Some(n))
            &&& location_of(seq!['*'] + lower) == Location::Address(Some(n))
            &&& location_of(seq!['*', '0', 'x'] + upper) == Location::Address(Some(n))
            &&& location_of(seq!['*', '0', 'X'] + upper) == Location::Address(Some(n))
            &&& location_of(seq!['*'] + upper) == Location::Address(Some(n))
        }),
{
    let lower = digits(n as nat, 16);
    law_digits_denote(n as nat, 16);
    law_hexadecimal_names_an_address(lower);
    law_case_of_digits_is_free(lower, 16);
    law_hexadecimal_names_an_address(upper_case(lower));
}

/// A line number that is written out in decimal names that line.
pub proof fn law_line_reads_back(n: usize)
    ensures
        location_of(digits(n as nat, 10)) == Location::Line(n),
{
    law_numeral_reads_back(n, 10);
    law_digits_denote(n as nat, 10);
    assert(is_digit(digits(n as nat, 10)[0], 10));
}

/// Only a text that begins with an asterisk names an address, and every such text does or fails to;
/// of the others, those that are decimal numerals name lines, and all the rest functions.
pub proof fn law_asterisk_tells_addresses(s: Seq<char>)
    ensures
        location_of(s) is Address <==> s.len() > 0 && s[0] == '*',
        location_of(s) is Function <==> !(s.len() > 0 && s[0] == '*') && !{
            ||| s.len() > 0 && all_digits(s, 10) && digits_value(s, 10) <= usize::MAX
            ||| s.len() > 1 && s[0] == '+' && all_digits(s.skip(1), 10) && digits_value(
                s.skip(1),
                10,
            ) <= usize::MAX
        },
        location_of(s) matches Location::Line(n) ==> {
            ||| all_digits(s, 10) && digits_value(s, 10) == n
            ||| s[0] == '+' && all_digits(s.skip(1), 10) && digits_value(s.skip(1), 10) == n
        },
{
    law_numerals_are_rows_of_digits(s, 10, 0);
    if location_of(s) is Line {
        law_numerals_are_rows_of_digits(s, 10, location_of(s)->Line_0);
    }
}

/// A text that begins with a letter or an underscore names a function.
pub proof fn law_identifiers_name_functions(s: Seq<char>)
    requires
        s.len() > 0,
        'a' <= s[0] <= 'z' || 'A' <= s[0] <= 'Z' || s[0] == '_',
    ensures
        location_of(s) == Location::Function,
{
    law_asterisk_tells_addresses(s);
    law_figures_and_letters_are_digits(s[0]);
    assert(!is_digit(s[0], 10));
    assert(!all_digits(s, 10));
}

/// The text before the digits of an address: an asterisk, perhaps the prefix `0x` or `0X`, and perhaps
/// a plus sign.
pub open spec fn opens_an_address(s: Seq<char>) -> bool {
    ||| s == seq!['*']
    ||| s == seq!['*', '+']
    ||| s == seq!['*', '0', 'x']
    ||| s == seq!['*', '0', 'X']
    ||| s == seq!['*', '0', 'x', '+']
    ||| s == seq!['*', '0', 'X', '+']
}

/// An address is named by its hexadecimal digits after such an opening, and by nothing else.
pub proof fn law_address_is_spelled_in_hexadecimal(s: Seq<char>, n: usize)
    ensures
        location_of(s) == Location::Address(Some(n)) <==> exists|k: int|
            0 < k < s.len() && opens_an_address(s.take(k)) && all_digits(#[trigger] s.skip(k), 16)
                && digits_value(s.skip(k), 16) == n,
{
    if location_of(s) == Location::Address(Some(n)) {
        let rest = s.skip(1);
        let body = hex_body(rest);
        law_numerals_are_rows_of_digits(body, 16, n);
        let prefix = s.len() - body.len();
        assert(s.skip(prefix) =~= body);
        let k = if body.len() > 1 && body[0] == '+' {
            prefix + 1
        } else {
            prefix
        };
        assert(body.skip(1) =~= s.skip(prefix + 1));
        if body[0] == '+' {
            assert(!is_digit(body[0], 16));
            assert(!all_digits(body, 16));
        }
        if prefix == 1 {
            assert(s.take(1) =~= seq!['*']);
            if k == 2 {
                assert(s.take(2) =~= seq!['*', '+']);
            }
        } else {
            assert(s[1] == rest[0] && s[2] == rest[1]);
            if s[2] == 'x' {
                assert(s.take(3) =~= seq!['*', '0', 'x']);
                if k == 4 {
                    assert(s.take(4) =~= seq!['*', '0', 'x', '+']);
                }
            } else {
                assert(s.take(3) =~= seq!['*', '0', 'X']);
                if k == 4 {
                    assert(s.take(4) =~= seq!['*', '0', 'X', '+']);
                }
            }
        }
        assert(opens_an_address(s.take(k)));
        assert(all_digits(s.skip(k), 16));
    }
    if exists|k: int|
        0 < k < s.len() && opens_an_address(s.take(k)) && all_digits(#[trigger] s.skip(k), 16)
            && digits_value(s.skip(k), 16) == n {
        let k = choose|k: int|
            0 < k < s.len() && opens_an_address(s.take(k)) && all_digits(#[trigger] s.skip(k), 16)
                && digits_value(s.skip(k), 16) == n;
        let open = s.take(k);
        let hex = s.skip(k);
        assert(open.len() == k);
        assert(forall|i: int| 0 <= i < k ==> open[i] == s[i]);
        assert(hex[0] == s[k]);
        assert(is_digit(hex[0], 16));
        if hex.len() > 1 {
            assert(hex[1] == s[k + 1]);
            assert(is_digit(hex[1], 16));
        }
        let body = hex_body(s.skip(1));
        if k <= 2 {
            assert(body == s.skip(1)) by {
                if k == 2 {
                    assert(open[1] == '+');
                    assert(s.skip(1)[0] == '+');
                } else if hex.len() > 1 {
                    assert(s.skip(1)[1] == hex[1]);
                }
            }
            if k == 2 {
                assert(open[1] == '+');
                assert(body[0] == '+');
                assert(body.skip(1) =~= hex);
            } else {
                assert(body =~= hex);
            }
        } else {
            assert(open[1] == '0');
            assert(open[2] == 'x' || open[2] == 'X');
            assert(s.skip(1)[0] == '0' && s.skip(1)[1] == open[2]);
            assert(body =~= s.skip(3));
            if k == 4 {
                assert(open[3] == '+');
                assert(body[0] == '+');
                assert(body.skip(1) =~= hex);
            } else {
                assert(body =~= hex);
            }
        }
        law_numerals_are_rows_of_digits(body, 16, n);
        assert(s[0] == open[0]);
    }
}

} // verus!
