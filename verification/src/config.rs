//! Settings from the environment.

use vstd::prelude::*;

verus! {

/// The port that the gateway listens on where none is set.
pub const DEFAULT_PORT: u16 = 8080;

/// The value of a decimal digit.
pub open spec fn digit_value(c: char) -> int {
    c as int - '0' as int
}

/// Whether a text is made of decimal digits alone.
pub open spec fn all_digits(s: Seq<char>) -> bool {
    forall|i: int| 0 <= i < s.len() ==> '0' <= #[trigger] s[i] <= '9'
}

/// The number that decimal digits stand for.
pub open spec fn number(s: Seq<char>) -> int
    decreases s.len(),
{
    if s.len() == 0 {
        0
    } else {
        10 * number(s.drop_last()) + digit_value(s.last())
    }
}

/// The digits of a number that may be written with a plus sign.
pub open spec fn unsigned(s: Seq<char>) -> Seq<char> {
    if s.len() > 0 && s[0] == '+' {
        s.skip(1)
    } else {
        s
    }
}

/// The port that a text names, if it names one: digits, with a plus sign or without,
/// that stand for a 16-bit number.
pub open spec fn port_named(s: Seq<char>) -> Option<u16> {
    let digits = unsigned(s);
    if digits.len() > 0 && all_digits(digits) && number(digits) <= u16::MAX {
        Some(number(digits) as u16)
    } else {
        None
    }
}

proof fn lemma_number_grows(s: Seq<char>, i: int)
    requires
        all_digits(s),
        0 <= i <= s.len(),
    ensures
        0 <= number(s.take(i)) <= number(s),
    decreases s.len(),
{
    if i == s.len() {
        assert(s.take(i) =~= s);
        if s.len() > 0 {
            lemma_number_grows(s.drop_last(), s.len() - 1);
            assert(s.drop_last().take(s.len() - 1) =~= s.drop_last());
        }
    } else {
        assert(s.drop_last().take(i) =~= s.take(i));
        lemma_number_grows(s.drop_last(), i);
    }
}

/// Reads a port.
pub fn parse_port(s: &str) -> (port: Option<u16>)
    ensures
        port == port_named(s@),
{
    let n: usize = s.unicode_len();
    let start: usize = if n > 0 && s.get_char(0) == '+' {
        1
    } else {
        0
    };
    let ghost digits = unsigned(s@);
    assert(digits =~= s@.skip(start as int));
    if n == start {
        return None;
    }
    let mut value: u32 = 0;
    let mut i: usize = start;
    assert(digits.take(0) =~= Seq::empty());
    while i < n
        invariant
            start <= i <= n,
            n == s@.len(),
            start <= 1,
            digits == s@.skip(start as int),
            digits == unsigned(s@),
            value == number(digits.take(i - start)),
            value <= u16::MAX,
            all_digits(digits.take(i - start)),
        decreases n - i,
    {
        let c: char = s.get_char(i);
        let ghost longer = digits.take(i + 1 - start);
        proof {
            assert(longer.drop_last() =~= digits.take(i - start));
            assert(longer.last() == c);
            assert(digits[i - start] == c);
        }
        if c < '0' || c > '9' {
            return None;
        }
        value = value * 10 + (c as u32 - '0' as u32);
        i += 1;
        assert(all_digits(longer)) by {
            assert forall|k: int| 0 <= k < longer.len() implies '0' <= #[trigger] longer[k]
                <= '9' by {
                if k < longer.len() - 1 {
                    assert(longer[k] == longer.drop_last()[k]);
                }
            }
        }
        if value > 65535 {
            proof {
                if all_digits(digits) {
                    lemma_number_grows(digits, i - start);
                }
            }
            return None;
        }
    }
    assert(digits.take(i - start) =~= digits);
    Some(value as u16)
}

/// The port to listen on, given what the environment says of it. What names no port is
/// ignored.
pub fn listen_port(setting: Option<&str>) -> (port: u16)
    ensures
        port == match setting {
            Some(s) => match port_named(s@) {
                Some(p) => p,
                None => DEFAULT_PORT,
            },
            None => DEFAULT_PORT,
        },
{
    match setting {
        Some(s) => match parse_port(s) {
            Some(p) => p,
            None => DEFAULT_PORT,
        },
        None => DEFAULT_PORT,
    }
}

/// A number that is written in decimal is read as itself. It is written with digits alone,
/// and does not begin with a zero unless it is zero.
pub proof fn law_decimal_numbers_are_read_back(n: nat)
    ensures
        number(crate::text::decimal(n)) == n,
        all_digits(crate::text::decimal(n)),
        crate::text::decimal(n).len() > 0,
        n > 0 ==> crate::text::decimal(n)[0] != '0',
        n == 0 ==> crate::text::decimal(n) == seq!['0'],
    decreases n,
{
    let s = crate::text::decimal(n);
    if n >= 10 {
        law_decimal_numbers_are_read_back(n / 10);
        let shorter = crate::text::decimal(n / 10);
        assert(s.drop_last() =~= shorter);
        assert forall|i: int| 0 <= i < s.len() implies '0' <= #[trigger] s[i] <= '9' by {
            if i < s.len() - 1 {
                assert(s[i] == shorter[i]);
            }
        }
    } else {
        assert(s.drop_last() =~= Seq::empty());
        assert(number(s.drop_last()) == 0);
    }
}

/// Every port is read as it is written, with a plus sign or without, and no larger number
/// is a port.
pub proof fn law_ports_are_read_as_written(n: nat)
    ensures
        n <= 65535 ==> port_named(crate::text::decimal(n)) == Some(n as u16),
        n <= 65535 ==> port_named(seq!['+'] + crate::text::decimal(n)) == Some(n as u16),
        n > 65535 ==> port_named(crate::text::decimal(n)) is None,
        n > 65535 ==> port_named(seq!['+'] + crate::text::decimal(n)) is None,
{
    let s = crate::text::decimal(n);
    law_decimal_numbers_are_read_back(n);
    assert('0' <= s[0]);
    assert((seq!['+'] + s).skip(1) =~= s);
}

/// A text with anything but digits, after a plus sign or without one, names no port, and
/// neither does one without digits.
pub proof fn law_other_texts_name_no_port(s: Seq<char>, i: int)
    requires
        0 <= i < s.len(),
        !('0' <= s[i] <= '9'),
        i > 0 || s[0] != '+' || s.len() == 1,
    ensures
        port_named(s) is None,
        port_named(Seq::empty()) is None,
{
    if s[0] == '+' && i > 0 {
        assert(s.skip(1)[i - 1] == s[i]);
    }
}

/// Zeros in front do not matter.
pub proof fn law_leading_zeros_do_not_matter(s: Seq<char>)
    requires
        s.len() > 0,
        s[0] != '+',
    ensures
        port_named(seq!['0'] + s) == port_named(s),
{
    let z = seq!['0'] + s;
    lemma_leading_zero(s);
    if all_digits(s) {
        assert forall|i: int| 0 <= i < z.len() implies '0' <= #[trigger] z[i] <= '9' by {
            if i > 0 {
                assert(z[i] == s[i - 1]);
            }
        }
    }
    if all_digits(z) {
        assert forall|i: int| 0 <= i < s.len() implies '0' <= #[trigger] s[i] <= '9' by {
            assert(z[i + 1] == s[i]);
        }
    }
}

proof fn lemma_leading_zero(s: Seq<char>)
    ensures
        number(seq!['0'] + s) == number(s),
    decreases s.len(),
{
    let z = seq!['0'] + s;
    if s.len() > 0 {
        lemma_leading_zero(s.drop_last());
        assert(z.drop_last() =~= seq!['0'] + s.drop_last());
    } else {
        assert(z.drop_last() =~= Seq::empty());
        assert(number(z.drop_last()) == 0);
    }
}

/// Each further digit makes a number ten times as large, and adds what it stands for.
pub proof fn law_digits_have_their_place(s: Seq<char>, c: char)
    ensures
        number(Seq::empty()) == 0,
        number(s.push(c)) == 10 * number(s) + (c as int - '0' as int),
{
    assert(s.push(c).drop_last() =~= s);
}

} // verus!
