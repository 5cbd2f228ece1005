//! Reading addresses from texts.

use crate::net::{dotted, octet};
use crate::scan::{find_char, place_of};
use crate::text::{decimal, digit_char};
use vstd::prelude::*;

verus! {

/// The digits of a number below a thousand.
proof fn lemma_decimal_digits(n: nat)
    requires
        n < 1000,
    ensures
        n < 10 ==> decimal(n) =~= seq![digit_char(n)],
        10 <= n < 100 ==> decimal(n) =~= seq![digit_char(n / 10), digit_char(n % 10)],
        100 <= n ==> decimal(n) =~= seq![
            digit_char(n / 100),
            digit_char(n / 10 % 10),
            digit_char(n % 10),
        ],
{
    reveal_with_fuel(decimal, 4);
    assert(n / 10 / 10 == n / 100) by (nonlinear_arith);
}

proof fn lemma_digit(d: nat)
    requires
        d < 10,
    ensures
        digit_char(d) as int == 48 + d,
        digit_char(d) != '.',
{
}

/// No part of a dotted text holds a dot.
proof fn lemma_no_dot(n: nat)
    requires
        n < 1000,
    ensures
        1 <= decimal(n).len() <= 3,
        forall|i: int| 0 <= i < decimal(n).len() ==> decimal(n)[i] != '.',
{
    lemma_decimal_digits(n);
    lemma_digit(n % 10);
    if n < 10 {
        lemma_digit(n);
    } else if n < 100 {
        lemma_digit(n / 10);
    } else {
        lemma_digit(n / 100);
        lemma_digit(n / 10 % 10);
    }
}

/// The first dot behind a text without one.
proof fn lemma_first_dot(s: Seq<char>, from: int, at: int)
    requires
        0 <= from <= at <= s.len(),
        forall|i: int| from <= i < at ==> s[i] != '.',
        at == s.len() || s[at] == '.',
    ensures
        place_of(s, '.', from) == at,
    decreases at - from,
{
    if from < at {
        lemma_first_dot(s, from + 1, at);
    }
}

fn digit_value(c: char) -> (r: Option<u32>)
    ensures
        r matches Some(d) ==> d < 10 && c == digit_char(d as nat),
        r is None ==> forall|d: nat| d < 10 ==> c != #[trigger] digit_char(d),
{
    let n: u32 = c as u32;
    if n >= 48 && n <= 57 {
        Some(n - 48)
    } else {
        None
    }
}

/// The number up to 255 that a part of a text stands for, written without
/// leading zeros.
fn octet_at(s: &str, from: usize, to: usize) -> (r: Option<u32>)
    requires
        from <= to <= s@.len(),
    ensures
        r matches Some(n) ==> n <= 255 && s@.subrange(from as int, to as int) == decimal(n as nat),
        r is None ==> forall|n: nat|
            n <= 255 ==> s@.subrange(from as int, to as int) != #[trigger] decimal(n),
{
    let ghost part = s@.subrange(from as int, to as int);
    proof {
        assert forall|n: nat| n <= 255 implies 1 <= (#[trigger] decimal(n)).len() <= 3 by {
            lemma_no_dot(n);
        }
    }
    let len: usize = to - from;
    if len == 0 || len > 3 {
        return None;
    }
    let first = digit_value(s.get_char(from));
    proof {
        assert(part[0] == s@[from as int]);
        assert forall|n: nat| n <= 255 implies exists|d: nat|
            d < 10 && (#[trigger] decimal(n))[0] == #[trigger] digit_char(d) by {
            lemma_decimal_digits(n);
            if n < 10 {
                assert(decimal(n)[0] == digit_char(n));
            } else if n < 100 {
                assert(decimal(n)[0] == digit_char(n / 10));
            } else {
                assert(decimal(n)[0] == digit_char(n / 100));
            }
        }
    }
    let a: u32 = match first {
        Some(d) => d,
        None => {
            return None;
        },
    };
    if len == 1 {
        proof {
            lemma_decimal_digits(a as nat);
            assert(part =~= seq![digit_char(a as nat)]);
        }
        return Some(a);
    }
    if a == 0 {
        proof {
            assert forall|n: nat| n <= 255 implies part != #[trigger] decimal(n) by {
                lemma_decimal_digits(n);
                if n >= 10 && n < 100 {
                    lemma_digit(n / 10);
                    assert(decimal(n)[0] == digit_char(n / 10));
                } else if n >= 100 {
                    lemma_digit(n / 100);
                    assert(decimal(n)[0] == digit_char(n / 100));
                }
                lemma_digit(0);
            }
        }
        return None;
    }
    let second = digit_value(s.get_char(from + 1));
    proof {
        assert(part[1] == s@[from + 1]);
        assert forall|n: nat| 10 <= n <= 255 implies exists|d: nat|
            d < 10 && (#[trigger] decimal(n))[1] == #[trigger] digit_char(d) by {
            lemma_decimal_digits(n);
            if n < 100 {
                assert(decimal(n)[1] == digit_char(n % 10));
            } else {
                assert(decimal(n)[1] == digit_char(n / 10 % 10));
            }
        }
        assert forall|n: nat| n < 10 implies (#[trigger] decimal(n)).len() == 1 by {
            lemma_decimal_digits(n);
        }
    }
    let b: u32 = match second {
        Some(d) => d,
        None => {
            return None;
        },
    };
    if len == 2 {
        let n: u32 = 10 * a + b;
        proof {
            lemma_decimal_digits(n as nat);
            assert(n as nat / 10 == a as nat);
            assert(n as nat % 10 == b as nat);
            assert(part =~= seq![digit_char(a as nat), digit_char(b as nat)]);
        }
        return Some(n);
    }
    let third = digit_value(s.get_char(from + 2));
    proof {
        assert(part[2] == s@[from + 2]);
        assert forall|n: nat| 100 <= n <= 255 implies exists|d: nat|
            d < 10 && (#[trigger] decimal(n))[2] == #[trigger] digit_char(d) by {
            lemma_decimal_digits(n);
            assert(decimal(n)[2] == digit_char(n % 10));
        }
        assert forall|n: nat| n < 100 implies (#[trigger] decimal(n)).len() <= 2 by {
            lemma_decimal_digits(n);
        }
    }
    let c: u32 = match third {
        Some(d) => d,
        None => {
            return None;
        },
    };
    let n: u32 = 100 * a + 10 * b + c;
    proof {
        lemma_decimal_digits(n as nat);
        assert(n as nat / 100 == a as nat);
        assert(n as nat / 10 % 10 == b as nat);
        assert(n as nat % 10 == c as nat);
        assert(part =~= seq![digit_char(a as nat), digit_char(b as nat), digit_char(c as nat)]);
        assert(part == decimal(n as nat));
    }
    if n > 255 {
        proof {
            assert forall|m: nat| m <= 255 implies part != #[trigger] decimal(m) by {
                lemma_decimal_digits(m);
                if m >= 100 && part == decimal(m) {
                    lemma_digit(m / 100);
                    lemma_digit(m / 10 % 10);
                    lemma_digit(m % 10);
                    lemma_digit(a as nat);
                    lemma_digit(b as nat);
                    lemma_digit(c as nat);
                    assert(decimal(m)[0] == part[0]);
                    assert(decimal(m)[1] == part[1]);
                    assert(decimal(m)[2] == part[2]);
                }
            }
        }
        return None;
    }
    Some(n)
}

/// Where the dots of a dotted text stand.
proof fn lemma_dots(ip: u32)
    ensures
        ({
            let s = dotted(ip);
            let a = decimal(octet(ip, 0) as nat);
            let b = decimal(octet(ip, 1) as nat);
            let c = decimal(octet(ip, 2) as nat);
            let d = decimal(octet(ip, 3) as nat);
            let p = a.len() as int;
            let q = p + 1 + b.len();
            let t = q + 1 + c.len();
            &&& place_of(s, '.', 0) == p
            &&& place_of(s, '.', p + 1) == q
            &&& place_of(s, '.', q + 1) == t
            &&& t < s.len()
            &&& s.subrange(0, p) == a
            &&& s.subrange(p + 1, q) == b
            &&& s.subrange(q + 1, t) == c
            &&& s.subrange(t + 1, s.len() as int) == d
        }),
        octet(ip, 0) <= 255,
        octet(ip, 1) <= 255,
        octet(ip, 2) <= 255,
        octet(ip, 3) <= 255,
{
    reveal_strlit(".");
    let s = dotted(ip);
    let a = decimal(octet(ip, 0) as nat);
    let b = decimal(octet(ip, 1) as nat);
    let c = decimal(octet(ip, 2) as nat);
    let d = decimal(octet(ip, 3) as nat);
    lemma_no_dot(octet(ip, 0) as nat);
    lemma_no_dot(octet(ip, 1) as nat);
    lemma_no_dot(octet(ip, 2) as nat);
    lemma_no_dot(octet(ip, 3) as nat);
    let p = a.len() as int;
    let q = p + 1 + b.len();
    let t = q + 1 + c.len();
    assert(s.subrange(0, p) =~= a);
    assert(s.subrange(p + 1, q) =~= b);
    assert(s.subrange(q + 1, t) =~= c);
    assert(s.subrange(t + 1, s.len() as int) =~= d);
    assert forall|i: int| 0 <= i < p implies s[i] != '.' by {
        assert(s[i] == a[i]);
    }
    assert forall|i: int| p + 1 <= i < q implies s[i] != '.' by {
        assert(s[i] == b[i - p - 1]);
    }
    assert forall|i: int| q + 1 <= i < t implies s[i] != '.' by {
        assert(s[i] == c[i - q - 1]);
    }
    lemma_first_dot(s, 0, p);
    lemma_first_dot(s, p + 1, q);
    lemma_first_dot(s, q + 1, t);
}

/// The octets of an address that is put together from them.
pub proof fn lemma_octets(a: u32, b: u32, c: u32, d: u32)
    requires
        a <= 255,
        b <= 255,
        c <= 255,
        d <= 255,
    ensures
        ({
            let ip = (a * 0x100_0000 + b * 0x1_0000 + c * 0x100 + d) as u32;
            &&& ip == a * 0x100_0000 + b * 0x1_0000 + c * 0x100 + d
            &&& octet(ip, 0) == a
            &&& octet(ip, 1) == b
            &&& octet(ip, 2) == c
            &&& octet(ip, 3) == d
        }),
{
}

/// A text whose parts between the dots are the octets is the dotted form.
proof fn lemma_joined(s: Seq<char>, ip: u32, p: int, q: int, t: int)
    requires
        0 <= p < q < t < s.len(),
        s[p] == '.',
        s[q] == '.',
        s[t] == '.',
        s.subrange(0, p) == decimal(octet(ip, 0) as nat),
        s.subrange(p + 1, q) == decimal(octet(ip, 1) as nat),
        s.subrange(q + 1, t) == decimal(octet(ip, 2) as nat),
        s.subrange(t + 1, s.len() as int) == decimal(octet(ip, 3) as nat),
    ensures
        s == dotted(ip),
{
    reveal_strlit(".");
    assert(s =~= s.subrange(0, p) + "."@ + s.subrange(p + 1, q) + "."@ + s.subrange(q + 1, t)
        + "."@ + s.subrange(t + 1, s.len() as int));
}

/// The address that a text is the dotted form of.
pub fn parse_ipv4(s: &str) -> (r: Option<u32>)
    ensures
        r matches Some(ip) ==> s@ == dotted(ip),
        r is None ==> forall|ip: u32| s@ != #[trigger] dotted(ip),
{
    let n: usize = s.unicode_len();
    let p: usize = find_char(s, '.', 0);
    let q: usize = if p < n {
        find_char(s, '.', p + 1)
    } else {
        n
    };
    let t: usize = if q < n {
        find_char(s, '.', q + 1)
    } else {
        n
    };
    if t == n {
        proof {
            assert forall|ip: u32| s@ != #[trigger] dotted(ip) by {
                lemma_dots(ip);
            }
        }
        return None;
    }
    let a = octet_at(s, 0, p);
    let b = octet_at(s, p + 1, q);
    let c = octet_at(s, q + 1, t);
    let d = octet_at(s, t + 1, n);
    if let (Some(a), Some(b), Some(c), Some(d)) = (a, b, c, d) {
        proof {
            lemma_octets(a, b, c, d);
        }
        let ip: u32 = a * 0x100_0000 + b * 0x1_0000 + c * 0x100 + d;
        proof {
            lemma_found(s@, 0);
            lemma_found(s@, p + 1);
            lemma_found(s@, q + 1);
            lemma_joined(s@, ip, p as int, q as int, t as int);
        }
        return Some(ip);
    }
    proof {
        assert forall|ip: u32| s@ != #[trigger] dotted(ip) by {
            lemma_dots(ip);
        }
    }
    None
}

/// Where a dot was found there is one.
proof fn lemma_found(s: Seq<char>, from: int)
    ensures
        place_of(s, '.', from) < s.len() ==> s[place_of(s, '.', from)] == '.',
    decreases s.len() - from,
{
    if 0 <= from < s.len() && s[from] != '.' {
        lemma_found(s, from + 1);
    }
}

/// No two addresses have the same text.
pub proof fn law_address_text_is_unique(x: u32, y: u32)
    requires
        dotted(x) == dotted(y),
    ensures
        x == y,
{
    lemma_dots(x);
    lemma_dots(y);
    lemma_decimal_injective(octet(x, 0) as nat, octet(y, 0) as nat);
    lemma_decimal_injective(octet(x, 1) as nat, octet(y, 1) as nat);
    lemma_decimal_injective(octet(x, 2) as nat, octet(y, 2) as nat);
    lemma_decimal_injective(octet(x, 3) as nat, octet(y, 3) as nat);
}

proof fn lemma_decimal_injective(m: nat, n: nat)
    requires
        m <= 255,
        n <= 255,
        decimal(m) == decimal(n),
    ensures
        m == n,
{
    lemma_decimal_digits(m);
    lemma_decimal_digits(n);
    lemma_digit(m % 10);
    lemma_digit(n % 10);
    lemma_digit(m / 10 % 10);
    lemma_digit(n / 10 % 10);
    lemma_digit(m / 100);
    lemma_digit(n / 100);
    if m < 10 {
        assert(n < 10);
        lemma_digit(m);
        lemma_digit(n);
        assert(decimal(m)[0] == digit_char(m));
        assert(decimal(n)[0] == digit_char(n));
    } else if m < 100 {
        assert(10 <= n < 100);
        lemma_digit(m / 10);
        lemma_digit(n / 10);
        assert(decimal(m)[0] == digit_char(m / 10) && decimal(n)[0] == digit_char(n / 10));
        assert(decimal(m)[1] == digit_char(m % 10) && decimal(n)[1] == digit_char(n % 10));
    } else {
        assert(100 <= n);
        assert(decimal(m)[0] == digit_char(m / 100) && decimal(n)[0] == digit_char(n / 100));
        assert(decimal(m)[1] == digit_char(m / 10 % 10) && decimal(n)[1] == digit_char(
            n / 10 % 10,
        ));
        assert(decimal(m)[2] == digit_char(m % 10) && decimal(n)[2] == digit_char(n % 10));
        assert(m / 10 / 10 == m / 100) by (nonlinear_arith);
        assert(n / 10 / 10 == n / 100) by (nonlinear_arith);
    }
}

} // verus!
