//! What the small operations on text and bytes give.

use crate::buffers::{be, from_be};
use crate::endpoint::{hex_digit, hex_digits, EndpointId};
use crate::forward::Platform;
use crate::kernel_route::{handed, is_seen, seen_routes, KernelRouteView};
use crate::net::dotted;
use crate::net_text::lemma_octets;
use crate::policy_key::{hex_value, is_hex, unhexed};
use crate::prefixes::{longest_match, net_key};
use crate::route_spec::RouteView;
use crate::scan::{
    first_occurrence, last_word, lines_from, lines_of, place_of, tail_word, trim_back, trim_front,
    white_space,
};
use crate::text::{before_suffix, decimal, digit_char, lower, trim_end_of};
use crate::tun::{burst, tally};
use crate::underlay::{gateway_addr, GatewayAddrs, IpAddr};
use crate::wrap_key::{
    behind_key, first_id, first_some, guid_in, key_material, quoted_value, salt_or_zeros,
};
use vstd::prelude::*;

verus! {

/// The lower-case form is as long as the text, has no capital of `A` to `Z`,
/// and differs from the text only where one stood.
pub proof fn law_lower_case(s: Seq<char>, i: int)
    requires
        0 <= i < s.len(),
    ensures
        lower(s).len() == s.len(),
        'A' <= s[i] <= 'Z' ==> lower(s)[i] as int == s[i] as int + 32,
        !('A' <= s[i] <= 'Z') ==> lower(s)[i] == s[i],
        !('A' <= lower(s)[i] <= 'Z'),
        lower(lower(s)) == lower(s),
{
    assert forall|k: int| 0 <= k < s.len() implies lower(lower(s))[k] == #[trigger] lower(s)[k] by {
        assert(!('A' <= lower(s)[k] <= 'Z'));
    }
    assert(lower(lower(s)) =~= lower(s));
}

/// Cutting a run off the end leaves the start, which does not end with that
/// character, and takes nothing else.
pub proof fn law_trimmed_end(s: Seq<char>, c: char)
    ensures
        ({
            let t = trim_end_of(s, c);
            &&& t.len() <= s.len()
            &&& t == s.take(t.len() as int)
            &&& t.len() > 0 ==> t.last() != c
            &&& forall|i: int| t.len() <= i < s.len() ==> #[trigger] s[i] == c
        }),
    decreases s.len(),
{
    if s.len() > 0 && s.last() == c {
        let rest = s.drop_last();
        law_trimmed_end(rest, c);
        let t = trim_end_of(s, c);
        assert(rest.take(t.len() as int) =~= s.take(t.len() as int));
        assert forall|i: int| t.len() <= i < s.len() implies #[trigger] s[i] == c by {
            if i < rest.len() {
                assert(rest[i] == s[i]);
            }
        }
    } else {
        assert(s.take(s.len() as int) =~= s);
    }
}

/// What stands in front of a suffix gives the text again with the suffix
/// behind it.
pub proof fn law_text_before_a_suffix(s: Seq<char>, head: Seq<char>, t: Seq<char>)
    ensures
        before_suffix(head + t, t) == Some(head),
        before_suffix(s, t) matches Some(h) ==> h + t == s,
{
    assert(t.is_suffix_of(head + t)) by {
        assert((head + t).subrange(head.len() as int, (head + t).len() as int) =~= t);
    }
    assert((head + t).take(head.len() as int) =~= head);
    if t.is_suffix_of(s) {
        assert(s.take(s.len() - t.len()) + t =~= s);
    }
}

/// The number that a row of decimal digits stands for.
pub open spec fn read_decimal(s: Seq<char>) -> int
    decreases s.len(),
{
    if s.len() == 0 {
        0
    } else {
        10 * read_decimal(s.drop_last()) + (s.last() as int - '0' as int)
    }
}

/// The decimal text of a number is made of digits, stands for the number and
/// starts with no zero unless it is the zero.
pub proof fn law_decimal_text(n: nat)
    ensures
        decimal(n).len() > 0,
        forall|i: int| 0 <= i < decimal(n).len() ==> '0' <= #[trigger] decimal(n)[i] <= '9',
        read_decimal(decimal(n)) == n,
        decimal(n)[0] == '0' ==> n == 0 && decimal(n).len() == 1,
    decreases n,
{
    let s = decimal(n);
    assert(digit_char(n % 10) as int == 48 + n % 10);
    if n < 10 {
        assert(n % 10 == n);
        assert(s.drop_last() =~= Seq::empty());
        assert(read_decimal(s.drop_last()) == 0);
    } else {
        law_decimal_text(n / 10);
        let head = decimal(n / 10);
        assert(s.drop_last() =~= head);
        assert(s[0] == head[0]);
        assert forall|i: int| 0 <= i < s.len() implies '0' <= #[trigger] s[i] <= '9' by {
            if i < head.len() {
                assert(s[i] == head[i]);
            }
        }
    }
}

/// The value of a lower-case hexadecimal digit.
pub open spec fn hex_worth(c: char) -> int {
    if '0' <= c <= '9' {
        c as int - '0' as int
    } else {
        c as int - 'a' as int + 10
    }
}

/// The number that a row of hexadecimal digits stands for.
pub open spec fn read_hex(s: Seq<char>) -> int
    decreases s.len(),
{
    if s.len() == 0 {
        0
    } else {
        16 * read_hex(s.drop_last()) + hex_worth(s.last())
    }
}

/// Sixteen to a power.
pub open spec fn sixteens(width: nat) -> int
    decreases width,
{
    if width == 0 {
        1
    } else {
        16 * sixteens((width - 1) as nat)
    }
}

/// The digits of a number that fits into them are lower-case hexadecimal ones
/// and stand for the number.
#[verifier::rlimit(40)]
pub proof fn law_hexadecimal_text(n: nat, width: nat)
    requires
        n < sixteens(width),
    ensures
        hex_digits(n, width).len() == width,
        forall|i: int|
            0 <= i < width ==> '0' <= #[trigger] hex_digits(n, width)[i] <= '9' || 'a'
                <= hex_digits(n, width)[i] <= 'f',
        read_hex(hex_digits(n, width)) == n,
    decreases width,
{
    if width > 0 {
        let w = (width - 1) as nat;
        let s = hex_digits(n, width);
        let head = hex_digits(n / 16, w);
        assert(n / 16 < sixteens(w));
        law_hexadecimal_text(n / 16, w);
        assert(s.drop_last() =~= head);
        let d = (n % 16) as int;
        assert(hex_worth(hex_digit(d)) == d);
        assert forall|i: int| 0 <= i < width implies '0' <= #[trigger] s[i] <= '9' || 'a' <= s[i]
            <= 'f' by {
            if i < w {
                assert(s[i] == head[i]);
            }
        }
    }
}

/// A key is written in 64 lower-case hexadecimal digits: those of the first
/// half, then those of the second. Different keys are written differently.
#[verifier::rlimit(40)]
pub proof fn law_text_of_a_key(id: EndpointId, other: EndpointId)
    ensures
        id.hex().len() == 64,
        read_hex(id.hex().take(32)) == id.hi,
        read_hex(id.hex().skip(32)) == id.lo,
        id.hex() == other.hex() ==> id == other,
{
    lemma_sixteens();
    law_hexadecimal_text(id.hi as nat, 32);
    law_hexadecimal_text(id.lo as nat, 32);
    law_hexadecimal_text(other.hi as nat, 32);
    law_hexadecimal_text(other.lo as nat, 32);
    assert(id.hex().take(32) =~= hex_digits(id.hi as nat, 32));
    assert(id.hex().skip(32) =~= hex_digits(id.lo as nat, 32));
    assert(other.hex().take(32) =~= hex_digits(other.hi as nat, 32));
    assert(other.hex().skip(32) =~= hex_digits(other.lo as nat, 32));
}

proof fn lemma_sixteens()
    ensures
        sixteens(32) == 0x1_0000_0000_0000_0000_0000_0000_0000_0000,
{
    reveal_with_fuel(sixteens, 33);
}

/// Of two smaller keys the one whose first half is smaller comes first, and
/// with equal first halves the one whose second half is.
pub proof fn law_order_of_keys(a: EndpointId, b: EndpointId)
    ensures
        a.rank() < b.rank() <==> a.hi < b.hi || (a.hi == b.hi && a.lo < b.lo),
{
}

/// Numbers are written with their most significant byte first.
#[verifier::rlimit(40)]
pub proof fn law_most_significant_byte_first(n: nat)
    ensures
        n < 0x1_0000 ==> be(n, 2) == seq![(n / 0x100) as u8, (n % 0x100) as u8],
        n < 0x1_0000_0000 ==> be(n, 4) == seq![
            (n / 0x100_0000) as u8,
            (n / 0x1_0000 % 0x100) as u8,
            (n / 0x100 % 0x100) as u8,
            (n % 0x100) as u8,
        ],
{
    reveal_with_fuel(be, 5);
    assert(n / 256 / 256 == n / 0x1_0000) by (nonlinear_arith);
    assert(n / 256 / 256 / 256 == n / 0x100_0000) by (nonlinear_arith);
    assert(n < 0x1_0000_0000 ==> n / 0x100_0000 % 256 == n / 0x100_0000);
    assert(n < 0x1_0000 ==> n / 0x100 % 256 == n / 0x100);
    if n < 0x1_0000 {
        assert(be(n, 2) =~= seq![(n / 0x100) as u8, (n % 0x100) as u8]);
    }
    if n < 0x1_0000_0000 {
        assert(be(n, 4) =~= seq![
            (n / 0x100_0000) as u8,
            (n / 0x1_0000 % 0x100) as u8,
            (n / 0x100 % 0x100) as u8,
            (n % 0x100) as u8,
        ]);
    }
}

/// Two and four bytes are read with the most significant one first.
#[verifier::rlimit(40)]
pub proof fn law_bytes_are_read_as_written(a: u8, b: u8, c: u8, d: u8)
    ensures
        from_be(seq![a, b]) == a * 0x100 + b,
        from_be(seq![a, b, c, d]) == a * 0x100_0000 + b * 0x1_0000 + c * 0x100 + d,
{
    reveal_with_fuel(from_be, 5);
    assert(seq![a, b].drop_last() =~= seq![a]);
    assert(seq![a].drop_last() =~= Seq::empty());
    assert(seq![a, b, c, d].drop_last() =~= seq![a, b, c]);
    assert(seq![a, b, c].drop_last() =~= seq![a, b]);
}

/// A text lies, with white space alone around it, where trimming found it, and
/// neither starts nor ends with any.
pub proof fn law_trimmed_text(s: Seq<char>)
    ensures
        ({
            let back = trim_back(s);
            let t = trim_front(back);
            let from = back.len() - t.len();
            &&& 0 <= from
            &&& back.len() <= s.len()
            &&& t == s.subrange(from, back.len() as int)
            &&& forall|i: int| 0 <= i < from ==> white_space(#[trigger] s[i])
            &&& forall|i: int| back.len() <= i < s.len() ==> white_space(#[trigger] s[i])
            &&& t.len() > 0 ==> !white_space(t[0]) && !white_space(t.last())
        }),
{
    lemma_trim_back(s);
    let back = trim_back(s);
    lemma_trim_front(back);
    let t = trim_front(back);
    let from = back.len() - t.len();
    assert(t =~= s.subrange(from, back.len() as int));
    assert forall|i: int| 0 <= i < from implies white_space(#[trigger] s[i]) by {
        assert(back[i] == s[i]);
    }
    if t.len() > 0 {
        assert(t.last() == back.last());
    }
}

proof fn lemma_trim_back(s: Seq<char>)
    ensures
        ({
            let t = trim_back(s);
            &&& t.len() <= s.len()
            &&& t == s.take(t.len() as int)
            &&& t.len() > 0 ==> !white_space(t.last())
            &&& forall|i: int| t.len() <= i < s.len() ==> white_space(#[trigger] s[i])
        }),
    decreases s.len(),
{
    if s.len() > 0 && white_space(s.last()) {
        let rest = s.drop_last();
        lemma_trim_back(rest);
        let t = trim_back(s);
        assert(rest.take(t.len() as int) =~= s.take(t.len() as int));
        assert forall|i: int| t.len() <= i < s.len() implies white_space(#[trigger] s[i]) by {
            if i < rest.len() {
                assert(rest[i] == s[i]);
            }
        }
    } else {
        assert(s.take(s.len() as int) =~= s);
    }
}

proof fn lemma_trim_front(s: Seq<char>)
    ensures
        ({
            let t = trim_front(s);
            let from = s.len() - t.len();
            &&& 0 <= from
            &&& t == s.skip(from)
            &&& t.len() > 0 ==> !white_space(t[0])
            &&& forall|i: int| 0 <= i < from ==> white_space(#[trigger] s[i])
        }),
    decreases s.len(),
{
    if s.len() > 0 && white_space(s[0]) {
        let rest = s.drop_first();
        lemma_trim_front(rest);
        let t = trim_front(s);
        let from = s.len() - t.len();
        assert(rest.skip(from - 1) =~= s.skip(from));
        assert forall|i: int| 0 <= i < from implies white_space(#[trigger] s[i]) by {
            if i > 0 {
                assert(rest[i - 1] == s[i]);
            }
        }
    } else {
        assert(s.skip(0) =~= s);
    }
}

/// The last word of a text holds no white space and stands at the end of the
/// text, with white space alone behind it, and in front of it the text's start
/// or white space.
pub proof fn law_last_word(s: Seq<char>)
    ensures
        ({
            let w = last_word(s);
            let end = trim_back(s).len();
            let from = end - w.len();
            &&& 0 <= from <= end <= s.len()
            &&& w == s.subrange(from, end as int)
            &&& forall|i: int| 0 <= i < w.len() ==> !white_space(#[trigger] w[i])
            &&& forall|i: int| end <= i < s.len() ==> white_space(#[trigger] s[i])
            &&& from > 0 ==> white_space(s[from - 1])
            &&& end > 0 ==> w.len() > 0
        }),
{
    lemma_trim_back(s);
    let body = trim_back(s);
    lemma_tail(body);
    let w = last_word(s);
    assert(w =~= s.subrange(body.len() - w.len(), body.len() as int));
}

proof fn lemma_tail(s: Seq<char>)
    ensures
        ({
            let w = tail_word(s);
            let from = s.len() - w.len();
            &&& 0 <= from
            &&& w == s.skip(from)
            &&& forall|i: int| 0 <= i < w.len() ==> !white_space(#[trigger] w[i])
            &&& from > 0 ==> white_space(s[from - 1])
            &&& s.len() > 0 && !white_space(s.last()) ==> w.len() > 0
        }),
    decreases s.len(),
{
    let w = tail_word(s);
    if s.len() == 0 || white_space(s.last()) {
        assert(s.skip(s.len() as int) =~= w);
    } else {
        let rest = s.drop_last();
        lemma_tail(rest);
        let v = tail_word(rest);
        let from = rest.len() - v.len();
        assert(s.skip(from) =~= rest.skip(from).push(s.last()));
        assert forall|i: int| 0 <= i < w.len() implies !white_space(#[trigger] w[i]) by {
            if i < v.len() {
                assert(w[i] == v[i]);
            }
        }
    }
}

/// The place of a character is the first where it stands, or the text's length
/// where it stands nowhere.
pub proof fn law_place_of_a_character(s: Seq<char>, c: char, from: int)
    requires
        0 <= from <= s.len(),
    ensures
        from <= place_of(s, c, from) <= s.len(),
        place_of(s, c, from) < s.len() ==> s[place_of(s, c, from)] == c,
        forall|i: int| from <= i < place_of(s, c, from) ==> #[trigger] s[i] != c,
    decreases s.len() - from,
{
    if from < s.len() && s[from] != c {
        law_place_of_a_character(s, c, from + 1);
    }
}

/// The place of a text is the first where it occurs, or the length where it
/// occurs nowhere.
pub proof fn law_place_of_a_text(s: Seq<char>, t: Seq<char>, from: int)
    requires
        0 <= from <= s.len(),
        t.len() > 0,
    ensures
        ({
            let at = first_occurrence(s, t, from);
            &&& from <= at <= s.len()
            &&& at < s.len() ==> at + t.len() <= s.len() && s.subrange(at, at + t.len()) == t
            &&& forall|i: int|
                from <= i < at && i + t.len() <= s.len() ==> #[trigger] s.subrange(i, i + t.len())
                    != t
        }),
    decreases s.len() - from,
{
    if from + t.len() <= s.len() && s.subrange(from, from + t.len()) != t {
        law_place_of_a_text(s, t, from + 1);
    }
}

/// A text up to a line feed is its first line, and the lines of what follows
/// are its others. The line feed belongs to none, nor does a carriage return
/// right before it.
#[verifier::rlimit(40)]
pub proof fn law_lines_end_at_line_feeds(head: Seq<char>, tail: Seq<char>)
    requires
        forall|i: int| 0 <= i < head.len() ==> #[trigger] head[i] != '\n',
    ensures
        ({
            let line = if head.len() > 0 && head.last() == '\r' {
                head.drop_last()
            } else {
                head
            };
            lines_of(head.push('\n') + tail) == seq![line] + lines_of(tail)
        }),
        head.len() > 0 ==> lines_of(head) == seq![head],
        lines_of(Seq::<char>::empty()).len() == 0,
{
    let s = head.push('\n') + tail;
    law_place_of_a_character(s, '\n', 0);
    let at = place_of(s, '\n', 0);
    assert(s[head.len() as int] == '\n');
    assert forall|i: int| 0 <= i < head.len() implies #[trigger] s[i] != '\n' by {
        assert(s[i] == head[i]);
    }
    assert(at == head.len());
    assert(s.subrange(0, at) =~= head);
    lemma_lines_shift(s, tail, at + 1, 0);
    if head.len() > 0 {
        law_place_of_a_character(head, '\n', 0);
        assert(head.skip(0) =~= head);
        assert(lines_of(head) =~= seq![head]);
    }
}

proof fn lemma_place_shift(s: Seq<char>, t: Seq<char>, off: int, c: char, from: int)
    requires
        0 <= off <= s.len(),
        t == s.skip(off),
        0 <= from <= t.len(),
    ensures
        place_of(s, c, off + from) == off + place_of(t, c, from),
    decreases t.len() - from,
{
    if from < t.len() {
        assert(t[from] == s[off + from]);
        if t[from] != c {
            lemma_place_shift(s, t, off, c, from + 1);
        }
    }
}

proof fn lemma_lines_shift(s: Seq<char>, t: Seq<char>, off: int, from: int)
    requires
        0 <= off <= s.len(),
        t =~= s.skip(off),
        0 <= from <= t.len(),
    ensures
        lines_from(s, off + from) == lines_from(t, from),
    decreases t.len() - from,
{
    if from < t.len() {
        lemma_place_shift(s, t, off, '\n', from);
        law_place_of_a_character(t, '\n', from);
        let at = place_of(t, '\n', from);
        if at < t.len() {
            assert(s.subrange(off + from, off + at) =~= t.subrange(from, at));
            lemma_lines_shift(s, t, off, at + 1);
        } else {
            assert(s.skip(off + from) =~= t.skip(from));
        }
    }
}

/// The first line that gives something decides.
pub proof fn law_first_line_decides(
    lines: Seq<Seq<char>>,
    f: spec_fn(Seq<char>) -> Option<Seq<char>>,
    at: int,
)
    requires
        0 <= at <= lines.len(),
        forall|i: int| 0 <= i < at ==> f(#[trigger] lines[i]) is None,
        at < lines.len() ==> f(lines[at]) is Some,
    ensures
        at < lines.len() ==> first_some(lines, f) == f(lines[at]),
        at == lines.len() ==> first_some(lines, f) is None,
    decreases lines.len(),
{
    if lines.len() > 0 && at > 0 {
        assert(f(lines[0]) is None);
        let rest = lines.drop_first();
        assert forall|i: int| 0 <= i < at - 1 implies f(#[trigger] rest[i]) is None by {
            assert(rest[i] == lines[i + 1]);
        }
        if at < lines.len() {
            assert(rest[at - 1] == lines[at]);
        }
        law_first_line_decides(rest, f, at - 1);
    }
}

/// The first file that holds more than white space gives the machine's id,
/// without the white space around it.
pub proof fn law_first_file_decides(files: Seq<Option<Seq<char>>>, at: int)
    requires
        0 <= at <= files.len(),
        forall|i: int|
            0 <= i < at ==> ((#[trigger] files[i]) is None || trim_front(
                trim_back(files[i]->0),
            ).len() == 0),
        at < files.len() ==> files[at] is Some && trim_front(trim_back(files[at]->0)).len() > 0,
    ensures
        at < files.len() ==> first_id(files) == Some(trim_front(trim_back(files[at]->0))),
        at == files.len() ==> first_id(files) is None,
    decreases files.len(),
{
    if files.len() > 0 && at > 0 {
        assert(files[0] is None || trim_front(trim_back(files[0]->0)).len() == 0);
        let rest = files.drop_first();
        assert forall|i: int|
            0 <= i < at - 1 implies ((#[trigger] rest[i]) is None || trim_front(
            trim_back(rest[i]->0),
        ).len() == 0) by {
            assert(rest[i] == files[i + 1]);
        }
        if at < files.len() {
            assert(rest[at - 1] == files[at]);
        }
        law_first_file_decides(rest, at - 1);
    }
}

/// Of a property written as a name, an equals sign and a quoted value, the
/// value is read.
#[verifier::rlimit(40)]
pub proof fn law_quoted_values_are_read(head: Seq<char>, gap: Seq<char>, value: Seq<char>, tail: Seq<char>)
    requires
        forall|i: int| 0 <= i < head.len() ==> #[trigger] head[i] != '=',
        forall|i: int| 0 <= i < gap.len() ==> #[trigger] gap[i] != '"',
        forall|i: int| 0 <= i < value.len() ==> #[trigger] value[i] != '"',
    ensures
        quoted_value(head.push('=') + gap.push('"') + value.push('"') + tail) == Some(value),
{
    let rest = head.push('=') + gap.push('"') + value.push('"') + tail;
    let eq = head.len() as int;
    let open = eq + 1 + gap.len();
    let close = open + 1 + value.len();
    law_place_of_a_character(rest, '=', 0);
    assert(rest[eq] == '=');
    assert forall|i: int| 0 <= i < eq implies #[trigger] rest[i] != '=' by {
        assert(rest[i] == head[i]);
    }
    assert(place_of(rest, '=', 0) == eq);
    law_place_of_a_character(rest, '"', eq + 1);
    assert(rest[open] == '"');
    assert forall|i: int| eq + 1 <= i < open implies #[trigger] rest[i] != '"' by {
        assert(rest[i] == gap[i - eq - 1]);
    }
    assert(place_of(rest, '"', eq + 1) == open);
    law_place_of_a_character(rest, '"', open + 1);
    assert(rest[close] == '"');
    assert forall|i: int| open + 1 <= i < close implies #[trigger] rest[i] != '"' by {
        assert(rest[i] == value[i - open - 1]);
    }
    assert(place_of(rest, '"', open + 1) == close);
    assert(rest.subrange(open + 1, close) =~= value);
}

/// What follows a key is read up to the next one, and nothing where the key
/// does not occur.
pub proof fn law_text_behind_a_key(line: Seq<char>, key: Seq<char>, at: int)
    requires
        key.len() > 0,
        0 <= at,
        at + key.len() <= line.len(),
        line.subrange(at, at + key.len()) == key,
        forall|i: int|
            0 <= i < line.len() && i != at && i + key.len() <= line.len() ==> #[trigger] line.subrange(
                i,
                i + key.len(),
            ) != key,
    ensures
        behind_key(line, key) == Some(line.skip(at + key.len())),
{
    law_place_of_a_text(line, key, 0);
    let first = first_occurrence(line, key, 0);
    assert(first == at) by {
        if first > at {
            assert(line.subrange(at, at + key.len()) != key);
        }
        if first < at {
            assert(line.subrange(first, first + key.len()) == key);
        }
    }
    let from = at + key.len();
    law_place_of_a_text(line, key, from);
    let next = first_occurrence(line, key, from);
    if next < line.len() {
        assert(line.subrange(next, next + key.len()) == key);
    }
    assert(line.subrange(from, line.len() as int) =~= line.skip(from));
}

/// A line of the registry gives the id that ends it where it names the value.
pub proof fn law_registry_line(line: Seq<char>, i: int)
    ensures
        0 <= i <= line.len() - "MachineGuid"@.len() && line.subrange(
            i,
            i + "MachineGuid"@.len(),
        ) == "MachineGuid"@ && last_word(line).len() > 0 ==> guid_in(line) == Some(last_word(line)),
        guid_in(line) is Some ==> guid_in(line) == Some(last_word(line)) && exists|k: int|
            0 <= k <= line.len() - "MachineGuid"@.len() && #[trigger] line.subrange(
                k,
                k + "MachineGuid"@.len(),
            ) == "MachineGuid"@,
{
}

/// The key is derived from the machine's id with the boot's behind it, with
/// the salt that was given, or 32 zero bytes without one.
pub proof fn law_what_the_key_is_derived_from(machine: Seq<u8>, boot: Seq<u8>, salt: Seq<u8>)
    ensures
        key_material(machine, boot).len() == machine.len() + boot.len(),
        key_material(machine, boot).take(machine.len() as int) == machine,
        key_material(machine, boot).skip(machine.len() as int) == boot,
        salt.len() > 0 ==> salt_or_zeros(salt) == salt,
        salt.len() == 0 ==> salt_or_zeros(salt).len() == 32 && forall|i: int|
            0 <= i < 32 ==> #[trigger] salt_or_zeros(salt)[i] == 0,
{
    assert(key_material(machine, boot).take(machine.len() as int) =~= machine);
    assert(key_material(machine, boot).skip(machine.len() as int) =~= boot);
}

/// A burst takes the packets in front of the first attempt that gave none, up
/// to its limit.
pub proof fn law_bursts_take_all_there_is<E>(attempts: Seq<Result<usize, E>>, max: nat)
    ensures
        burst(attempts, max) <= max,
        burst(attempts, max) <= attempts.len(),
        forall|i: int|
            0 <= i < burst(attempts, max) ==> (#[trigger] attempts[i]) is Ok && attempts[i]->Ok_0
                > 0,
        burst(attempts, max) < max && burst(attempts, max) < attempts.len() ==> {
            let end = attempts[burst(attempts, max) as int];
            end is Err || end->Ok_0 == 0
        },
    decreases max,
{
    if max > 0 && attempts.len() > 0 && (attempts[0] matches Ok(n) && n > 0) {
        let rest = attempts.drop_first();
        law_bursts_take_all_there_is(rest, (max - 1) as nat);
        let n = burst(attempts, max);
        assert forall|i: int| 0 <= i < n implies (#[trigger] attempts[i]) is Ok
            && attempts[i]->Ok_0 > 0 by {
            if i > 0 {
                assert(rest[i - 1] == attempts[i]);
            }
        }
        if n < max && n < attempts.len() {
            assert(rest[n - 1] == attempts[n as int]);
        }
    }
}

/// A burst that stopped short of its limit read once more than it took.
pub proof fn law_bursts_stop_on_an_empty_read<E>(outs: Seq<Result<usize, E>>, max: nat, n: nat)
    requires
        tally(outs, max, n),
    ensures
        n <= max,
        n < max ==> outs.len() == n + 1 && (outs[n as int] is Err || outs[n as int]->Ok_0 == 0),
        n == max ==> outs.len() == n,
        forall|i: int| 0 <= i < n ==> (#[trigger] outs[i]) is Ok && outs[i]->Ok_0 > 0,
{
}

/// A gateway is reached at its first IPv4 address, else at its first IPv6 one.
pub proof fn law_gateways_prefer_ipv4(g: GatewayAddrs)
    ensures
        g.ipv4@.len() > 0 ==> gateway_addr(g) == Some(IpAddr::V4(g.ipv4@[0])),
        g.ipv4@.len() == 0 && g.ipv6@.len() > 0 ==> gateway_addr(g) == Some(
            IpAddr::V6(g.ipv6@[0]),
        ),
        g.ipv4@.len() == 0 && g.ipv6@.len() == 0 ==> gateway_addr(g) is None,
{
}

/// A route is handed to the kernel with its network, gateway and interface,
/// and on Linux and Windows ahead of other routes where it leads into the
/// tunnel.
pub proof fn law_routes_are_handed_over_whole(s: RouteView, platform: Platform)
    ensures
        ({
            let k = handed(s, platform);
            &&& k.destination == IpAddr::V4(s.dest.first() as u32)
            &&& k.prefix == s.dest.bits()
            &&& s.gateway matches Some(gw) ==> k.gateway == Some(IpAddr::V4(gw))
            &&& s.gateway is None ==> k.gateway is None
            &&& k.if_index == Some(s.if_index)
            &&& s.if_name.len() > 0 ==> k.if_name == Some(s.if_name)
            &&& s.if_name.len() == 0 ==> k.if_name is None
            &&& s.gateway is None && (platform == Platform::Linux || platform == Platform::Windows)
                ==> k.metric == Some(1u32)
            &&& s.gateway is Some || (platform != Platform::Linux && platform != Platform::Windows) ==> k.metric is None
        }),
{
}

/// The routes that are looked at are those to IPv4 networks over a known
/// interface, and not by an IPv6 gateway.
pub proof fn law_which_kernel_routes_are_seen(listed: Seq<KernelRouteView>, k: KernelRouteView)
    ensures
        is_seen(k) <==> k.destination is V4 && k.prefix <= 32 && k.if_index is Some && (
        k.gateway is None || k.gateway->0 is V4),
        seen_routes(listed).contains(k) <==> listed.contains(k) && is_seen(k),
        seen_routes(listed).len() <= listed.len(),
    decreases listed.len(),
{
    if listed.len() > 0 {
        let rest = listed.drop_last();
        law_which_kernel_routes_are_seen(rest, k);
        assert(listed =~= rest.push(listed.last()));
        lemma_push_has(rest, listed.last(), k);
        lemma_push_has(seen_routes(rest), listed.last(), k);
    }
}

proof fn lemma_push_has<A>(s: Seq<A>, last: A, x: A)
    ensures
        s.push(last).contains(x) <==> s.contains(x) || x == last,
{
    let t = s.push(last);
    if s.contains(x) {
        let i = choose|i: int| 0 <= i < s.len() && s[i] == x;
        assert(t[i] == x);
    }
    if x == last {
        assert(t[s.len() as int] == x);
    }
    if t.contains(x) {
        let i = choose|i: int| 0 <= i < t.len() && t[i] == x;
        if i < s.len() {
            assert(s[i] == x);
        }
    }
}

/// The longest network that holds an address is found: one that is there, with
/// none longer among those asked for.
pub proof fn law_longest_network_is_found<V>(m: Map<(u32, u8), V>, ip: u32, len: u8)
    ensures
        longest_match(m, ip, len) matches Some(l) ==> l <= len && m.contains_key(net_key(ip, l))
            && forall|k: u8| l < k <= len ==> !m.contains_key(#[trigger] net_key(ip, k)),
        longest_match(m, ip, len) is None ==> forall|k: u8|
            k <= len ==> !m.contains_key(#[trigger] net_key(ip, k)),
    decreases len,
{
    if !m.contains_key(net_key(ip, len)) && len > 0 {
        law_longest_network_is_found(m, ip, (len - 1) as u8);
        if longest_match(m, ip, len) is Some {
            let l = longest_match(m, ip, len)->0;
            assert forall|k: u8| l < k <= len implies !m.contains_key(
                #[trigger] net_key(ip, k),
            ) by {
                if k < len {
                    assert(k <= len - 1);
                }
            }
        }
    }
}

/// Of the ASCII characters the blank and the control characters from tab to
/// carriage return are white space, and no other.
pub proof fn law_white_space(c: char)
    ensures
        (c as u32) < 128 ==> (white_space(c) <==> c == ' ' || c == '\t' || c == '\n' || c == '\r'
            || c as u32 == 11 || c as u32 == 12),
        white_space(c) ==> c as u32 <= 0x3000,
{
}

/// An address is written as its four bytes in decimal, the most significant
/// first, with dots between them.
#[verifier::rlimit(40)]
pub proof fn law_text_of_an_address(a: u8, b: u8, c: u8, d: u8)
    ensures
        dotted((a * 0x100_0000 + b * 0x1_0000 + c * 0x100 + d) as u32) == decimal(a as nat) + "."@
            + decimal(b as nat) + "."@ + decimal(c as nat) + "."@ + decimal(d as nat),
{
    lemma_octets(a as u32, b as u32, c as u32, d as u32);
}

/// A pair of hexadecimal digits, in either case, stands for the byte whose
/// upper and lower halves they are.
#[verifier::rlimit(40)]
pub proof fn law_pairs_of_digits_are_bytes(b: u8)
    ensures
        unhexed(seq![hex_digit(b as int / 16), hex_digit(b as int % 16)]) == Some(seq![b]),
        b as int / 16 >= 10 ==> unhexed(
            seq![(55 + b as int / 16) as char, hex_digit(b as int % 16)],
        ) == Some(seq![b]),
        unhexed(seq![hex_digit(b as int / 16)]) is None,
        unhexed(seq!['g', hex_digit(b as int % 16)]) is None,
        unhexed(seq![hex_digit(b as int / 16), ' ']) is None,
{
    let hi = b as int / 16;
    let lo = b as int % 16;
    let s = seq![hex_digit(hi), hex_digit(lo)];
    assert(hex_value(hex_digit(hi)) == hi && is_hex(hex_digit(hi)));
    assert(hex_value(hex_digit(lo)) == lo && is_hex(hex_digit(lo)));
    assert(unhexed(s)->0 =~= seq![b]);
    let g = seq!['g', hex_digit(lo)];
    assert(!is_hex(g[0]));
    let blank = seq![hex_digit(hi), ' '];
    assert(!is_hex(blank[1]));
    if hi >= 10 {
        let upper = (55 + hi) as char;
        let t = seq![upper, hex_digit(lo)];
        assert(upper as int == 55 + hi);
        assert(hex_value(upper) == hi && is_hex(upper));
        assert(unhexed(t)->0 =~= seq![b]);
    }
}

/// Without two quotes behind the equals sign there is no value.
pub proof fn law_unquoted_values_are_none(head: Seq<char>, rest: Seq<char>)
    requires
        forall|i: int| 0 <= i < head.len() ==> #[trigger] head[i] != '=',
        forall|i: int, j: int|
            0 <= i < j < rest.len() ==> (#[trigger] rest[i]) != '"' || (#[trigger] rest[j]) != '"',
    ensures
        quoted_value(head.push('=') + rest) is None,
{
    let s = head.push('=') + rest;
    let eq = head.len() as int;
    law_place_of_a_character(s, '=', 0);
    assert(s[eq] == '=');
    assert forall|i: int| 0 <= i < eq implies #[trigger] s[i] != '=' by {
        assert(s[i] == head[i]);
    }
    assert(place_of(s, '=', 0) == eq);
    law_place_of_a_character(s, '"', eq + 1);
    let open = place_of(s, '"', eq + 1);
    if open < s.len() {
        law_place_of_a_character(s, '"', open + 1);
        let close = place_of(s, '"', open + 1);
        if close < s.len() {
            assert(s[open] == rest[open - eq - 1]);
            assert(s[close] == rest[close - eq - 1]);
        }
    }
}

} // verus!
