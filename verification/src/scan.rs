//! Looking through texts: white space, lines, and where something stands.

use crate::text::same_text;
use vstd::prelude::*;

verus! {

/// Whether a character has the Unicode property White_Space.
pub open spec fn white_space(c: char) -> bool {
    let n = c as u32;
    (0x9 <= n && n <= 0xd) || n == 0x20 || n == 0x85 || n == 0xa0 || n == 0x1680 || (0x2000 <= n
        && n <= 0x200a) || n == 0x2028 || n == 0x2029 || n == 0x202f || n == 0x205f || n == 0x3000
}

pub fn is_white_space(c: char) -> (r: bool)
    ensures
        r == white_space(c),
{
    let n: u32 = c as u32;
    (0x9 <= n && n <= 0xd) || n == 0x20 || n == 0x85 || n == 0xa0 || n == 0x1680 || (0x2000 <= n
        && n <= 0x200a) || n == 0x2028 || n == 0x2029 || n == 0x202f || n == 0x205f || n == 0x3000
}

/// A text without the white space at its start.
pub open spec fn trim_front(s: Seq<char>) -> Seq<char>
    decreases s.len(),
{
    if s.len() > 0 && white_space(s[0]) {
        trim_front(s.drop_first())
    } else {
        s
    }
}

/// A text without the white space at its end.
pub open spec fn trim_back(s: Seq<char>) -> Seq<char>
    decreases s.len(),
{
    if s.len() > 0 && white_space(s.last()) {
        trim_back(s.drop_last())
    } else {
        s
    }
}

/// The end of a text behind its last white space.
pub open spec fn tail_word(s: Seq<char>) -> Seq<char>
    decreases s.len(),
{
    if s.len() == 0 || white_space(s.last()) {
        Seq::empty()
    } else {
        tail_word(s.drop_last()).push(s.last())
    }
}

/// How many characters are left once the white space at the end is gone.
fn back_edge(s: &str) -> (r: usize)
    ensures
        r <= s@.len(),
        trim_back(s@) == s@.take(r as int),
{
    let mut n: usize = s.unicode_len();
    proof {
        assert(s@.take(s@.len() as int) =~= s@);
    }
    while n > 0 && is_white_space(s.get_char(n - 1))
        invariant
            n <= s@.len(),
            trim_back(s@.take(n as int)) == trim_back(s@),
        decreases n,
    {
        proof {
            assert(s@.take(n as int).drop_last() =~= s@.take(n - 1));
        }
        n = n - 1;
    }
    n
}

/// A text without the white space around it.
pub fn trim(s: &str) -> (r: String)
    ensures
        r@ == trim_front(trim_back(s@)),
{
    let n: usize = back_edge(s);
    let ghost body = s@.take(n as int);
    let mut i: usize = 0;
    proof {
        assert(body.skip(0) =~= body);
    }
    while i < n && is_white_space(s.get_char(i))
        invariant
            i <= n <= s@.len(),
            body == s@.take(n as int),
            trim_front(body.skip(i as int)) == trim_front(body),
        decreases n - i,
    {
        proof {
            assert(body.skip(i as int).drop_first() =~= body.skip(i + 1));
        }
        i = i + 1;
    }
    proof {
        assert(s@.subrange(i as int, n as int) =~= body.skip(i as int));
    }
    s.substring_char(i, n).to_owned()
}

/// The last word of a text.
pub open spec fn last_word(s: Seq<char>) -> Seq<char> {
    tail_word(trim_back(s))
}

proof fn lemma_tail_word(s: Seq<char>, from: int)
    requires
        0 <= from <= s.len(),
        from == 0 || white_space(s[from - 1]),
        forall|i: int| from <= i < s.len() ==> !white_space(#[trigger] s[i]),
    ensures
        tail_word(s) == s.skip(from),
    decreases s.len(),
{
    if s.len() == from {
        assert(s.skip(from) =~= Seq::empty());
        if s.len() > 0 {
            assert(s.last() == s[from - 1]);
        }
    } else {
        lemma_tail_word(s.drop_last(), from);
        assert(s.last() == s[s.len() - 1]);
        assert(s.skip(from) =~= s.drop_last().skip(from).push(s.last()));
    }
}

/// The last word of a text.
pub fn word_at_end(s: &str) -> (r: String)
    ensures
        r@ == last_word(s@),
{
    let n: usize = back_edge(s);
    let ghost body = s@.take(n as int);
    let mut i: usize = n;
    while i > 0 && !is_white_space(s.get_char(i - 1))
        invariant
            i <= n <= s@.len(),
            body == s@.take(n as int),
            forall|j: int| i <= j < n ==> !white_space(#[trigger] body[j]),
        decreases i,
    {
        proof {
            assert(body[i - 1] == s@[i - 1]);
        }
        i = i - 1;
    }
    proof {
        if i > 0 {
            assert(body[i - 1] == s@[i - 1]);
        }
        lemma_tail_word(body, i as int);
        assert(s@.subrange(i as int, n as int) =~= body.skip(i as int));
    }
    s.substring_char(i, n).to_owned()
}

/// The place of the first `c` at or behind `from`, or the text's length.
pub open spec fn place_of(s: Seq<char>, c: char, from: int) -> int
    decreases s.len() - from,
{
    if from < 0 || from >= s.len() {
        s.len() as int
    } else if s[from] == c {
        from
    } else {
        place_of(s, c, from + 1)
    }
}

/// Where `c` first stands, at or behind `from`; the text's length where it does not.
pub fn find_char(s: &str, c: char, from: usize) -> (r: usize)
    requires
        from <= s@.len(),
    ensures
        r == place_of(s@, c, from as int),
        from <= r <= s@.len(),
{
    let n: usize = s.unicode_len();
    let mut i: usize = from;
    while i < n && s.get_char(i) != c
        invariant
            from <= i <= n,
            n == s@.len(),
            place_of(s@, c, i as int) == place_of(s@, c, from as int),
        decreases n - i,
    {
        i = i + 1;
    }
    i
}

/// The lines of a text from a place on. A line ends at a line feed, with or
/// without a carriage return before it.
pub open spec fn lines_from(s: Seq<char>, from: int) -> Seq<Seq<char>>
    decreases s.len() - from,
{
    if from < 0 || from >= s.len() {
        Seq::empty()
    } else {
        let at = place_of(s, '\n', from);
        if at >= s.len() || at < from {
            seq![s.skip(from)]
        } else {
            let line = s.subrange(from, at);
            let line = if line.len() > 0 && line.last() == '\r' {
                line.drop_last()
            } else {
                line
            };
            seq![line] + lines_from(s, at + 1)
        }
    }
}

/// The lines of a text.
pub open spec fn lines_of(s: Seq<char>) -> Seq<Seq<char>> {
    lines_from(s, 0)
}

pub open spec fn text_views(v: Seq<String>) -> Seq<Seq<char>> {
    Seq::new(v.len(), |i: int| v[i]@)
}

/// The lines of a text.
pub fn lines(s: &str) -> (r: Vec<String>)
    ensures
        text_views(r@) == lines_of(s@),
{
    let n: usize = s.unicode_len();
    let mut out: Vec<String> = Vec::new();
    let mut from: usize = 0;
    proof {
        assert(text_views(out@) + lines_from(s@, 0) =~= lines_from(s@, 0));
    }
    while from < n
        invariant
            from <= n,
            n == s@.len(),
            text_views(out@) + lines_from(s@, from as int) == lines_of(s@),
        decreases n - from,
    {
        let at: usize = find_char(s, '\n', from);
        let ghost before = text_views(out@);
        if at == n {
            let line = s.substring_char(from, n).to_owned();
            proof {
                assert(line@ =~= s@.skip(from as int));
            }
            out.push(line);
            proof {
                assert(text_views(out@) =~= before + seq![s@.skip(from as int)]);
            }
            return out;
        }
        let end: usize = if at > from && s.get_char(at - 1) == '\r' {
            at - 1
        } else {
            at
        };
        let line = s.substring_char(from, end).to_owned();
        proof {
            let whole = s@.subrange(from as int, at as int);
            if end < at {
                assert(whole.last() == '\r');
                assert(line@ =~= whole.drop_last());
            } else {
                assert(line@ =~= whole);
                if whole.len() > 0 {
                    assert(whole.last() == s@[at - 1]);
                }
            }
        }
        out.push(line);
        proof {
            assert(text_views(out@) =~= before + seq![line@]);
            assert(before + (seq![line@] + lines_from(s@, at + 1)) =~= (before + seq![line@])
                + lines_from(s@, at + 1));
        }
        from = at + 1;
    }
    proof {
        assert(text_views(out@) + Seq::<Seq<char>>::empty() =~= text_views(out@));
    }
    out
}

/// The place where `t` first occurs at or behind `from`, or the text's length.
pub open spec fn first_occurrence(s: Seq<char>, t: Seq<char>, from: int) -> int
    decreases s.len() - from,
{
    if from < 0 || from + t.len() > s.len() || from >= s.len() {
        s.len() as int
    } else if s.subrange(from, from + t.len()) == t {
        from
    } else {
        first_occurrence(s, t, from + 1)
    }
}

/// Where `t` first stands, at or behind `from`; the text's length where it does not.
pub fn find_text(s: &str, t: &str, from: usize) -> (r: usize)
    requires
        from <= s@.len(),
        t@.len() > 0,
    ensures
        r == first_occurrence(s@, t@, from as int),
        from <= r <= s@.len(),
        r < s@.len() ==> r + t@.len() <= s@.len(),
{
    let n: usize = s.unicode_len();
    let m: usize = t.unicode_len();
    let mut i: usize = from;
    while i < n && m <= n - i
        invariant
            from <= i <= n,
            n == s@.len(),
            m == t@.len(),
            m > 0,
            first_occurrence(s@, t@, i as int) == first_occurrence(s@, t@, from as int),
        decreases n - i,
    {
        if same_text(s.substring_char(i, i + m), t) {
            return i;
        }
        i = i + 1;
    }
    n
}

} // verus!
