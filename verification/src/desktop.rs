//! Reading the icon name out of the text of a `.desktop` entry.
use vstd::prelude::*;

use crate::text::{chars_of, is_white_space, is_white_space_char, leading_ws, starts_with, string_from_chars, trailing_ws, trim};

verus! {

/// The key that introduces the icon name of an entry.
pub open spec fn icon_prefix() -> Seq<char> {
    seq!['I', 'c', 'o', 'n', '=']
}

/// `s` with every leading repetition of the non-empty `p` removed, as
/// `str::trim_start_matches` does.
pub open spec fn strip_prefix_all(s: Seq<char>, p: Seq<char>) -> Seq<char>
    decreases s.len(),
{
    if p.len() > 0 && starts_with(s, p) {
        strip_prefix_all(s.subrange(p.len() as int, s.len() as int), p)
    } else {
        s
    }
}

/// Position of the first line break of `s` at or after `i`, or the length
/// of `s` when there is none.
pub open spec fn line_end(s: Seq<char>, i: int) -> int
    decreases s.len() - i,
{
    if i >= s.len() {
        s.len() as int
    } else if s[i] == '\n' {
        i
    } else {
        line_end(s, i + 1)
    }
}

/// The icon name given by the first line of `s` from position `start` on
/// that, trimmed, starts with `Icon=`: that line trimmed and without its
/// leading `Icon=` keys.
pub open spec fn icon_from(s: Seq<char>, start: int) -> Option<Seq<char>>
    decreases s.len() - start,
{
    if start > s.len() {
        None
    } else {
        let e = line_end(s, start);
        let line = trim(s.subrange(start, e));
        if starts_with(line, icon_prefix()) {
            Some(strip_prefix_all(line, icon_prefix()))
        } else if e >= s.len() {
            None
        } else {
            proof {
                lemma_line_end_bounds(s, start);
            }
            icon_from(s, e + 1)
        }
    }
}

/// The end of a line lies between its start and the end of the text.
pub proof fn lemma_line_end_bounds(s: Seq<char>, i: int)
    ensures
        i <= s.len() ==> i <= line_end(s, i) <= s.len(),
    decreases s.len() - i,
{
    if i < s.len() && s[i] != '\n' {
        lemma_line_end_bounds(s, i + 1);
    }
}

proof fn lemma_line_end(s: Seq<char>, start: int, i: int)
    requires
        0 <= start <= i <= s.len(),
        forall|j: int| start <= j < i ==> s[j] != '\n',
        i == s.len() || s[i] == '\n',
    ensures
        line_end(s, start) == i,
    decreases i - start,
{
    if start < i {
        lemma_line_end(s, start + 1, i);
    }
}

proof fn lemma_leading_ws(s: Seq<char>, a: int)
    requires
        0 <= a <= s.len(),
        forall|j: int| 0 <= j < a ==> is_white_space(#[trigger] s[j]),
        a == s.len() || !is_white_space(s[a]),
    ensures
        leading_ws(s) == a,
    decreases a,
{
    if a > 0 {
        let t = s.drop_first();
        assert forall|j: int| 0 <= j < a - 1 implies is_white_space(#[trigger] t[j]) by {
            assert(t[j] == s[j + 1]);
        }
        lemma_leading_ws(t, a - 1);
    }
}

proof fn lemma_trailing_ws(s: Seq<char>, b: int)
    requires
        0 <= b <= s.len(),
        forall|j: int| b <= j < s.len() ==> is_white_space(#[trigger] s[j]),
        b == 0 || !is_white_space(s[b - 1]),
    ensures
        trailing_ws(s) == s.len() - b,
    decreases s.len() - b,
{
    if b < s.len() {
        let t = s.drop_last();
        assert forall|j: int| b <= j < t.len() implies is_white_space(#[trigger] t[j]) by {
            assert(t[j] == s[j]);
        }
        assert(s.last() == s[s.len() - 1]);
        lemma_trailing_ws(t, b);
    }
}

/// Bounds of `cs[from..to]` without its leading and trailing white space.
pub fn trim_bounds(cs: &Vec<char>, from: usize, to: usize) -> (r: (usize, usize))
    requires
        from <= to <= cs@.len(),
    ensures
        from <= r.0 <= r.1 <= to,
        cs@.subrange(r.0 as int, r.1 as int) == trim(cs@.subrange(from as int, to as int)),
{
    let ghost s = cs@.subrange(from as int, to as int);
    let mut a: usize = from;
    while a < to && is_white_space_char(cs[a])
        invariant
            from <= a <= to <= cs@.len(),
            s == cs@.subrange(from as int, to as int),
            forall|j: int| from <= j < a ==> is_white_space(#[trigger] cs@[j]),
        decreases to - a,
    {
        a = a + 1;
    }
    proof {
        assert forall|j: int| 0 <= j < a - from implies is_white_space(#[trigger] s[j]) by {
            assert(s[j] == cs@[from + j]);
        }
        lemma_leading_ws(s, a - from);
    }
    let ghost rest = cs@.subrange(a as int, to as int);
    assert(rest =~= s.subrange(leading_ws(s) as int, s.len() as int));
    let mut b: usize = to;
    while b > a && is_white_space_char(cs[b - 1])
        invariant
            from <= a <= b <= to <= cs@.len(),
            rest == cs@.subrange(a as int, to as int),
            forall|j: int| b <= j < to ==> is_white_space(#[trigger] cs@[j]),
        decreases b - a,
    {
        b = b - 1;
    }
    proof {
        assert forall|j: int| b - a <= j < rest.len() implies is_white_space(#[trigger] rest[j]) by {
            assert(rest[j] == cs@[a + j]);
        }
        lemma_trailing_ws(rest, b - a);
        assert(cs@.subrange(a as int, b as int) =~= rest.subrange(0, rest.len() - trailing_ws(rest)));
    }
    (a, b)
}

/// Whether `cs[a..b]` starts with `Icon=`.
fn has_icon_prefix(cs: &Vec<char>, a: usize, b: usize) -> (r: bool)
    requires
        a <= b <= cs@.len(),
    ensures
        r == starts_with(cs@.subrange(a as int, b as int), icon_prefix()),
{
    if b - a < 5 {
        return false;
    }
    let r = cs[a] == 'I' && cs[a + 1] == 'c' && cs[a + 2] == 'o' && cs[a + 3] == 'n' && cs[a + 4] == '=';
    proof {
        let s = cs@.subrange(a as int, b as int);
        if r {
            assert(s.subrange(0, 5) =~= icon_prefix());
        } else {
            if s.subrange(0, 5) == icon_prefix() {
                assert(s.subrange(0, 5)[0] == cs@[a as int]);
                assert(s.subrange(0, 5)[1] == cs@[a + 1]);
                assert(s.subrange(0, 5)[2] == cs@[a + 2]);
                assert(s.subrange(0, 5)[3] == cs@[a + 3]);
                assert(s.subrange(0, 5)[4] == cs@[a + 4]);
            }
        }
    }
    r
}

/// The icon name of the line `cs[a..b]`, already trimmed, that starts with
/// `Icon=`: the line without its leading `Icon=` keys.
fn strip_icon_keys(cs: &Vec<char>, a: usize, b: usize) -> (r: String)
    requires
        a <= b <= cs@.len(),
    ensures
        r@ == strip_prefix_all(cs@.subrange(a as int, b as int), icon_prefix()),
{
    let mut k: usize = a;
    while has_icon_prefix(cs, k, b)
        invariant
            a <= k <= b <= cs@.len(),
            strip_prefix_all(cs@.subrange(a as int, b as int), icon_prefix()) == strip_prefix_all(cs@.subrange(k as int, b as int), icon_prefix()),
        decreases b - k,
    {
        let ghost s = cs@.subrange(k as int, b as int);
        assert(s.subrange(5, s.len() as int) =~= cs@.subrange(k + 5, b as int));
        k = k + 5;
    }
    string_from_chars(cs, k, b)
}

/// The icon name of a `.desktop` entry with text `content`: the first line
/// that, trimmed of white space, starts with `Icon=`, trimmed and without
/// its leading `Icon=` keys. Lines are separated by `\n`; a `\r` before it
/// is white space that trimming removes.
pub fn icon_from_desktop_entry(content: &str) -> (r: Option<String>)
    ensures
        match r {
            Some(name) => icon_from(content@, 0) == Some(name@),
            None => icon_from(content@, 0) is None,
        },
{
    let cs = chars_of(content);
    let n = cs.len();
    let mut start: usize = 0;
    let mut i: usize = 0;
    while i < n
        invariant
            n == cs@.len(),
            cs@ == content@,
            start <= i <= n,
            icon_from(cs@, 0) == icon_from(cs@, start as int),
            forall|j: int| start <= j < i ==> #[trigger] cs@[j] != '\n',
        decreases n - i,
    {
        if cs[i] == '\n' {
            proof {
                lemma_line_end(cs@, start as int, i as int);
            }
            let (a, b) = trim_bounds(&cs, start, i);
            if has_icon_prefix(&cs, a, b) {
                return Some(strip_icon_keys(&cs, a, b));
            }
            start = i + 1;
        }
        i = i + 1;
    }
    proof {
        lemma_line_end(cs@, start as int, n as int);
    }
    let (a, b) = trim_bounds(&cs, start, n);
    if has_icon_prefix(&cs, a, b) {
        Some(strip_icon_keys(&cs, a, b))
    } else {
        None
    }
}

} // verus!
