//! The symbols of a linker map: each line whose first word is `0x` and a
//! hexadecimal address, whose second word is a name, and which has no third
//! word or `=` as its third word. The map is UTF-8 text; words are separated
//! by Unicode white space.

use vstd::prelude::*;

verus! {

/// ASCII white space: space, tab, line feed, vertical tab, form feed and
/// carriage return.
pub open spec fn is_ascii_space(b: u8) -> bool {
    b == 0x20 || (0x09 <= b && b <= 0x0D)
}

/// The length in bytes of the UTF-8 encoded white-space character at the
/// start of `s`, or 0 where none starts there. The characters with the
/// Unicode `White_Space` property beyond ASCII are U+0085 and U+00A0
/// (two bytes), and U+1680, U+2000 to U+200A, U+2028, U+2029, U+202F,
/// U+205F and U+3000 (three bytes).
pub open spec fn space_len(s: Seq<u8>) -> nat {
    if s.len() == 0 {
        0
    } else if is_ascii_space(s[0]) {
        1
    } else if s.len() >= 2 && s[0] == 0xC2 && (s[1] == 0x85 || s[1] == 0xA0) {
        2
    } else if s.len() >= 3 && (
    (s[0] == 0xE1 && s[1] == 0x9A && s[2] == 0x80)
        || (s[0] == 0xE2 && s[1] == 0x80 && ((0x80 <= s[2] && s[2] <= 0x8A) || s[2] == 0xA8 || s[2]
        == 0xA9 || s[2] == 0xAF))
        || (s[0] == 0xE2 && s[1] == 0x81 && s[2] == 0x9F)
        || (s[0] == 0xE3 && s[1] == 0x80 && s[2] == 0x80)) {
        3
    } else {
        0
    }
}

/// The length of the word at the start of `s`: the bytes up to the first
/// white-space character.
pub open spec fn word_len(s: Seq<u8>) -> nat
    decreases s.len(),
{
    if s.len() == 0 || space_len(s) > 0 {
        0
    } else {
        1 + word_len(s.drop_first())
    }
}

pub proof fn lemma_word_len(s: Seq<u8>)
    ensures
        space_len(s) <= s.len(),
        word_len(s) <= s.len(),
        s.len() > 0 && space_len(s) == 0 ==> word_len(s) >= 1,
    decreases s.len(),
{
    if s.len() > 0 && space_len(s) == 0 {
        lemma_word_len(s.drop_first());
    }
}

/// The white-space-separated words of `s`, in order.
pub open spec fn words(s: Seq<u8>) -> Seq<Seq<u8>>
    decreases s.len(),
{
    proof {
        lemma_word_len(s);
    }
    if s.len() == 0 {
        Seq::empty()
    } else if space_len(s) > 0 {
        words(s.skip(space_len(s) as int))
    } else {
        seq![s.take(word_len(s) as int)] + words(s.skip(word_len(s) as int))
    }
}

/// The value of a hexadecimal digit.
pub open spec fn hex_digit(b: u8) -> Option<int> {
    if 0x30 <= b <= 0x39 {
        Some(b - 0x30)
    } else if 0x61 <= b <= 0x66 {
        Some(b - 0x61 + 10)
    } else if 0x41 <= b <= 0x46 {
        Some(b - 0x41 + 10)
    } else {
        None
    }
}

/// The value of a string of hexadecimal digits.
pub open spec fn hex_value(s: Seq<u8>) -> Option<int>
    decreases s.len(),
{
    if s.len() == 0 {
        Some(0)
    } else {
        match (hex_value(s.drop_last()), hex_digit(s.last())) {
            (Some(v), Some(d)) => Some(v * 16 + d),
            _ => None,
        }
    }
}

/// A hexadecimal `u32`: an optional `+`, then at least one digit, with a
/// value that fits.
pub open spec fn parse_hex(s: Seq<u8>) -> Option<u32> {
    let digits = if s.len() > 0 && s[0] == 0x2B { s.drop_first() } else { s };
    if digits.len() == 0 {
        None
    } else {
        match hex_value(digits) {
            Some(v) => if v < 0x1_0000_0000 { Some(v as u32) } else { None },
            None => None,
        }
    }
}

/// The symbol a line defines, if any.
pub open spec fn entry(line: Seq<u8>) -> Option<(u32, Seq<u8>)> {
    let w = words(line);
    if w.len() < 2 || (w.len() >= 3 && w[2] != seq![0x3Du8]) {
        None
    } else if !(w[0].len() >= 2 && w[0][0] == 0x30 && w[0][1] == 0x78) {
        None
    } else {
        match parse_hex(w[0].skip(2)) {
            Some(a) => Some((a, w[1])),
            None => None,
        }
    }
}

/// The length of the line at the start of `s`, up to its line feed.
pub open spec fn line_len(s: Seq<u8>) -> nat
    decreases s.len(),
{
    if s.len() == 0 || s[0] == 0x0A {
        0
    } else {
        1 + line_len(s.drop_first())
    }
}

pub proof fn lemma_line_len(s: Seq<u8>)
    ensures
        line_len(s) <= s.len(),
        line_len(s) < s.len() ==> s[line_len(s) as int] == 0x0A,
        forall|j: int| 0 <= j < line_len(s) ==> s[j] != 0x0A,
    decreases s.len(),
{
    if s.len() > 0 && s[0] != 0x0A {
        lemma_line_len(s.drop_first());
        assert forall|j: int| 0 <= j < line_len(s) implies s[j] != 0x0A by {
            if j > 0 {
                assert(s[j] == s.drop_first()[j - 1]);
            }
        }
    }
}

/// The symbols defined by the lines of `text`, in order.
pub open spec fn symbols(text: Seq<u8>) -> Seq<(u32, Seq<u8>)>
    decreases text.len(),
{
    proof {
        lemma_line_len(text);
    }
    let n = line_len(text);
    let here = match entry(text.take(n as int)) {
        Some(e) => seq![e],
        None => Seq::empty(),
    };
    if n < text.len() {
        here + symbols(text.skip((n + 1) as int))
    } else {
        here
    }
}

/// The length of the white-space character at `line[pos..hi]`, or 0.
fn space_at(line: &[u8], pos: usize, hi: usize) -> (n: usize)
    requires
        pos < hi <= line@.len(),
    ensures
        n == space_len(line@.subrange(pos as int, hi as int)),
{
    let ghost s = line@.subrange(pos as int, hi as int);
    let b = line[pos];
    if b == 0x20 || (0x09 <= b && b <= 0x0D) {
        return 1;
    }
    if hi - pos >= 2 {
        let c = line[pos + 1];
        assert(s[1] == c);
        if b == 0xC2 && (c == 0x85 || c == 0xA0) {
            return 2;
        }
        if hi - pos >= 3 {
            let d = line[pos + 2];
            assert(s[2] == d);
            if (b == 0xE1 && c == 0x9A && d == 0x80) || (b == 0xE2 && c == 0x80 && ((0x80 <= d
                && d <= 0x8A) || d == 0xA8 || d == 0xA9 || d == 0xAF)) || (b == 0xE2 && c == 0x81
                && d == 0x9F) || (b == 0xE3 && c == 0x80 && d == 0x80) {
                return 3;
            }
        }
    }
    0
}

/// The words of `line[lo..hi]`, as spans of `line`.
fn word_spans(line: &[u8], lo: usize, hi: usize) -> (r: Vec<(usize, usize)>)
    requires
        lo <= hi <= line@.len(),
    ensures
        r@.len() == words(line@.subrange(lo as int, hi as int)).len(),
        forall|k: int|
            0 <= k < r@.len() ==> (#[trigger] r@[k]).0 <= r@[k].1 <= hi && line@.subrange(r@[k].0 as int, r@[k].1 as int)
                == words(line@.subrange(lo as int, hi as int))[k],
{
    let mut spans: Vec<(usize, usize)> = Vec::new();
    let mut pos = lo;
    let ghost whole = line@.subrange(lo as int, hi as int);
    while pos < hi
        invariant
            lo <= pos <= hi <= line@.len(),
            whole == line@.subrange(lo as int, hi as int),
            words(whole) == spans@.map_values(|p: (usize, usize)| line@.subrange(p.0 as int, p.1 as int)) + words(
                line@.subrange(pos as int, hi as int),
            ),
            forall|k: int| 0 <= k < spans@.len() ==> (#[trigger] spans@[k]).0 <= spans@[k].1 <= hi,
        decreases hi - pos,
    {
        let ghost rest = line@.subrange(pos as int, hi as int);
        let n = space_at(line, pos, hi);
        if n > 0 {
            proof {
                lemma_word_len(rest);
                assert(rest.skip(n as int) == line@.subrange(pos + n, hi as int));
            }
            pos = pos + n;
        } else {
            let start = pos;
            pos = pos + 1;
            proof {
                assert(rest.drop_first() == line@.subrange(pos as int, hi as int));
            }
            while pos < hi && space_at(line, pos, hi) == 0
                invariant
                    start < pos <= hi <= line@.len(),
                    rest == line@.subrange(start as int, hi as int),
                    word_len(rest) == (pos - start) + word_len(line@.subrange(pos as int, hi as int)),
                decreases hi - pos,
            {
                proof {
                    assert(line@.subrange(pos as int, hi as int).drop_first() == line@.subrange(
                        pos + 1,
                        hi as int,
                    ));
                }
                pos = pos + 1;
            }
            proof {
                assert(word_len(line@.subrange(pos as int, hi as int)) == 0);
                assert(rest.take(pos - start) == line@.subrange(start as int, pos as int));
                assert(rest.skip(pos - start) == line@.subrange(pos as int, hi as int));
            }
            let ghost before = spans@;
            spans.push((start, pos));
            proof {
                let f = |p: (usize, usize)| line@.subrange(p.0 as int, p.1 as int);
                assert(spans@.map_values(f) == before.map_values(f).push(line@.subrange(start as int, pos as int)));
                assert(words(whole) == spans@.map_values(f) + words(line@.subrange(pos as int, hi as int)));
            }
        }
    }
    proof {
        let f = |p: (usize, usize)| line@.subrange(p.0 as int, p.1 as int);
        assert(words(line@.subrange(hi as int, hi as int)) == Seq::<Seq<u8>>::empty());
        assert(words(whole) == spans@.map_values(f));
    }
    spans
}


proof fn lemma_hex_nonneg(s: Seq<u8>)
    ensures
        hex_value(s) matches Some(v) ==> v >= 0,
    decreases s.len(),
{
    if s.len() > 0 {
        lemma_hex_nonneg(s.drop_last());
    }
}

/// Once a prefix of the digits is invalid or too large, so is the whole.
proof fn lemma_hex_prefix(s: Seq<u8>, k: int)
    requires
        0 <= k <= s.len(),
    ensures
        hex_value(s.take(k)) is None ==> hex_value(s) is None,
        (hex_value(s.take(k)) matches Some(v) && v >= 0x1_0000_0000) ==> (hex_value(s) is None || hex_value(s)->0
            >= 0x1_0000_0000),
    decreases s.len() - k,
{
    if k == s.len() {
        assert(s.take(k) == s);
    } else {
        lemma_hex_prefix(s.drop_last(), k);
        assert(s.drop_last().take(k) == s.take(k));
        lemma_hex_nonneg(s.drop_last());
    }
}

fn hex_digit_of(b: u8) -> (r: Option<u64>)
    ensures
        match (r, hex_digit(b)) {
            (Some(x), Some(y)) => x == y && x < 16,
            (None, None) => true,
            _ => false,
        },
{
    if 0x30 <= b && b <= 0x39 {
        Some((b - 0x30) as u64)
    } else if 0x61 <= b && b <= 0x66 {
        Some((b - 0x61 + 10) as u64)
    } else if 0x41 <= b && b <= 0x46 {
        Some((b - 0x41 + 10) as u64)
    } else {
        None
    }
}

/// Parses `s[lo..hi]` as a hexadecimal `u32`.
fn parse_hex_span(s: &[u8], lo: usize, hi: usize) -> (r: Option<u32>)
    requires
        lo <= hi <= s@.len(),
    ensures
        r == parse_hex(s@.subrange(lo as int, hi as int)),
{
    let ghost all = s@.subrange(lo as int, hi as int);
    let mut i = lo;
    if i < hi && s[i] == 0x2B {
        i = i + 1;
    }
    let start = i;
    let ghost digits = s@.subrange(start as int, hi as int);
    assert(digits == (if all.len() > 0 && all[0] == 0x2B { all.drop_first() } else { all }));
    if i == hi {
        return None;
    }
    let mut v: u64 = 0;
    while i < hi
        invariant
            lo <= start <= i <= hi <= s@.len(),
            digits == s@.subrange(start as int, hi as int),
            digits.len() > 0,
            digits == (if all.len() > 0 && all[0] == 0x2B { all.drop_first() } else { all }),
            all == s@.subrange(lo as int, hi as int),
            v < 0x1_0000_0000,
            hex_value(s@.subrange(start as int, i as int)) == Some(v as int),
        decreases hi - i,
    {
        let ghost pre = s@.subrange(start as int, i as int);
        let ghost next = s@.subrange(start as int, i + 1);
        assert(next.drop_last() == pre);
        assert(next.last() == s@[i as int]);
        assert(digits.take(i + 1 - start) == next);
        match hex_digit_of(s[i]) {
            None => {
                proof {
                    lemma_hex_prefix(digits, i + 1 - start);
                }
                return None;
            },
            Some(d) => {
                v = v * 16 + d;
                if v >= 0x1_0000_0000 {
                    proof {
                        lemma_hex_prefix(digits, i + 1 - start);
                    }
                    return None;
                }
            },
        }
        i = i + 1;
    }
    assert(s@.subrange(start as int, hi as int) == digits);
    Some(v as u32)
}

/// The symbol line `line[lo..hi]` defines: its address and the span of its
/// name.
fn entry_span(line: &[u8], lo: usize, hi: usize) -> (r: Option<(u32, usize, usize)>)
    requires
        lo <= hi <= line@.len(),
    ensures
        match r {
            None => entry(line@.subrange(lo as int, hi as int)) is None,
            Some((a, ns, ne)) => ns <= ne <= line@.len() && entry(line@.subrange(lo as int, hi as int)) == Some(
                (a, line@.subrange(ns as int, ne as int)),
            ),
        },
{
    let ghost w = words(line@.subrange(lo as int, hi as int));
    let spans = word_spans(line, lo, hi);
    if spans.len() < 2 {
        return None;
    }
    if spans.len() >= 3 {
        let (a, b) = spans[2];
        assert(line@.subrange(a as int, b as int) == w[2]);
        if !(b - a == 1 && line[a] == 0x3D) {
            proof {
                if b - a == 1 {
                    assert(w[2][0] != 0x3Du8);
                }
                assert(w[2] != seq![0x3Du8]);
            }
            return None;
        }
        assert(w[2] =~= seq![0x3Du8]);
    }
    let (a0, b0) = spans[0];
    assert(line@.subrange(a0 as int, b0 as int) == w[0]);
    if !(b0 - a0 >= 2 && line[a0] == 0x30 && line[a0 + 1] == 0x78) {
        return None;
    }
    assert(w[0].skip(2) == line@.subrange(a0 + 2, b0 as int));
    let (n0, n1) = spans[1];
    assert(line@.subrange(n0 as int, n1 as int) == w[1]);
    match parse_hex_span(line, a0 + 2, b0) {
        None => None,
        Some(v) => Some((v, n0, n1)),
    }
}

pub(crate) fn copy_span(s: &[u8], lo: usize, hi: usize) -> (r: Vec<u8>)
    requires
        lo <= hi <= s@.len(),
    ensures
        r@ == s@.subrange(lo as int, hi as int),
{
    let mut out: Vec<u8> = Vec::new();
    let mut i = lo;
    while i < hi
        invariant
            lo <= i <= hi <= s@.len(),
            out@ == s@.subrange(lo as int, i as int),
        decreases hi - i,
    {
        out.push(s[i]);
        i = i + 1;
    }
    out
}

/// The line at the start of `s` runs to the first line feed.
proof fn lemma_line_len_exact(s: Seq<u8>, n: int)
    requires
        0 <= n <= s.len(),
        forall|j: int| 0 <= j < n ==> s[j] != 0x0A,
        n == s.len() || s[n] == 0x0A,
    ensures
        line_len(s) == n,
    decreases n,
{
    if n > 0 {
        lemma_line_len_exact(s.drop_first(), n - 1);
    }
}

/// The symbols a linker map defines, line by line: (address, name).
pub fn map_symbols(text: &[u8]) -> (r: Vec<(u32, Vec<u8>)>)
    ensures
        r@.len() == symbols(text@).len(),
        forall|k: int|
            0 <= k < r@.len() ==> (#[trigger] r@[k]).0 == symbols(text@)[k].0 && r@[k].1@ == symbols(
                text@,
            )[k].1,
{
    let mut out: Vec<(u32, Vec<u8>)> = Vec::new();
    let ghost mut acc: Seq<(u32, Seq<u8>)> = Seq::empty();
    let len = text.len();
    let mut pos: usize = 0;
    assert(text@.skip(0) == text@);
    assert(acc + symbols(text@) == symbols(text@));
    loop
        invariant_except_break
            symbols(text@) == acc + symbols(text@.skip(pos as int)),
        invariant
            len == text@.len(),
            pos <= len,
            out@.len() == acc.len(),
            forall|k: int| 0 <= k < out@.len() ==> (#[trigger] out@[k]).0 == acc[k].0 && out@[k].1@ == acc[k].1,
        ensures
            symbols(text@) == acc,
        decreases len - pos,
    {
        let ghost rest = text@.skip(pos as int);
        let mut e = pos;
        while e < len && text[e] != 0x0A
            invariant
                pos <= e <= len,
                len == text@.len(),
                forall|j: int| pos <= j < e ==> text@[j] != 0x0A,
            decreases len - e,
        {
            e = e + 1;
        }
        proof {
            lemma_line_len_exact(rest, e - pos);
            assert(rest.take(e - pos) == text@.subrange(pos as int, e as int));
        }
        let ghost here = match entry(text@.subrange(pos as int, e as int)) {
            Some(x) => seq![x],
            None => Seq::<(u32, Seq<u8>)>::empty(),
        };
        match entry_span(text, pos, e) {
            None => {},
            Some((a, ns, ne)) => {
                let name = copy_span(text, ns, ne);
                out.push((a, name));
            },
        }
        let ghost before = acc;
        proof {
            acc = acc + here;
        }
        if e == len {
            assert(symbols(rest) == here);
            assert(symbols(text@) == acc);
            break;
        }
        proof {
            assert(rest.skip(e - pos + 1) == text@.skip(e + 1));
            assert(symbols(rest) == here + symbols(text@.skip(e + 1)));
            assert(before + (here + symbols(text@.skip(e + 1))) == acc + symbols(text@.skip(e + 1)));
        }
        pos = e + 1;
    }
    out
}


/// The address of the first symbol called `name`.
pub open spec fn first_named(syms: Seq<(u32, Seq<u8>)>, name: Seq<u8>) -> Option<u32>
    decreases syms.len(),
{
    if syms.len() == 0 {
        None
    } else if syms[0].1 == name {
        Some(syms[0].0)
    } else {
        first_named(syms.drop_first(), name)
    }
}

pub(crate) fn same_bytes(a: &[u8], b: &[u8]) -> (r: bool)
    ensures
        r == (a@ == b@),
{
    if a.len() != b.len() {
        return false;
    }
    let mut i: usize = 0;
    while i < a.len()
        invariant
            a@.len() == b@.len(),
            i <= a@.len(),
            forall|j: int| 0 <= j < i ==> a@[j] == b@[j],
        decreases a@.len() - i,
    {
        if a[i] != b[i] {
            return false;
        }
        i = i + 1;
    }
    assert(a@ =~= b@);
    true
}

/// The address of the first of `syms` called `name`, where `syms` holds
/// the symbols `all`.
pub(crate) fn first_named_in(syms: &Vec<(u32, Vec<u8>)>, name: &[u8], Ghost(all): Ghost<Seq<(u32, Seq<u8>)>>) -> (r: Option<u32>)
    requires
        syms@.len() == all.len(),
        forall|k: int| 0 <= k < syms@.len() ==> (#[trigger] syms@[k]).0 == all[k].0 && syms@[k].1@ == all[k].1,
    ensures
        r == first_named(all, name@),
{
    let mut i: usize = 0;
    assert(all.skip(0) == all);
    while i < syms.len()
        invariant
            syms@.len() == all.len(),
            forall|k: int| 0 <= k < syms@.len() ==> (#[trigger] syms@[k]).0 == all[k].0 && syms@[k].1@ == all[k].1,
            i <= syms@.len(),
            first_named(all, name@) == first_named(all.skip(i as int), name@),
        decreases syms@.len() - i,
    {
        let ghost rest = all.skip(i as int);
        assert(rest[0] == all[i as int]);
        if same_bytes(syms[i].1.as_slice(), name) {
            return Some(syms[i].0);
        }
        assert(rest.drop_first() == all.skip(i + 1));
        i = i + 1;
    }
    None
}

/// The address the linker map gives symbol `name`, if it defines it.
pub fn find_symbol(text: &[u8], name: &[u8]) -> (r: Option<u32>)
    ensures
        r == first_named(symbols(text@), name@),
{
    let syms = map_symbols(text);
    first_named_in(&syms, name, Ghost(symbols(text@)))
}

} // verus!
