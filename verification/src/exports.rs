//! The lines of the BIOS symbol file: one `PROVIDE(name = 0x........);`
//! line for each symbol the BIOS exports to carts, read from the BIOS's
//! linker map, sorted and without repeats. A map that lacks an export is
//! refused with the names it lacks.

use vstd::prelude::*;
use crate::linkmap::{symbols, first_named, map_symbols, first_named_in, same_bytes, copy_span};

verus! {

/// `v68_monitor`
pub open spec fn monitor_name() -> Seq<u8> {
    seq![0x76u8, 0x36, 0x38, 0x5F, 0x6D, 0x6F, 0x6E, 0x69, 0x74, 0x6F, 0x72]
}

/// `v68_reset`
pub open spec fn reset_name() -> Seq<u8> {
    seq![0x76u8, 0x36, 0x38, 0x5F, 0x72, 0x65, 0x73, 0x65, 0x74]
}

/// The symbols the BIOS exports, in the order a missing one is reported.
pub open spec fn bios_exports() -> Seq<Seq<u8>> {
    seq![monitor_name(), reset_name()]
}

/// The byte strings a vector of byte vectors holds.
pub open spec fn views(v: Seq<Vec<u8>>) -> Seq<Seq<u8>> {
    v.map_values(|x: Vec<u8>| x@)
}

/// The lowercase hexadecimal digit for `d`.
pub open spec fn hex_char(d: nat) -> u8 {
    if d < 10 {
        (0x30 + d) as u8
    } else {
        (0x61 + d - 10) as u8
    }
}

/// The last `n` hexadecimal digits of `a`, most significant first.
pub open spec fn hex_digits(a: nat, n: nat) -> Seq<u8>
    decreases n,
{
    if n == 0 {
        Seq::empty()
    } else {
        hex_digits(a / 16, (n - 1) as nat).push(hex_char(a % 16))
    }
}

/// `PROVIDE(name = 0x........);` with the address in eight lowercase digits.
pub open spec fn provide_line(name: Seq<u8>, addr: u32) -> Seq<u8> {
    seq![0x50u8, 0x52, 0x4F, 0x56, 0x49, 0x44, 0x45, 0x28] + name + seq![0x20u8, 0x3D, 0x20, 0x30, 0x78]
        + hex_digits(addr as nat, 8) + seq![0x29u8, 0x3B]
}

/// The `PROVIDE` lines for the exported symbols among `syms`, in map order.
pub open spec fn export_lines(syms: Seq<(u32, Seq<u8>)>) -> Seq<Seq<u8>>
    decreases syms.len(),
{
    if syms.len() == 0 {
        Seq::empty()
    } else {
        let rest = export_lines(syms.drop_first());
        if bios_exports().contains(syms[0].1) {
            seq![provide_line(syms[0].1, syms[0].0)] + rest
        } else {
            rest
        }
    }
}

/// The names of `exports` that no symbol of `syms` carries, in order.
pub open spec fn missing_exports(exports: Seq<Seq<u8>>, syms: Seq<(u32, Seq<u8>)>) -> Seq<Seq<u8>>
    decreases exports.len(),
{
    if exports.len() == 0 {
        Seq::empty()
    } else {
        let rest = missing_exports(exports.drop_first(), syms);
        if first_named(syms, exports[0]) is None {
            seq![exports[0]] + rest
        } else {
            rest
        }
    }
}

/// Byte-wise lexicographic order, a proper prefix first.
pub open spec fn lex_lt(a: Seq<u8>, b: Seq<u8>) -> bool
    decreases a.len(),
{
    if b.len() == 0 {
        false
    } else if a.len() == 0 {
        true
    } else if a[0] != b[0] {
        a[0] < b[0]
    } else {
        lex_lt(a.drop_first(), b.drop_first())
    }
}

/// Each byte string comes strictly before the next.
pub open spec fn strictly_sorted(s: Seq<Seq<u8>>) -> bool {
    forall|i: int, j: int| 0 <= i < j < s.len() ==> lex_lt(#[trigger] s[i], #[trigger] s[j])
}

proof fn lemma_lex_transitive(a: Seq<u8>, b: Seq<u8>, c: Seq<u8>)
    requires
        lex_lt(a, b),
        lex_lt(b, c),
    ensures
        lex_lt(a, c),
    decreases a.len(),
{
    if a.len() > 0 && a[0] == b[0] && b[0] == c[0] {
        lemma_lex_transitive(a.drop_first(), b.drop_first(), c.drop_first());
    }
}

proof fn lemma_lex_total(a: Seq<u8>, b: Seq<u8>)
    requires
        a != b,
    ensures
        lex_lt(a, b) || lex_lt(b, a),
    decreases a.len(),
{
    if a.len() == 0 && b.len() == 0 {
        assert(a =~= b);
    } else if a.len() > 0 && b.len() > 0 && a[0] == b[0] {
        if a.drop_first() == b.drop_first() {
            assert(a.drop_first().len() == b.drop_first().len());
            assert forall|i: int| 0 <= i < a.len() implies a[i] == b[i] by {
                if i > 0 {
                    assert(a[i] == a.drop_first()[i - 1]);
                    assert(b[i] == b.drop_first()[i - 1]);
                }
            }
            assert(a =~= b);
        }
        lemma_lex_total(a.drop_first(), b.drop_first());
    }
}

fn lex_less(a: &[u8], b: &[u8]) -> (r: bool)
    ensures
        r == lex_lt(a@, b@),
{
    let mut i: usize = 0;
    assert(a@.skip(0) == a@);
    assert(b@.skip(0) == b@);
    loop
        invariant
            i <= a@.len(),
            i <= b@.len(),
            lex_lt(a@, b@) == lex_lt(a@.skip(i as int), b@.skip(i as int)),
        decreases a@.len() - i,
    {
        if i == b.len() {
            return false;
        }
        if i == a.len() {
            return true;
        }
        if a[i] != b[i] {
            return a[i] < b[i];
        }
        proof {
            assert(a@.skip(i as int).drop_first() == a@.skip(i + 1));
            assert(b@.skip(i as int).drop_first() == b@.skip(i + 1));
        }
        i = i + 1;
    }
}

/// Adds `x` to the strictly sorted `v` unless `v` holds it already.
fn insert_sorted(v: &mut Vec<Vec<u8>>, x: Vec<u8>)
    requires
        strictly_sorted(views(old(v)@)),
    ensures
        strictly_sorted(views(final(v)@)),
        forall|s: Seq<u8>| views(final(v)@).contains(s) <==> (views(old(v)@).contains(s) || s == x@),
{
    let ghost before = views(v@);
    let mut p: usize = 0;
    while p < v.len() && lex_less(v[p].as_slice(), x.as_slice())
        invariant
            p <= v@.len(),
            views(v@) == before,
            strictly_sorted(before),
            forall|i: int| 0 <= i < p ==> lex_lt(#[trigger] before[i], x@),
        decreases v@.len() - p,
    {
        p = p + 1;
    }
    if p < v.len() && same_bytes(v[p].as_slice(), x.as_slice()) {
        assert(before[p as int] == x@);
        return;
    }
    proof {
        if p < before.len() {
            lemma_lex_total(before[p as int], x@);
        }
    }
    let ghost xv = x@;
    v.insert(p, x);
    let ghost after = views(v@);
    assert(after =~= before.insert(p as int, xv));
    assert forall|i: int, j: int| 0 <= i < j < after.len() implies lex_lt(#[trigger] after[i], #[trigger] after[j]) by {
        if i < p && j < p {
            assert(lex_lt(before[i], before[j]));
        } else if i < p && j == p {
        } else if i < p && j > p {
            assert(lex_lt(before[i], before[j - 1]));
        } else if i == p {
            if j - 1 > p {
                assert(lex_lt(before[p as int], before[j - 1]));
                lemma_lex_transitive(xv, before[p as int], before[j - 1]);
            }
        } else {
            assert(lex_lt(before[i - 1], before[j - 1]));
        }
    }
    assert forall|s: Seq<u8>| after.contains(s) <==> (before.contains(s) || s == xv) by {
        if after.contains(s) {
            let k = choose|k: int| 0 <= k < after.len() && after[k] == s;
            if k < p {
                assert(before[k] == s);
            } else if k > p {
                assert(before[k - 1] == s);
            }
        }
        if before.contains(s) {
            let k = choose|k: int| 0 <= k < before.len() && before[k] == s;
            if k < p {
                assert(after[k] == s);
            } else {
                assert(after[k + 1] == s);
            }
        }
        if s == xv {
            assert(after[p as int] == s);
        }
    }
}

fn export_names() -> (r: Vec<Vec<u8>>)
    ensures
        views(r@) == bios_exports(),
{
    let r = vec![
        vec![0x76u8, 0x36, 0x38, 0x5F, 0x6D, 0x6F, 0x6E, 0x69, 0x74, 0x6F, 0x72],
        vec![0x76u8, 0x36, 0x38, 0x5F, 0x72, 0x65, 0x73, 0x65, 0x74],
    ];
    assert(views(r@) =~= bios_exports());
    r
}

fn is_export(names: &Vec<Vec<u8>>, name: &[u8]) -> (r: bool)
    requires
        views(names@) == bios_exports(),
    ensures
        r == bios_exports().contains(name@),
{
    let mut i: usize = 0;
    while i < names.len()
        invariant
            views(names@) == bios_exports(),
            i <= names@.len(),
            forall|k: int| 0 <= k < i ==> bios_exports()[k] != name@,
        decreases names@.len() - i,
    {
        if same_bytes(names[i].as_slice(), name) {
            assert(bios_exports()[i as int] == name@);
            return true;
        }
        i = i + 1;
    }
    false
}

fn push_all(out: &mut Vec<u8>, s: &[u8])
    ensures
        final(out)@ == old(out)@ + s@,
{
    let mut i: usize = 0;
    while i < s.len()
        invariant
            i <= s@.len(),
            out@ == old(out)@ + s@.subrange(0, i as int),
        decreases s@.len() - i,
    {
        out.push(s[i]);
        i = i + 1;
    }
    assert(s@.subrange(0, s@.len() as int) == s@);
}

fn hex_char_of(d: u32) -> (r: u8)
    requires
        d < 16,
    ensures
        r == hex_char(d as nat),
{
    if d < 10 {
        (0x30 + d) as u8
    } else {
        (0x61 + d - 10) as u8
    }
}

fn hex_digits_of(a: u32, n: usize) -> (r: Vec<u8>)
    ensures
        r@ == hex_digits(a as nat, n as nat),
    decreases n,
{
    if n == 0 {
        Vec::new()
    } else {
        let mut v = hex_digits_of(a / 16, n - 1);
        v.push(hex_char_of(a % 16));
        v
    }
}

fn provide_line_of(name: &[u8], addr: u32) -> (r: Vec<u8>)
    ensures
        r@ == provide_line(name@, addr),
{
    let mut out = vec![0x50u8, 0x52, 0x4F, 0x56, 0x49, 0x44, 0x45, 0x28];
    push_all(&mut out, name);
    let mid = vec![0x20u8, 0x3D, 0x20, 0x30, 0x78];
    push_all(&mut out, mid.as_slice());
    let digits = hex_digits_of(addr, 8);
    push_all(&mut out, digits.as_slice());
    let tail = vec![0x29u8, 0x3B];
    push_all(&mut out, tail.as_slice());
    out
}

/// The lines of the BIOS symbol file for the linker map `text`: `Ok` with
/// the `PROVIDE` line of each exported symbol the map defines, in
/// byte-wise order and each once, when the map defines every export;
/// otherwise `Err` with the exports it does not define, in export order.
pub fn bios_sym_lines(text: &[u8]) -> (r: Result<Vec<Vec<u8>>, Vec<Vec<u8>>>)
    ensures
        match r {
            Err(m) => missing_exports(bios_exports(), symbols(text@)).len() > 0 && views(m@)
                == missing_exports(bios_exports(), symbols(text@)),
            Ok(lines) => missing_exports(bios_exports(), symbols(text@)).len() == 0 && strictly_sorted(
                views(lines@),
            ) && forall|s: Seq<u8>| views(lines@).contains(s) <==> export_lines(symbols(text@)).contains(s),
        },
{
    let syms = map_symbols(text);
    let ghost all = symbols(text@);
    let names = export_names();
    let mut missing: Vec<Vec<u8>> = Vec::new();
    let mut i: usize = 0;
    assert(bios_exports().skip(0) == bios_exports());
    while i < names.len()
        invariant
            views(names@) == bios_exports(),
            all == symbols(text@),
            syms@.len() == all.len(),
            forall|k: int| 0 <= k < syms@.len() ==> (#[trigger] syms@[k]).0 == all[k].0 && syms@[k].1@ == all[k].1,
            i <= names@.len(),
            missing_exports(bios_exports(), all) == views(missing@) + missing_exports(
                bios_exports().skip(i as int),
                all,
            ),
        decreases names@.len() - i,
    {
        let ghost rest = bios_exports().skip(i as int);
        assert(rest[0] == names@[i as int]@);
        assert(rest.drop_first() == bios_exports().skip(i + 1));
        if first_named_in(&syms, names[i].as_slice(), Ghost(all)).is_none() {
            let name = copy_span(names[i].as_slice(), 0, names[i].len());
            assert(names[i as int]@.subrange(0, names[i as int]@.len() as int) == names[i as int]@);
            let ghost m0 = views(missing@);
            missing.push(name);
            assert(views(missing@) == m0.push(names@[i as int]@));
            assert(m0.push(names@[i as int]@) + missing_exports(rest.drop_first(), all) == m0 + (seq![
                names@[i as int]@,
            ] + missing_exports(rest.drop_first(), all)));
        }
        i = i + 1;
    }
    assert(bios_exports().skip(2) == Seq::<Seq<u8>>::empty());
    assert(views(missing@) + Seq::<Seq<u8>>::empty() == views(missing@));
    if missing.len() > 0 {
        return Err(missing);
    }
    let mut lines: Vec<Vec<u8>> = Vec::new();
    let ghost mut acc: Seq<Seq<u8>> = Seq::empty();
    let mut j: usize = 0;
    assert(all.skip(0) == all);
    assert(export_lines(all) == acc + export_lines(all.skip(0)));
    while j < syms.len()
        invariant
            views(names@) == bios_exports(),
            syms@.len() == all.len(),
            forall|k: int| 0 <= k < syms@.len() ==> (#[trigger] syms@[k]).0 == all[k].0 && syms@[k].1@ == all[k].1,
            j <= syms@.len(),
            export_lines(all) == acc + export_lines(all.skip(j as int)),
            strictly_sorted(views(lines@)),
            forall|s: Seq<u8>| views(lines@).contains(s) <==> acc.contains(s),
        decreases syms@.len() - j,
    {
        let ghost rest = all.skip(j as int);
        assert(rest[0] == all[j as int]);
        assert(rest.drop_first() == all.skip(j + 1));
        if is_export(&names, syms[j].1.as_slice()) {
            let line = provide_line_of(syms[j].1.as_slice(), syms[j].0);
            let ghost lv = line@;
            let ghost a0 = acc;
            insert_sorted(&mut lines, line);
            proof {
                acc = acc.push(lv);
                assert(seq![lv] + export_lines(rest.drop_first()) == export_lines(rest));
                assert(a0 + export_lines(rest) == acc + export_lines(all.skip(j + 1)));
                assert forall|s: Seq<u8>| acc.contains(s) <==> (a0.contains(s) || s == lv) by {
                    if acc.contains(s) {
                        let k = choose|k: int| 0 <= k < acc.len() && acc[k] == s;
                        if k < a0.len() {
                            assert(a0[k] == s);
                        }
                    }
                    if a0.contains(s) {
                        let k = choose|k: int| 0 <= k < a0.len() && a0[k] == s;
                        assert(acc[k] == s);
                    }
                    if s == lv {
                        assert(acc[a0.len() as int] == s);
                    }
                }
            }
        }
        j = j + 1;
    }
    assert(all.skip(syms@.len() as int) == Seq::<(u32, Seq<u8>)>::empty());
    assert(acc + Seq::<Seq<u8>>::empty() == acc);
    Ok(lines)
}

} // verus!
