//! File names of the exported tile assets: `tile_{x}_{y}` followed by a suffix per
//! asset (`.glb`, `_traffic.json`, `_meta.json`, `_minimap.png`).
use vstd::prelude::*;
use vstd::string::StringExecFns;
use crate::tile::TileCoord;
use crate::span::{digit_value, digits_value, is_digit, all_digits, parse_unsigned, parse_i8_text};

verus! {

/// The decimal digit character for `d` (0 to 9).
pub open spec fn digit_char(d: int) -> char {
    if d == 0 { '0' } else if d == 1 { '1' } else if d == 2 { '2' } else if d == 3 { '3' }
    else if d == 4 { '4' } else if d == 5 { '5' } else if d == 6 { '6' } else if d == 7 { '7' }
    else if d == 8 { '8' } else { '9' }
}

/// The decimal text of `n`, without leading zeros.
pub open spec fn nat_text(n: nat) -> Seq<char>
    decreases n,
{
    if n < 10 {
        seq![digit_char(n as int)]
    } else {
        nat_text(n / 10).push(digit_char((n % 10) as int))
    }
}

/// The decimal text of `v`, with a leading `-` when negative (as `format!("{}", v)` writes it).
pub open spec fn int_text(v: int) -> Seq<char> {
    if v < 0 {
        seq!['-'] + nat_text((-v) as nat)
    } else {
        nat_text(v as nat)
    }
}

/// The common front of a tile's file names.
pub open spec fn tile_prefix_text(c: TileCoord) -> Seq<char> {
    "tile_"@ + int_text(c.x as int) + "_"@ + int_text(c.y as int)
}

fn digit_str(d: u64) -> (res: &'static str)
    requires
        d < 10,
    ensures
        res@ == seq![digit_char(d as int)],
{
    proof {
        reveal_strlit("0");
        reveal_strlit("1");
        reveal_strlit("2");
        reveal_strlit("3");
        reveal_strlit("4");
        reveal_strlit("5");
        reveal_strlit("6");
        reveal_strlit("7");
        reveal_strlit("8");
        reveal_strlit("9");
    }
    if d == 0 { "0" } else if d == 1 { "1" } else if d == 2 { "2" } else if d == 3 { "3" }
    else if d == 4 { "4" } else if d == 5 { "5" } else if d == 6 { "6" } else if d == 7 { "7" }
    else if d == 8 { "8" } else { "9" }
}

fn push_nat(out: &mut String, n: u64)
    ensures
        final(out)@ == old(out)@ + nat_text(n as nat),
    decreases n,
{
    if n >= 10 {
        push_nat(out, n / 10);
    }
    out.append(digit_str(n % 10));
    assert(final(out)@ =~= old(out)@ + nat_text(n as nat));
}

fn push_int(out: &mut String, v: i32)
    ensures
        final(out)@ == old(out)@ + int_text(v as int),
{
    if v < 0 {
        proof {
            reveal_strlit("-");
        }
        out.append("-");
        let m = (0 - (v as i64)) as u64;
        push_nat(out, m);
        assert(final(out)@ =~= old(out)@ + int_text(v as int));
    } else {
        push_nat(out, v as u64);
    }
}

/// `tile_{x}_{y}`: the front of the file names of the tile at `coord`.
pub fn tile_file_prefix(coord: &TileCoord) -> (res: String)
    ensures
        res@ == tile_prefix_text(*coord),
{
    let mut name = <String as StringExecFns>::from_str("tile_");
    push_int(&mut name, coord.x);
    name.append("_");
    push_int(&mut name, coord.y);
    name
}

/// The number a decimal text (as written by `int_text`) stands for.
pub open spec fn text_value(t: Seq<char>) -> int {
    if t.len() > 0 && t[0] == '-' {
        -digits_value(t.drop_first())
    } else {
        digits_value(t)
    }
}

proof fn lemma_digit_char(d: int)
    requires
        0 <= d < 10,
    ensures
        digit_value(digit_char(d)) == d,
        digit_char(d) != '-',
        digit_char(d) != '_',
        digit_char(d) != '+',
        is_digit(digit_char(d)),
{
}

/// The decimal text of `n` is made of digits, is not empty, and reads back as `n`.
pub proof fn lemma_nat_text(n: nat)
    ensures
        nat_text(n).len() >= 1,
        digits_value(nat_text(n)) == n,
        forall|i: int| 0 <= i < nat_text(n).len() ==> (#[trigger] nat_text(n)[i]) != '-' && nat_text(n)[i] != '_',
    decreases n,
{
    if n < 10 {
        lemma_digit_char(n as int);
        assert(nat_text(n).drop_last() =~= Seq::<char>::empty());
        assert(digits_value(nat_text(n)) == digits_value(Seq::<char>::empty()) * 10 + digit_value(digit_char(n as int)));
    } else {
        lemma_nat_text(n / 10);
        lemma_digit_char((n % 10) as int);
        let t = nat_text(n);
        assert(t.drop_last() =~= nat_text(n / 10));
        assert(digits_value(t) == digits_value(nat_text(n / 10)) * 10 + digit_value(digit_char((n % 10) as int)));
        assert((n / 10) * 10 + n % 10 == n) by (nonlinear_arith);
        assert forall|i: int| 0 <= i < t.len() implies (#[trigger] t[i]) != '-' && t[i] != '_' by {
            if i < t.len() - 1 {
                assert(t[i] == nat_text(n / 10)[i]);
            }
        }
    }
}

/// The decimal text of `v` reads back as `v` and has no `_`.
pub proof fn lemma_int_text(v: int)
    ensures
        text_value(int_text(v)) == v,
        forall|i: int| 0 <= i < int_text(v).len() ==> (#[trigger] int_text(v)[i]) != '_',
{
    if v < 0 {
        lemma_nat_text((-v) as nat);
        let t = int_text(v);
        assert(t.drop_first() =~= nat_text((-v) as nat));
        assert forall|i: int| 0 <= i < t.len() implies (#[trigger] t[i]) != '_' by {
            if i > 0 {
                assert(t[i] == nat_text((-v) as nat)[i - 1]);
            }
        }
    } else {
        lemma_nat_text(v as nat);
        assert(int_text(v)[0] != '-');
    }
}

/// Two texts without `_`, each followed by `_` and more text, split the same way.
proof fn lemma_split_at_underscore(u: Seq<char>, x: Seq<char>, w: Seq<char>, y: Seq<char>)
    requires
        forall|i: int| 0 <= i < u.len() ==> (#[trigger] u[i]) != '_',
        forall|i: int| 0 <= i < w.len() ==> (#[trigger] w[i]) != '_',
        u + seq!['_'] + x == w + seq!['_'] + y,
    ensures
        u == w,
        x == y,
{
    let a = u + seq!['_'] + x;
    let b = w + seq!['_'] + y;
    if u.len() < w.len() {
        assert(a[u.len() as int] == '_');
        assert(b[u.len() as int] == w[u.len() as int]);
    } else if w.len() < u.len() {
        assert(b[w.len() as int] == '_');
        assert(a[w.len() as int] == u[w.len() as int]);
    }
    assert(u =~= a.take(u.len() as int));
    assert(w =~= b.take(w.len() as int));
    assert(x =~= a.skip(u.len() as int + 1));
    assert(y =~= b.skip(w.len() as int + 1));
}

/// Different tiles get different file names: the name's front `tile_{x}_{y}` gives
/// back the tile's coordinates.
pub proof fn lemma_tile_prefix_injective(a: TileCoord, b: TileCoord)
    requires
        tile_prefix_text(a) == tile_prefix_text(b),
    ensures
        a == b,
{
    reveal_strlit("tile_");
    reveal_strlit("_");
    lemma_int_text(a.x as int);
    lemma_int_text(a.y as int);
    lemma_int_text(b.x as int);
    lemma_int_text(b.y as int);
    let ta = tile_prefix_text(a);
    let tb = tile_prefix_text(b);
    let ra = int_text(a.x as int) + seq!['_'] + int_text(a.y as int);
    let rb = int_text(b.x as int) + seq!['_'] + int_text(b.y as int);
    assert(ta =~= "tile_"@ + ra);
    assert(tb =~= "tile_"@ + rb);
    assert(ra =~= ta.skip(5));
    assert(rb =~= tb.skip(5));
    lemma_split_at_underscore(int_text(a.x as int), int_text(a.y as int), int_text(b.x as int), int_text(b.y as int));
}


proof fn lemma_nat_text_digits(n: nat)
    ensures
        all_digits(nat_text(n)),
    decreases n,
{
    if n < 10 {
        lemma_digit_char(n as int);
    } else {
        lemma_nat_text_digits(n / 10);
        lemma_digit_char((n % 10) as int);
        let t = nat_text(n);
        assert forall|i: int| 0 <= i < t.len() implies is_digit(#[trigger] t[i]) by {
            if i < t.len() - 1 {
                assert(t[i] == nat_text(n / 10)[i]);
            }
        }
    }
}

/// Writing a number in decimal and parsing it back gives the number: for unsigned
/// numbers up to the type's largest value, and for every `i8`.
pub proof fn lemma_parse_reads_written(n: nat, max: int, v: int)
    requires
        n <= max,
        -128 <= v <= 127,
    ensures
        parse_unsigned(nat_text(n), max) == Some(n as int),
        parse_i8_text(int_text(v)) == Some(v),
{
    lemma_nat_text(n);
    lemma_nat_text_digits(n);
    if n < 10 {
        lemma_digit_char(n as int);
    } else {
        lemma_nat_text(n / 10);
        assert(nat_text(n)[0] == nat_text(n / 10)[0]);
        lemma_nat_text_first((n / 10) as nat);
    }
    if v < 0 {
        let m = (-v) as nat;
        lemma_nat_text(m);
        lemma_nat_text_digits(m);
        let t = int_text(v);
        assert(t.drop_first() =~= nat_text(m));
    } else {
        let m = v as nat;
        lemma_nat_text(m);
        lemma_nat_text_digits(m);
        lemma_nat_text_first(m);
    }
}

proof fn lemma_nat_text_first(n: nat)
    ensures
        nat_text(n)[0] != '+' && nat_text(n)[0] != '-',
    decreases n,
{
    if n < 10 {
        lemma_digit_char(n as int);
    } else {
        lemma_nat_text_first(n / 10);
        lemma_nat_text(n / 10);
        assert(nat_text(n)[0] == nat_text(n / 10)[0]);
    }
}


/// A tile's file names start with `tile_`, then its `x` in decimal, `_`, and its
/// `y` in decimal; the two numbers read back as the tile's coordinates.
pub proof fn lemma_tile_prefix_reads(c: TileCoord)
    ensures
        tile_prefix_text(c) == seq!['t', 'i', 'l', 'e', '_'] + int_text(c.x as int) + seq!['_'] + int_text(c.y as int),
        text_value(int_text(c.x as int)) == c.x,
        text_value(int_text(c.y as int)) == c.y,
{
    reveal_strlit("tile_");
    reveal_strlit("_");
    lemma_int_text(c.x as int);
    lemma_int_text(c.y as int);
    assert(tile_prefix_text(c) =~= seq!['t', 'i', 'l', 'e', '_'] + int_text(c.x as int) + seq!['_'] + int_text(c.y as int));
}

} // verus!
