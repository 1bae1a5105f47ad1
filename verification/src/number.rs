//! Number literals. A PSL number is an IEEE-754 double; the library keeps a
//! number as the text of its literal (in expressions) or as its 64-bit
//! pattern (in values), and leaves the arithmetic on doubles to the caller
//! (see `runtime::NumQuery`).
use vstd::prelude::*;
use crate::text::to_chars;

verus! {

pub open spec fn is_ascii_digit(c: char) -> bool {
    '0' <= c && c <= '9'
}

pub open spec fn is_sign(c: char) -> bool {
    c == '+' || c == '-'
}

/// `c` is the lower-case ASCII letter `l`, or its upper-case form.
pub open spec fn same_letter(c: char, l: char) -> bool {
    c == l || c as int + 32 == l as int
}

pub open spec fn all_digits(s: Seq<char>) -> bool {
    forall|i: int| 0 <= i < s.len() ==> is_ascii_digit(#[trigger] s[i])
}

/// `s` spells the lower-case word `w`, ignoring ASCII case.
pub open spec fn spells(s: Seq<char>, w: Seq<char>) -> bool {
    s.len() == w.len() && forall|i: int| 0 <= i < s.len() ==> same_letter(#[trigger] s[i], w[i])
}

/// The first position at or after `i` that holds `c`, or the length of `s`.
pub open spec fn find_char(s: Seq<char>, c: char, i: nat) -> nat
    decreases s.len() - i,
{
    if i < s.len() && s[i as int] != c {
        find_char(s, c, i + 1)
    } else if i < s.len() {
        i
    } else {
        s.len()
    }
}

/// The first position at or after `i` that holds `e` or `E`, or the length.
pub open spec fn find_exp(s: Seq<char>, i: nat) -> nat
    decreases s.len() - i,
{
    if i < s.len() && !same_letter(s[i as int], 'e') {
        find_exp(s, i + 1)
    } else if i < s.len() {
        i
    } else {
        s.len()
    }
}

/// `Digit+ | Digit+ '.' Digit* | Digit* '.' Digit+`
pub open spec fn is_mantissa(m: Seq<char>) -> bool {
    let d = find_char(m, '.', 0);
    if d == m.len() {
        m.len() > 0 && all_digits(m)
    } else {
        m.len() > 1 && all_digits(m.take(d as int)) && all_digits(m.skip((d + 1) as int))
    }
}

/// `'e' Sign? Digit+`, ignoring case.
pub open spec fn is_exponent(x: Seq<char>) -> bool {
    x.len() > 1 && same_letter(x[0], 'e') && {
        let rest = x.skip(1);
        if is_sign(rest[0]) {
            rest.len() > 1 && all_digits(rest.skip(1))
        } else {
            all_digits(rest)
        }
    }
}

/// A mantissa, then an optional exponent.
pub open spec fn is_decimal(s: Seq<char>) -> bool {
    let e = find_exp(s, 0);
    is_mantissa(s.take(e as int)) && (e == s.len() || is_exponent(s.skip(e as int)))
}

/// The texts that `str::parse` for doubles accepts, as its documentation
/// gives them: `Sign? ( 'inf' | 'infinity' | 'nan' | Number )`, ignoring
/// ASCII case.
pub open spec fn is_float_literal(s: Seq<char>) -> bool {
    let b = if s.len() > 0 && is_sign(s[0]) { s.skip(1) } else { s };
    spells(b, "inf"@) || spells(b, "infinity"@) || spells(b, "nan"@) || is_decimal(b)
}

fn same_letter_exec(c: char, l: char) -> (r: bool)
    ensures
        r == same_letter(c, l),
{
    c == l || (c as u32) + 32 == (l as u32)
}

fn digits_between(v: &Vec<char>, from: usize, to: usize) -> (r: bool)
    requires
        from <= to <= v.len(),
    ensures
        r == all_digits(v@.subrange(from as int, to as int)),
{
    let mut i: usize = from;
    while i < to
        invariant
            from <= i <= to <= v.len(),
            all_digits(v@.subrange(from as int, i as int)),
        decreases to - i,
    {
        if !('0' <= v[i] && v[i] <= '9') {
            assert(v@.subrange(from as int, to as int)[i - from] == v@[i as int]);
            return false;
        }
        i = i + 1;
        assert forall|k: int| 0 <= k < v@.subrange(from as int, i as int).len() implies is_ascii_digit(
            #[trigger] v@.subrange(from as int, i as int)[k],
        ) by {
            if k < i - 1 - from {
                assert(v@.subrange(from as int, i as int)[k] == v@.subrange(from as int, i - 1)[k]);
            }
        }
    }
    true
}

fn spells_at(v: &Vec<char>, from: usize, w: &str) -> (r: bool)
    requires
        from <= v.len(),
    ensures
        r == spells(v@.skip(from as int), w@),
{
    let wv = to_chars(w);
    if v.len() - from != wv.len() {
        return false;
    }
    let mut i: usize = 0;
    while i < wv.len()
        invariant
            from <= v.len(),
            v.len() - from == wv.len(),
            wv@ == w@,
            0 <= i <= wv.len(),
            forall|k: int| 0 <= k < i ==> same_letter(#[trigger] v@.skip(from as int)[k], w@[k]),
        decreases wv.len() - i,
    {
        if !same_letter_exec(v[from + i], wv[i]) {
            assert(v@.skip(from as int)[i as int] == v@[from + i]);
            return false;
        }
        i = i + 1;
    }
    true
}

proof fn lemma_find_char(s: Seq<char>, c: char, i: nat)
    requires
        i <= s.len(),
    ensures
        i <= find_char(s, c, i) <= s.len(),
        find_char(s, c, i) < s.len() ==> s[find_char(s, c, i) as int] == c,
        forall|k: int| i <= k < find_char(s, c, i) ==> s[k] != c,
    decreases s.len() - i,
{
    if i < s.len() && s[i as int] != c {
        lemma_find_char(s, c, i + 1);
    }
}

proof fn lemma_find_exp(s: Seq<char>, i: nat)
    requires
        i <= s.len(),
    ensures
        i <= find_exp(s, i) <= s.len(),
    decreases s.len() - i,
{
    if i < s.len() && !same_letter(s[i as int], 'e') {
        lemma_find_exp(s, i + 1);
    }
}

/// Whether `s` is a number literal that `str::parse` for doubles accepts.
pub fn is_number_literal(s: &str) -> (r: bool)
    ensures
        r == is_float_literal(s@),
{
    let v = to_chars(s);
    let ghost sv = v@;
    let start: usize = if v.len() > 0 && (v[0] == '+' || v[0] == '-') { 1 } else { 0 };
    let ghost b = v@.skip(start as int);
    assert(b == (if sv.len() > 0 && is_sign(sv[0]) { sv.skip(1) } else { sv })) by {
        if start == 0 {
            assert(sv.skip(0) =~= sv);
        }
    }
    if spells_at(&v, start, "inf") || spells_at(&v, start, "infinity") || spells_at(
        &v,
        start,
        "nan",
    ) {
        return true;
    }
    // the exponent marker
    let mut e: usize = start;
    while e < v.len() && !same_letter_exec(v[e], 'e')
        invariant
            start <= e <= v.len(),
            b == v@.skip(start as int),
            find_exp(b, (e - start) as nat) == find_exp(b, 0),
        decreases v.len() - e,
    {
        assert(b[(e - start) as int] == v@[e as int]);
        e = e + 1;
    }
    proof {
        if e < v.len() {
            assert(b[(e - start) as int] == v@[e as int]);
        }
        assert(find_exp(b, (e - start) as nat) == (e - start) as nat);
    }
    // the decimal point, before the exponent
    let mut d: usize = start;
    while d < e && v[d] != '.'
        invariant
            start <= d <= e <= v.len(),
            b == v@.skip(start as int),
            find_char(b.take((e - start) as int), '.', (d - start) as nat) == find_char(
                b.take((e - start) as int),
                '.',
                0,
            ),
        decreases e - d,
    {
        assert(b.take((e - start) as int)[(d - start) as int] == v@[d as int]);
        d = d + 1;
    }
    let ghost m = b.take((e - start) as int);
    proof {
        if d < e {
            assert(m[(d - start) as int] == v@[d as int]);
        }
        assert(find_char(m, '.', (d - start) as nat) == (d - start) as nat);
        assert(m =~= v@.subrange(start as int, e as int));
    }
    let mantissa_ok = if d == e {
        e > start && digits_between(&v, start, e)
    } else {
        proof {
            assert(m.take((d - start) as int) =~= v@.subrange(start as int, d as int));
            assert(m.skip((d - start) + 1 as int) =~= v@.subrange(d + 1, e as int));
        }
        e - start > 1 && digits_between(&v, start, d) && digits_between(&v, d + 1, e)
    };
    assert(mantissa_ok == is_mantissa(m));
    if !mantissa_ok {
        return false;
    }
    if e == v.len() {
        return true;
    }
    // the exponent
    let ghost x = b.skip((e - start) as int);
    assert(x =~= v@.subrange(e as int, v.len() as int));
    if v.len() - e < 2 {
        return false;
    }
    assert(x[0] == v@[e as int]);
    assert(x.skip(1) =~= v@.subrange(e + 1, v.len() as int));
    let r = if v[e + 1] == '+' || v[e + 1] == '-' {
        assert(x.skip(1).skip(1) =~= v@.subrange(e + 2, v.len() as int));
        v.len() - e > 2 && digits_between(&v, e + 2, v.len())
    } else {
        digits_between(&v, e + 1, v.len())
    };
    r
}

} // verus!
