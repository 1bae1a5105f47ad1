//! Character classes and string building blocks shared by the lexer,
//! the parser and the runtime.
use vstd::prelude::*;
use vstd::std_specs::iter::IteratorSpec;

verus! {

/// White space as `char::is_whitespace` decides it: the characters with the
/// Unicode `White_Space` property (tab to carriage return, space, next line,
/// no-break space, Ogham space mark, the spaces from en quad to hair space,
/// line and paragraph separators, narrow no-break space, medium
/// mathematical space, ideographic space).
pub open spec fn spec_is_whitespace(c: char) -> bool {
    let n = c as u32;
    (0x9 <= n <= 0xd) || n == 0x20 || n == 0x85 || n == 0xa0 || n == 0x1680 || (0x2000 <= n
        <= 0x200a) || n == 0x2028 || n == 0x2029 || n == 0x202f || n == 0x205f || n == 0x3000
}

/// What `char::is_numeric` answers: Unicode general categories `Nd`, `Nl`, `No`.
pub uninterp spec fn spec_is_numeric(c: char) -> bool;

/// Whether `c` is white space (see `spec_is_whitespace`).
pub fn char_is_whitespace(c: char) -> (r: bool)
    ensures
        r == spec_is_whitespace(c),
{
    let n = c as u32;
    (0x9 <= n && n <= 0xd) || n == 0x20 || n == 0x85 || n == 0xa0 || n == 0x1680 || (0x2000 <= n
        && n <= 0x200a) || n == 0x2028 || n == 0x2029 || n == 0x202f || n == 0x205f || n == 0x3000
}

/// Calls `char::is_numeric`; its answer is named `spec_is_numeric`. Among
/// ASCII characters, the ones in the numeric general categories are the
/// digits `0` to `9`.
#[verifier::external_body]
pub(crate) fn char_is_numeric(c: char) -> (r: bool)
    ensures
        r == spec_is_numeric(c),
        (c as u32) < 128 ==> (r <==> 48 <= (c as u32) <= 57),
{
    c.is_numeric()
}

/// Calls `String::push`: the character is appended at the end.
#[verifier::external_body]
pub(crate) fn string_push(s: &mut String, c: char)
    ensures
        final(s)@ == old(s)@.push(c),
{
    s.push(c)
}

/// The decimal digit for `d < 10`.
pub open spec fn digit_char(d: nat) -> char {
    if d == 0 { '0' }
    else if d == 1 { '1' }
    else if d == 2 { '2' }
    else if d == 3 { '3' }
    else if d == 4 { '4' }
    else if d == 5 { '5' }
    else if d == 6 { '6' }
    else if d == 7 { '7' }
    else if d == 8 { '8' }
    else { '9' }
}

/// The decimal notation of `n`, without sign or leading zeros.
pub open spec fn decimal(n: nat) -> Seq<char>
    decreases n,
{
    if n < 10 {
        seq![digit_char(n)]
    } else {
        decimal(n / 10).push(digit_char(n % 10))
    }
}

fn digit(d: usize) -> (c: char)
    requires
        d < 10,
    ensures
        c == digit_char(d as nat),
{
    if d == 0 { '0' }
    else if d == 1 { '1' }
    else if d == 2 { '2' }
    else if d == 3 { '3' }
    else if d == 4 { '4' }
    else if d == 5 { '5' }
    else if d == 6 { '6' }
    else if d == 7 { '7' }
    else if d == 8 { '8' }
    else { '9' }
}

/// Appends the decimal notation of `n`, as `Display` for `usize` writes it.
pub fn push_decimal(s: &mut String, n: usize)
    ensures
        final(s)@ == old(s)@ + decimal(n as nat),
    decreases n,
{
    if n >= 10 {
        push_decimal(s, n / 10);
    }
    string_push(s, digit(n % 10));
    proof {
        if n >= 10 {
            assert(decimal(n as nat) == decimal((n / 10) as nat).push(digit_char((n % 10) as nat)));
        }
    }
    assert(final(s)@ =~= old(s)@ + decimal(n as nat)) by {
        if n < 10 {
            assert(decimal(n as nat) =~= seq![digit_char(n as nat)]);
        }
    };
}

/// Appends `other` to `s`.
pub fn push_str(s: &mut String, other: &str)
    ensures
        final(s)@ == old(s)@ + other@,
{
    s.append(other);
}

/// Whether the two strings hold the same characters.
pub fn str_eq(a: &str, b: &str) -> (r: bool)
    ensures
        r == (a@ == b@),
{
    let x = to_chars(a);
    let y = to_chars(b);
    if x.len() != y.len() {
        return false;
    }
    let mut i: usize = 0;
    while i < x.len()
        invariant
            x@ == a@,
            y@ == b@,
            x.len() == y.len(),
            i <= x.len(),
            forall|j: int| 0 <= j < i ==> x@[j] == y@[j],
        decreases x.len() - i,
    {
        if x[i] != y[i] {
            return false;
        }
        i = i + 1;
    }
    proof {
        assert(x@ =~= y@);
    }
    true
}

/// What `Debug` for `str` writes: the text in double quotes, with quotes,
/// backslashes and unprintable characters escaped.
pub uninterp spec fn spec_str_debug(s: Seq<char>) -> Seq<char>;

/// Calls `Debug` for `str` (through `format!("{:?}", ..)`); its output is
/// named `spec_str_debug`.
#[verifier::external_body]
pub(crate) fn str_debug(s: &str) -> (r: String)
    ensures
        r@ == spec_str_debug(s@),
{
    format!("{:?}", s)
}

/// The first position at or after `i` whose character is not white space,
/// or the length of `s`.
pub open spec fn first_non_space(s: Seq<char>, i: nat) -> nat
    decreases s.len() - i,
{
    if i < s.len() && spec_is_whitespace(s[i as int]) {
        first_non_space(s, i + 1)
    } else {
        i
    }
}

/// The end of `s.take(j)` once its trailing white space is removed.
pub open spec fn end_non_space(s: Seq<char>, j: nat) -> nat
    decreases j,
{
    if 0 < j <= s.len() && spec_is_whitespace(s[j - 1]) {
        end_non_space(s, (j - 1) as nat)
    } else {
        j
    }
}

/// `s` without leading and trailing white space, as `str::trim` gives it.
pub open spec fn spec_trim(s: Seq<char>) -> Seq<char> {
    let a = first_non_space(s, 0);
    let b = end_non_space(s, s.len());
    if a < b {
        s.subrange(a as int, b as int)
    } else {
        Seq::empty()
    }
}

/// Calls `str::trim`, which removes leading and trailing characters that
/// have the Unicode `White_Space` property.
#[verifier::external_body]
pub(crate) fn str_trim(s: &str) -> (r: String)
    ensures
        r@ == spec_trim(s@),
{
    s.trim().to_string()
}

/// The characters of `s`, in order.
pub fn to_chars(s: &str) -> (r: Vec<char>)
    ensures
        r@ == s@,
{
    broadcast use vstd::string::group_string_axioms;

    let mut chars: Vec<char> = Vec::new();
    let mut it = s.chars();
    loop
        invariant
            chars@ + IteratorSpec::remaining(&it) == s@,
            it.obeys_prophetic_iter_laws(),
            it.decrease() is Some,
        ensures
            chars@ == s@,
        decreases it.decrease()->0,
    {
        match it.next() {
            Some(c) => {
                chars.push(c);
                assert(chars@ + IteratorSpec::remaining(&it) =~= s@);
            },
            None => {
                assert(chars@ =~= s@);
                break;
            },
        }
    }
    chars
}

/// Whether the characters `cs` begin with `p`.
pub fn chars_start_with(cs: &Vec<char>, p: &str) -> (r: bool)
    ensures
        r == p@.is_prefix_of(cs@),
{
    let pc = to_chars(p);
    if pc.len() > cs.len() {
        return false;
    }
    let mut i: usize = 0;
    while i < pc.len()
        invariant
            pc@ == p@,
            pc.len() <= cs.len(),
            i <= pc.len(),
            forall|j: int| 0 <= j < i ==> pc@[j] == cs@[j],
        decreases pc.len() - i,
    {
        if pc[i] != cs[i] {
            return false;
        }
        i = i + 1;
    }
    proof {
        assert(p@ =~= cs@.subrange(0, p@.len() as int));
    }
    true
}

/// The characters `cs[a..b]` as a string.
pub fn string_of(cs: &Vec<char>, a: usize, b: usize) -> (r: String)
    requires
        a <= b <= cs.len(),
    ensures
        r@ == cs@.subrange(a as int, b as int),
{
    let mut s = String::new();
    let mut i: usize = a;
    while i < b
        invariant
            a <= i <= b,
            b <= cs.len(),
            s@ == cs@.subrange(a as int, i as int),
        decreases b - i,
    {
        string_push(&mut s, cs[i]);
        proof {
            assert(cs@.subrange(a as int, i + 1) =~= cs@.subrange(a as int, i as int).push(cs@[i as int]));
        }
        i = i + 1;
    }
    s
}

} // verus!
