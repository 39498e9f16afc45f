//! Small string utilities shared by the front end: character pushes and
//! decimal rendering of machine integers.
use vstd::prelude::*;

verus! {

/// Whether std's `char::is_alphabetic` holds of `c` (the Unicode
/// `Alphabetic` property).
pub uninterp spec fn char_is_alphabetic(c: char) -> bool;

/// Whether std's `char::is_alphanumeric` holds of `c`.
pub uninterp spec fn char_is_alphanumeric(c: char) -> bool;

/// An ASCII letter.
pub open spec fn is_ascii_letter(c: char) -> bool {
    ('a' <= c && c <= 'z') || ('A' <= c && c <= 'Z')
}

/// Calls std's `char::is_alphabetic`.
///
/// Trusted: the result is the name `char_is_alphabetic` applied to `c`, and
/// on ASCII characters it holds exactly of the letters `a`-`z` and `A`-`Z`
/// (the ASCII characters with the Unicode `Alphabetic` property); nothing
/// more is stated of the Unicode table behind it.
#[verifier::external_body]
pub(crate) fn is_alphabetic(c: char) -> (r: bool)
    ensures
        r == char_is_alphabetic(c),
        (c as int) < 128 ==> (r <==> is_ascii_letter(c)),
{
    c.is_alphabetic()
}

/// Calls std's `char::is_alphanumeric`.
///
/// Trusted: the result is the name `char_is_alphanumeric` applied to `c`,
/// and it holds of every alphabetic character, as the documentation says
/// ("satisfies either `is_alphabetic()` or `is_numeric()`"); on ASCII
/// characters it holds exactly of the letters and the digits `0`-`9`.
#[verifier::external_body]
pub(crate) fn is_alphanumeric(c: char) -> (r: bool)
    ensures
        r == char_is_alphanumeric(c),
        char_is_alphabetic(c) ==> r,
        (c as int) < 128 ==> (r <==> (is_ascii_letter(c) || ('0' <= c && c <= '9'))),
{
    c.is_alphanumeric()
}

/// Whether the characters of `s` are those of `lit`.
pub fn text_is(s: &str, lit: &str) -> (r: bool)
    ensures
        r == (s@ == lit@),
{
    let n = s.unicode_len();
    let m = lit.unicode_len();
    if n != m {
        return false;
    }
    let mut i: usize = 0;
    while i < n
        invariant
            n == s@.len(),
            m == lit@.len(),
            n == m,
            i <= n,
            forall|j: int| 0 <= j < i ==> s@[j] == lit@[j],
        decreases n - i,
    {
        if s.get_char(i) != lit.get_char(i) {
            return false;
        }
        i = i + 1;
    }
    assert(s@ =~= lit@);
    true
}

/// Appends one character to a `String` (std's `String::push`).
///
/// Trusted: the contract claims that the new contents are the old contents
/// followed by `c`, as the documentation of `String::push` says.
#[verifier::external_body]
pub(crate) fn push_char(s: &mut String, c: char)
    ensures
        final(s)@ == old(s)@.push(c),
{
    s.push(c);
}

/// The character of a decimal digit `d < 10`.
pub open spec fn digit_char(d: nat) -> char {
    if d == 0 { '0' }
    else if d == 1 { '1' }
    else if d == 2 { '2' }
    else if d == 3 { '3' }
    else if d == 4 { '4' }
    else if d == 5 { '5' }
    else if d == 6 { '6' }
    else if d == 7 { '7' }
    else if d == 8 { '8' }
    else { '9' }
}

/// The decimal rendering of `n`, without sign or leading zeros.
pub open spec fn decimal(n: nat) -> Seq<char>
    decreases n,
{
    if n < 10 {
        seq![digit_char(n)]
    } else {
        decimal(n / 10).push(digit_char(n % 10))
    }
}

fn exec_digit_char(d: usize) -> (c: char)
    requires
        d < 10,
    ensures
        c == digit_char(d as nat),
{
    if d == 0 { '0' }
    else if d == 1 { '1' }
    else if d == 2 { '2' }
    else if d == 3 { '3' }
    else if d == 4 { '4' }
    else if d == 5 { '5' }
    else if d == 6 { '6' }
    else if d == 7 { '7' }
    else if d == 8 { '8' }
    else { '9' }
}

/// Appends the decimal rendering of `n` to `s`.
pub fn push_decimal(s: &mut String, n: usize)
    ensures
        final(s)@ == old(s)@ + decimal(n as nat),
    decreases n,
{
    if n >= 10 {
        push_decimal(s, n / 10);
    }
    let c = exec_digit_char(n % 10);
    push_char(s, c);
    proof {
        if n >= 10 {
            assert(decimal(n as nat) == decimal((n / 10) as nat).push(digit_char((n % 10) as nat)));
        } else {
            assert(n % 10 == n);
        }
    }
    assert(final(s)@ =~= old(s)@ + decimal(n as nat));
}


} // verus!

verus! {

/// The index of the first `.` in `s`, or its length when there is none.
pub open spec fn dot_index(s: Seq<char>) -> nat
    decreases s.len(),
{
    if s.len() == 0 {
        0
    } else if s[0] == '.' {
        0
    } else {
        dot_index(s.drop_first()) + 1
    }
}

/// `s` without leading zeros, keeping its last character.
pub open spec fn strip_leading_zeros(s: Seq<char>) -> Seq<char>
    decreases s.len(),
{
    if s.len() > 1 && s[0] == '0' { strip_leading_zeros(s.drop_first()) } else { s }
}

/// `s` without trailing zeros.
pub open spec fn strip_trailing_zeros(s: Seq<char>) -> Seq<char>
    decreases s.len(),
{
    if s.len() > 0 && s.last() == '0' { strip_trailing_zeros(s.drop_last()) } else { s }
}

/// The shortest decimal writing of the value of a numeral (digits with at
/// most one `.`): no leading zeros before the point but one, no trailing
/// zeros after it, and no point when nothing follows it.  `007` is `7`,
/// `1.50` is `1.5`, `3.0` is `3`.
pub open spec fn numeral_display(s: Seq<char>) -> Seq<char> {
    let d = dot_index(s);
    let whole = strip_leading_zeros(s.take(d as int));
    if d < s.len() {
        let frac = strip_trailing_zeros(s.skip(d + 1 as int));
        if frac.len() > 0 { whole + "."@ + frac } else { whole }
    } else {
        whole
    }
}

proof fn lemma_dot_index_unique(s: Seq<char>, d: nat)
    requires
        d <= s.len(),
        forall|i: int| 0 <= i < d ==> s[i] != '.',
        d < s.len() ==> s[d as int] == '.',
    ensures
        dot_index(s) == d,
    decreases s.len(),
{
    if s.len() > 0 && d > 0 {
        assert forall|i: int| 0 <= i < d - 1 implies s.drop_first()[i] != '.' by {
            assert(s.drop_first()[i] == s[i + 1]);
        }
        if d - 1 < s.drop_first().len() {
            assert(s.drop_first()[d - 1] == s[d as int]);
        }
        lemma_dot_index_unique(s.drop_first(), (d - 1) as nat);
    }
}

/// Renders a numeral by its value, as `numeral_display` says.
pub fn numeral_to_display(s: &str) -> (res: String)
    ensures
        res@ == numeral_display(s@),
{
    let n = s.unicode_len();
    let ghost t = s@;
    let mut d: usize = 0;
    while d < n && s.get_char(d) != '.'
        invariant
            n == t.len(),
            t == s@,
            d <= n,
            forall|i: int| 0 <= i < d ==> t[i] != '.',
        decreases n - d,
    {
        d = d + 1;
    }
    proof { lemma_dot_index_unique(t, d as nat); }
    let mut a: usize = 0;
    while a + 1 < d && s.get_char(a) == '0'
        invariant
            n == t.len(),
            t == s@,
            d <= n,
            a < d || (a == 0 && d == 0),
            strip_leading_zeros(t.take(d as int)) == strip_leading_zeros(t.subrange(a as int, d as int)),
        decreases d - a,
    {
        assert(t.subrange(a as int, d as int).drop_first() =~= t.subrange(a + 1, d as int));
        a = a + 1;
    }
    assert(strip_leading_zeros(t.subrange(a as int, d as int)) == t.subrange(a as int, d as int));
    let mut res = String::new();
    let mut i = a;
    while i < d
        invariant
            n == t.len(),
            t == s@,
            a <= i <= d,
            d <= n,
            res@ == t.subrange(a as int, i as int),
        decreases d - i,
    {
        let c = s.get_char(i);
        push_char(&mut res, c);
        i = i + 1;
        assert(res@ =~= t.subrange(a as int, i as int));
    }
    if d < n {
        let mut b: usize = n;
        while b > d + 1 && s.get_char(b - 1) == '0'
            invariant
                n == t.len(),
                t == s@,
                d < n,
                d + 1 <= b <= n,
                strip_trailing_zeros(t.skip(d + 1)) == strip_trailing_zeros(t.subrange(d + 1, b as int)),
            decreases b,
        {
            assert(t.subrange(d + 1, b as int).drop_last() =~= t.subrange(d + 1, b - 1));
            b = b - 1;
        }
        assert(t.skip(d + 1) =~= t.subrange(d + 1, n as int)) by {
        }
        assert(strip_trailing_zeros(t.subrange(d + 1, b as int)) == t.subrange(d + 1, b as int));
        if b > d + 1 {
            let ghost whole = res@;
            push_char(&mut res, '.');
            proof {
                reveal_strlit(".");
                assert(res@ =~= whole + "."@ + t.subrange(d + 1, d + 1));
            }
            let mut j = d + 1;
            while j < b
                invariant
                    n == t.len(),
                    t == s@,
                    d + 1 <= j <= b,
                    b <= n,
                    res@ == whole + "."@ + t.subrange(d + 1, j as int),
                decreases b - j,
            {
                let c = s.get_char(j);
                push_char(&mut res, c);
                j = j + 1;
                assert(res@ =~= whole + "."@ + t.subrange(d + 1, j as int));
            }
        }
    }
    res
}

} // verus!
