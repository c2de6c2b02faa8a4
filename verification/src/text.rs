//! Character-level text utilities shared by the analysis and transformation
//! passes: conversions between `String` and `Vec<char>`, decimal rendering of
//! integers, and identifier sanitization.

use vstd::prelude::*;

verus! {

/// Whether `char::is_alphanumeric` holds of the character; a function of the
/// character alone.
pub uninterp spec fn alphanumeric_char(c: char) -> bool;

/// Relies on std's char::is_alphanumeric: true exactly for characters in the
/// Unicode Alphabetic or Numeric general categories, a property of the
/// character alone.
#[verifier::external_body]
pub(crate) fn char_is_alphanumeric(c: char) -> (r: bool)
    ensures
        r == alphanumeric_char(c),
{
    c.is_alphanumeric()
}

/// Relies on std's str::chars and Iterator::collect: yields every character
/// of the string, in order.
#[verifier::external_body]
pub(crate) fn str_to_chars(s: &str) -> (v: Vec<char>)
    ensures
        v@ == s@,
{
    s.chars().collect()
}

/// Relies on std's Iterator::collect for String: concatenates the characters,
/// in order.
#[verifier::external_body]
pub(crate) fn chars_to_string(v: &Vec<char>) -> (s: String)
    ensures
        s@ == v@,
{
    v.iter().collect()
}

/// Compares two character vectors element by element.
pub(crate) fn chars_eq(a: &Vec<char>, b: &Vec<char>) -> (r: bool)
    ensures
        r == (a@ == b@),
{
    if a.len() != b.len() {
        assert(a@ != b@);
        return false;
    }
    let n = a.len();
    let mut i: usize = 0;
    while i < n
        invariant
            n == a@.len() == b@.len(),
            0 <= i <= n,
            forall|j: int| 0 <= j < i ==> a@[j] == b@[j],
        decreases n - i,
    {
        if a[i] != b[i] {
            return false;
        }
        i = i + 1;
    }
    proof {
        assert(a@ =~= b@);
    }
    true
}

/// The character for a single decimal digit.
pub open spec fn dec_digit_char(d: nat) -> char {
    if d == 0 {
        '0'
    } else if d == 1 {
        '1'
    } else if d == 2 {
        '2'
    } else if d == 3 {
        '3'
    } else if d == 4 {
        '4'
    } else if d == 5 {
        '5'
    } else if d == 6 {
        '6'
    } else if d == 7 {
        '7'
    } else if d == 8 {
        '8'
    } else {
        '9'
    }
}

/// The decimal numeral of a natural number, most significant digit first.
pub open spec fn dec_digits(n: nat) -> Seq<char>
    decreases n,
{
    if n < 10 {
        seq![dec_digit_char(n)]
    } else {
        dec_digits(n / 10).push(dec_digit_char(n % 10))
    }
}

fn dec_digit(d: u64) -> (c: char)
    requires
        d < 10,
    ensures
        c == dec_digit_char(d as nat),
{
    if d == 0 {
        '0'
    } else if d == 1 {
        '1'
    } else if d == 2 {
        '2'
    } else if d == 3 {
        '3'
    } else if d == 4 {
        '4'
    } else if d == 5 {
        '5'
    } else if d == 6 {
        '6'
    } else if d == 7 {
        '7'
    } else if d == 8 {
        '8'
    } else {
        '9'
    }
}

/// The decimal numeral of `n` as characters.
pub fn u64_to_dec_chars(n: u64) -> (v: Vec<char>)
    ensures
        v@ == dec_digits(n as nat),
    decreases n,
{
    if n < 10 {
        let mut v: Vec<char> = Vec::new();
        v.push(dec_digit(n));
        v
    } else {
        let mut v = u64_to_dec_chars(n / 10);
        v.push(dec_digit(n % 10));
        v
    }
}

/// The decimal numeral of `n` as a `String`.
pub fn u64_to_dec_string(n: u64) -> (s: String)
    ensures
        s@ == dec_digits(n as nat),
{
    let v = u64_to_dec_chars(n);
    chars_to_string(&v)
}

/// What `sanitize_name` does to each character: alphanumerics and underscores
/// are kept, every other character becomes an underscore.
pub open spec fn sanitize_char(c: char) -> char {
    if alphanumeric_char(c) || c == '_' {
        c
    } else {
        '_'
    }
}

/// The sanitized form of a character sequence.
pub open spec fn sanitize_seq(s: Seq<char>) -> Seq<char> {
    s.map(|i: int, c: char| sanitize_char(c))
}

/// Sanitizes a character vector so it is a valid identifier body: every
/// character that is not alphanumeric or an underscore becomes an underscore.
pub fn sanitize_chars(s: &Vec<char>) -> (r: Vec<char>)
    ensures
        r@ == sanitize_seq(s@),
{
    let n = s.len();
    let mut r: Vec<char> = Vec::new();
    let mut i: usize = 0;
    while i < n
        invariant
            n == s@.len(),
            0 <= i <= n,
            r@ =~= sanitize_seq(s@.subrange(0, i as int)),
        decreases n - i,
    {
        let c = s[i];
        if char_is_alphanumeric(c) || c == '_' {
            r.push(c);
        } else {
            r.push('_');
        }
        proof {
            assert(s@.subrange(0, i + 1 as int).drop_last() =~= s@.subrange(0, i as int));
            assert(r@ =~= sanitize_seq(s@.subrange(0, i + 1 as int)));
        }
        i = i + 1;
    }
    proof {
        assert(s@.subrange(0, n as int) =~= s@);
    }
    r
}

/// The views of a sequence of strings.
pub open spec fn string_views(s: Seq<String>) -> Seq<Seq<char>> {
    s.map(|i: int, x: String| x@)
}

/// Whether a vector of strings holds one with the given view.
pub(crate) fn contains_string(v: &Vec<String>, s: &String) -> (r: bool)
    ensures
        r == string_views(v@).contains(s@),
{
    let n = v.len();
    let mut i: usize = 0;
    while i < n
        invariant
            n == v@.len(),
            0 <= i <= n,
            forall|j: int| 0 <= j < i ==> v@[j]@ != s@,
        decreases n - i,
    {
        if v[i] == *s {
            proof {
                assert(string_views(v@)[i as int] == v@[i as int]@);
            }
            return true;
        }
        i = i + 1;
    }
    proof {
        assert forall|j: int| 0 <= j < string_views(v@).len() implies string_views(v@)[j]
            != s@ by {
            assert(string_views(v@)[j] == v@[j]@);
        }
    }
    false
}

/// Sanitizes a string to be a valid variable name: every character that is
/// not alphanumeric or an underscore is replaced with an underscore.
pub fn sanitize_name(name: &str) -> (r: String)
    ensures
        r@ == sanitize_seq(name@),
{
    let v = str_to_chars(name);
    let s = sanitize_chars(&v);
    chars_to_string(&s)
}

} // verus!
