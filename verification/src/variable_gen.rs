//! Variable name generation: unique, syntactically valid identifiers for
//! node results and temporaries, and default value expressions per type.

use vstd::prelude::*;

use crate::data_flow::var_name_seq;
use crate::fragment::{find_first, spec_trim, subrange_chars, trim_chars};
use crate::text::{
    chars_eq, chars_to_string, contains_string, dec_digit_char, dec_digits, sanitize_name,
    str_to_chars, string_views,
};

verus! {

/// The decimal numeral always has at least one digit.
proof fn lemma_dec_len(n: nat)
    ensures
        dec_digits(n).len() >= 1,
        n >= 10 ==> dec_digits(n).len() >= 2,
    decreases n,
{
    if n >= 10 {
        lemma_dec_len(n / 10);
    }
}

/// Distinct numbers have distinct decimal numerals.
proof fn lemma_dec_injective(a: nat, b: nat)
    requires
        a != b,
    ensures
        dec_digits(a) != dec_digits(b),
    decreases a + b,
{
    if a < 10 && b < 10 {
        assert(dec_digits(a)[0] != dec_digits(b)[0]);
    } else if a < 10 {
        lemma_dec_len(a);
        lemma_dec_len(b);
        assert(dec_digits(a).len() == 1);
        assert(dec_digits(b).len() >= 2);
    } else if b < 10 {
        lemma_dec_len(a);
        lemma_dec_len(b);
        assert(dec_digits(b).len() == 1);
        assert(dec_digits(a).len() >= 2);
    } else {
        let da = dec_digits(a);
        let db = dec_digits(b);
        assert(da == dec_digits(a / 10).push(dec_digit_char(a % 10)));
        assert(db == dec_digits(b / 10).push(dec_digit_char(b % 10)));
        if a % 10 != b % 10 {
            assert(dec_digit_char(a % 10) != dec_digit_char(b % 10));
            assert(da.last() == dec_digit_char(a % 10));
            assert(db.last() == dec_digit_char(b % 10));
        } else {
            assert(a / 10 != b / 10) by {
                vstd::arithmetic::div_mod::lemma_fundamental_div_mod(a as int, 10);
                vstd::arithmetic::div_mod::lemma_fundamental_div_mod(b as int, 10);
            }
            lemma_dec_injective(a / 10, b / 10);
            if da == db {
                assert(da.drop_last() =~= dec_digits(a / 10));
                assert(db.drop_last() =~= dec_digits(b / 10));
                assert(false);
            }
        }
    }
}

/// The name formed from a prefix and a counter.
pub open spec fn suffixed_name(prefix: Seq<char>, c: nat) -> Seq<char> {
    prefix + dec_digits(c)
}

/// Distinct counters give distinct suffixed names.
proof fn lemma_suffixed_injective(prefix: Seq<char>, c1: nat, c2: nat)
    requires
        c1 != c2,
    ensures
        suffixed_name(prefix, c1) != suffixed_name(prefix, c2),
{
    lemma_dec_injective(c1, c2);
    if suffixed_name(prefix, c1) == suffixed_name(prefix, c2) {
        assert(suffixed_name(prefix, c1).subrange(
            prefix.len() as int,
            suffixed_name(prefix, c1).len() as int,
        ) =~= dec_digits(c1));
        assert(suffixed_name(prefix, c2).subrange(
            prefix.len() as int,
            suffixed_name(prefix, c2).len() as int,
        ) =~= dec_digits(c2));
    }
}

/// Finds the least counter above `counter` whose suffixed name is unused.
fn fresh_suffixed(used: &Vec<String>, prefix: &Vec<char>, counter: u64) -> (r: (String, u64))
    requires
        counter + used@.len() + 1 <= u64::MAX,
    ensures
        counter < r.1,
        r.0@ == suffixed_name(prefix@, r.1 as nat),
        !string_views(used@).contains(r.0@),
        forall|c2: int|
            counter < c2 < r.1 ==> string_views(used@).contains(
                #[trigger] suffixed_name(prefix@, c2 as nat),
            ),
{
    let mut c: u64 = counter;
    let ghost tried: Seq<Seq<char>> = Seq::<Seq<char>>::empty();
    loop
        invariant
            counter <= c,
            c <= counter + used@.len(),
            counter + used@.len() + 1 <= u64::MAX,
            tried.len() == c - counter,
            forall|x: int| 0 <= x < tried.len() ==> tried[x] == suffixed_name(
                prefix@,
                (counter + 1 + x) as nat,
            ),
            tried.no_duplicates(),
            forall|x: int| 0 <= x < tried.len() ==> string_views(used@).contains(tried[x]),
            forall|c2: int|
                counter < c2 <= c ==> string_views(used@).contains(
                    #[trigger] suffixed_name(prefix@, c2 as nat),
                ),
        decreases counter + used@.len() - c,
    {
        let next = c + 1;
        let digits = crate::text::u64_to_dec_chars(next);
        let mut name_chars: Vec<char> = Vec::new();
        let mut i: usize = 0;
        let pn = prefix.len();
        while i < pn
            invariant
                pn == prefix@.len(),
                0 <= i <= pn,
                name_chars@ =~= prefix@.subrange(0, i as int),
            decreases pn - i,
        {
            name_chars.push(prefix[i]);
            proof {
                assert(name_chars@ =~= prefix@.subrange(0, i + 1 as int));
            }
            i = i + 1;
        }
        proof {
            assert(prefix@.subrange(0, pn as int) =~= prefix@);
        }
        let dn = digits.len();
        let mut k: usize = 0;
        while k < dn
            invariant
                dn == digits@.len(),
                0 <= k <= dn,
                name_chars@ =~= prefix@ + digits@.subrange(0, k as int),
            decreases dn - k,
        {
            name_chars.push(digits[k]);
            proof {
                assert(name_chars@ =~= prefix@ + digits@.subrange(0, k + 1 as int));
            }
            k = k + 1;
        }
        proof {
            assert(digits@.subrange(0, dn as int) =~= digits@);
            assert(name_chars@ =~= suffixed_name(prefix@, next as nat));
        }
        let name = chars_to_string(&name_chars);
        if !contains_string(used, &name) {
            return (name, next);
        }
        proof {
            // the tried names are pairwise distinct and all used, so fewer
            // than the number of used names have been tried
            let tried2 = tried.push(name@);
            assert forall|x: int, y: int|
                0 <= x < y < tried2.len() implies tried2[x] != tried2[y] by {
                lemma_suffixed_injective(prefix@, (counter + 1 + x) as nat, (counter + 1 + y) as nat);
                assert(tried2[x] == suffixed_name(prefix@, (counter + 1 + x) as nat));
                assert(tried2[y] == suffixed_name(prefix@, (counter + 1 + y) as nat));
            }
            assert(tried2.no_duplicates());
            assert(tried2.to_set().subset_of(string_views(used@).to_set())) by {
                assert forall|v: Seq<char>| tried2.to_set().contains(v) implies string_views(
                    used@,
                ).to_set().contains(v) by {
                    assert(tried2.contains(v));
                    let x = choose|x: int| 0 <= x < tried2.len() && tried2[x] == v;
                    assert(string_views(used@).contains(v));
                }
            }
            tried2.unique_seq_to_set();
            string_views(used@).lemma_cardinality_of_set();
            vstd::seq_lib::seq_to_set_is_finite::<Seq<char>>(string_views(used@));
            vstd::set_lib::lemma_len_subset(tried2.to_set(), string_views(used@).to_set());
            assert(tried2.len() <= used@.len());
            tried = tried2;
        }
        c = next;
    }
}

/// Generates unique, sanitized variable names for nodes and intermediate
/// results. Once a name has been handed out or marked used, it is never
/// produced again.
#[derive(Debug)]
pub struct VariableNameGenerator {
    used_names: Vec<String>,
    counter: u64,
}

impl VariableNameGenerator {
    /// The names already taken.
    pub closed spec fn used(&self) -> Seq<Seq<char>> {
        string_views(self.used_names@)
    }

    /// The collision counter.
    pub closed spec fn spec_counter(&self) -> nat {
        self.counter as nat
    }

    /// A fresh generator with no used names.
    pub fn new() -> (r: VariableNameGenerator)
        ensures
            r.used() =~= Seq::<Seq<char>>::empty(),
            r.spec_counter() == 0,
    {
        let r = VariableNameGenerator { used_names: Vec::new(), counter: 0 };
        proof {
            assert(string_views(r.used_names@) =~= Seq::<Seq<char>>::empty());
        }
        r
    }

    /// Generates a unique variable name for a node id: the sanitized
    /// `node_<id>_result`, or on a collision that name with `_<c>` appended
    /// for the least unused counter value.
    pub fn generate_for_node(&mut self, node_id: &str) -> (r: String)
        requires
            old(self).spec_counter() + old(self).used().len() + 1 <= u64::MAX,
        ensures
            !old(self).used().contains(r@),
            final(self).used() =~= old(self).used().push(r@),
            old(self).used().contains(var_name_seq(node_id@)) ==> (exists|c: nat|
                final(self).spec_counter() == c && old(self).spec_counter() < c && r@
                    == suffixed_name(var_name_seq(node_id@) + "_"@, c) && (forall|c2: int|
                    old(self).spec_counter() < c2 < c ==> old(self).used().contains(
                        #[trigger] suffixed_name(var_name_seq(node_id@) + "_"@, c2 as nat),
                    ))),
            !old(self).used().contains(var_name_seq(node_id@)) ==> r@ == var_name_seq(node_id@)
                && final(self).spec_counter() == old(self).spec_counter(),
    {
        let sanitized = sanitize_name(node_id);
        let base = String::from_str("node_").concat(sanitized.as_str()).concat("_result");
        proof {
            assert(base@ =~= var_name_seq(node_id@));
        }
        if contains_string(&self.used_names, &base) {
            let prefix = str_to_chars(base.concat("_").as_str());
            proof {
                assert(prefix@ =~= var_name_seq(node_id@) + "_"@);
            }
            let (name, next) = fresh_suffixed(&self.used_names, &prefix, self.counter);
            self.counter = next;
            let ghost pre = string_views(self.used_names@);
            self.used_names.push(name.clone());
            proof {
                assert(string_views(self.used_names@) =~= pre.push(name@));
            }
            name
        } else {
            let ghost pre = string_views(self.used_names@);
            self.used_names.push(base.clone());
            proof {
                assert(string_views(self.used_names@) =~= pre.push(base@));
            }
            base
        }
    }

    /// Generates a unique temporary name `temp_<c>` for the least unused
    /// counter value.
    pub fn generate_temp(&mut self) -> (r: String)
        requires
            old(self).spec_counter() + old(self).used().len() + 1 <= u64::MAX,
        ensures
            !old(self).used().contains(r@),
            final(self).used() =~= old(self).used().push(r@),
            exists|c: nat|
                final(self).spec_counter() == c && old(self).spec_counter() < c && r@
                    == suffixed_name("temp_"@, c) && (forall|c2: int|
                    old(self).spec_counter() < c2 < c ==> old(self).used().contains(
                        #[trigger] suffixed_name("temp_"@, c2 as nat),
                    )),
    {
        let prefix = str_to_chars("temp_");
        let (name, next) = fresh_suffixed(&self.used_names, &prefix, self.counter);
        self.counter = next;
        let ghost pre = string_views(self.used_names@);
        self.used_names.push(name.clone());
        proof {
            assert(string_views(self.used_names@) =~= pre.push(name@));
        }
        name
    }

    /// Marks a name as used, so neither generator path hands it out.
    pub fn mark_used(&mut self, name: &str)
        ensures
            final(self).used() =~= old(self).used().push(name@),
            final(self).spec_counter() == old(self).spec_counter(),
    {
        let ghost pre = string_views(self.used_names@);
        self.used_names.push(name.to_owned());
        proof {
            assert(string_views(self.used_names@) =~= pre.push(name@));
        }
    }
}

impl Default for VariableNameGenerator {
    fn default() -> (r: VariableNameGenerator)
        ensures
            r.used() =~= Seq::<Seq<char>>::empty(),
            r.spec_counter() == 0,
    {
        VariableNameGenerator::new()
    }
}

/// The default value expression of a type name: zero for numeric types,
/// `false` for booleans, the empty forms for characters and strings, a
/// tuple of defaults for a parenthesized tuple, and `Default::default()`
/// for everything else.
pub open spec fn spec_default_value(t: Seq<char>) -> Seq<char>
    decreases t.len(), 0int,
{
    if t == "f32"@ || t == "f64"@ {
        "0.0"@
    } else if t == "i8"@ || t == "i16"@ || t == "i32"@ || t == "i64"@ || t == "i128"@ || t
        == "isize"@ || t == "u8"@ || t == "u16"@ || t == "u32"@ || t == "u64"@ || t == "u128"@
        || t == "usize"@ {
        "0"@
    } else if t == "bool"@ {
        "false"@
    } else if t == "char"@ {
        "'\\0'"@
    } else if t == "String"@ {
        "String::new()"@
    } else if t.len() >= 2 && t[0] == '(' && t[t.len() - 1] == ')' {
        "("@ + spec_default_parts(t.subrange(1, t.len() - 1)) + ")"@
    } else {
        "Default::default()"@
    }
}

/// The comma-separated defaults of the tuple element types in `inner`.
pub open spec fn spec_default_parts(inner: Seq<char>) -> Seq<char>
    decreases inner.len(), 1int,
{
    match find_first(inner, ',', 0) {
        None => spec_default_value(spec_trim(inner)),
        Some(k) => if 0 <= k < inner.len() {
            spec_default_value(spec_trim(inner.subrange(0, k))) + ", "@ + spec_default_parts(
                inner.subrange(k + 1, inner.len() as int),
            )
        } else {
            Seq::<char>::empty()
        },
    }
}

/// Bounds of a found comma.
proof fn lemma_find_first_bounds(s: Seq<char>, c: char, i: int)
    requires
        0 <= i,
        find_first(s, c, i) is Some,
    ensures
        i <= find_first(s, c, i)->Some_0 < s.len(),
    decreases s.len() - i,
{
    if i < s.len() && s[i] != c {
        lemma_find_first_bounds(s, c, i + 1);
    }
}

/// Finds the first occurrence of a character.
fn find_first_exec(s: &Vec<char>, c: char) -> (r: Option<usize>)
    ensures
        match r {
            Some(k) => find_first(s@, c, 0) == Some(k as int) && k < s@.len(),
            None => find_first(s@, c, 0) is None,
        },
{
    let n = s.len();
    let mut i: usize = 0;
    while i < n
        invariant
            n == s@.len(),
            0 <= i <= n,
            find_first(s@, c, 0) == find_first(s@, c, i as int),
        decreases n - i,
    {
        if s[i] == c {
            return Some(i);
        }
        i = i + 1;
    }
    None
}

/// Computes the default value expression for a type name's characters.
fn default_value_chars(t: &Vec<char>) -> (r: Vec<char>)
    ensures
        r@ == spec_default_value(t@),
    decreases t@.len(), 0int,
{
    if chars_eq(t, &str_to_chars("f32")) || chars_eq(t, &str_to_chars("f64")) {
        return str_to_chars("0.0");
    }
    if chars_eq(t, &str_to_chars("i8")) || chars_eq(t, &str_to_chars("i16")) || chars_eq(
        t,
        &str_to_chars("i32"),
    ) || chars_eq(t, &str_to_chars("i64")) || chars_eq(t, &str_to_chars("i128")) || chars_eq(
        t,
        &str_to_chars("isize"),
    ) || chars_eq(t, &str_to_chars("u8")) || chars_eq(t, &str_to_chars("u16")) || chars_eq(
        t,
        &str_to_chars("u32"),
    ) || chars_eq(t, &str_to_chars("u64")) || chars_eq(t, &str_to_chars("u128")) || chars_eq(
        t,
        &str_to_chars("usize"),
    ) {
        return str_to_chars("0");
    }
    if chars_eq(t, &str_to_chars("bool")) {
        return str_to_chars("false");
    }
    if chars_eq(t, &str_to_chars("char")) {
        return str_to_chars("'\\0'");
    }
    if chars_eq(t, &str_to_chars("String")) {
        return str_to_chars("String::new()");
    }
    let n = t.len();
    if n >= 2 && t[0] == '(' && t[n - 1] == ')' {
        let inner = subrange_chars(t, 1, n - 1);
        let parts = default_parts_chars(&inner);
        let mut out = str_to_chars("(");
        let ghost open_view = out@;
        let pn = parts.len();
        let mut i: usize = 0;
        while i < pn
            invariant
                pn == parts@.len(),
                0 <= i <= pn,
                out@ =~= open_view + parts@.subrange(0, i as int),
            decreases pn - i,
        {
            out.push(parts[i]);
            proof {
                assert(out@ =~= open_view + parts@.subrange(0, i + 1 as int));
            }
            i = i + 1;
        }
        proof {
            assert(parts@.subrange(0, pn as int) =~= parts@);
        }
        out.push(')');
        proof {
            reveal_strlit("(");
            reveal_strlit(")");
            assert(out@ =~= spec_default_value(t@));
        }
        return out;
    }
    str_to_chars("Default::default()")
}

/// Computes the comma-separated defaults of tuple element types.
fn default_parts_chars(inner: &Vec<char>) -> (r: Vec<char>)
    ensures
        r@ == spec_default_parts(inner@),
    decreases inner@.len(), 1int,
{
    match find_first_exec(inner, ',') {
        None => {
            let part = trim_chars(inner);
            default_value_chars(&part)
        },
        Some(k) => {
            let ln = inner.len();
            assert(k < ln);
            let head = subrange_chars(inner, 0, k);
            let head_trimmed = trim_chars(&head);
            let head_default = default_value_chars(&head_trimmed);
            let rest = subrange_chars(inner, k + 1, ln);
            let rest_defaults = default_parts_chars(&rest);
            let mut out = head_default;
            out.push(',');
            out.push(' ');
            let ghost mid = out@;
            let rn = rest_defaults.len();
            let mut i: usize = 0;
            while i < rn
                invariant
                    rn == rest_defaults@.len(),
                    0 <= i <= rn,
                    out@ =~= mid + rest_defaults@.subrange(0, i as int),
                decreases rn - i,
            {
                out.push(rest_defaults[i]);
                proof {
                    assert(out@ =~= mid + rest_defaults@.subrange(0, i + 1 as int));
                }
                i = i + 1;
            }
            proof {
                assert(rest_defaults@.subrange(0, rn as int) =~= rest_defaults@);
                reveal_strlit(", ");
                assert(out@ =~= spec_default_parts(inner@));
            }
            out
        },
    }
}

/// The default value expression for a type name.
pub fn get_default_value_for_type(type_str: &str) -> (r: String)
    ensures
        r@ == spec_default_value(type_str@),
{
    let chars = str_to_chars(type_str);
    let out = default_value_chars(&chars);
    chars_to_string(&out)
}

} // verus!
