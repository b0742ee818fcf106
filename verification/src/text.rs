//! Character-level text helpers: conversions between strings and char
//! vectors, first-occurrence search, lexicographic ordering of paths, and a
//! plain decimal parser. Everything here is shared by the manifest codec and
//! the installation attribute logic.

use vstd::prelude::*;

verus! {

use vstd::string::{StrSliceExecFns, StringExecFns};

/// The characters of a string, as a vector.
pub fn chars_of(s: &str) -> (r: Vec<char>)
    ensures
        r@ == s@,
{
    let n = s.unicode_len();
    let mut r: Vec<char> = Vec::new();
    let mut i: usize = 0;
    while i < n
        invariant
            i <= n,
            n == s@.len(),
            r@ == s@.subrange(0, i as int),
        decreases n - i,
    {
        r.push(s.get_char(i));
        proof {
            assert(s@.subrange(0, i as int).push(s@[i as int]) =~= s@.subrange(0, i + 1));
        }
        i = i + 1;
    }
    proof {
        assert(s@.subrange(0, n as int) =~= s@);
    }
    r
}

/// A string holding exactly the given characters.
pub fn string_from_chars(v: &[char]) -> (r: String)
    ensures
        r@ == v@,
{
    let n = v.len();
    let mut r = String::new();
    let mut i: usize = 0;
    while i < n
        invariant
            i <= n,
            n == v@.len(),
            r@ == v@.subrange(0, i as int),
        decreases n - i,
    {
        r.push(v[i]);
        proof {
            assert(v@.subrange(0, i as int).push(v@[i as int]) =~= v@.subrange(0, i + 1));
        }
        i = i + 1;
    }
    proof {
        assert(v@.subrange(0, n as int) =~= v@);
    }
    r
}

/// The index of the first occurrence of `c` in `s`, or -1 if `s` does not
/// contain it.
pub open spec fn find_char(s: Seq<char>, c: char) -> int
    decreases s.len(),
{
    if s.len() == 0 {
        -1
    } else if s[0] == c {
        0
    } else if find_char(s.drop_first(), c) == -1 {
        -1
    } else {
        1 + find_char(s.drop_first(), c)
    }
}

/// `find_char` returns either -1, with no occurrence anywhere, or the
/// position of an occurrence that nothing precedes.
pub proof fn lemma_find_char(s: Seq<char>, c: char)
    ensures
        find_char(s, c) == -1 ==> forall|i: int| 0 <= i < s.len() ==> s[i] != c,
        find_char(s, c) != -1 ==> {
            &&& 0 <= find_char(s, c) < s.len()
            &&& s[find_char(s, c)] == c
            &&& forall|i: int| 0 <= i < find_char(s, c) ==> s[i] != c
        },
    decreases s.len(),
{
    if s.len() > 0 {
        lemma_find_char(s.drop_first(), c);
        assert forall|i: int| 1 <= i < s.len() implies s[i] == s.drop_first()[i - 1] by {}
    }
}

/// The first occurrence of `c` in `s` at or after `from`, if any.
pub fn find_from(s: &[char], from: usize, c: char) -> (r: Option<usize>)
    requires
        from <= s@.len(),
    ensures
        match r {
            Some(k) => from as int + find_char(s@.subrange(from as int, s@.len() as int), c)
                == k as int && from <= k < s@.len(),
            None => find_char(s@.subrange(from as int, s@.len() as int), c) == -1,
        },
{
    let n = s.len();
    let mut i: usize = from;
    while i < n
        invariant
            from <= i <= n,
            n == s@.len(),
            forall|m: int| from <= m < i ==> s@[m] != c,
        decreases n - i,
    {
        if s[i] == c {
            proof {
                lemma_find_char(s@.subrange(from as int, n as int), c);
                let f = find_char(s@.subrange(from as int, n as int), c);
                assert(s@.subrange(from as int, n as int)[i - from] == c);
                if f == -1 {
                    assert(false);
                }
                if f < i - from {
                    assert(s@[from + f] != c);
                    assert(s@.subrange(from as int, n as int)[f] == c);
                    assert(false);
                }
                if f > i - from {
                    assert(s@.subrange(from as int, n as int)[i - from] != c);
                    assert(false);
                }
            }
            return Some(i);
        }
        i = i + 1;
    }
    proof {
        lemma_find_char(s@.subrange(from as int, n as int), c);
        let f = find_char(s@.subrange(from as int, n as int), c);
        if f != -1 {
            assert(s@[from + f] == s@.subrange(from as int, n as int)[f]);
            assert(false);
        }
    }
    None
}

/// Lexicographic order on character sequences, by code point; this is the
/// order in which manifest entries are persisted.
pub open spec fn lex_le(a: Seq<char>, b: Seq<char>) -> bool
    decreases a.len(),
{
    if a.len() == 0 {
        true
    } else if b.len() == 0 {
        false
    } else if a[0] == b[0] {
        lex_le(a.drop_first(), b.drop_first())
    } else {
        (a[0] as int) < (b[0] as int)
    }
}

/// `lex_le` is total: one of the two directions always holds.
pub proof fn lemma_lex_le_total(a: Seq<char>, b: Seq<char>)
    ensures
        lex_le(a, b) || lex_le(b, a),
    decreases a.len(),
{
    if a.len() > 0 && b.len() > 0 {
        if a[0] == b[0] {
            lemma_lex_le_total(a.drop_first(), b.drop_first());
        } else {
            assert((a[0] as int) != (b[0] as int));
        }
    }
}

/// `lex_le` is antisymmetric: orderings in both directions mean equality.
pub proof fn lemma_lex_le_antisymmetric(a: Seq<char>, b: Seq<char>)
    requires
        lex_le(a, b),
        lex_le(b, a),
    ensures
        a == b,
    decreases a.len(),
{
    if a.len() == 0 {
        assert(b.len() == 0);
        assert(a =~= b);
    } else {
        assert(b.len() > 0);
        assert(a[0] == b[0]);
        lemma_lex_le_antisymmetric(a.drop_first(), b.drop_first());
        assert(a =~= seq![a[0]] + a.drop_first());
        assert(b =~= seq![b[0]] + b.drop_first());
    }
}

/// `lex_le` is transitive.
pub proof fn lemma_lex_le_transitive(a: Seq<char>, b: Seq<char>, c: Seq<char>)
    requires
        lex_le(a, b),
        lex_le(b, c),
    ensures
        lex_le(a, c),
    decreases a.len(),
{
    if a.len() > 0 && b.len() > 0 && c.len() > 0 {
        if a[0] == b[0] && b[0] == c[0] {
            lemma_lex_le_transitive(a.drop_first(), b.drop_first(), c.drop_first());
        }
    }
}

/// Compare two strings in the order of `lex_le`.
pub fn lex_le_exec(a: &str, b: &str) -> (r: bool)
    ensures
        r == lex_le(a@, b@),
{
    let na = a.unicode_len();
    let nb = b.unicode_len();
    let mut i: usize = 0;
    proof {
        assert(a@.skip(0) =~= a@);
        assert(b@.skip(0) =~= b@);
    }
    loop
        invariant
            i <= na,
            i <= nb,
            na == a@.len(),
            nb == b@.len(),
            lex_le(a@, b@) == lex_le(a@.skip(i as int), b@.skip(i as int)),
        decreases na - i,
    {
        if i >= na {
            proof {
                assert(a@.skip(i as int).len() == 0);
            }
            return true;
        }
        if i >= nb {
            proof {
                assert(b@.skip(i as int).len() == 0);
                assert(a@.skip(i as int).len() > 0);
            }
            return false;
        }
        let ca = a.get_char(i);
        let cb = b.get_char(i);
        proof {
            assert(a@.skip(i as int)[0] == a@[i as int]);
            assert(b@.skip(i as int)[0] == b@[i as int]);
        }
        if ca != cb {
            proof {
                assert((ca as u32) as int == ca as int);
                assert((cb as u32) as int == cb as int);
            }
            return (ca as u32) < (cb as u32);
        }
        proof {
            assert(a@.skip(i as int).drop_first() =~= a@.skip(i + 1));
            assert(b@.skip(i as int).drop_first() =~= b@.skip(i + 1));
        }
        i = i + 1;
    }
}

/// Whether two strings hold the same characters.
pub fn str_eq(a: &str, b: &str) -> (r: bool)
    ensures
        r == (a@ == b@),
{
    let na = a.unicode_len();
    let nb = b.unicode_len();
    if na != nb {
        proof {
            assert(a@ != b@) by {
                assert(a@.len() != b@.len());
            }
        }
        return false;
    }
    let mut i: usize = 0;
    while i < na
        invariant
            i <= na,
            na == a@.len(),
            na == b@.len(),
            forall|m: int| 0 <= m < i ==> a@[m] == b@[m],
        decreases na - i,
    {
        if a.get_char(i) != b.get_char(i) {
            proof {
                assert(a@[i as int] != b@[i as int]);
            }
            return false;
        }
        i = i + 1;
    }
    proof {
        assert(a@ =~= b@);
    }
    true
}

/// The ten decimal digits, in value order.
pub open spec fn dec_digits() -> Seq<char> {
    seq!['0', '1', '2', '3', '4', '5', '6', '7', '8', '9']
}

/// The usual decimal rendering of a nonnegative integer, without sign or
/// leading zeros.
pub open spec fn dec_str(n: int) -> Seq<char>
    recommends
        n >= 0,
    decreases n,
{
    if n < 10 {
        seq![dec_digits()[if 0 <= n < 10 {
            n
        } else {
            0
        }]]
    } else {
        dec_str(n / 10).push(dec_digits()[n % 10])
    }
}

/// Render a number in decimal.
pub fn u32_to_string(n: u32) -> (r: String)
    ensures
        r@ == dec_str(n as int),
{
    let digits: [char; 10] = ['0', '1', '2', '3', '4', '5', '6', '7', '8', '9'];
    let mut rest: u32 = n;
    let mut acc: Vec<char> = Vec::new();
    proof {
        assert(dec_str(n as int) + Seq::<char>::empty() =~= dec_str(n as int));
    }
    while rest >= 10
        invariant
            digits@ == dec_digits(),
            dec_str(n as int) == dec_str(rest as int) + acc@,
        decreases rest,
    {
        let d = rest % 10;
        acc.insert(0, digits[d as usize]);
        proof {
            assert(rest as int / 10 < rest as int) by (nonlinear_arith)
                requires
                    rest >= 10,
            ;
            assert(dec_str(rest as int) == dec_str(rest as int / 10).push(
                dec_digits()[rest as int % 10],
            ));
            assert(dec_str(rest as int / 10).push(dec_digits()[rest as int % 10]) + acc@
                =~= dec_str(rest as int / 10) + acc@.insert(0, dec_digits()[rest as int % 10]));
        }
        rest = rest / 10;
    }
    acc.insert(0, digits[rest as usize]);
    proof {
        assert(dec_str(rest as int) + acc@.subrange(1, acc@.len() as int) =~= seq![
            dec_digits()[rest as int],
        ] + acc@.subrange(1, acc@.len() as int));
        assert(acc@ =~= seq![dec_digits()[rest as int]] + acc@.subrange(1, acc@.len() as int));
        assert(dec_str(n as int) =~= acc@);
    }
    string_from_chars(acc.as_slice())
}

/// The numeric value of a sequence of decimal digits.
pub open spec fn decimal_value(s: Seq<char>) -> int
    decreases s.len(),
{
    if s.len() == 0 {
        0
    } else {
        decimal_value(s.drop_last()) * 10 + (s.last() as int - '0' as int)
    }
}

/// Whether every character is a decimal digit.
pub open spec fn all_digits(s: Seq<char>) -> bool {
    forall|i: int| 0 <= i < s.len() ==> '0' <= #[trigger] s[i] <= '9'
}

/// Whether `s` is the kind of string `parse_u32` accepts: nonempty, digits
/// only, and in range for u32.
pub open spec fn is_u32_numeral(s: Seq<char>) -> bool {
    s.len() > 0 && all_digits(s) && 0 <= decimal_value(s) <= u32::MAX
}

/// Parse a nonempty all-digit string as a u32; anything else is `None`.
pub fn parse_u32(s: &str) -> (r: Option<u32>)
    ensures
        match r {
            Some(v) => is_u32_numeral(s@) && v as int == decimal_value(s@),
            None => !is_u32_numeral(s@),
        },
{
    let n = s.unicode_len();
    if n == 0 {
        return None;
    }
    let mut acc: u32 = 0;
    let mut i: usize = 0;
    while i < n
        invariant
            i <= n,
            n == s@.len(),
            all_digits(s@.subrange(0, i as int)),
            acc as int == decimal_value(s@.subrange(0, i as int)),
        decreases n - i,
    {
        let c = s.get_char(i);
        if c < '0' || c > '9' {
            proof {
                lemma_not_all_digits(s@, i as int);
            }
            return None;
        }
        let d = (c as u32) - ('0' as u32);
        if acc > (u32::MAX - d) / 10 {
            proof {
                lemma_decimal_prefix_too_big(s@, i as int, acc as int, d as int);
            }
            return None;
        }
        acc = acc * 10 + d;
        proof {
            assert(s@.subrange(0, i + 1).drop_last() =~= s@.subrange(0, i as int));
            assert(s@.subrange(0, i + 1).last() == s@[i as int]);
        }
        i = i + 1;
    }
    proof {
        assert(s@.subrange(0, n as int) =~= s@);
    }
    Some(acc)
}

proof fn lemma_not_all_digits(s: Seq<char>, i: int)
    requires
        0 <= i < s.len(),
        !('0' <= s[i] <= '9'),
    ensures
        !all_digits(s),
{
}

proof fn lemma_decimal_nonneg(s: Seq<char>)
    requires
        all_digits(s),
    ensures
        decimal_value(s) >= 0,
    decreases s.len(),
{
    if s.len() > 0 {
        assert(all_digits(s.drop_last()));
        lemma_decimal_nonneg(s.drop_last());
    }
}

/// If a prefix of digits already exceeds what one more digit can keep within
/// `u32`, the whole numeral is out of range.
proof fn lemma_decimal_prefix_too_big(s: Seq<char>, i: int, acc: int, d: int)
    requires
        0 <= i < s.len(),
        all_digits(s.subrange(0, i)),
        '0' <= s[i] <= '9',
        acc == decimal_value(s.subrange(0, i)),
        d == s[i] as int - '0' as int,
        acc * 10 + d > u32::MAX,
    ensures
        !(0 <= decimal_value(s) <= u32::MAX) || !all_digits(s),
    decreases s.len() - i,
{
    if !all_digits(s) {
    } else {
        lemma_decimal_monotonic(s, i + 1);
        assert(s.subrange(0, i + 1).drop_last() =~= s.subrange(0, i));
        assert(s.subrange(0, i + 1).last() == s[i]);
        assert(decimal_value(s.subrange(0, i + 1)) == acc * 10 + d);
    }
}

/// For an all-digit string, the value of a prefix never exceeds the value of
/// the whole.
proof fn lemma_decimal_monotonic(s: Seq<char>, i: int)
    requires
        all_digits(s),
        0 <= i <= s.len(),
    ensures
        decimal_value(s.subrange(0, i)) <= decimal_value(s),
    decreases s.len() - i,
{
    lemma_all_digits_sub(s, i);
    lemma_decimal_nonneg(s.subrange(0, i));
    if i < s.len() {
        lemma_decimal_monotonic(s, i + 1);
        assert(s.subrange(0, i + 1).drop_last() =~= s.subrange(0, i));
        assert(s.subrange(0, i + 1).last() == s[i]);
        lemma_decimal_nonneg(s.subrange(0, i + 1));
        assert(decimal_value(s.subrange(0, i)) <= decimal_value(s.subrange(0, i + 1)));
    } else {
        assert(s.subrange(0, i) =~= s);
    }
}

proof fn lemma_all_digits_sub(s: Seq<char>, i: int)
    requires
        all_digits(s),
        0 <= i <= s.len(),
    ensures
        all_digits(s.subrange(0, i)),
{
    assert forall|m: int| 0 <= m < i implies '0' <= #[trigger] s.subrange(0, i)[m] <= '9' by {
        assert(s.subrange(0, i)[m] == s[m]);
    }
}

} // verus!
