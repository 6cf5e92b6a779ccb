//! Text primitives on `str` and `String` with their meaning stated over
//! `Seq<char>`: equality, lexicographic order, trimming, ASCII lowering and
//! decimal integers.
use vstd::prelude::*;
use vstd::string::*;

verus! {

/// Unicode `White_Space`, the set `str::trim` removes.
pub open spec fn is_white_space(c: char) -> bool {
    let u = c as u32;
    ||| 0x09 <= u <= 0x0d
    ||| u == 0x20
    ||| u == 0x85
    ||| u == 0xa0
    ||| u == 0x1680
    ||| 0x2000 <= u <= 0x200a
    ||| u == 0x2028
    ||| u == 0x2029
    ||| u == 0x202f
    ||| u == 0x205f
    ||| u == 0x3000
}

pub open spec fn trim_start(s: Seq<char>) -> Seq<char>
    decreases s.len(),
{
    if s.len() > 0 && is_white_space(s[0]) {
        trim_start(s.drop_first())
    } else {
        s
    }
}

pub open spec fn trim_end(s: Seq<char>) -> Seq<char>
    decreases s.len(),
{
    if s.len() > 0 && is_white_space(s.last()) {
        trim_end(s.drop_last())
    } else {
        s
    }
}

/// The text with leading and trailing white space removed.
pub open spec fn trimmed(s: Seq<char>) -> Seq<char> {
    trim_end(trim_start(s))
}

pub open spec fn ascii_lower_char(c: char) -> char {
    if 'A' <= c && c <= 'Z' {
        ((c as u32) + 32) as char
    } else {
        c
    }
}

/// ASCII letters mapped to lower case, everything else kept.
pub open spec fn ascii_lower(s: Seq<char>) -> Seq<char> {
    s.map_values(|c: char| ascii_lower_char(c))
}

/// Lower-casing twice is lower-casing once.
pub proof fn lemma_lower_idem(s: Seq<char>)
    ensures
        ascii_lower(ascii_lower(s)) == ascii_lower(s),
{
    assert(ascii_lower(ascii_lower(s)) =~= ascii_lower(s));
}

/// Three-way lexicographic comparison by code point: -1, 0 or 1.
pub open spec fn seq_compare(a: Seq<char>, b: Seq<char>) -> int
    decreases a.len(),
{
    if a.len() == 0 {
        if b.len() == 0 {
            0
        } else {
            -1
        }
    } else if b.len() == 0 {
        1
    } else if a[0] < b[0] {
        -1
    } else if a[0] > b[0] {
        1
    } else {
        seq_compare(a.drop_first(), b.drop_first())
    }
}

pub open spec fn seq_le(a: Seq<char>, b: Seq<char>) -> bool {
    seq_compare(a, b) <= 0
}

pub open spec fn seq_lt(a: Seq<char>, b: Seq<char>) -> bool {
    seq_compare(a, b) < 0
}

pub proof fn lemma_compare_eq(a: Seq<char>, b: Seq<char>)
    ensures
        (seq_compare(a, b) == 0) <==> (a == b),
        -1 <= seq_compare(a, b) <= 1,
    decreases a.len(),
{
    if a.len() > 0 && b.len() > 0 && a[0] == b[0] {
        lemma_compare_eq(a.drop_first(), b.drop_first());
        if a.drop_first() == b.drop_first() {
            assert(a =~= seq![a[0]] + a.drop_first());
            assert(b =~= seq![b[0]] + b.drop_first());
        }
    } else if a.len() == 0 && b.len() == 0 {
        assert(a =~= b);
    }
}

pub proof fn lemma_compare_antisym(a: Seq<char>, b: Seq<char>)
    ensures
        seq_compare(a, b) == -seq_compare(b, a),
    decreases a.len(),
{
    if a.len() > 0 && b.len() > 0 && a[0] == b[0] {
        lemma_compare_antisym(a.drop_first(), b.drop_first());
    }
}

pub proof fn lemma_compare_trans(a: Seq<char>, b: Seq<char>, c: Seq<char>)
    requires
        seq_compare(a, b) <= 0,
        seq_compare(b, c) <= 0,
    ensures
        seq_compare(a, c) <= 0,
        (seq_compare(a, b) < 0 || seq_compare(b, c) < 0) ==> seq_compare(a, c) < 0,
    decreases a.len(),
{
    if a.len() > 0 && b.len() > 0 && c.len() > 0 && a[0] == b[0] && b[0] == c[0] {
        lemma_compare_trans(a.drop_first(), b.drop_first(), c.drop_first());
    }
}

/// Whether `c` has the Unicode `White_Space` property.
fn is_ws(c: char) -> (r: bool)
    ensures
        r == is_white_space(c),
{
    let u = c as u32;
    (0x09 <= u && u <= 0x0d) || u == 0x20 || u == 0x85 || u == 0xa0 || u == 0x1680 || (0x2000 <= u
        && u <= 0x200a) || u == 0x2028 || u == 0x2029 || u == 0x202f || u == 0x205f || u == 0x3000
}

/// `str::trim`: `s` without its leading and trailing characters with the
/// Unicode `White_Space` property.
pub(crate) fn trim_str(s: &str) -> (r: &str)
    ensures
        r@ == trimmed(s@),
{
    let n = s.unicode_len();
    let mut a: usize = 0;
    assert(s@.subrange(0, n as int) =~= s@);
    while a < n
        invariant_except_break
            a <= n,
            n == s@.len(),
            trim_start(s@) == trim_start(s@.subrange(a as int, n as int)),
        ensures
            a <= n,
            n == s@.len(),
            trim_start(s@) == s@.subrange(a as int, n as int),
        decreases n - a,
    {
        if !is_ws(s.get_char(a)) {
            break;
        }
        assert(s@.subrange(a as int, n as int).drop_first() =~= s@.subrange(a + 1, n as int));
        a = a + 1;
    }
    let mut b: usize = n;
    while b > a
        invariant_except_break
            a <= b <= n,
            n == s@.len(),
            trim_end(s@.subrange(a as int, n as int)) == trim_end(s@.subrange(a as int, b as int)),
        ensures
            a <= b <= n,
            n == s@.len(),
            trim_end(s@.subrange(a as int, n as int)) == s@.subrange(a as int, b as int),
        decreases b - a,
    {
        if !is_ws(s.get_char(b - 1)) {
            break;
        }
        assert(s@.subrange(a as int, b as int).drop_last() =~= s@.subrange(a as int, b - 1));
        b = b - 1;
    }
    s.substring_char(a, b)
}

/// Calls std's `str::to_ascii_lowercase`, trusted to map `A`..`Z` to
/// `a`..`z` and keep every other character, as it documents.
#[verifier::external_body]
pub(crate) fn ascii_lowercase(s: &str) -> (r: String)
    ensures
        r@ == ascii_lower(s@),
{
    s.to_ascii_lowercase()
}

/// Whether two texts are equal.
pub fn str_eq(a: &str, b: &str) -> (r: bool)
    ensures
        r == (a@ == b@),
{
    let x: String = a.to_owned();
    let y: String = b.to_owned();
    x == y
}

/// Lexicographic comparison by code point, as `str` orders.
pub fn str_compare(a: &str, b: &str) -> (r: i8)
    ensures
        r as int == seq_compare(a@, b@),
{
    let la = a.unicode_len();
    let lb = b.unicode_len();
    let mut i: usize = 0;
    assert(a@.skip(0) =~= a@);
    assert(b@.skip(0) =~= b@);
    while i < la && i < lb
        invariant
            la == a@.len(),
            lb == b@.len(),
            i <= la,
            i <= lb,
            seq_compare(a@, b@) == seq_compare(a@.skip(i as int), b@.skip(i as int)),
        decreases la - i,
    {
        let ca = a.get_char(i);
        let cb = b.get_char(i);
        proof {
            let sa = a@.skip(i as int);
            let sb = b@.skip(i as int);
            assert(sa[0] == ca);
            assert(sb[0] == cb);
            assert(sa.drop_first() =~= a@.skip(i + 1));
            assert(sb.drop_first() =~= b@.skip(i + 1));
        }
        if ca < cb {
            return -1;
        } else if ca > cb {
            return 1;
        }
        i = i + 1;
    }
    if i < la {
        1
    } else if i < lb {
        -1
    } else {
        0
    }
}

/// Decimal digits of a natural number, most significant first.
pub open spec fn nat_decimal(n: nat) -> Seq<char>
    decreases n,
{
    if n < 10 {
        seq![(('0' as u32) + n) as char]
    } else {
        nat_decimal(n / 10).push((('0' as u32) + (n % 10)) as char)
    }
}

/// An integer as `i64`'s `Display` writes it.
pub open spec fn int_decimal(n: int) -> Seq<char> {
    if n < 0 {
        seq!['-'] + nat_decimal((-n) as nat)
    } else {
        nat_decimal(n as nat)
    }
}

/// Calls std's `ToString` for `i64`, trusted to give the decimal digits with
/// a leading `-` for a negative number and no leading zeros.
#[verifier::external_body]
pub(crate) fn i64_decimal(n: i64) -> (r: String)
    ensures
        r@ == int_decimal(n as int),
{
    n.to_string()
}

pub open spec fn is_digit(c: char) -> bool {
    '0' <= c && c <= '9'
}

pub open spec fn digits_value(s: Seq<char>) -> nat
    decreases s.len(),
{
    if s.len() == 0 {
        0
    } else {
        digits_value(s.drop_last()) * 10 + ((s.last() as u32) - ('0' as u32)) as nat
    }
}

/// The text without a leading `+` or `-`.
pub open spec fn unsigned_part(s: Seq<char>) -> Seq<char> {
    if s.len() > 0 && (s[0] == '-' || s[0] == '+') {
        s.drop_first()
    } else {
        s
    }
}

/// What `<i64 as FromStr>::from_str` accepts: an optional `+` or `-`, then
/// one or more ASCII digits, with the value in range.
pub open spec fn parsed_i64(s: Seq<char>) -> Option<i64> {
    let neg = s.len() > 0 && s[0] == '-';
    let digits = unsigned_part(s);
    if digits.len() == 0 || !(forall|i: int| 0 <= i < digits.len() ==> is_digit(#[trigger] digits[i])) {
        None
    } else {
        let v: int = if neg {
            -(digits_value(digits) as int)
        } else {
            digits_value(digits) as int
        };
        if i64::MIN <= v <= i64::MAX {
            Some(v as i64)
        } else {
            None
        }
    }
}

/// Appending a digit appends it to the value.
proof fn lemma_digits_value_push(t: Seq<char>, k: int)
    requires
        0 <= k < t.len(),
    ensures
        digits_value(t.subrange(0, k + 1)) == digits_value(t.subrange(0, k)) * 10 + ((t[k] as u32)
            - ('0' as u32)) as nat,
{
    assert(t.subrange(0, k + 1).drop_last() =~= t.subrange(0, k));
}

/// More digits never make a smaller value.
proof fn lemma_digits_value_mono(t: Seq<char>, i: int, j: int)
    requires
        0 <= i <= j <= t.len(),
        forall|x: int| 0 <= x < t.len() ==> is_digit(#[trigger] t[x]),
    ensures
        digits_value(t.subrange(0, i)) <= digits_value(t.subrange(0, j)),
    decreases j - i,
{
    if i < j {
        lemma_digits_value_mono(t, i, j - 1);
        lemma_digits_value_push(t, j - 1);
        assert(is_digit(t[j - 1]));
    }
}

/// `str::parse::<i64>`, keeping only the value when it succeeds: an
/// optional `+` or `-`, then one or more ASCII digits whose value fits.
pub(crate) fn parse_i64(s: &str) -> (r: Option<i64>)
    ensures
        r == parsed_i64(s@),
{
    let n = s.unicode_len();
    if n == 0 {
        return None;
    }
    let c0 = s.get_char(0);
    let neg = c0 == '-';
    let start: usize = if c0 == '-' || c0 == '+' {
        1
    } else {
        0
    };
    let ghost t = s@.subrange(start as int, n as int);
    assert(t =~= unsigned_part(s@));
    if start == n {
        return None;
    }
    let mut v: u64 = 0;
    let mut i: usize = start;
    assert(t.subrange(0, 0) =~= Seq::<char>::empty());
    while i < n
        invariant
            start <= i <= n,
            n == s@.len(),
            start < n,
            t == s@.subrange(start as int, n as int),
            t == unsigned_part(s@),
            neg == (s@.len() > 0 && s@[0] == '-'),
            forall|x: int| 0 <= x < i - start ==> is_digit(#[trigger] t[x]),
            v as int == digits_value(t.subrange(0, i - start)),
            v <= 9223372036854775808u64,
        decreases n - i,
    {
        let c = s.get_char(i);
        assert(c == t[i - start]);
        if !('0' <= c && c <= '9') {
            assert(!is_digit(t[i - start]));
            return None;
        }
        let d: u64 = (c as u32 - '0' as u32) as u64;
        proof {
            lemma_digits_value_push(t, i - start);
        }
        if v > (9223372036854775808u64 - d) / 10 {
            proof {
                assert(v * 10 + d > 9223372036854775808) by (nonlinear_arith)
                    requires
                        v > (9223372036854775808u64 - d) / 10,
                        d <= 9,
                ;
                if forall|x: int| 0 <= x < t.len() ==> is_digit(#[trigger] t[x]) {
                    lemma_digits_value_mono(t, i - start + 1, t.len() as int);
                    assert(t.subrange(0, t.len() as int) =~= t);
                }
            }
            return None;
        }
        assert(v * 10 + d <= 9223372036854775808) by (nonlinear_arith)
            requires
                v <= (9223372036854775808u64 - d) / 10,
                d <= 9,
        ;
        v = v * 10 + d;
        i = i + 1;
    }
    assert(t.subrange(0, t.len() as int) =~= t);
    if neg {
        if v == 9223372036854775808u64 {
            Some(i64::MIN)
        } else {
            Some(-(v as i64))
        }
    } else if v > 9223372036854775807u64 {
        None
    } else {
        Some(v as i64)
    }
}

/// A new `String` holding `s`.
pub fn owned(s: &str) -> (r: String)
    ensures
        r@ == s@,
{
    s.to_owned()
}

/// `a` followed by `b`.
pub fn concat(a: String, b: &str) -> (r: String)
    ensures
        r@ == a@ + b@,
{
    let mut a = a;
    a.append(b);
    a
}

} // verus!
