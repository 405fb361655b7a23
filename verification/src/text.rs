//! Text building for messages and file names: decimal numbers, zero padding,
//! and the standard library's lower-casing.
use vstd::prelude::*;
use vstd::string::{StrSliceExecFns, StringExecFns};

verus! {

/// The ASCII digit for `d` (0..=9).
pub open spec fn digit_char(d: nat) -> char {
    (48 + d) as char
}

/// Decimal representation of `n`, without leading zeros.
pub open spec fn decimal(n: nat) -> Seq<char>
    decreases n,
{
    if n < 10 {
        seq![digit_char(n)]
    } else {
        decimal(n / 10) + seq![digit_char(n % 10)]
    }
}

/// Decimal representation of `n` left-padded with zeros to `width` digits.
pub open spec fn zero_padded(n: nat, width: nat) -> Seq<char> {
    let d = decimal(n);
    if d.len() >= width {
        d
    } else {
        Seq::new((width - d.len()) as nat, |i: int| '0') + d
    }
}

/// A decimal representation has at least one digit, and exactly one below 10.
pub proof fn lemma_decimal_len(n: nat)
    ensures
        decimal(n).len() >= 1,
        decimal(n).len() == 1 <==> n < 10,
    decreases n,
{
    if n >= 10 {
        lemma_decimal_len(n / 10);
    }
}

/// `10` to the power `k`.
pub open spec fn pow10(k: nat) -> nat
    decreases k,
{
    if k == 0 {
        1
    } else {
        10 * pow10((k - 1) as nat)
    }
}

/// A number below `10^k` has at most `k` digits.
pub proof fn lemma_decimal_len_le(n: nat, k: nat)
    requires
        k >= 1,
        n < pow10(k),
    ensures
        decimal(n).len() <= k,
    decreases k,
{
    lemma_decimal_len(n);
    if n >= 10 {
        assert(pow10(1) == 10) by {
            reveal_with_fuel(pow10, 2);
        }
        assert(k >= 2);
        assert(n / 10 < pow10((k - 1) as nat));
        lemma_decimal_len_le(n / 10, (k - 1) as nat);
    }
}

/// Every `u64` and its successor lie below `10^20`.
pub proof fn lemma_pow10_20_beyond_u64()
    ensures
        pow10(20) > 0x1_0000_0000_0000_0000,
{
    reveal_with_fuel(pow10, 21);
}

/// Digits of distinct values are distinct characters.
proof fn lemma_digit_char_injective(a: nat, b: nat)
    requires
        a < 10,
        b < 10,
        digit_char(a) == digit_char(b),
    ensures
        a == b,
{
    assert((digit_char(a) as int) == 48 + a);
    assert((digit_char(b) as int) == 48 + b);
}

/// A decimal representation of a positive number does not start with `0`.
pub proof fn lemma_decimal_lead(n: nat)
    requires
        n >= 1,
    ensures
        decimal(n)[0] != '0',
    decreases n,
{
    lemma_decimal_len(n);
    if n < 10 {
        if decimal(n)[0] == '0' {
            assert(digit_char(0) == '0');
            lemma_digit_char_injective(n, 0);
        }
    } else {
        lemma_decimal_len(n / 10);
        lemma_decimal_lead(n / 10);
        assert(decimal(n)[0] == decimal(n / 10)[0]);
    }
}

/// Distinct numbers have distinct decimal representations.
pub proof fn lemma_decimal_injective(a: nat, b: nat)
    requires
        decimal(a) == decimal(b),
    ensures
        a == b,
    decreases a,
{
    lemma_decimal_len(a);
    lemma_decimal_len(b);
    if a < 10 {
        assert(b < 10);
        assert(decimal(a)[0] == digit_char(a));
        assert(decimal(b)[0] == digit_char(b));
        lemma_digit_char_injective(a, b);
    } else {
        let da = decimal(a);
        let db = decimal(b);
        assert(da.last() == db.last());
        assert(da.drop_last() =~= decimal(a / 10));
        assert(db.drop_last() =~= decimal(b / 10));
        lemma_decimal_injective(a / 10, b / 10);
        lemma_digit_char_injective(a % 10, b % 10);
    }
}

/// Zero padding keeps positive numbers apart.
pub proof fn lemma_zero_padded_injective(a: nat, b: nat, width: nat)
    requires
        a >= 1,
        b >= 1,
        zero_padded(a, width) == zero_padded(b, width),
    ensures
        a == b,
{
    let da = decimal(a);
    let db = decimal(b);
    lemma_decimal_lead(a);
    lemma_decimal_lead(b);
    lemma_decimal_len(a);
    lemma_decimal_len(b);
    let ka: int = if da.len() >= width { 0 } else { width - da.len() };
    let kb: int = if db.len() >= width { 0 } else { width - db.len() };
    let z = zero_padded(a, width);
    assert(z[ka] == da[0]);
    assert(zero_padded(b, width)[kb] == db[0]);
    if ka < kb {
        assert(zero_padded(b, width)[ka] == '0');
    } else if kb < ka {
        assert(z[kb] == '0');
    }
    assert(ka == kb);
    assert(da =~= z.subrange(ka, z.len() as int));
    assert(db =~= zero_padded(b, width).subrange(kb, z.len() as int));
    lemma_decimal_injective(a, b);
}

/// `s` with every occurrence of `pat` replaced by `rep`, the occurrences
/// taken from the left without overlap, as `str::replace` takes them.
pub open spec fn replaced(s: Seq<char>, pat: Seq<char>, rep: Seq<char>) -> Seq<char>
    decreases s.len(),
{
    if s.len() == 0 || pat.len() == 0 {
        s
    } else if pat.len() <= s.len() && s.subrange(0, pat.len() as int) == pat {
        rep + replaced(s.subrange(pat.len() as int, s.len() as int), pat, rep)
    } else {
        seq![s[0]] + replaced(s.subrange(1, s.len() as int), pat, rep)
    }
}

/// The placeholder `{name}`.
pub open spec fn placeholder(name: Seq<char>) -> Seq<char> {
    "{"@ + name + "}"@
}

/// `template` with each `{name}` placeholder of `args` replaced by its
/// value, the pairs taken in order.
pub open spec fn filled(template: Seq<char>, args: Seq<(Seq<char>, Seq<char>)>) -> Seq<char>
    decreases args.len(),
{
    if args.len() == 0 {
        template
    } else {
        replaced(filled(template, args.drop_last()), placeholder(args.last().0), args.last().1)
    }
}

/// Whether `pat` occurs in `s` at character `i`.
fn occurs_at(s: &str, n: usize, i: usize, pat: &str, m: usize) -> (r: bool)
    requires
        n == s@.len(),
        m == pat@.len(),
        i <= n,
    ensures
        r == (m <= n - i && s@.subrange(i as int, i + m) == pat@),
{
    if m > n - i {
        return false;
    }
    let mut j: usize = 0;
    while j < m
        invariant
            n == s@.len(),
            m == pat@.len(),
            i + m <= n,
            0 <= j <= m,
            forall|k: int| 0 <= k < j ==> s@[i + k] == pat@[k],
        decreases m - j,
    {
        if s.get_char(i + j) != pat.get_char(j) {
            assert(s@.subrange(i as int, i + m)[j as int] != pat@[j as int]);
            return false;
        }
        j = j + 1;
    }
    assert(s@.subrange(i as int, i + m) =~= pat@);
    true
}

/// `s` with every occurrence of the non-empty `pat` replaced by `rep` (see
/// `replaced`).
pub fn replace_all(s: &str, pat: &str, rep: &str) -> (r: String)
    requires
        pat@.len() > 0,
    ensures
        r@ == replaced(s@, pat@, rep@),
{
    let n = s.unicode_len();
    let m = pat.unicode_len();
    let mut out = String::new();
    let mut i: usize = 0;
    proof {
        assert(s@.subrange(0, n as int) =~= s@);
        assert(out@ + replaced(s@, pat@, rep@) =~= replaced(s@, pat@, rep@));
    }
    while i < n
        invariant
            n == s@.len(),
            m == pat@.len(),
            m > 0,
            0 <= i <= n,
            out@ + replaced(s@.subrange(i as int, n as int), pat@, rep@) == replaced(s@, pat@, rep@),
        decreases n - i,
    {
        let ghost rest = s@.subrange(i as int, n as int);
        let ghost before = out@;
        if occurs_at(s, n, i, pat, m) {
            out.append(rep);
            proof {
                assert(rest.subrange(0, m as int) =~= s@.subrange(i as int, i + m));
                assert(rest.subrange(m as int, rest.len() as int) =~= s@.subrange(i + m, n as int));
                assert(out@ =~= before + rep@);
                assert(out@ + replaced(s@.subrange(i + m, n as int), pat@, rep@) =~= before + replaced(rest, pat@, rep@));
            }
            i = i + m;
        } else {
            out.append(s.substring_char(i, i + 1));
            proof {
                assert(m > rest.len() || rest.subrange(0, m as int) != pat@) by {
                    if m <= rest.len() {
                        assert(rest.subrange(0, m as int) =~= s@.subrange(i as int, i + m));
                    }
                }
                assert(rest.subrange(1, rest.len() as int) =~= s@.subrange(i + 1, n as int));
                assert(s@.subrange(i as int, i + 1) =~= seq![rest[0]]);
                assert(out@ + replaced(s@.subrange(i + 1, n as int), pat@, rep@) =~= before + replaced(rest, pat@, rep@));
            }
            i = i + 1;
        }
    }
    proof {
        assert(s@.subrange(n as int, n as int) =~= Seq::<char>::empty());
        assert(out@ + Seq::<char>::empty() =~= out@);
    }
    out
}

/// The name and value of each pair.
pub open spec fn pairs_view(args: Seq<(&str, String)>) -> Seq<(Seq<char>, Seq<char>)> {
    args.map_values(|a: (&str, String)| (a.0@, a.1@))
}

/// `template` with each `{name}` placeholder replaced by its value, the
/// pairs taken in order (see `filled`).
pub fn fill_placeholders(template: &str, args: &[(&str, String)]) -> (r: String)
    ensures
        r@ == filled(template@, pairs_view(args@)),
{
    let mut s = String::from_str(template);
    let mut i: usize = 0;
    proof {
        assert(pairs_view(args@).subrange(0, 0) =~= Seq::<(Seq<char>, Seq<char>)>::empty());
    }
    while i < args.len()
        invariant
            0 <= i <= args@.len(),
            s@ == filled(template@, pairs_view(args@).subrange(0, i as int)),
        decreases args@.len() - i,
    {
        let (name, value) = &args[i];
        let mut pat = String::from_str("{");
        pat.append(name);
        pat.append("}");
        proof {
            reveal_strlit("{");
            reveal_strlit("}");
            assert(pat@ =~= placeholder(name@));
        }
        s = replace_all(s.as_str(), pat.as_str(), value.as_str());
        proof {
            let v = pairs_view(args@);
            assert(v.subrange(0, i + 1).drop_last() =~= v.subrange(0, i as int));
            assert(v.subrange(0, i + 1).last() == (name@, value@));
        }
        i = i + 1;
    }
    proof {
        assert(pairs_view(args@).subrange(0, args@.len() as int) =~= pairs_view(args@));
    }
    s
}

/// `s` lower-cased as `str::to_lowercase` does it (Unicode rules).
pub uninterp spec fn lowercased(s: Seq<char>) -> Seq<char>;

/// The one-character string of the digit `d`.
fn digit_str(d: u128) -> (r: &'static str)
    requires
        d < 10,
    ensures
        r@ == seq![digit_char(d as nat)],
{
    proof {
        reveal_strlit("0");
        reveal_strlit("1");
        reveal_strlit("2");
        reveal_strlit("3");
        reveal_strlit("4");
        reveal_strlit("5");
        reveal_strlit("6");
        reveal_strlit("7");
        reveal_strlit("8");
        reveal_strlit("9");
    }
    let r = if d == 0 {
        "0"
    } else if d == 1 {
        "1"
    } else if d == 2 {
        "2"
    } else if d == 3 {
        "3"
    } else if d == 4 {
        "4"
    } else if d == 5 {
        "5"
    } else if d == 6 {
        "6"
    } else if d == 7 {
        "7"
    } else if d == 8 {
        "8"
    } else {
        "9"
    };
    assert(r@ =~= seq![digit_char(d as nat)]);
    r
}

/// Appends the decimal representation of `n` to `s`.
pub fn push_decimal(s: &mut String, n: u128)
    ensures
        final(s)@ == old(s)@ + decimal(n as nat),
    decreases n,
{
    if n >= 10 {
        push_decimal(s, n / 10);
    }
    s.append(digit_str(n % 10));
    proof {
        assert(old(s)@ + decimal(n as nat) =~= s@);
    }
}

/// The decimal representation of `n`.
pub fn decimal_string(n: u128) -> (r: String)
    ensures
        r@ == decimal(n as nat),
{
    let mut s = String::new();
    push_decimal(&mut s, n);
    proof {
        assert(s@ =~= decimal(n as nat));
    }
    s
}

/// Appends `n` in decimal, left-padded with zeros to `width` digits.
pub fn push_zero_padded(s: &mut String, n: u128, width: usize)
    ensures
        final(s)@ == old(s)@ + zero_padded(n as nat, width as nat),
{
    let digits = decimal_string(n);
    let len = digits.as_str().unicode_len();
    proof {
        reveal_strlit("0");
        assert(s@ =~= old(s)@ + Seq::new(0, |i: int| '0'));
    }
    let mut k = len;
    while k < width
        invariant
            len == decimal(n as nat).len(),
            len <= k <= width || (len > width && k == len),
            s@ == old(s)@ + Seq::new((k - len) as nat, |i: int| '0'),
        decreases width - k,
    {
        s.append("0");
        k = k + 1;
        proof {
            reveal_strlit("0");
            assert(s@ =~= old(s)@ + Seq::new((k - len) as nat, |i: int| '0'));
        }
    }
    s.append(digits.as_str());
    proof {
        if len >= width {
            assert(s@ =~= old(s)@ + zero_padded(n as nat, width as nat));
        } else {
            assert(k == width);
            assert(s@ =~= old(s)@ + zero_padded(n as nat, width as nat));
        }
    }
}

/// Calls `str::to_lowercase`; the result depends on `s` alone.
#[verifier::external_body]
pub fn to_lowercase(s: &str) -> (r: String)
    ensures
        r@ == lowercased(s@),
{
    s.to_lowercase()
}

} // verus!
