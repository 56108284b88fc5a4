use vstd::prelude::*;

verus! {

/// The decimal digit character for `d` (`d < 10`).
pub open spec fn digit_char(d: nat) -> char {
    ((48 + d) as u8) as char
}

/// Decimal rendering of `n`, most significant digit first, no leading zeros.
pub open spec fn dec_digits(n: nat) -> Seq<char>
    decreases n,
{
    if n < 10 {
        seq![digit_char(n)]
    } else {
        dec_digits(n / 10) + seq![digit_char(n % 10)]
    }
}

pub open spec fn is_digit(c: char) -> bool {
    '0' <= c && c <= '9'
}

pub open spec fn digit_val(c: char) -> nat {
    (c as u32 - 48) as nat
}

/// The numeric value of a digit string, most significant digit first.
pub open spec fn dec_value(s: Seq<char>) -> nat
    decreases s.len(),
{
    if s.len() == 0 {
        0
    } else {
        dec_value(s.drop_last()) * 10 + digit_val(s.last())
    }
}

pub proof fn lemma_dec_digits_are_digits(n: nat)
    ensures
        dec_digits(n).len() >= 1,
        forall|k: int| 0 <= k < dec_digits(n).len() ==> is_digit(#[trigger] dec_digits(n)[k]),
        dec_digits(n)[0] == '0' ==> n == 0,
    decreases n,
{
    if n >= 10 {
        lemma_dec_digits_are_digits(n / 10);
    }
}

/// Rendering a number and reading it back yields the same number.
pub proof fn lemma_dec_value_of_digits(n: nat)
    ensures
        dec_value(dec_digits(n)) == n,
    decreases n,
{
    if n < 10 {
        let s: Seq<char> = seq![digit_char(n)];
        assert(dec_digits(n) == s);
        assert(s.drop_last() =~= Seq::<char>::empty());
        assert(dec_value(Seq::<char>::empty()) == 0);
        assert(dec_value(s) == dec_value(s.drop_last()) * 10 + digit_val(s.last()));
        assert(dec_value(s) == digit_val(digit_char(n)));
    } else {
        lemma_dec_value_of_digits(n / 10);
        let s = dec_digits(n);
        assert(s == dec_digits(n / 10) + seq![digit_char(n % 10)]);
        assert(s.drop_last() == dec_digits(n / 10));
        assert(s.last() == digit_char(n % 10));
    }
}

/// Appends the decimal rendering of `n` to `out`.
pub fn push_dec_u64(n: u64, out: &mut Vec<char>)
    ensures
        final(out)@ == old(out)@ + dec_digits(n as nat),
    decreases n,
{
    if n < 10 {
        out.push(((48 + n as u8)) as char);
    } else {
        push_dec_u64(n / 10, out);
        let ghost mid = out@;
        out.push((48 + (n % 10) as u8) as char);
        proof {
            assert(out@ == mid + seq![digit_char((n % 10) as nat)]);
            assert(out@ == old(out)@ + dec_digits(n as nat));
        }
    }
}

/// The decimal rendering of `n` as a fresh string.
pub fn u64_to_dec_string(n: u64) -> (r: String)
    ensures
        r@ == dec_digits(n as nat),
{
    let mut out: Vec<char> = Vec::new();
    push_dec_u64(n, &mut out);
    chars_to_string(&out)
}

/// Reads a decimal digit string as a `u8` value.  Rejects empty input,
/// non-digits, redundant leading zeros, and values above 255.
pub fn parse_dec_u8(s: &Vec<char>) -> (r: Option<u8>)
    ensures
        r matches Some(b) ==> s@ == dec_digits(b as nat),
        r is None ==> !(exists|b: u8| s@ == dec_digits(b as nat)),
{
    if s.len() < 1 || s.len() > 3 {
        proof {
            if exists|b: u8| s@ == dec_digits(b as nat) {
                let b = choose|b: u8| s@ == dec_digits(b as nat);
                lemma_dec_digits_are_digits(b as nat);
                lemma_dec_digits_len_le3(b as nat);
            }
        }
        return None;
    }
    if s.len() > 1 && s[0] == '0' {
        proof {
            if exists|b: u8| s@ == dec_digits(b as nat) {
                let b = choose|b: u8| s@ == dec_digits(b as nat);
                lemma_dec_digits_are_digits(b as nat);
                assert(b == 0);
                assert(dec_digits(0) == seq![digit_char(0)]);
            }
        }
        return None;
    }
    let mut value: u32 = 0;
    let mut k: usize = 0;
    while k < s.len()
        invariant
            0 <= k <= s.len(),
            1 <= s.len() <= 3,
            forall|j: int| 0 <= j < k ==> is_digit(#[trigger] s@[j]),
            value == dec_value(s@.subrange(0, k as int)),
            k == 0 ==> value == 0,
            k == 1 ==> value <= 9,
            k == 2 ==> value <= 99,
            k == 3 ==> value <= 999,
        decreases s.len() - k,
    {
        let c = s[k];
        if !('0' <= c && c <= '9') {
            proof {
                if exists|b: u8| s@ == dec_digits(b as nat) {
                    let b = choose|b: u8| s@ == dec_digits(b as nat);
                    lemma_dec_digits_are_digits(b as nat);
                }
            }
            return None;
        }
        proof {
            assert(s@.subrange(0, k + 1int).drop_last() == s@.subrange(0, k as int));
            assert(s@.subrange(0, k + 1int).last() == s@[k as int]);
        }
        value = value * 10 + (c as u32 - 48);
        k = k + 1;
    }
    proof {
        assert(s@.subrange(0, s@.len() as int) == s@);
    }
    if value <= 255 {
        let b = value as u8;
        proof {
            lemma_dec_digits_unique(s@, b as nat);
        }
        Some(b)
    } else {
        proof {
            if exists|b: u8| s@ == dec_digits(b as nat) {
                let b = choose|b: u8| s@ == dec_digits(b as nat);
                lemma_dec_value_of_digits(b as nat);
            }
        }
        None
    }
}

/// A digit string with no redundant leading zero and value `n` is exactly
/// `dec_digits(n)`.
proof fn lemma_dec_digits_unique(s: Seq<char>, n: nat)
    requires
        s.len() >= 1,
        forall|j: int| 0 <= j < s.len() ==> is_digit(#[trigger] s[j]),
        !(s.len() > 1 && s[0] == '0'),
        dec_value(s) == n,
    ensures
        s == dec_digits(n),
    decreases s.len(),
{
    if s.len() == 1 {
        assert(s.drop_last() =~= Seq::<char>::empty());
        assert(dec_value(Seq::<char>::empty()) == 0);
        assert(dec_value(s) == dec_value(s.drop_last()) * 10 + digit_val(s.last()));
        assert(s.last() == s[0]);
        assert(n == digit_val(s[0]));
        assert(n < 10);
        assert(dec_digits(n) == seq![digit_char(n)]);
        assert(s == seq![s[0]]);
        assert(digit_char(digit_val(s[0])) == s[0]);
    } else {
        let front = s.drop_last();
        assert(forall|j: int| 0 <= j < front.len() ==> is_digit(#[trigger] front[j]));
        lemma_dec_value_pos(front);
        let m = dec_value(front);
        lemma_dec_digits_unique(front, m);
        assert(n == m * 10 + digit_val(s.last()));
        assert(m >= 1);
        assert(n >= 10);
        assert(n / 10 == m && n % 10 == digit_val(s.last())) by (nonlinear_arith)
            requires
                n == m * 10 + digit_val(s.last()),
                digit_val(s.last()) < 10,
        ;
        assert(digit_char(digit_val(s.last())) == s.last());
        assert(dec_digits(n) == dec_digits(m) + seq![digit_char((n % 10) as nat)]);
        assert(s == front + seq![s.last()]);
    }
}

/// A digit string that does not start with '0' has a positive value.
proof fn lemma_dec_value_pos(s: Seq<char>)
    requires
        s.len() >= 1,
        forall|j: int| 0 <= j < s.len() ==> is_digit(#[trigger] s[j]),
        s[0] != '0',
    ensures
        dec_value(s) >= 1,
    decreases s.len(),
{
    if s.len() == 1 {
        assert(digit_val(s[0]) >= 1);
    } else {
        lemma_dec_value_pos(s.drop_last());
    }
}

proof fn lemma_dec_digits_len_le3(n: nat)
    requires
        n < 1000,
    ensures
        dec_digits(n).len() <= 3,
        n > 255 ==> dec_digits(n).len() == 3,
{
    if n >= 100 {
        assert(dec_digits(n) == dec_digits(n / 10) + seq![digit_char(n % 10)]);
        assert(dec_digits(n / 10) == dec_digits(n / 10 / 10) + seq![digit_char(n / 10 % 10)]);
        assert(dec_digits(n / 10 / 10) == seq![digit_char(n / 10 / 10)]);
    } else if n >= 10 {
        assert(dec_digits(n) == dec_digits(n / 10) + seq![digit_char(n % 10)]);
        assert(dec_digits(n / 10) == seq![digit_char(n / 10)]);
    } else {
        assert(dec_digits(n) == seq![digit_char(n)]);
    }
}

/// Relies on `FromIterator for String`: collecting chars yields the string
/// of exactly those chars.
#[verifier::external_body]
pub fn chars_to_string(v: &Vec<char>) -> (r: String)
    ensures
        r@ == v@,
{
    v.iter().collect()
}

/// Relies on `str` equality: two strings are equal exactly when their
/// characters are.
#[verifier::external_body]
pub fn str_eq(a: &str, b: &str) -> (r: bool)
    ensures
        r == (a@ == b@),
{
    a == b
}

/// Relies on `str::chars`: iterating a string yields its chars in order.
#[verifier::external_body]
pub fn str_to_chars(s: &str) -> (r: Vec<char>)
    ensures
        r@ == s@,
{
    s.chars().collect()
}

} // verus!
