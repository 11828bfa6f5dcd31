//! Character-level text utilities: moving between `String` and the
//! character buffers the verified code works on, and decimal numerals.

use vstd::prelude::*;

use vstd::string::StrSliceExecFns;

verus! {

/// Relies on std's FromIterator for String: the collected string holds
/// exactly the buffer's characters.
#[verifier::external_body]
pub fn chars_to_string(v: &Vec<char>) -> (s: String)
    ensures
        s@ == v@,
{
    v.iter().collect()
}

/// Relies on str::chars: the collected buffer holds exactly the string's
/// characters.
#[verifier::external_body]
pub fn str_to_chars(s: &str) -> (v: Vec<char>)
    ensures
        v@ == s@,
{
    s.chars().collect()
}

/// The decimal digit `d`, as a character.
pub open spec fn digit_char(d: int) -> char {
    (((d + 48) as u8) as char)
}

/// The decimal numeral of `n`, most significant digit first, no sign and no
/// leading zero.
pub open spec fn dec_str(n: nat) -> Seq<char>
    decreases n,
{
    if n < 10 {
        seq![digit_char(n as int)]
    } else {
        dec_str(n / 10) + seq![digit_char((n % 10) as int)]
    }
}

/// Append the decimal numeral of `n`.
pub fn push_u32_decimal(out: &mut Vec<char>, n: u32)
    ensures
        final(out)@ == old(out)@ + dec_str(n as nat),
    decreases n,
{
    if n < 10 {
        out.push(((n as u8) + 48) as char);
        assert(old(out)@ + seq![digit_char(n as int)] =~= out@);
    } else {
        push_u32_decimal(out, n / 10);
        out.push((((n % 10) as u8) + 48) as char);
        assert(old(out)@ + (dec_str((n / 10) as nat) + seq![digit_char((n % 10) as int)]) =~= (
        old(out)@ + dec_str((n / 10) as nat)) + seq![digit_char((n % 10) as int)]);
    }
}

/// A decimal digit.
pub open spec fn is_digit(c: char) -> bool {
    '0' <= c && c <= '9'
}

pub open spec fn digit_val(c: char) -> int {
    c as int - 48
}

/// The value of a digit string, most significant digit first.
pub open spec fn digits_val(s: Seq<char>) -> int
    decreases s.len(),
{
    if s.len() == 0 {
        0
    } else {
        digits_val(s.drop_last()) * 10 + digit_val(s.last())
    }
}

/// A string of digits only, at least one.
pub open spec fn all_digits(s: Seq<char>) -> bool {
    forall|i: int| 0 <= i < s.len() ==> is_digit(#[trigger] s[i])
}

/// The numeral body: what the numeral parser reads after an optional
/// leading `+`, as std's unsigned parser accepts it.
pub open spec fn numeral_body(s: Seq<char>) -> Seq<char> {
    if s.len() > 0 && s[0] == '+' {
        s.skip(1)
    } else {
        s
    }
}

/// Whether `s` parses as a `u32`: an optional `+`, then digits only, at
/// least one, with a value in range.
pub open spec fn parses_as_u32(s: Seq<char>) -> bool {
    &&& numeral_body(s).len() > 0
    &&& all_digits(numeral_body(s))
    &&& digits_val(numeral_body(s)) <= u32::MAX
}

proof fn lemma_digits_val_nonneg(s: Seq<char>)
    requires
        all_digits(s),
    ensures
        digits_val(s) >= 0,
    decreases s.len(),
{
    if s.len() > 0 {
        assert(all_digits(s.drop_last())) by {
            assert(forall|i: int|
                0 <= i < s.drop_last().len() ==> #[trigger] s.drop_last()[i] == s[i]);
        }
        lemma_digits_val_nonneg(s.drop_last());
        assert(is_digit(s.last()));
    }
}

/// A longer digit string has at least the value of its prefix.
proof fn lemma_digits_val_grows(s: Seq<char>, j: int)
    requires
        all_digits(s),
        0 <= j <= s.len(),
    ensures
        digits_val(s) >= digits_val(s.take(j)),
    decreases s.len() - j,
{
    if j < s.len() {
        lemma_digits_val_grows(s, j + 1);
        let t = s.take(j + 1);
        assert(t.drop_last() =~= s.take(j));
        assert(t.last() == s[j]);
        assert(all_digits(s.take(j))) by {
            assert(forall|i: int| 0 <= i < j ==> #[trigger] s.take(j)[i] == s[i]);
        }
        lemma_digits_val_nonneg(s.take(j));
        assert(is_digit(s[j]));
        assert(digits_val(t) == digits_val(s.take(j)) * 10 + digit_val(s[j]));
        assert(digits_val(s.take(j)) * 10 >= digits_val(s.take(j))) by (nonlinear_arith)
            requires
                digits_val(s.take(j)) >= 0,
        ;
    } else {
        assert(s.take(j) =~= s);
    }
}

/// Parse a `u32` numeral as std's parser reads it: an optional leading
/// `+`, then decimal digits. `None` exactly where std's parser errs: an
/// empty body, a stray character, or a value out of range.
pub fn parse_u32(v: &Vec<char>, from: usize) -> (r: Option<u32>)
    requires
        from <= v@.len(),
    ensures
        r is Some <==> parses_as_u32(v@.skip(from as int)),
        r matches Some(x) ==> x == digits_val(numeral_body(v@.skip(from as int))),
{
    let ghost s = v@.skip(from as int);
    let n = v.len();
    let mut i: usize = from;
    if i < n && v[i] == '+' {
        i = i + 1;
        assert(numeral_body(s) =~= v@.skip(i as int));
    } else {
        assert(numeral_body(s) =~= v@.skip(i as int));
    }
    let ghost body = numeral_body(s);
    let start = i;
    if i == n {
        return None;
    }
    let mut acc: u32 = 0;
    while i < n
        invariant
            start <= i <= n,
            n == v@.len(),
            body == v@.skip(start as int),
            body == numeral_body(v@.skip(from as int)),
            all_digits(body.take(i - start)),
            acc == digits_val(body.take(i - start)),
        decreases n - i,
    {
        let c = v[i];
        if !(c >= '0' && c <= '9') {
            proof {
                assert(body[i - start] == v@[i as int]);
                assert(!is_digit(body[i - start]));
                assert(!all_digits(body));
            }
            return None;
        }
        let d = (c as u32) - 48;
        assert(d <= 9);
        if acc > (u32::MAX - d) / 10 {
            proof {
                let t = body.take(i - start + 1);
                assert(t.drop_last() =~= body.take(i - start));
                assert(t.last() == body[i - start]);
                assert(body[i - start] == v@[i as int]);
                assert(digits_val(t) == acc * 10 + d);
                assert(acc * 10 + d > u32::MAX) by (nonlinear_arith)
                    requires
                        acc > (u32::MAX - d) / 10,
                        d <= 9,
                ;
                if all_digits(body) && digits_val(body) <= u32::MAX {
                    lemma_digits_val_grows(body, i - start + 1);
                    assert(false);
                }
            }
            return None;
        }
        proof {
            assert(acc * 10 + d <= u32::MAX) by (nonlinear_arith)
                requires
                    acc <= (u32::MAX - d) / 10,
                    d <= 9,
            ;
        }
        acc = acc * 10 + d;
        proof {
            let t = body.take(i - start + 1);
            assert(t.drop_last() =~= body.take(i - start));
            assert(t.last() == body[i - start]);
            assert(body[i - start] == v@[i as int]);
            assert(is_digit(body[i - start]));
            assert(all_digits(t)) by {
                assert(forall|k: int|
                    0 <= k < t.len() - 1 ==> #[trigger] t[k] == body.take(i - start)[k]);
            }
        }
        i = i + 1;
    }
    assert(body.take(i - start) =~= body);
    assert(body.len() > 0);
    Some(acc)
}

/// Whether the characters of `v` are exactly the literal.
pub fn chars_eq_lit(v: &Vec<char>, s: &str) -> (r: bool)
    ensures
        r == (v@ == s@),
{
    let p = s.unicode_len();
    if v.len() != p {
        assert(v@ != s@);
        return false;
    }
    let mut i: usize = 0;
    while i < p
        invariant
            p == s@.len(),
            p == v@.len(),
            i <= p,
            forall|k: int| 0 <= k < i ==> v@[k] == s@[k],
        decreases p - i,
    {
        let c = v[i];
        if c != s.get_char(i) {
            assert(v@[i as int] != s@[i as int]);
            return false;
        }
        i = i + 1;
    }
    assert(v@ =~= s@);
    true
}

} // verus!
