use vstd::prelude::*;

verus! {

pub open spec fn is_digit(c: char) -> bool {
    '0' <= c && c <= '9'
}

pub open spec fn digit_value(c: char) -> int {
    c as int - '0' as int
}

pub open spec fn digit_char(n: nat) -> char
    recommends
        n < 10,
{
    (n + '0' as nat) as char
}

/// The value of a sequence of decimal digits, most significant first.
pub open spec fn digits_value(s: Seq<char>) -> int
    decreases s.len(),
{
    if s.len() == 0 {
        0
    } else {
        digits_value(s.drop_last()) * 10 + digit_value(s.last())
    }
}

pub open spec fn all_digits(s: Seq<char>) -> bool {
    s.len() > 0 && forall|i: int| 0 <= i < s.len() ==> is_digit(#[trigger] s[i])
}

/// The integer that base-10 text denotes: optional `-`, then one or more digits.
pub open spec fn integer_value(s: Seq<char>) -> Option<int> {
    if s.len() > 0 && s[0] == '-' && all_digits(s.drop_first()) {
        Some(-digits_value(s.drop_first()))
    } else if all_digits(s) {
        Some(digits_value(s))
    } else {
        None
    }
}

pub open spec fn fits_i64(v: int) -> bool {
    i64::MIN <= v <= i64::MAX
}

/// The `i64` that base-10 text denotes, if it is well formed and in range.
pub open spec fn integer_of(s: Seq<char>) -> Option<i64> {
    match integer_value(s) {
        Some(v) => if fits_i64(v) {
            Some(v as i64)
        } else {
            None
        },
        None => None,
    }
}

/// Canonical decimal text of a natural number: no leading zeros.
pub open spec fn nat_text(n: nat) -> Seq<char>
    decreases n,
{
    if n < 10 {
        seq![digit_char(n)]
    } else {
        nat_text(n / 10).push(digit_char(n % 10))
    }
}

/// Canonical decimal text of an integer: `-` before a negative one.
pub open spec fn int_text(v: int) -> Seq<char> {
    if v < 0 {
        seq!['-'] + nat_text((-v) as nat)
    } else {
        nat_text(v as nat)
    }
}

/// Canonical decimal text is all digits and denotes its number.
pub proof fn lemma_nat_text(n: nat)
    ensures
        all_digits(nat_text(n)),
        digits_value(nat_text(n)) == n,
    decreases n,
{
    let t = nat_text(n);
    if n >= 10 {
        lemma_nat_text(n / 10);
        assert(t.drop_last() == nat_text(n / 10));
        assert(digit_value(digit_char(n % 10)) == n % 10);
        assert((n / 10) * 10 + n % 10 == n);
        assert forall|i: int| 0 <= i < t.len() implies is_digit(#[trigger] t[i]) by {
            if i < t.len() - 1 {
                assert(t[i] == nat_text(n / 10)[i]);
            }
        }
    } else {
        assert(t.drop_last() =~= Seq::<char>::empty());
        assert(digit_value(digit_char(n)) == n);
        assert(digits_value(t.drop_last()) == 0);
        assert(t.last() == digit_char(n));
    }
}

/// Reading back the canonical text of an `i64` gives the same `i64`.
pub proof fn lemma_int_text_round_trip(v: i64)
    ensures
        integer_of(int_text(v as int)) == Some(v),
{
    if v < 0 {
        let m = (-(v as int)) as nat;
        lemma_nat_text(m);
        let t = int_text(v as int);
        assert(t.drop_first() =~= nat_text(m));
    } else {
        lemma_nat_text(v as nat);
        assert(is_digit(nat_text(v as nat)[0]));
    }
}

proof fn lemma_digits_prefix(s: Seq<char>, k: int)
    requires
        0 <= k <= s.len(),
        forall|i: int| 0 <= i < s.len() ==> is_digit(#[trigger] s[i]),
    ensures
        digits_value(s) >= digits_value(s.take(k)) >= 0,
    decreases s.len(),
{
    if s.len() > 0 {
        let p = s.drop_last();
        if k == s.len() {
            assert(s.take(k) =~= s);
            lemma_digits_prefix(p, 0);
        } else {
            assert(p.take(k) =~= s.take(k));
            lemma_digits_prefix(p, k);
        }
        assert(is_digit(s[s.len() - 1]));
    } else {
        assert(s.take(k) =~= s);
    }
}

/// Reads base-10 integer text as an `i64`.
///
/// Fails on text that is not an optional `-` followed by digits, and on a
/// value outside the range of `i64`: it never wraps or truncates.
pub fn parse_integer(s: &str) -> (r: Option<i64>)
    ensures
        r == integer_of(s@),
{
    let len = s.unicode_len();
    let neg = len > 0 && s.get_char(0) == '-';
    let start: usize = if neg { 1 } else { 0 };
    if start == len {
        assert(!all_digits(s@));
        assert(neg ==> s@.drop_first().len() == 0);
        return None;
    }
    let limit: u64 = if neg { 9223372036854775808 } else { 9223372036854775807 };
    let ghost body = if neg { s@.drop_first() } else { s@ };
    assert(neg ==> s@[0] == '-');
    assert(!neg ==> (s@.len() == 0 || s@[0] != '-'));
    assert(body =~= s@.subrange(start as int, len as int));
    let mut acc: u64 = 0;
    let mut i: usize = start;
    while i < len
        invariant
            start <= i <= len,
            len == s@.len(),
            start < len,
            body == s@.subrange(start as int, len as int),
            body == if neg { s@.drop_first() } else { s@ },
            neg ==> s@[0] == '-',
            !neg ==> s@[0] != '-',
            start == if neg { 1usize } else { 0usize },
            limit == if neg { 9223372036854775808u64 } else { 9223372036854775807u64 },
            acc as int == digits_value(body.take(i - start)),
            acc <= limit,
            forall|j: int| 0 <= j < i - start ==> is_digit(#[trigger] body[j]),
        decreases len - i,
    {
        let c = s.get_char(i);
        assert(c == body[i - start]);
        if !('0' <= c && c <= '9') {
            assert(!is_digit(body[i - start]));
            assert(!all_digits(body));
            assert(neg ==> !is_digit(s@[0]));
            assert(neg ==> !all_digits(s@));
            assert(integer_value(s@).is_none());
            return None;
        }
        let d = (c as u32 - '0' as u32) as u64;
        assert(body.take(i - start + 1).drop_last() =~= body.take(i - start));
        let q = limit / 10;
        let m = limit % 10;
        assert(limit == q * 10 + m);
        if acc > q || (acc == q && d > m) {
            proof {
                assert(acc * 10 + d > limit) by (nonlinear_arith)
                    requires
                        acc > q || (acc == q && d > m),
                        limit == q * 10 + m,
                        0 <= m < 10,
                ;
                let k = i - start + 1;
                assert(digits_value(body.take(k)) == acc * 10 + d);
                if all_digits(body) {
                    lemma_digits_prefix(body, k);
                    assert(digits_value(body) > limit);
                }
                assert(integer_of(s@).is_none());
            }
            return None;
        }
        proof {
            assert(acc * 10 + d <= limit) by (nonlinear_arith)
                requires
                    !(acc > q || (acc == q && d > m)),
                    limit == q * 10 + m,
                    0 <= m < 10,
                    d <= 9,
            ;
        }
        acc = acc * 10 + d;
        i = i + 1;
    }
    assert(body.take(len - start) =~= body);
    assert(all_digits(body));
    if neg {
        if acc == 9223372036854775808 {
            Some(i64::MIN)
        } else {
            Some(-(acc as i64))
        }
    } else {
        assert(!(s@.len() > 0 && s@[0] == '-'));
        Some(acc as i64)
    }
}

/// Relies on the `Display` impl of `i64` (through `to_string`): base-10
/// digits without leading zeros, preceded by `-` when negative.
#[verifier::external_body]
pub(crate) fn integer_text(v: i64) -> (r: String)
    ensures
        r@ == int_text(v as int),
{
    v.to_string()
}

} // verus!
