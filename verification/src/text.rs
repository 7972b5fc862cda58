//! Text helpers: equality, ordering and concatenation of strings, and the
//! decimal reading and writing of 32-bit integers.

use vstd::prelude::*;

verus! {

/// The character that writes the decimal digit `d`.
pub open spec fn digit_char(d: int) -> char {
    if d == 0 { '0' }
    else if d == 1 { '1' }
    else if d == 2 { '2' }
    else if d == 3 { '3' }
    else if d == 4 { '4' }
    else if d == 5 { '5' }
    else if d == 6 { '6' }
    else if d == 7 { '7' }
    else if d == 8 { '8' }
    else { '9' }
}

/// Whether `c` is one of the ASCII digits `0` to `9`.
pub open spec fn is_digit(c: char) -> bool {
    '0' <= c && c <= '9'
}

/// The value of the ASCII digit `c`.
pub open spec fn digit_value(c: char) -> int {
    (c as int) - ('0' as int)
}

/// The decimal digits of `n`, most significant first, without leading zeros
/// (`0` is written as a single zero).
pub open spec fn digits_of(n: nat) -> Seq<char>
    decreases n,
{
    if n < 10 {
        seq![digit_char(n as int)]
    } else {
        digits_of(n / 10).push(digit_char((n % 10) as int))
    }
}

/// The decimal text of `n`, with a leading `-` when it is negative.
pub open spec fn decimal(n: int) -> Seq<char> {
    if n < 0 {
        seq!['-'] + digits_of((-n) as nat)
    } else {
        digits_of(n as nat)
    }
}

/// Whether every character of `s` is an ASCII digit.
pub open spec fn all_digits(s: Seq<char>) -> bool {
    forall|i: int| 0 <= i < s.len() ==> is_digit(#[trigger] s[i])
}

/// The number that a sequence of ASCII digits writes in base ten.
pub open spec fn digits_value(s: Seq<char>) -> nat
    decreases s.len(),
{
    if s.len() == 0 {
        0
    } else {
        (digits_value(s.drop_last()) * 10 + digit_value(s.last())) as nat
    }
}

/// What reading `s` as an `i32` gives: an optional `+` or `-`, then one or
/// more ASCII digits, whose value must fit in an `i32`.
pub open spec fn parse_i32_spec(s: Seq<char>) -> Option<i32> {
    let neg = s.len() > 0 && s[0] == '-';
    let digits = if s.len() > 0 && (s[0] == '-' || s[0] == '+') { s.drop_first() } else { s };
    if digits.len() == 0 || !all_digits(digits) {
        None
    } else {
        let v: int = if neg { -(digits_value(digits) as int) } else { digits_value(digits) as int };
        if i32::MIN <= v <= i32::MAX { Some(v as i32) } else { None }
    }
}

/// Strict lexicographic order on character sequences.
pub open spec fn text_less(a: Seq<char>, b: Seq<char>) -> bool
    decreases a.len(),
{
    if a.len() == 0 {
        b.len() > 0
    } else if b.len() == 0 {
        false
    } else if a[0] != b[0] {
        (a[0] as int) < (b[0] as int)
    } else {
        text_less(a.drop_first(), b.drop_first())
    }
}

/// Returns whether `a` and `b` hold the same characters.
pub fn same_text(a: &str, b: &str) -> (r: bool)
    ensures
        r == (a@ == b@),
{
    let n = a.unicode_len();
    let m = b.unicode_len();
    if n != m {
        return false;
    }
    let mut i: usize = 0;
    while i < n
        invariant
            n == a@.len(),
            m == b@.len(),
            n == m,
            i <= n,
            forall|j: int| 0 <= j < i ==> a@[j] == b@[j],
        decreases n - i,
    {
        if a.get_char(i) != b.get_char(i) {
            return false;
        }
        i = i + 1;
    }
    assert(a@ =~= b@);
    true
}

/// Returns the concatenation of `a` and `b`.
pub fn concat_text(a: &str, b: &str) -> (r: String)
    ensures
        r@ == a@ + b@,
{
    let mut s = String::new();
    s.append(a);
    s.append(b);
    assert(s@ =~= a@ + b@);
    s
}


proof fn lemma_less_step(a: Seq<char>, b: Seq<char>, i: int)
    requires
        0 <= i < a.len(),
        i < b.len(),
        a[i] == b[i],
    ensures
        text_less(a.skip(i), b.skip(i)) == text_less(a.skip(i + 1), b.skip(i + 1)),
{
    assert(a.skip(i).drop_first() =~= a.skip(i + 1));
    assert(b.skip(i).drop_first() =~= b.skip(i + 1));
}

/// Returns whether `a` comes strictly before `b` in lexicographic order.
pub fn text_is_less(a: &str, b: &str) -> (r: bool)
    ensures
        r == text_less(a@, b@),
{
    let n = a.unicode_len();
    let m = b.unicode_len();
    let mut i: usize = 0;
    assert(a@.skip(0) =~= a@);
    assert(b@.skip(0) =~= b@);
    while i < n && i < m
        invariant
            n == a@.len(),
            m == b@.len(),
            i <= n,
            i <= m,
            text_less(a@, b@) == text_less(a@.skip(i as int), b@.skip(i as int)),
        decreases n - i,
    {
        let x = a.get_char(i);
        let y = b.get_char(i);
        if x != y {
            assert(a@.skip(i as int)[0] == x);
            assert(b@.skip(i as int)[0] == y);
            return (x as u32) < (y as u32);
        }
        proof {
            lemma_less_step(a@, b@, i as int);
        }
        i = i + 1;
    }
    i == n && i < m
}

/// The text of the decimal digit `d`.
fn digit_text(d: u32) -> (r: &'static str)
    requires
        d < 10,
    ensures
        r@ == seq![digit_char(d as int)],
{
    if d == 0 {
        proof { reveal_strlit("0"); }
        "0"
    } else if d == 1 {
        proof { reveal_strlit("1"); }
        "1"
    } else if d == 2 {
        proof { reveal_strlit("2"); }
        "2"
    } else if d == 3 {
        proof { reveal_strlit("3"); }
        "3"
    } else if d == 4 {
        proof { reveal_strlit("4"); }
        "4"
    } else if d == 5 {
        proof { reveal_strlit("5"); }
        "5"
    } else if d == 6 {
        proof { reveal_strlit("6"); }
        "6"
    } else if d == 7 {
        proof { reveal_strlit("7"); }
        "7"
    } else if d == 8 {
        proof { reveal_strlit("8"); }
        "8"
    } else {
        proof { reveal_strlit("9"); }
        "9"
    }
}

/// Writes the decimal digits of `n`.
fn digits_text(n: u32) -> (s: String)
    ensures
        s@ == digits_of(n as nat),
    decreases n,
{
    if n < 10 {
        let mut s = String::new();
        s.append(digit_text(n));
        assert(s@ =~= digits_of(n as nat));
        s
    } else {
        let mut s = digits_text(n / 10);
        s.append(digit_text(n % 10));
        assert(s@ =~= digits_of(n as nat));
        s
    }
}

/// Writes `n` in decimal, as `i32::to_string` does.
pub fn i32_text(n: i32) -> (s: String)
    ensures
        s@ == decimal(n as int),
{
    if n < 0 {
        let m: u32 = if n == i32::MIN { 2147483648u32 } else { (-n) as u32 };
        let d = digits_text(m);
        let mut s = String::new();
        proof { reveal_strlit("-"); }
        s.append("-");
        s.append(d.as_str());
        assert(s@ =~= decimal(n as int));
        s
    } else {
        digits_text(n as u32)
    }
}

/// The text that `b.to_string()` gives.
pub open spec fn bool_text(b: bool) -> Seq<char> {
    if b { seq!['t', 'r', 'u', 'e'] } else { seq!['f', 'a', 'l', 's', 'e'] }
}

/// Writes `b` as `true` or `false`.
pub fn bool_to_text(b: bool) -> (s: String)
    ensures
        s@ == bool_text(b),
{
    let mut s = String::new();
    if b {
        proof { reveal_strlit("true"); }
        s.append("true");
    } else {
        proof { reveal_strlit("false"); }
        s.append("false");
    }
    assert(s@ =~= bool_text(b));
    s
}

proof fn lemma_digits_value_prefix(s: Seq<char>, k: int)
    requires
        all_digits(s),
        0 <= k <= s.len(),
    ensures
        digits_value(s.take(k)) <= digits_value(s),
    decreases s.len(),
{
    if k == s.len() {
        assert(s.take(k) =~= s);
    } else {
        let t = s.drop_last();
        assert(t.take(k) =~= s.take(k));
        assert(all_digits(t)) by {
            assert forall|i: int| 0 <= i < t.len() implies is_digit(#[trigger] t[i]) by {
                assert(t[i] == s[i]);
            }
        }
        lemma_digits_value_prefix(t, k);
        assert(is_digit(s[s.len() - 1]));
    }
}

/// Reads `s` as an `i32`, as `str::parse::<i32>` does: `None` where it
/// reports an error.
pub fn parse_i32(s: &str) -> (r: Option<i32>)
    ensures
        r == parse_i32_spec(s@),
{
    let n = s.unicode_len();
    if n == 0 {
        return None;
    }
    let first = s.get_char(0);
    let neg = first == '-';
    let start: usize = if first == '-' || first == '+' { 1 } else { 0 };
    let ghost digits = if first == '-' || first == '+' { s@.drop_first() } else { s@ };
    assert(digits =~= s@.subrange(start as int, n as int));
    if start == n {
        return None;
    }
    let mut acc: i64 = 0;
    let mut i: usize = start;
    assert(s@.subrange(start as int, start as int) =~= Seq::<char>::empty());
    while i < n
        invariant
            n == s@.len(),
            start <= i <= n,
            start < n,
            digits == s@.subrange(start as int, n as int),
            s@.len() > 0,
            digits == (if s@[0] == '-' || s@[0] == '+' { s@.drop_first() } else { s@ }),
            all_digits(s@.subrange(start as int, i as int)),
            acc == digits_value(s@.subrange(start as int, i as int)),
            0 <= acc <= 2147483648,
        decreases n - i,
    {
        let c = s.get_char(i);
        if !('0' <= c && c <= '9') {
            assert(digits[i - start] == c);
            assert(!is_digit(digits[i - start]));
            return None;
        }
        let d: i64 = (c as u32 - '0' as u32) as i64;
        let ghost prev = s@.subrange(start as int, i as int);
        let ghost next = s@.subrange(start as int, i + 1);
        assert(next.drop_last() =~= prev);
        assert(all_digits(next)) by {
            assert forall|j: int| 0 <= j < next.len() implies is_digit(#[trigger] next[j]) by {
                if j < prev.len() {
                    assert(next[j] == prev[j]);
                }
            }
        }
        acc = acc * 10 + d;
        i = i + 1;
        if acc > 2147483648 {
            proof {
                if all_digits(digits) {
                    assert(digits.take(i - start) =~= next);
                    lemma_digits_value_prefix(digits, i - start);
                }
            }
            return None;
        }
    }
    assert(digits =~= s@.subrange(start as int, i as int));
    let v: i64 = if neg { -acc } else { acc };
    if v < -2147483648 || v > 2147483647 {
        None
    } else {
        Some(v as i32)
    }
}


proof fn lemma_digits_of(n: nat)
    ensures
        digits_of(n).len() > 0,
        all_digits(digits_of(n)),
        digits_value(digits_of(n)) == n,
    decreases n,
{
    let k = (n % 10) as int;
    assert(digit_value(digit_char(k)) == k);
    if n < 10 {
        assert(digits_of(n).drop_last() =~= Seq::<char>::empty());
        assert(k == n);
        assert(digits_value(digits_of(n)) == digits_value(Seq::<char>::empty()) * 10 + k);
    } else {
        lemma_digits_of(n / 10);
        let d = digits_of(n);
        assert(d.drop_last() =~= digits_of(n / 10));
        assert(d.last() == digit_char(k));
        assert(digits_value(d) == digits_value(digits_of(n / 10)) * 10 + k);
        assert(n == (n / 10) * 10 + k);
        assert forall|i: int| 0 <= i < d.len() implies is_digit(#[trigger] d[i]) by {
            if i < d.len() - 1 {
                assert(d[i] == digits_of(n / 10)[i]);
            }
        }
    }
}

/// Reading back the decimal text of an `i32` gives the same number.
pub proof fn law_decimal_roundtrip(n: i32)
    ensures
        parse_i32_spec(decimal(n as int)) == Some(n),
{
    let m: nat = if n < 0 { (-n) as nat } else { n as nat };
    lemma_digits_of(m);
    let t = decimal(n as int);
    if n < 0 {
        assert(t.drop_first() =~= digits_of(m));
    } else {
        assert(t == digits_of(m));
        assert(is_digit(t[0]));
    }
}


/// Lexicographic order is a strict total order: of `a < b`, `a == b` and
/// `b < a`, exactly one holds.
pub proof fn law_text_order(a: Seq<char>, b: Seq<char>)
    ensures
        text_less(a, b) || a == b || text_less(b, a),
        text_less(a, b) ==> !text_less(b, a) && a != b,
    decreases a.len(),
{
    if a.len() == 0 {
        if b.len() == 0 {
            assert(a =~= b);
        }
    } else if b.len() == 0 {
    } else if a[0] != b[0] {
    } else {
        law_text_order(a.drop_first(), b.drop_first());
        if a.drop_first() == b.drop_first() {
            assert forall|i: int| 0 <= i < a.len() implies a[i] == b[i] by {
                if i > 0 {
                    assert(a[i] == a.drop_first()[i - 1]);
                    assert(b[i] == b.drop_first()[i - 1]);
                }
            }
            assert(a =~= b);
        }
    }
}

/// What decides the order of two texts: where `a` and `b` agree on their
/// first `k` characters, `a` comes first if it ends there while `b` goes
/// on, or if its next character has the smaller code.
pub proof fn law_text_less_decided(a: Seq<char>, b: Seq<char>, k: int)
    requires
        0 <= k <= a.len(),
        k <= b.len(),
        forall|i: int| 0 <= i < k ==> a[i] == b[i],
    ensures
        k == a.len() && k < b.len() ==> text_less(a, b),
        k < a.len() && k < b.len() && (a[k] as int) < (b[k] as int) ==> text_less(a, b),
    decreases k,
{
    if k > 0 {
        assert forall|i: int| 0 <= i < k - 1 implies a.drop_first()[i] == b.drop_first()[i] by {
            assert(a[i + 1] == b[i + 1]);
        }
        law_text_less_decided(a.drop_first(), b.drop_first(), k - 1);
        assert(a[0] == b[0]);
        if k < a.len() {
            assert(a.drop_first()[k - 1] == a[k]);
        }
        if k < b.len() {
            assert(b.drop_first()[k - 1] == b[k]);
        }
    }
}

} // verus!
