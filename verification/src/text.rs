//! Strings: equality, the byte-wise order that timestamps are compared by,
//! and numbers in decimal.

use vstd::prelude::*;
use vstd::std_specs::iter::IteratorSpec;
use vstd::string::*;
use vstd::utf8::*;

verus! {

/// `a` and `b` agree on their first `k` bytes.
pub open spec fn common_prefix(a: Seq<u8>, b: Seq<u8>, k: int) -> bool {
    &&& 0 <= k <= a.len()
    &&& k <= b.len()
    &&& forall|j: int| 0 <= j < k ==> a[j] == b[j]
}

/// Lexicographic "strictly less" on byte strings: after a common prefix
/// either `a` ends and `b` goes on, or `a` has the smaller byte.
pub open spec fn bytes_lt(a: Seq<u8>, b: Seq<u8>) -> bool {
    exists|k: int| #[trigger]
        common_prefix(a, b, k) && k < b.len() && (k == a.len() || a[k] < b[k])
}

/// The order of two strings: that of their UTF-8 encodings, byte by byte.
pub open spec fn str_lt(a: Seq<char>, b: Seq<char>) -> bool {
    bytes_lt(encode_utf8(a), encode_utf8(b))
}

/// Two strings with the same encoding are the same string.
pub proof fn lemma_encoding_injective(a: Seq<char>, b: Seq<char>)
    requires
        encode_utf8(a) == encode_utf8(b),
    ensures
        a == b,
{
    encode_utf8_decode_utf8(a);
    encode_utf8_decode_utf8(b);
}

/// No byte string is less than itself.
pub proof fn lemma_bytes_lt_irreflexive(a: Seq<u8>)
    ensures
        !bytes_lt(a, a),
{
}

/// Of two byte strings that differ, one is less than the other.
pub proof fn lemma_bytes_lt_total(a: Seq<u8>, b: Seq<u8>)
    ensures
        a == b || bytes_lt(a, b) || bytes_lt(b, a),
    decreases a.len(),
{
    if a.len() == 0 {
        if b.len() > 0 {
            assert(common_prefix(a, b, 0));
        } else {
            assert(a =~= b);
        }
    } else if b.len() == 0 {
        assert(common_prefix(b, a, 0));
    } else if a[0] != b[0] {
        assert(common_prefix(a, b, 0));
        assert(common_prefix(b, a, 0));
    } else {
        let x = a.drop_first();
        let y = b.drop_first();
        lemma_bytes_lt_total(x, y);
        if x == y {
            assert(a.len() == x.len() + 1 && b.len() == y.len() + 1);
            assert forall|j: int| 0 <= j < a.len() implies a[j] == b[j] by {
                if j > 0 {
                    assert(a[j] == x[j - 1]);
                    assert(b[j] == y[j - 1]);
                }
            }
            assert(a =~= b);
        } else if bytes_lt(x, y) {
            let k = choose|k: int| #[trigger]
                common_prefix(x, y, k) && k < y.len() && (k == x.len() || x[k] < y[k]);
            assert forall|j: int| 0 <= j < k + 1 implies a[j] == b[j] by {
                if j > 0 {
                    assert(x[j - 1] == y[j - 1]);
                }
            }
            assert(common_prefix(a, b, k + 1));
            if k < x.len() {
                assert(a[k + 1] == x[k]);
                assert(b[k + 1] == y[k]);
            }
        } else {
            let k = choose|k: int| #[trigger]
                common_prefix(y, x, k) && k < x.len() && (k == y.len() || y[k] < x[k]);
            assert forall|j: int| 0 <= j < k + 1 implies b[j] == a[j] by {
                if j > 0 {
                    assert(y[j - 1] == x[j - 1]);
                }
            }
            assert(common_prefix(b, a, k + 1));
            if k < y.len() {
                assert(a[k + 1] == x[k]);
                assert(b[k + 1] == y[k]);
            }
        }
    }
}

/// The byte order is transitive.
pub proof fn lemma_bytes_lt_transitive(a: Seq<u8>, b: Seq<u8>, c: Seq<u8>)
    requires
        bytes_lt(a, b),
        bytes_lt(b, c),
    ensures
        bytes_lt(a, c),
{
    let k = choose|k: int| #[trigger]
        common_prefix(a, b, k) && k < b.len() && (k == a.len() || a[k] < b[k]);
    let m = choose|m: int| #[trigger]
        common_prefix(b, c, m) && m < c.len() && (m == b.len() || b[m] < c[m]);
    let n = if k <= m { k } else { m };
    assert(common_prefix(a, c, n));
}

/// The byte order is asymmetric.
pub proof fn lemma_bytes_lt_asymmetric(a: Seq<u8>, b: Seq<u8>)
    requires
        bytes_lt(a, b),
    ensures
        !bytes_lt(b, a),
{
    if bytes_lt(b, a) {
        lemma_bytes_lt_transitive(a, b, a);
        lemma_bytes_lt_irreflexive(a);
    }
}

/// Whether two strings hold the same characters.
pub fn str_eq(a: &str, b: &str) -> (r: bool)
    ensures
        r == (a@ == b@),
{
    let x = a.as_bytes();
    let y = b.as_bytes();
    if x.len() != y.len() {
        return false;
    }
    let mut i: usize = 0;
    while i < x.len()
        invariant
            0 <= i <= x.len(),
            x.len() == y.len(),
            x@ == encode_utf8(a@),
            y@ == encode_utf8(b@),
            forall|j: int| 0 <= j < i ==> x@[j] == y@[j],
        decreases x.len() - i,
    {
        if x[i] != y[i] {
            return false;
        }
        i += 1;
    }
    proof {
        assert(x@ =~= y@);
        lemma_encoding_injective(a@, b@);
    }
    true
}

/// Whether `a` comes strictly before `b` in the byte order.
pub fn str_less(a: &str, b: &str) -> (r: bool)
    ensures
        r == str_lt(a@, b@),
{
    let x = a.as_bytes();
    let y = b.as_bytes();
    let mut i: usize = 0;
    while i < x.len() && i < y.len()
        invariant
            common_prefix(x@, y@, i as int),
            x@ == encode_utf8(a@),
            y@ == encode_utf8(b@),
        decreases x.len() - i,
    {
        if x[i] != y[i] {
            let less = x[i] < y[i];
            proof {
                if less {
                    assert(common_prefix(x@, y@, i as int));
                } else {
                    assert(common_prefix(y@, x@, i as int));
                    assert(bytes_lt(y@, x@));
                    lemma_bytes_lt_asymmetric(y@, x@);
                }
            }
            return less;
        }
        i += 1;
    }
    let less = i < y.len();
    proof {
        if less {
            assert(common_prefix(x@, y@, i as int));
        } else if i < x.len() {
            assert(common_prefix(y@, x@, i as int));
            assert(bytes_lt(y@, x@));
            lemma_bytes_lt_asymmetric(y@, x@);
        } else {
            assert(x@ =~= y@);
            lemma_bytes_lt_irreflexive(x@);
        }
    }
    less
}

/// The characters of a string, one by one.
pub fn chars_of(s: &str) -> (out: Vec<char>)
    ensures
        out@ == s@,
{
    let mut out: Vec<char> = Vec::new();
    let mut it = s.chars();
    loop
        invariant
            out@ + it.remaining() == s@,
            it.decrease() is Some,
        ensures
            out@ == s@,
        decreases it.decrease()->0,
    {
        match it.next() {
            Some(c) => {
                out.push(c);
            },
            None => {
                break;
            },
        }
    }
    out
}

/// Whether a character is one of the ten decimal digits.
pub open spec fn is_digit(c: char) -> bool {
    '0' <= c && c <= '9'
}

/// The number that a decimal digit stands for.
pub open spec fn digit_value(c: char) -> nat {
    (c as u32 - '0' as u32) as nat
}

/// Whether a sequence holds decimal digits only.
pub open spec fn all_digits(s: Seq<char>) -> bool {
    forall|i: int| 0 <= i < s.len() ==> is_digit(#[trigger] s[i])
}

/// The number that a sequence of decimal digits writes, most significant
/// digit first.
pub open spec fn decimal_value(digits: Seq<char>) -> nat
    decreases digits.len(),
{
    if digits.len() == 0 {
        0
    } else {
        decimal_value(digits.drop_last()) * 10 + digit_value(digits.last())
    }
}

/// The `u64` that a string writes in decimal: defined where the string is
/// not empty, holds digits only, and the number fits.
pub open spec fn unsigned_value(s: Seq<char>) -> Option<u64> {
    if s.len() > 0 && all_digits(s) && decimal_value(s) <= u64::MAX {
        Some(decimal_value(s) as u64)
    } else {
        None
    }
}

/// A prefix of a digit string writes a number that is no larger.
pub proof fn lemma_decimal_value_prefix(s: Seq<char>, k: int)
    requires
        0 <= k <= s.len(),
    ensures
        decimal_value(s.take(k)) <= decimal_value(s),
    decreases s.len() - k,
{
    if k < s.len() {
        lemma_decimal_value_prefix(s, k + 1);
        assert(s.take(k + 1).drop_last() =~= s.take(k));
    } else {
        assert(s.take(k) =~= s);
    }
}

/// Reads the characters from position `from` on as a decimal `u64`. There
/// is no number where `from` is past the end.
pub fn parse_unsigned(chars: &Vec<char>, from: usize) -> (r: Option<u64>)
    ensures
        r == (if from <= chars.len() {
            unsigned_value(chars@.subrange(from as int, chars.len() as int))
        } else {
            None
        }),
{
    if from > chars.len() {
        return None;
    }
    let ghost s = chars@.subrange(from as int, chars.len() as int);
    let mut value: u64 = 0;
    let mut i: usize = from;
    while i < chars.len()
        invariant
            from <= i <= chars.len(),
            s == chars@.subrange(from as int, chars.len() as int),
            all_digits(s.take(i - from)),
            value == decimal_value(s.take(i - from)),
        decreases chars.len() - i,
    {
        let c = chars[i];
        if !(c >= '0' && c <= '9') {
            proof {
                assert(s[i - from] == c);
            }
            return None;
        }
        let d: u64 = (c as u32 - '0' as u32) as u64;
        proof {
            assert(s.take(i - from + 1).drop_last() =~= s.take(i - from));
            assert(s.take(i - from + 1).last() == c);
        }
        if value > (u64::MAX - d) / 10 {
            proof {
                lemma_decimal_value_prefix(s, i - from + 1);
            }
            return None;
        }
        value = value * 10 + d;
        i += 1;
    }
    proof {
        assert(s.take(i - from) =~= s);
    }
    if i == from {
        None
    } else {
        Some(value)
    }
}

/// The character sequences of a list of strings.
pub open spec fn strings_view(strings: Seq<String>) -> Seq<Seq<char>> {
    Seq::new(strings.len(), |i: int| strings[i]@)
}

/// Appending a string to a list appends its characters to the list's value.
pub proof fn lemma_strings_view_push(strings: Seq<String>, s: String)
    ensures
        strings_view(strings.push(s)) == strings_view(strings).push(s@),
{
    assert(strings_view(strings.push(s)) =~= strings_view(strings).push(s@));
}

/// Whether a list of strings holds the given one.
pub fn contains_str(strings: &Vec<String>, s: &str) -> (r: bool)
    ensures
        r == strings_view(strings@).contains(s@),
{
    let mut i: usize = 0;
    while i < strings.len()
        invariant
            0 <= i <= strings.len(),
            forall|j: int| 0 <= j < i ==> strings_view(strings@)[j] != s@,
        decreases strings.len() - i,
    {
        if str_eq(strings[i].as_str(), s) {
            proof {
                assert(strings_view(strings@)[i as int] == s@);
            }
            return true;
        }
        i += 1;
    }
    false
}

/// Whether two lists hold the same strings in the same order.
pub fn same_strings(a: &Vec<String>, b: &Vec<String>) -> (r: bool)
    ensures
        r == (strings_view(a@) == strings_view(b@)),
{
    if a.len() != b.len() {
        proof {
            assert(strings_view(a@).len() != strings_view(b@).len());
        }
        return false;
    }
    let mut i: usize = 0;
    while i < a.len()
        invariant
            0 <= i <= a.len(),
            a.len() == b.len(),
            forall|j: int| 0 <= j < i ==> strings_view(a@)[j] == strings_view(b@)[j],
        decreases a.len() - i,
    {
        if !str_eq(a[i].as_str(), b[i].as_str()) {
            proof {
                assert(strings_view(a@)[i as int] != strings_view(b@)[i as int]);
            }
            return false;
        }
        i += 1;
    }
    proof {
        assert(strings_view(a@) =~= strings_view(b@));
    }
    true
}

/// A list without its repetitions: each string stays where it first stood.
pub open spec fn distinct(strings: Seq<Seq<char>>) -> Seq<Seq<char>>
    decreases strings.len(),
{
    if strings.len() == 0 {
        Seq::empty()
    } else {
        let before = distinct(strings.drop_last());
        if before.contains(strings.last()) {
            before
        } else {
            before.push(strings.last())
        }
    }
}

/// The character of a decimal digit.
pub open spec fn digit_char(d: nat) -> char {
    if d == 0 {
        '0'
    } else if d == 1 {
        '1'
    } else if d == 2 {
        '2'
    } else if d == 3 {
        '3'
    } else if d == 4 {
        '4'
    } else if d == 5 {
        '5'
    } else if d == 6 {
        '6'
    } else if d == 7 {
        '7'
    } else if d == 8 {
        '8'
    } else {
        '9'
    }
}

/// A number written in decimal, without leading zeros.
pub open spec fn decimal_text(n: nat) -> Seq<char>
    decreases n,
{
    if n < 10 {
        seq![digit_char(n)]
    } else {
        decimal_text(n / 10).push(digit_char(n % 10))
    }
}

/// A number written in decimal reads as itself.
pub proof fn lemma_decimal_text_value(n: nat)
    ensures
        decimal_text(n).len() > 0,
        all_digits(decimal_text(n)),
        decimal_value(decimal_text(n)) == n,
    decreases n,
{
    let d = digit_char(n % 10);
    assert(is_digit(d) && digit_value(d) == n % 10);
    if n < 10 {
        let text = decimal_text(n);
        assert(text.drop_last() =~= Seq::<char>::empty());
        assert(decimal_value(text.drop_last()) == 0);
    } else {
        lemma_decimal_text_value(n / 10);
        let before = decimal_text(n / 10);
        assert(before.push(d).drop_last() =~= before);
        assert forall|i: int| 0 <= i < before.push(d).len() implies is_digit(
            #[trigger] before.push(d)[i],
        ) by {
            if i < before.len() {
                assert(before.push(d)[i] == before[i]);
            }
        }
    }
}

/// The text of one decimal digit.
fn digit_str(d: u64) -> (r: &'static str)
    requires
        d < 10,
    ensures
        r@ == seq![digit_char(d as nat)],
{
    proof {
        reveal_strlit("0");
        reveal_strlit("1");
        reveal_strlit("2");
        reveal_strlit("3");
        reveal_strlit("4");
        reveal_strlit("5");
        reveal_strlit("6");
        reveal_strlit("7");
        reveal_strlit("8");
        reveal_strlit("9");
    }
    let r = if d == 0 {
        "0"
    } else if d == 1 {
        "1"
    } else if d == 2 {
        "2"
    } else if d == 3 {
        "3"
    } else if d == 4 {
        "4"
    } else if d == 5 {
        "5"
    } else if d == 6 {
        "6"
    } else if d == 7 {
        "7"
    } else if d == 8 {
        "8"
    } else {
        "9"
    };
    proof {
        assert(r@ =~= seq![digit_char(d as nat)]);
    }
    r
}

/// Writes a number in decimal at the end of a string.
pub fn push_decimal(out: &mut String, n: u64)
    ensures
        final(out)@ == old(out)@ + decimal_text(n as nat),
    decreases n,
{
    if n >= 10 {
        push_decimal(out, n / 10);
    }
    out.append(digit_str(n % 10));
    proof {
        let before = old(out)@;
        if n >= 10 {
            assert(before + decimal_text((n / 10) as nat) + seq![digit_char((n % 10) as nat)]
                =~= before + decimal_text(n as nat));
        }
    }
}

} // verus!
