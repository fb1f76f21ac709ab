//! Text helpers: keys that name an array index, and joining.
use vstd::prelude::*;
use vstd::string::is_ascii_spec_bytes;

verus! {

/// The byte of the plus sign.
const PLUS: u8 = 43;

/// The byte of the digit zero.
const ZERO: u8 = 48;

/// The byte of the digit nine.
const NINE: u8 = 57;

/// An ASCII decimal digit.
pub open spec fn is_digit(c: char) -> bool {
    '0' <= c <= '9'
}

/// What a decimal digit counts for.
pub open spec fn digit_value(c: char) -> nat {
    (c as u32 - 48) as nat
}

/// Every character is a decimal digit.
pub open spec fn all_digits(s: Seq<char>) -> bool {
    forall|i: int| 0 <= i < s.len() ==> is_digit(#[trigger] s[i])
}

/// The natural number that a run of decimal digits writes.
pub open spec fn decimal_value(s: Seq<char>) -> nat
    decreases s.len(),
{
    if s.len() == 0 {
        0
    } else {
        10 * decimal_value(s.drop_last()) + digit_value(s.last())
    }
}

/// The key without one leading plus sign.
pub open spec fn unsigned_part(s: Seq<char>) -> Seq<char> {
    if s.len() > 0 && s[0] == '+' {
        s.subrange(1, s.len() as int)
    } else {
        s
    }
}

/// The index that a key names: an optional plus sign, then one or more
/// decimal digits whose value fits `usize`. Anything else names no index.
pub open spec fn parse_index(s: Seq<char>) -> Option<usize> {
    let d = unsigned_part(s);
    if d.len() > 0 && all_digits(d) && decimal_value(d) <= usize::MAX {
        Some(decimal_value(d) as usize)
    } else {
        None
    }
}

/// Reading one more digit multiplies by ten and adds it.
proof fn lemma_decimal_step(d: Seq<char>, j: int)
    requires
        0 <= j < d.len(),
    ensures
        decimal_value(d.subrange(0, j + 1)) == 10 * decimal_value(d.subrange(0, j)) + digit_value(
            d[j],
        ),
{
    let p = d.subrange(0, j + 1);
    assert(p.drop_last() =~= d.subrange(0, j));
}

/// A run of digits counts for at least as much as each of its prefixes.
proof fn lemma_decimal_prefix(d: Seq<char>, j: int)
    requires
        0 <= j <= d.len(),
    ensures
        decimal_value(d.subrange(0, j)) <= decimal_value(d),
    decreases d.len() - j,
{
    if j == d.len() {
        assert(d.subrange(0, j) =~= d);
    } else {
        lemma_decimal_step(d, j);
        lemma_decimal_prefix(d, j + 1);
    }
}

/// The index that `key` names, if it names one.
pub fn index_from_key(key: &str) -> (r: Option<usize>)
    ensures
        r == parse_index(key@),
{
    let ghost d = unsigned_part(key@);
    if !key.is_ascii() {
        proof {
            let i = choose|i: int| 0 <= i < key@.len() && !('\0' <= #[trigger] key@[i] <= '\u{7f}');
            if d.len() != key@.len() {
                assert(!is_digit(d[i - 1]));
            }
        }
        return None;
    }
    let bytes = key.as_bytes();
    proof {
        is_ascii_spec_bytes(key);
    }
    let n: usize = bytes.len();
    let start: usize = if n > 0 && bytes[0] == PLUS {
        1
    } else {
        0
    };
    if start == n {
        return None;
    }
    let mut acc: usize = 0;
    let mut i: usize = start;
    while i < n
        invariant
            start <= i <= n,
            n == key@.len(),
            bytes@ =~= Seq::new(key@.len(), |k: int| key@[k] as u8),
            key.is_ascii(),
            d == unsigned_part(key@),
            d =~= key@.subrange(start as int, n as int),
            all_digits(d.subrange(0, i - start)),
            acc == decimal_value(d.subrange(0, i - start)),
        decreases n - i,
    {
        let b: u8 = bytes[i];
        let ghost j = i - start;
        if b < ZERO || b > NINE {
            assert(!is_digit(d[j]));
            return None;
        }
        let digit: usize = (b - ZERO) as usize;
        proof {
            lemma_decimal_step(d, j);
            lemma_decimal_prefix(d, j + 1);
        }
        if acc > (usize::MAX - digit) / 10 {
            return None;
        }
        acc = acc * 10 + digit;
        i += 1;
        assert(all_digits(d.subrange(0, i - start)));
    }
    assert(d.subrange(0, i - start) =~= d);
    Some(acc)
}

/// Whether two pieces of text hold the same characters.
pub fn same_text(a: &str, b: &str) -> (r: bool)
    ensures
        r == (a@ == b@),
{
    let left = String::from_str(a);
    let right = String::from_str(b);
    left == right
}

} // verus!
