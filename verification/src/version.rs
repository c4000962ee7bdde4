//! Ordering crate versions written as `major.minor.patch`.

use vstd::prelude::*;

use crate::text::{split_seq, split_str};

verus! {

/// True when `c` is an ASCII decimal digit.
pub open spec fn is_digit(c: char) -> bool {
    '0' <= c && c <= '9'
}

/// The value of a string of decimal digits.
pub open spec fn digits_value(s: Seq<char>) -> nat
    decreases s.len(),
{
    if s.len() == 0 {
        0
    } else {
        digits_value(s.drop_last()) * 10 + ((s.last() as u32 - '0' as u32) as nat)
    }
}

/// The digits of a `u64` literal as `str::parse::<u64>` reads it: an optional leading `+`.
pub open spec fn literal_digits(s: Seq<char>) -> Seq<char> {
    if s.len() > 0 && s[0] == '+' {
        s.drop_first()
    } else {
        s
    }
}

/// Whether `str::parse::<u64>` accepts `s`: an optional `+`, then at least one digit and
/// nothing else, with a value that fits in a `u64`.
pub open spec fn parses_u64(s: Seq<char>) -> bool {
    let d = literal_digits(s);
    &&& d.len() > 0
    &&& forall|i: int| 0 <= i < d.len() ==> is_digit(#[trigger] d[i])
    &&& digits_value(d) <= u64::MAX
}

/// The value `str::parse::<u64>` gives `s` where it accepts it.
pub open spec fn u64_value(s: Seq<char>) -> nat {
    digits_value(literal_digits(s))
}

/// `str::parse::<u64>`: the value of `s`, or `None` where it is no valid `u64` literal.
pub fn parse_u64(s: &str) -> (r: Option<u64>)
    ensures
        r is Some <==> parses_u64(s@),
        r matches Some(v) ==> v as nat == u64_value(s@),
{
    let chars = crate::text::chars_of(s);
    let mut i: usize = 0;
    if chars.len() > 0 && chars[0] == '+' {
        i = 1;
    }
    let ghost d = literal_digits(s@);
    assert(d =~= chars@.skip(i as int));
    if i >= chars.len() {
        return None;
    }
    let start = i;
    let mut value: u64 = 0;
    while i < chars.len()
        invariant
            chars@ == s@,
            start <= i <= chars@.len(),
            d == chars@.skip(start as int),
            d == literal_digits(s@),
            forall|j: int| 0 <= j < i - start ==> is_digit(#[trigger] d[j]),
            value as nat == digits_value(d.take(i - start)),
        decreases chars@.len() - i,
    {
        let c = chars[i];
        proof {
            assert(d.take(i + 1 - start).drop_last() =~= d.take(i - start));
            assert(d[i - start] == c);
        }
        if !('0' <= c && c <= '9') {
            assert(!is_digit(d[i - start]));
            return None;
        }
        let digit = (c as u32 - '0' as u32) as u64;
        match value.checked_mul(10) {
            Some(m) => match m.checked_add(digit) {
                Some(v) => {
                    value = v;
                },
                None => {
                    proof {
                        assert(digits_value(d.take(i + 1 - start)) > u64::MAX);
                        lemma_digits_value_prefix(d, i + 1 - start);
                        if parses_u64(s@) {
                            let k = choose|k: int| i + 1 - start <= k < d.len() && !is_digit(d[k]);
                            assert(is_digit(d[k]));
                        }
                    }
                    return None;
                },
            },
            None => {
                proof {
                    assert(digits_value(d.take(i + 1 - start)) > u64::MAX);
                    lemma_digits_value_prefix(d, i + 1 - start);
                    if parses_u64(s@) {
                        let k = choose|k: int| i + 1 - start <= k < d.len() && !is_digit(d[k]);
                        assert(is_digit(d[k]));
                    }
                }
                return None;
            },
        }
        i = i + 1;
    }
    assert(d.take(d.len() as int) =~= d);
    Some(value)
}

/// The value of a prefix of a digit string is no larger than the value of the whole.
pub proof fn lemma_digits_value_prefix(d: Seq<char>, n: int)
    requires
        0 <= n <= d.len(),
        forall|i: int| 0 <= i < n ==> is_digit(#[trigger] d[i]),
    ensures
        digits_value(d.take(n)) <= digits_value(d) || exists|i: int| n <= i < d.len() && !is_digit(d[i]),
    decreases d.len() - n,
{
    if n < d.len() {
        if is_digit(d[n]) {
            lemma_digits_value_prefix(d, n + 1);
            assert(d.take(n + 1).drop_last() =~= d.take(n));
        }
    } else {
        assert(d.take(n) =~= d);
    }
}

/// The pieces of a version string between its dots.
pub open spec fn version_parts(v: Seq<char>) -> Seq<Seq<char>> {
    split_seq(v, seq!['.'])
}

/// Whether ordering `v` cannot fail: it has not three dot-separated parts, or its three parts
/// are `u64` literals whose combined hash fits in a `u64`.
pub open spec fn version_hashable(v: Seq<char>) -> bool {
    let p = version_parts(v);
    p.len() != 3 || {
        &&& parses_u64(p[0])
        &&& parses_u64(p[1])
        &&& parses_u64(p[2])
        &&& ((u64_value(p[0]) as u64) << 16u64) as int + ((u64_value(p[1]) as u64) << 8u64) as int
            + u64_value(p[2]) <= u64::MAX
    }
}

/// The number versions are compared by: 0 unless the version has three dot-separated parts
/// `a.b.c`, else `(a << 16) + (b << 8) + c` with each shift in 64 bits.
pub open spec fn version_hash(v: Seq<char>) -> int {
    let p = version_parts(v);
    if p.len() != 3 {
        0
    } else {
        ((u64_value(p[0]) as u64) << 16u64) as int + ((u64_value(p[1]) as u64) << 8u64) as int
            + u64_value(p[2])
    }
}

/// Returns an integer that can be used to compare Semantic Versioning strings.
pub fn version_number_hash(version: &str) -> (r: u64)
    requires
        version_hashable(version@),
    ensures
        r as int == version_hash(version@),
{
    proof {
        reveal_strlit(".");
        assert("."@ =~= seq!['.']);
    }
    let slice = split_str(version, ".");
    if slice.len() != 3 {
        return 0;
    }
    let a = match parse_u64(slice[0].as_str()) {
        Some(a) => a,
        None => 0,
    };
    let b = match parse_u64(slice[1].as_str()) {
        Some(b) => b,
        None => 0,
    };
    let c = match parse_u64(slice[2].as_str()) {
        Some(c) => c,
        None => 0,
    };
    (a << 16) + (b << 8) + c
}

/// Whether `version_number_hash` can order `version` without failing: it is not made of three
/// dot-separated parts, or its parts are `u64` literals whose combined hash fits in a `u64`.
pub fn is_version_hashable(version: &str) -> (r: bool)
    ensures
        r == version_hashable(version@),
{
    proof {
        reveal_strlit(".");
        assert("."@ =~= seq!['.']);
    }
    let slice = split_str(version, ".");
    if slice.len() != 3 {
        return true;
    }
    let a = match parse_u64(slice[0].as_str()) {
        Some(a) => a,
        None => {
            return false;
        },
    };
    let b = match parse_u64(slice[1].as_str()) {
        Some(b) => b,
        None => {
            return false;
        },
    };
    let c = match parse_u64(slice[2].as_str()) {
        Some(c) => c,
        None => {
            return false;
        },
    };
    match (a << 16).checked_add(b << 8) {
        Some(ab) => ab.checked_add(c).is_some(),
        None => false,
    }
}

/// The numbers of a three-part version `major.minor.patch`.
pub open spec fn version_numbers(v: Seq<char>) -> (nat, nat, nat) {
    let p = version_parts(v);
    (u64_value(p[0]), u64_value(p[1]), u64_value(p[2]))
}

/// Whether the numbers `a` come before the numbers `b`: by major, then minor, then patch.
pub open spec fn numbers_before(a: (nat, nat, nat), b: (nat, nat, nat)) -> bool {
    ||| a.0 < b.0
    ||| a.0 == b.0 && a.1 < b.1
    ||| a.0 == b.0 && a.1 == b.1 && a.2 < b.2
}

/// Whether the hash of `v` is exact: three `u64` parts, minor and patch below 256 and the
/// major small enough to survive the shift.
pub open spec fn version_in_hash_range(v: Seq<char>) -> bool {
    let p = version_parts(v);
    &&& p.len() == 3
    &&& parses_u64(p[0]) && parses_u64(p[1]) && parses_u64(p[2])
    &&& u64_value(p[0]) < 0x1_0000_0000_0000
    &&& u64_value(p[1]) < 256
    &&& u64_value(p[2]) < 256
}

proof fn lemma_hash_value(v: Seq<char>)
    requires
        version_in_hash_range(v),
    ensures
        version_hash(v) == version_numbers(v).0 * 65536 + version_numbers(v).1 * 256
            + version_numbers(v).2,
{
    let p = version_parts(v);
    let a = u64_value(p[0]) as u64;
    let b = u64_value(p[1]) as u64;
    assert(a < 0x1_0000_0000_0000 ==> (a << 16u64) as int == a * 65536) by (bit_vector);
    assert(b < 256 ==> (b << 8u64) as int == b * 256) by (bit_vector);
}

/// Comparing version hashes compares the versions: for versions whose minor and patch are
/// below 256 (and whose major leaves room for the shift), one hash is smaller than another
/// exactly when its version comes first by major, then minor, then patch.
pub proof fn lemma_version_hash_orders(v1: Seq<char>, v2: Seq<char>)
    requires
        version_in_hash_range(v1),
        version_in_hash_range(v2),
    ensures
        version_hash(v1) < version_hash(v2) <==> numbers_before(
            version_numbers(v1),
            version_numbers(v2),
        ),
        version_hash(v1) == version_hash(v2) <==> version_numbers(v1) == version_numbers(v2),
{
    lemma_hash_value(v1);
    lemma_hash_value(v2);
}

} // verus!
