use vstd::prelude::*;

verus! {

/// An ASCII decimal digit.
pub open spec fn is_digit(c: u8) -> bool {
    48 <= c <= 57
}

/// Every byte of the sequence is a decimal digit.
pub open spec fn all_digits(s: Seq<u8>) -> bool {
    forall|i: int| 0 <= i < s.len() ==> is_digit(#[trigger] s[i])
}

/// The number a sequence of decimal digits denotes.
pub open spec fn digits_value(s: Seq<u8>) -> int
    decreases s.len(),
{
    if s.len() == 0 {
        0
    } else {
        digits_value(s.drop_last()) * 10 + (s.last() - 48)
    }
}

/// The digits of a number with an optional leading plus sign stripped.
pub open spec fn spec_unsigned_body(s: Seq<u8>) -> Seq<u8> {
    if s.len() >= 1 && s[0] == 43 {
        s.drop_first()
    } else {
        s
    }
}

/// What parsing a stored counter yields: a value exactly when the text
/// is an optional plus sign followed by one or more decimal digits
/// denoting a number within the counter's range; anything else fails.
pub open spec fn spec_parse_u32(s: Seq<u8>) -> Option<u32> {
    let b = spec_unsigned_body(s);
    if b.len() >= 1 && all_digits(b) && digits_value(b) <= u32::MAX {
        Some(digits_value(b) as u32)
    } else {
        None
    }
}

/// A digit string denotes a nonnegative number.
pub proof fn lemma_digits_value_nonneg(s: Seq<u8>)
    requires
        all_digits(s),
    ensures
        digits_value(s) >= 0,
    decreases s.len(),
{
    if s.len() > 0 {
        assert(all_digits(s.drop_last())) by {
            assert(forall|i: int|
                0 <= i < s.len() - 1 ==> #[trigger] s.drop_last()[i] == s[i]);
        }
        lemma_digits_value_nonneg(s.drop_last());
    }
}

/// Appending digits never shrinks the denoted number.
pub proof fn lemma_digits_value_prefix(s: Seq<u8>, k: int)
    requires
        all_digits(s),
        0 <= k <= s.len(),
    ensures
        digits_value(s) >= digits_value(s.take(k)),
    decreases s.len() - k,
{
    if k < s.len() {
        assert(all_digits(s.take(k + 1))) by {
            assert(forall|i: int| 0 <= i < k + 1 ==> #[trigger] s.take(k + 1)[i] == s[i]);
        }
        assert(s.take(k + 1).drop_last() =~= s.take(k));
        lemma_digits_value_nonneg(s.take(k));
        assert(digits_value(s.take(k + 1)) >= digits_value(s.take(k)));
        lemma_digits_value_prefix(s, k + 1);
    } else {
        assert(s.take(k) =~= s);
    }
}

/// Parses a stored counter: an optional plus sign, then decimal digits.
/// Fails on an empty body, on any non-digit, and on a value out of the
/// counter's range.
pub fn parse_u32(s: &Vec<u8>) -> (r: Option<u32>)
    ensures
        r == spec_parse_u32(s@),
{
    let n = s.len();
    let start: usize = if n >= 1 && s[0] == 43 {
        1
    } else {
        0
    };
    proof {
        assert(spec_unsigned_body(s@) =~= s@.subrange(start as int, n as int));
    }
    if n == start {
        return None;
    }
    let mut val: u64 = 0;
    let mut i: usize = start;
    while i < n
        invariant
            start <= i <= n,
            n == s@.len(),
            spec_unsigned_body(s@) =~= s@.subrange(start as int, n as int),
            all_digits(s@.subrange(start as int, i as int)),
            val == digits_value(s@.subrange(start as int, i as int)),
            val <= u32::MAX,
        decreases n - i,
    {
        let c = s[i];
        let ghost pre = s@.subrange(start as int, i as int);
        proof {
            assert(s@.subrange(start as int, i as int + 1).drop_last() =~= pre);
            assert(s@.subrange(start as int, i as int + 1).last() == s@[i as int]);
        }
        if c < 48 || c > 57 {
            proof {
                let b = spec_unsigned_body(s@);
                assert(b[i - start] == s@[i as int]);
                assert(!all_digits(b));
            }
            return None;
        }
        val = val * 10 + ((c - 48) as u64);
        proof {
            assert(all_digits(s@.subrange(start as int, i as int + 1)));
        }
        if val > u32::MAX as u64 {
            proof {
                let b = spec_unsigned_body(s@);
                if all_digits(b) {
                    assert(b.take(i as int + 1 - start) =~= s@.subrange(
                        start as int,
                        i as int + 1,
                    ));
                    lemma_digits_value_prefix(b, i as int + 1 - start);
                    assert(digits_value(b) > u32::MAX);
                }
            }
            return None;
        }
        i += 1;
    }
    proof {
        assert(s@.subrange(start as int, n as int) =~= spec_unsigned_body(s@));
    }
    Some(val as u32)
}

/// The decimal digits of a nonnegative number, most significant first.
pub open spec fn spec_format_u32(n: int) -> Seq<u8>
    decreases n,
{
    if n < 10 {
        seq![(48 + n) as u8]
    } else {
        spec_format_u32(n / 10).push((48 + n % 10) as u8)
    }
}

/// Writes a counter as decimal digits, the form the durable store
/// holds.
pub fn format_u32(n: u32) -> (r: Vec<u8>)
    ensures
        r@ == spec_format_u32(n as int),
    decreases n,
{
    if n < 10 {
        let mut v: Vec<u8> = Vec::new();
        v.push(48 + n as u8);
        proof {
            assert(v@ =~= spec_format_u32(n as int));
        }
        v
    } else {
        let mut v = format_u32(n / 10);
        v.push(48 + (n % 10) as u8);
        proof {
            assert(v@ =~= spec_format_u32(n as int));
        }
        v
    }
}

/// Formatting yields digits denoting the number itself.
pub proof fn lemma_format_digits(n: int)
    requires
        0 <= n,
    ensures
        all_digits(spec_format_u32(n)),
        digits_value(spec_format_u32(n)) == n,
        spec_format_u32(n).len() >= 1,
        spec_format_u32(n)[0] != 43,
    decreases n,
{
    if n < 10 {
        let s = spec_format_u32(n);
        assert((48 + n) as u8 == 48 + n);
        assert(s.len() == 1);
        assert(s.drop_last() =~= Seq::<u8>::empty());
        assert(digits_value(Seq::<u8>::empty()) == 0);
        assert(digits_value(s) == n);
    } else {
        lemma_format_digits(n / 10);
        assert((48 + n % 10) as u8 == 48 + n % 10);
        let s = spec_format_u32(n);
        let p = spec_format_u32(n / 10);
        assert(s.drop_last() =~= p);
        assert(forall|i: int| 0 <= i < p.len() ==> s[i] == #[trigger] p[i]);
        assert(digits_value(s) == digits_value(p) * 10 + n % 10);
    }
}

/// Round trip: a stored counter parses back to itself.
pub proof fn lemma_format_parse_round_trip(n: int)
    requires
        0 <= n <= u32::MAX,
    ensures
        spec_parse_u32(spec_format_u32(n)) == Some(n as u32),
{
    lemma_format_digits(n);
    let s = spec_format_u32(n);
    assert(spec_unsigned_body(s) == s);
}

/// The high score a freshly read storage file yields: zero when the
/// file is absent or does not parse, the stored value otherwise.
pub open spec fn spec_high_score_from_file(contents: Option<Seq<u8>>) -> int {
    match contents {
        None => 0,
        Some(s) => match spec_parse_u32(s) {
            Some(v) => v as int,
            None => 0,
        },
    }
}

/// Interprets the raw bytes read from the high-score file; a missing or
/// unparseable file counts as zero, never as an error.
pub fn high_score_from_file(contents: Option<Vec<u8>>) -> (r: u32)
    ensures
        r as int == spec_high_score_from_file(
            match contents {
                Some(v) => Some(v@),
                None => None,
            },
        ),
{
    match contents {
        None => 0,
        Some(v) => match parse_u32(&v) {
            Some(h) => h,
            None => 0,
        },
    }
}

} // verus!
