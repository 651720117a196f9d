use vstd::prelude::*;

verus! {

/// Why a metadata probe's answer gives no usable content length.
#[derive(Clone, Copy, PartialEq, Eq, Structural, Debug)]
pub enum MetadataFault {
    /// The probe response carried no content-length header at all.
    MissingHeader,
    /// The header's value is not a byte count this machine can hold: empty,
    /// not all decimal digits, or too large for `usize`.
    UnusableValue,
}

/// Whether `b` is the ASCII code of a decimal digit.
pub open spec fn is_digit(b: u8) -> bool {
    48 <= b && b <= 57
}

/// The numeric value of the ASCII digit `b`.
pub open spec fn digit_val(b: u8) -> int {
    b - 48
}

/// Whether every byte of `s` is an ASCII decimal digit.
pub open spec fn all_digits(s: Seq<u8>) -> bool {
    forall|i: int| 0 <= i < s.len() ==> is_digit(#[trigger] s[i])
}

/// The number that a string of ASCII decimal digits denotes.
pub open spec fn decimal_value(s: Seq<u8>) -> int
    decreases s.len(),
{
    if s.len() == 0 {
        0
    } else {
        decimal_value(s.drop_last()) * 10 + digit_val(s.last())
    }
}

/// A header value is a usable content length when it is non-empty, all
/// decimal digits, and its value fits in `usize`.
pub open spec fn usable_content_length(s: Seq<u8>) -> bool {
    s.len() > 0 && all_digits(s) && decimal_value(s) <= usize::MAX
}

/// A digit string denotes a non-negative number.
pub proof fn lemma_decimal_value_nonneg(s: Seq<u8>)
    requires
        all_digits(s),
    ensures
        decimal_value(s) >= 0,
    decreases s.len(),
{
    if s.len() > 0 {
        assert forall|i: int| 0 <= i < s.drop_last().len() implies is_digit(
            #[trigger] s.drop_last()[i],
        ) by {
            assert(s.drop_last()[i] == s[i]);
        }
        lemma_decimal_value_nonneg(s.drop_last());
    }
}

/// A prefix of a digit string never denotes more than the whole string.
proof fn lemma_decimal_value_prefix_le(s: Seq<u8>, i: int)
    requires
        all_digits(s),
        0 <= i <= s.len(),
    ensures
        decimal_value(s.take(i)) <= decimal_value(s),
    decreases s.len() - i,
{
    assert forall|k: int, j: int|
        0 <= j <= s.len() && 0 <= k < j implies is_digit(#[trigger] s.take(j)[k]) by {
        assert(s.take(j)[k] == s[k]);
    }
    if i < s.len() {
        assert(s.take(i + 1).drop_last() =~= s.take(i));
        assert(s.take(i + 1).last() == s[i]);
        lemma_decimal_value_nonneg(s.take(i));
        assert(decimal_value(s.take(i + 1)) == decimal_value(s.take(i)) * 10 + digit_val(s[i]));
        lemma_decimal_value_prefix_le(s, i + 1);
    } else {
        assert(s.take(i) =~= s);
    }
}

/// Parse a content-length header value as the decimal byte count it holds.
/// Returns the count exactly when the value is a non-empty string of decimal
/// digits whose value fits in `usize`; anything else is unusable.
pub fn parse_content_length(value: &Vec<u8>) -> (r: Option<usize>)
    ensures
        r matches Some(n) ==> usable_content_length(value@) && n == decimal_value(value@),
        r is None ==> !usable_content_length(value@),
{
    let n = value.len();
    if n == 0 {
        return None;
    }
    let mut acc: usize = 0;
    let mut i: usize = 0;
    proof {
        assert(value@.take(0) =~= Seq::<u8>::empty());
    }
    while i < n
        invariant
            n == value@.len(),
            0 < n <= usize::MAX,
            i <= n,
            all_digits(value@.take(i as int)),
            acc == decimal_value(value@.take(i as int)),
        decreases n - i,
    {
        let b = value[i];
        if b < 48 || b > 57 {
            proof {
                assert(!is_digit(value@[i as int]));
            }
            return None;
        }
        let d = (b - 48) as usize;
        let wide: u128 = acc as u128 * 10 + d as u128;
        proof {
            assert(value@.take(i as int + 1).drop_last() =~= value@.take(i as int));
            assert(value@.take(i as int + 1).last() == value@[i as int]);
            assert forall|k: int| 0 <= k < i + 1 implies is_digit(
                #[trigger] value@.take(i as int + 1)[k],
            ) by {
                assert(value@.take(i as int + 1)[k] == value@[k]);
            }
        }
        if wide > usize::MAX as u128 {
            proof {
                if all_digits(value@) {
                    lemma_decimal_value_prefix_le(value@, i as int + 1);
                }
            }
            return None;
        }
        acc = wide as usize;
        i = i + 1;
    }
    proof {
        assert(value@.take(n as int) =~= value@);
    }
    Some(acc)
}

/// Decide the probe's outcome from the raw content-length header, if any:
/// the total byte count, or the fault that makes it unusable. Terminal faults
/// here mean no chunk work is ever attempted.
pub fn content_length(header: Option<&Vec<u8>>) -> (r: Result<usize, MetadataFault>)
    ensures
        header is None ==> r == Result::<usize, MetadataFault>::Err(MetadataFault::MissingHeader),
        header matches Some(v) ==> ({
            &&& usable_content_length(v@) ==> r == Result::<usize, MetadataFault>::Ok(
                decimal_value(v@) as usize,
            )
            &&& !usable_content_length(v@) ==> r == Result::<usize, MetadataFault>::Err(
                MetadataFault::UnusableValue,
            )
        }),
{
    match header {
        Option::None => Err(MetadataFault::MissingHeader),
        Option::Some(v) => match parse_content_length(v) {
            Option::Some(n) => Ok(n),
            Option::None => Err(MetadataFault::UnusableValue),
        },
    }
}

} // verus!
