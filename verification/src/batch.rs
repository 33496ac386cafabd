//! Upload batch identifiers: `<decimal timestamp>-<8 or 9 lowercase alphanumerics>`.

use vstd::prelude::*;
use crate::text::{is_ascii_digit, is_ascii_lower, is_ascii_digit_spec, is_ascii_lower_spec};

verus! {

/// The separator of a batch id stands at `i`: everything before it is a digit,
/// and 8 or 9 lowercase letters or digits follow it.
pub open spec fn batch_id_split_at(s: Seq<char>, i: int) -> bool {
    &&& 0 <= i < s.len()
    &&& s[i] == '-'
    &&& forall|j: int| 0 <= j < i ==> is_ascii_digit_spec(#[trigger] s[j])
    &&& 8 <= s.len() - 1 - i <= 9
    &&& forall|j: int| i < j < s.len() ==> (is_ascii_lower_spec(#[trigger] s[j]) || is_ascii_digit_spec(s[j]))
}

/// A well-formed batch id.
pub open spec fn is_valid_batch_id_spec(s: Seq<char>) -> bool {
    exists|i: int| batch_id_split_at(s, i)
}

/// Checks the format of a client-supplied batch id.
pub fn is_valid_batch_id(batch_id: &str) -> (r: bool)
    ensures r == is_valid_batch_id_spec(batch_id@),
{
    let n = batch_id.unicode_len();
    let mut i: usize = 0;
    // Scan the leading digits.
    while i < n && is_ascii_digit(batch_id.get_char(i))
        invariant
            n == batch_id@.len(),
            i <= n,
            forall|j: int| 0 <= j < i ==> is_ascii_digit_spec(#[trigger] batch_id@[j]),
        decreases n - i,
    {
        i = i + 1;
    }
    if i == n || batch_id.get_char(i) != '-' {
        proof {
            assert forall|k: int| !batch_id_split_at(batch_id@, k) by {
                if batch_id_split_at(batch_id@, k) {
                    if k < i {
                        assert(is_ascii_digit_spec(batch_id@[k]));
                    } else if k > i {
                        assert(is_ascii_digit_spec(batch_id@[i as int]));
                    }
                }
            }
        }
        return false;
    }
    let rest = n - i - 1;
    if rest < 8 || rest > 9 {
        proof {
            assert forall|k: int| !batch_id_split_at(batch_id@, k) by {
                if batch_id_split_at(batch_id@, k) {
                    if k < i {
                        assert(is_ascii_digit_spec(batch_id@[k]));
                    } else if k > i {
                        assert(is_ascii_digit_spec(batch_id@[i as int]));
                    }
                }
            }
        }
        return false;
    }
    let mut j: usize = i + 1;
    while j < n
        invariant
            n == batch_id@.len(),
            i < j <= n,
            batch_id@[i as int] == '-',
            forall|m: int| i < m < j ==> (is_ascii_lower_spec(#[trigger] batch_id@[m]) || is_ascii_digit_spec(batch_id@[m])),
        decreases n - j,
    {
        let c = batch_id.get_char(j);
        if !(is_ascii_lower(c) || is_ascii_digit(c)) {
            proof {
                assert forall|k: int| !batch_id_split_at(batch_id@, k) by {
                    if batch_id_split_at(batch_id@, k) {
                        if k < i {
                            assert(is_ascii_digit_spec(batch_id@[k]));
                        } else if k > i {
                            assert(is_ascii_digit_spec(batch_id@[i as int]));
                        } else {
                            assert(is_ascii_lower_spec(batch_id@[j as int]) || is_ascii_digit_spec(batch_id@[j as int]));
                        }
                    }
                }
            }
            return false;
        }
        j = j + 1;
    }
    assert(batch_id_split_at(batch_id@, i as int));
    true
}

} // verus!
