//! Matching of the values of a trace against a searched value.
use vstd::prelude::*;

verus! {

/// The digit of `s` at `k` places from its right end, where a missing digit
/// reads as `'0'`.
pub open spec fn digit_from_right(s: Seq<u8>, k: int) -> u8 {
    if 0 <= k < s.len() {
        s[s.len() - 1 - k]
    } else {
        48u8
    }
}

/// Whether `value` and `exact` are the same number of binary digits once
/// the shorter is padded with zeros on the left.
pub open spec fn same_padded(value: Seq<u8>, exact: Seq<u8>) -> bool {
    forall|k: int| 0 <= k < value.len() || 0 <= k < exact.len() ==> #[trigger] digit_from_right(value, k) == digit_from_right(exact, k)
}

/// A way of telling whether a value matches.
pub trait ValueMatcher {
    /// Whether `value` matches.
    spec fn accepts(&self, value: Seq<u8>) -> bool;

    fn is_match(&self, value: &[u8]) -> (r: bool)
        ensures
            r == self.accepts(value@);
}

/// Matches a value equal to a given one, up to zeros on the left.
pub struct ExactMatcher {
    exact: Vec<u8>,
}

impl ExactMatcher {
    /// The value searched for.
    pub closed spec fn exact(&self) -> Seq<u8> {
        self.exact@
    }

    /// Creates the matcher of `exact`.
    pub fn new(exact: Vec<u8>) -> (r: Self)
        ensures
            r.exact() == exact@,
    {
        ExactMatcher { exact }
    }
}

impl ValueMatcher for ExactMatcher {
    open spec fn accepts(&self, value: Seq<u8>) -> bool {
        same_padded(value, self.exact())
    }

    fn is_match(&self, value: &[u8]) -> (r: bool) {
        let n = if value.len() > self.exact.len() {
            value.len()
        } else {
            self.exact.len()
        };
        let mut k: usize = 0;
        while k < n
            invariant
                n == value@.len() || n == self.exact@.len(),
                value@.len() <= n,
                self.exact@.len() <= n,
                0 <= k <= n,
                forall|j: int| 0 <= j < k ==> #[trigger] digit_from_right(value@, j) == digit_from_right(self.exact@, j),
            decreases n - k,
        {
            let l = if k < value.len() {
                value[value.len() - 1 - k]
            } else {
                48u8
            };
            let r = if k < self.exact.len() {
                self.exact[self.exact.len() - 1 - k]
            } else {
                48u8
            };
            if l != r {
                assert(digit_from_right(value@, k as int) != digit_from_right(self.exact@, k as int));
                return false;
            }
            k = k + 1;
        }
        true
    }
}

} // verus!
