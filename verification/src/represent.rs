//! Representations: pure converters from collapsed integer values to other
//! readings. One collapse admits many representations; applying one never
//! changes the values it reads.

use vstd::prelude::*;
use crate::text::int_str;

verus! {

/// Converts a collection of projected values into a textual representation,
/// one entry per value, in order.
pub trait Representation {
    /// The text produced for one value.
    spec fn spec_represent_one(&self, value: i64) -> Seq<char>;

    /// Represent every value, in order.
    fn represent(&self, values: &Vec<i64>) -> (r: Vec<String>)
        ensures
            r.deep_view() == values@.map_values(|v: i64| self.spec_represent_one(v)),
    ;
}

/// Renders each value's successor: "Next: " followed by one more than the
/// value (saturating at the top of the range).
#[derive(Clone, Copy, Debug)]
pub struct NextValues;

/// Renders each value's parity: "even" or "odd".
#[derive(Clone, Copy, Debug)]
pub struct OperationType;

/// Renders each value's size: "large" above five, "small" otherwise.
#[derive(Clone, Copy, Debug)]
pub struct Magnitude;

/// Renders each value's tendency: "expanding" when positive, "contracting"
/// when negative, "stable" at zero.
#[derive(Clone, Copy, Debug)]
pub struct GrowthType;

impl Representation for NextValues {
    open spec fn spec_represent_one(&self, value: i64) -> Seq<char> {
        "Next: "@ + int_str(if value < i64::MAX {
            value + 1
        } else {
            value as int
        })
    }

    fn represent(&self, values: &Vec<i64>) -> (r: Vec<String>) {
        let n = values.len();
        let mut out: Vec<String> = Vec::new();
        proof {
            assert(out.deep_view() =~= values@.take(0).map_values(
                |v: i64| self.spec_represent_one(v),
            ));
        }
        let mut i: usize = 0;
        while i < n
            invariant
                n == values@.len(),
                i <= n,
                out.deep_view() == values@.take(i as int).map_values(
                    |v: i64| self.spec_represent_one(v),
                ),
            decreases n - i,
        {
            let v = values[i];
            let next: i64 = if v < i64::MAX {
                v + 1
            } else {
                v
            };
            let mut s = String::from_str("Next: ");
            s.append(crate::text::i64_to_string(next).as_str());
            out.push(s);
            proof {
                assert(values@.take(i + 1) =~= values@.take(i as int).push(values@[i as int]));
                values@.take(i as int).lemma_push_map_commute(
                    |v: i64| self.spec_represent_one(v),
                    values@[i as int],
                );
                assert(out.deep_view() =~= values@.take(i + 1).map_values(
                    |v: i64| self.spec_represent_one(v),
                ));
            }
            i += 1;
        }
        proof {
            assert(values@.take(n as int) =~= values@);
        }
        out
    }
}

impl NextValues {
    /// Apply this representation; one entry per input value.
    pub fn apply(&self, values: &Vec<i64>) -> (r: Vec<String>)
        ensures
            r.deep_view() == values@.map_values(|v: i64| self.spec_represent_one(v)),
            r@.len() == values@.len(),
    {
        let r = self.represent(values);
        proof {
            assert(r.deep_view().len() == r@.len());
        }
        r
    }
}

impl Representation for OperationType {
    open spec fn spec_represent_one(&self, value: i64) -> Seq<char> {
        if value % 2 == 0 {
            "even"@
        } else {
            "odd"@
        }
    }

    fn represent(&self, values: &Vec<i64>) -> (r: Vec<String>) {
        let n = values.len();
        let mut out: Vec<String> = Vec::new();
        proof {
            assert(out.deep_view() =~= values@.take(0).map_values(
                |v: i64| self.spec_represent_one(v),
            ));
        }
        let mut i: usize = 0;
        while i < n
            invariant
                n == values@.len(),
                i <= n,
                out.deep_view() == values@.take(i as int).map_values(
                    |v: i64| self.spec_represent_one(v),
                ),
            decreases n - i,
        {
            let v = values[i];
            let s = if v % 2 == 0 {
                String::from_str("even")
            } else {
                String::from_str("odd")
            };
            out.push(s);
            proof {
                assert(values@.take(i + 1) =~= values@.take(i as int).push(values@[i as int]));
                values@.take(i as int).lemma_push_map_commute(
                    |v: i64| self.spec_represent_one(v),
                    values@[i as int],
                );
                assert(out.deep_view() =~= values@.take(i + 1).map_values(
                    |v: i64| self.spec_represent_one(v),
                ));
            }
            i += 1;
        }
        proof {
            assert(values@.take(n as int) =~= values@);
        }
        out
    }
}

impl OperationType {
    /// Apply this representation; one entry per input value.
    pub fn apply(&self, values: &Vec<i64>) -> (r: Vec<String>)
        ensures
            r.deep_view() == values@.map_values(|v: i64| self.spec_represent_one(v)),
            r@.len() == values@.len(),
    {
        let r = self.represent(values);
        proof {
            assert(r.deep_view().len() == r@.len());
        }
        r
    }
}

impl Representation for Magnitude {
    open spec fn spec_represent_one(&self, value: i64) -> Seq<char> {
        if value > 5 {
            "large"@
        } else {
            "small"@
        }
    }

    fn represent(&self, values: &Vec<i64>) -> (r: Vec<String>) {
        let n = values.len();
        let mut out: Vec<String> = Vec::new();
        proof {
            assert(out.deep_view() =~= values@.take(0).map_values(
                |v: i64| self.spec_represent_one(v),
            ));
        }
        let mut i: usize = 0;
        while i < n
            invariant
                n == values@.len(),
                i <= n,
                out.deep_view() == values@.take(i as int).map_values(
                    |v: i64| self.spec_represent_one(v),
                ),
            decreases n - i,
        {
            let v = values[i];
            let s = if v > 5 {
                String::from_str("large")
            } else {
                String::from_str("small")
            };
            out.push(s);
            proof {
                assert(values@.take(i + 1) =~= values@.take(i as int).push(values@[i as int]));
                values@.take(i as int).lemma_push_map_commute(
                    |v: i64| self.spec_represent_one(v),
                    values@[i as int],
                );
                assert(out.deep_view() =~= values@.take(i + 1).map_values(
                    |v: i64| self.spec_represent_one(v),
                ));
            }
            i += 1;
        }
        proof {
            assert(values@.take(n as int) =~= values@);
        }
        out
    }
}

impl Magnitude {
    /// Apply this representation; one entry per input value.
    pub fn apply(&self, values: &Vec<i64>) -> (r: Vec<String>)
        ensures
            r.deep_view() == values@.map_values(|v: i64| self.spec_represent_one(v)),
            r@.len() == values@.len(),
    {
        let r = self.represent(values);
        proof {
            assert(r.deep_view().len() == r@.len());
        }
        r
    }
}

impl Representation for GrowthType {
    open spec fn spec_represent_one(&self, value: i64) -> Seq<char> {
        if value > 0 {
            "expanding"@
        } else if value < 0 {
            "contracting"@
        } else {
            "stable"@
        }
    }

    fn represent(&self, values: &Vec<i64>) -> (r: Vec<String>) {
        let n = values.len();
        let mut out: Vec<String> = Vec::new();
        proof {
            assert(out.deep_view() =~= values@.take(0).map_values(
                |v: i64| self.spec_represent_one(v),
            ));
        }
        let mut i: usize = 0;
        while i < n
            invariant
                n == values@.len(),
                i <= n,
                out.deep_view() == values@.take(i as int).map_values(
                    |v: i64| self.spec_represent_one(v),
                ),
            decreases n - i,
        {
            let v = values[i];
            let s = if v > 0 {
                String::from_str("expanding")
            } else if v < 0 {
                String::from_str("contracting")
            } else {
                String::from_str("stable")
            };
            out.push(s);
            proof {
                assert(values@.take(i + 1) =~= values@.take(i as int).push(values@[i as int]));
                values@.take(i as int).lemma_push_map_commute(
                    |v: i64| self.spec_represent_one(v),
                    values@[i as int],
                );
                assert(out.deep_view() =~= values@.take(i + 1).map_values(
                    |v: i64| self.spec_represent_one(v),
                ));
            }
            i += 1;
        }
        proof {
            assert(values@.take(n as int) =~= values@);
        }
        out
    }
}

impl GrowthType {
    /// Apply this representation; one entry per input value.
    pub fn apply(&self, values: &Vec<i64>) -> (r: Vec<String>)
        ensures
            r.deep_view() == values@.map_values(|v: i64| self.spec_represent_one(v)),
            r@.len() == values@.len(),
    {
        let r = self.represent(values);
        proof {
            assert(r.deep_view().len() == r@.len());
        }
        r
    }
}

} // verus!
