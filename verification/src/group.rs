//! The grouping decorator: a ranged integer value whose ticks come in
//! buckets of a fixed factor. Pixel mapping and bounds are untouched; only
//! the key points change, to multiples of the factor.
use vstd::prelude::*;

use crate::arith::{ceil_div_i128, ceil_ratio, floor_div_i128, floor_ratio};
use crate::numeric::{int_key_points_spec, int_key_points_core, CoordValue, COORD_LIMIT};
use crate::ranged::{AsRangedCoord, DiscreteRanged, Ranged};

verus! {

/// A ranged value whose ticks are grouped: every contiguous run of
/// `factor` raw values forms one bucket, and key points land on bucket
/// boundaries. This is useful when an axis counts days but the tick marks
/// should fall on weeks.
pub struct GroupBy<T: Ranged>(pub T, pub T::ValueType) where T::ValueType: CoordValue;

impl<T: Ranged + Clone> Clone for GroupBy<T> where T::ValueType: CoordValue {
    fn clone(&self) -> Self {
        GroupBy(self.0.clone(), self.1)
    }
}

/// What the grouped key points are: the integer key points over the bucket
/// indices that cover the base range, scaled back by the factor. A factor
/// below one admits no buckets and yields nothing.
pub open spec fn group_key_points_spec(start: int, end: int, factor: int, max: int) -> Seq<int> {
    if factor < 1 {
        Seq::empty()
    } else {
        let lo = if start <= end {
            start
        } else {
            end
        };
        let hi = if start <= end {
            end
        } else {
            start
        };
        let from = ceil_ratio(lo, factor);
        let to = floor_ratio(hi, factor);
        if from > to {
            Seq::empty()
        } else {
            int_key_points_spec(from, to, max).map_values(|k: int| k * factor)
        }
    }
}

impl<T: Ranged> Ranged for GroupBy<T> where T::ValueType: CoordValue {
    type ValueType = T::ValueType;

    open spec fn spec_map(&self, value: &Self::ValueType, limit: (i32, i32)) -> i32 {
        self.0.spec_map(value, limit)
    }

    fn map(&self, value: &Self::ValueType, limit: (i32, i32)) -> (r: i32) {
        self.0.map(value, limit)
    }

    open spec fn key_points_post(&self, max_points: usize, r: Seq<Self::ValueType>) -> bool {
        &&& r.map_values(|t: T::ValueType| t.as_int()) == group_key_points_spec(
            self.0.spec_range().0.as_int(),
            self.0.spec_range().1.as_int(),
            self.1.as_int(),
            max_points as int,
        )
        &&& r.len() <= max_points + 1
        &&& forall|i: int|
            self.1.as_int() >= 1 ==> 0 <= i < r.len() ==> #[trigger] (r[i].as_int()) % (
            self.1.as_int()) == 0
        &&& forall|i: int|
            0 <= i < r.len() ==> (self.0.spec_range().0.as_int() <= #[trigger] (r[i].as_int())
                <= self.0.spec_range().1.as_int() || self.0.spec_range().1.as_int() <= r[i].as_int()
                <= self.0.spec_range().0.as_int())
    }

    fn key_points(&self, max_points: usize) -> (r: Vec<Self::ValueType>) {
        let mut ret: Vec<T::ValueType> = Vec::new();
        let range = self.0.range();
        proof {
            range.start.lemma_in_bounds();
            range.end.lemma_in_bounds();
            self.1.lemma_in_bounds();
        }
        let factor: i128 = self.1.to_wide();
        let ghost target = group_key_points_spec(
            self.0.spec_range().0.as_int(),
            self.0.spec_range().1.as_int(),
            self.1.as_int(),
            max_points as int,
        );
        if factor < 1 {
            assert(ret@.map_values(|t: T::ValueType| t.as_int()) =~= target);
            return ret;
        }
        let (s, e) = (range.start.to_wide(), range.end.to_wide());
        let (lo, hi) = if s <= e {
            (s, e)
        } else {
            (e, s)
        };
        let from = ceil_div_i128(lo, factor);
        let to = floor_div_i128(hi, factor);
        if from > to {
            assert(ret@.map_values(|t: T::ValueType| t.as_int()) =~= target);
            return ret;
        }
        proof {
            crate::arith::lemma_floor_div_bounds(lo as int + factor as int - 1, factor as int);
            crate::arith::lemma_floor_div_bounds(hi as int, factor as int);
            crate::arith::lemma_ceil_div_shrinks(lo as int, factor as int);
            crate::arith::lemma_floor_div_shrinks(hi as int, factor as int);
        }
        let buckets = int_key_points_core(from, to, max_points);
        let ghost bseq = buckets@.map_values(|x: i128| x as int);
        let mut i: usize = 0;
        while i < buckets.len()
            invariant
                i <= buckets.len(),
                1 <= factor,
                factor == self.1.as_int(),
                bseq == buckets@.map_values(|x: i128| x as int),
                bseq == int_key_points_spec(from as int, to as int, max_points as int),
                from as int == ceil_ratio(lo as int, factor as int),
                to as int == floor_ratio(hi as int, factor as int),
                from <= to,
                factor as int * (from as int) >= lo as int,
                factor as int * (to as int) <= hi as int,
                lo as int == if self.0.spec_range().0.as_int()
                    <= self.0.spec_range().1.as_int() {
                    self.0.spec_range().0.as_int()
                } else {
                    self.0.spec_range().1.as_int()
                },
                hi as int == if self.0.spec_range().0.as_int()
                    <= self.0.spec_range().1.as_int() {
                    self.0.spec_range().1.as_int()
                } else {
                    self.0.spec_range().0.as_int()
                },
                T::ValueType::min_spec() <= lo as int <= hi as int <= T::ValueType::max_spec(),
                -(COORD_LIMIT as int) < T::ValueType::min_spec(),
                T::ValueType::max_spec() < COORD_LIMIT as int,
                forall|j: int|
                    0 <= j < bseq.len() ==> (from as int <= #[trigger] bseq[j] <= to as int || to
                        as int <= bseq[j] <= from as int),
                ret@.len() == i as int,
                forall|j: int|
                    0 <= j < i as int ==> #[trigger] (ret@[j].as_int()) == bseq[j] * (factor as int),
                forall|j: int|
                    0 <= j < i as int ==> lo as int <= #[trigger] (ret@[j].as_int()) <= hi as int,
                target == group_key_points_spec(
                    self.0.spec_range().0.as_int(),
                    self.0.spec_range().1.as_int(),
                    self.1.as_int(),
                    max_points as int,
                ),
            decreases buckets.len() - i,
        {
            let k = buckets[i];
            proof {
                assert(bseq[i as int] == buckets@[i as int] as int);
                lemma_bucket_in_range(
                    k as int,
                    from as int,
                    to as int,
                    factor as int,
                    lo as int,
                    hi as int,
                );
            }
            let v = k * factor;
            ret.push(T::ValueType::from_wide(v));
            i = i + 1;
        }
        proof {
            let mapped = bseq.map_values(|k: int| k * (factor as int));
            let rmapped = ret@.map_values(|t: T::ValueType| t.as_int());
            assert(forall|j: int|
                0 <= j < bseq.len() ==> #[trigger] mapped[j] == bseq[j] * (factor as int));
            assert(forall|j: int| 0 <= j < ret@.len() ==> #[trigger] rmapped[j] == ret@[j].as_int());
            assert(rmapped =~= target);
            assert(forall|j: int|
                0 <= j < ret@.len() ==> #[trigger] (ret@[j].as_int()) % (factor as int) == 0) by {
                assert(forall|k: int, f: int| f >= 1 ==> #[trigger] ((k * f) % f) == 0)
                    by (nonlinear_arith);
            }
        }
        ret
    }

    open spec fn spec_range(&self) -> (Self::ValueType, Self::ValueType) {
        self.0.spec_range()
    }

    fn range(&self) -> (r: core::ops::Range<Self::ValueType>) {
        self.0.range()
    }

    open spec fn spec_axis_pixel_range(&self, limit: (i32, i32)) -> (i32, i32) {
        limit
    }

    fn axis_pixel_range(&self, limit: (i32, i32)) -> (r: core::ops::Range<i32>) {
        limit.0..limit.1
    }
}

/// A bucket index between the rounded bounds scales back into the base
/// range and hence into the value type.
proof fn lemma_bucket_in_range(k: int, from: int, to: int, factor: int, lo: int, hi: int)
    requires
        1 <= factor,
        lo <= hi,
        from <= to,
        factor * from >= lo,
        factor * to <= hi,
        from <= k <= to,
    ensures
        lo <= k * factor <= hi,
{
    assert(factor * from <= factor * k <= factor * to) by (nonlinear_arith)
        requires
            1 <= factor,
            from <= k <= to,
    ;
    assert(k * factor == factor * k) by (nonlinear_arith);
}

impl<T: Ranged + DiscreteRanged> DiscreteRanged for GroupBy<T> where T::ValueType: CoordValue {
    type RangeParameter = <T as DiscreteRanged>::RangeParameter;

    open spec fn spec_range_parameter(&self) -> Self::RangeParameter {
        self.0.spec_range_parameter()
    }

    fn get_range_parameter(&self) -> Self::RangeParameter {
        self.0.get_range_parameter()
    }

    open spec fn spec_next(this: &Self::ValueType, param: &Self::RangeParameter) -> Self::ValueType {
        T::spec_next(this, param)
    }

    fn next_value(this: &Self::ValueType, param: &Self::RangeParameter) -> Self::ValueType {
        T::next_value(this, param)
    }

    open spec fn spec_prev(this: &Self::ValueType, param: &Self::RangeParameter) -> Self::ValueType {
        T::spec_prev(this, param)
    }

    fn previous_value(this: &Self::ValueType, param: &Self::RangeParameter) -> Self::ValueType {
        T::previous_value(this, param)
    }
}

impl<T: Ranged> AsRangedCoord for GroupBy<T> where T::ValueType: CoordValue {
    type CoordDescType = Self;

    type Value = T::ValueType;
}

/// The types that can be grouped into buckets of a fixed factor.
pub trait ToGroupByRange: AsRangedCoord where
    <Self::CoordDescType as Ranged>::ValueType: CoordValue,
 {
    /// Make a grouping ranged value with buckets of `value` raw values.
    fn group_by(
        self,
        value: <Self::CoordDescType as Ranged>::ValueType,
    ) -> (r: GroupBy<Self::CoordDescType>)
        ensures
            r.1 == value,
            <Self as vstd::std_specs::convert::IntoSpec<
                Self::CoordDescType,
            >>::obeys_into_spec() ==> r.0 == <Self as vstd::std_specs::convert::IntoSpec<
                Self::CoordDescType,
            >>::into_spec(self),
    {
        GroupBy(self.into(), value)
    }
}

impl<T: AsRangedCoord> ToGroupByRange for T where
    <T::CoordDescType as Ranged>::ValueType: CoordValue,
 {
}

} // verus!
