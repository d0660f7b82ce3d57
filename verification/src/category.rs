//! The category coordinate: a discrete, named, ordered domain of labelled
//! values sharing one reference-counted backing store. A lookup hands out a
//! lightweight handle of the store and an index; the handles map onto the
//! pixel span with a half-slot margin at each end.
use vstd::prelude::*;

use std::rc::Rc;

use crate::arith::{clamp_i32, trunc_div_i128, trunc_ratio};
use crate::ranged::{AsRangedCoord, Ranged};

verus! {

/// A labelled value usable in a category: it can be compared for equality
/// of its mathematical view.
pub trait CategoryValue: View + Sized {
    /// Whether the two values are the same label.
    fn same(&self, other: &Self) -> (r: bool)
        ensures
            r == (self@ == other@),
    ;
}

impl CategoryValue for String {
    fn same(&self, other: &Self) -> (r: bool) {
        self.eq(other)
    }
}

/// The failures a category can report.
#[derive(Clone, Copy, PartialEq, Eq, Structural, Debug)]
pub enum CategoryError {
    /// The category holds no element, so it spans no range.
    EmptyCategory,
}

/// A discrete, named, ordered domain of labelled values.
pub struct Category<T: CategoryValue> {
    pub name: String,
    pub elements: Rc<Vec<T>>,
}

/// A lightweight handle to one element of a category: the shared backing
/// store and the element's index in it.
pub struct CategoryElementRef<T: CategoryValue> {
    pub inner: Rc<Vec<T>>,
    pub idx: i32,
}

/// The domain spanned by two category element handles, used as the
/// category's ranged value.
pub struct CategoryElementsRange<T: CategoryValue>(
    pub CategoryElementRef<T>,
    pub CategoryElementRef<T>,
);

impl<T: CategoryValue> Clone for CategoryElementRef<T> {
    fn clone(&self) -> (r: Self)
        ensures
            r == *self,
    {
        CategoryElementRef { inner: Rc::clone(&self.inner), idx: self.idx }
    }
}

impl<T: CategoryValue> Category<T> {
    /// Build a category from its name and an ordered list of elements.
    /// Duplicates are kept; `get` finds the first occurrence only.
    pub fn new(name: String, elements: Vec<T>) -> (r: Self)
        ensures
            r.name == name,
            r.elements@ == elements@,
    {
        Category { name, elements: Rc::new(elements) }
    }

    /// Look the value up by equality of labels: the handle of the first
    /// element carrying this label, or `None` when no element does.
    /// Handles store their index in 32 bits, which bounds the store.
    pub fn get(&self, val: &T) -> (r: Option<CategoryElementRef<T>>)
        requires
            self.elements@.len() <= i32::MAX as int,
        ensures
            (r is Some <==> exists|i: int|
                0 <= i < self.elements@.len() && self.elements@[i]@ == val@),
            r matches Some(er) ==> {
                &&& er.inner@ == self.elements@
                &&& 0 <= er.idx < self.elements@.len()
                &&& self.elements@[er.idx as int]@ == val@
                &&& forall|j: int| 0 <= j < er.idx ==> self.elements@[j]@ != val@
            },
    {
        let elems: &Vec<T> = &*self.elements;
        let n = elems.len();
        let mut i: usize = 0;
        while i < n
            invariant
                elems == &*self.elements,
                n == self.elements@.len(),
                i <= n,
                n <= i32::MAX as usize,
                forall|j: int| 0 <= j < i ==> self.elements@[j]@ != val@,
            decreases n - i,
        {
            if elems[i].same(val) {
                return Some(
                    CategoryElementRef { inner: Rc::clone(&self.elements), idx: i as i32 },
                );
            }
            i = i + 1;
        }
        None
    }

    /// The handle pair spanning the whole category, from the first element
    /// to the last; an empty category spans no range and is refused.
    pub fn range(&self) -> (r: Result<CategoryElementsRange<T>, CategoryError>)
        requires
            self.elements@.len() <= i32::MAX as int,
        ensures
            self.elements@.len() == 0 <==> r == Result::<
                CategoryElementsRange<T>,
                CategoryError,
            >::Err(CategoryError::EmptyCategory),
            r matches Ok(cr) ==> {
                &&& cr.0.inner@ == self.elements@
                &&& cr.1.inner@ == self.elements@
                &&& cr.0.idx == 0
                &&& cr.1.idx as int == self.elements@.len() - 1
            },
    {
        let elems: &Vec<T> = &*self.elements;
        let n = elems.len();
        if n == 0 {
            return Err(CategoryError::EmptyCategory);
        }
        let last: i32 = (n - 1) as i32;
        Ok(
            CategoryElementsRange(
                CategoryElementRef { inner: Rc::clone(&self.elements), idx: 0 },
                CategoryElementRef { inner: Rc::clone(&self.elements), idx: last },
            ),
        )
    }

    /// How many elements the category holds.
    pub fn len(&self) -> (r: usize)
        ensures
            r == self.elements@.len(),
    {
        self.elements.len()
    }

    /// Whether the category holds no element.
    pub fn is_empty(&self) -> (r: bool)
        ensures
            r == (self.elements@.len() == 0),
    {
        self.elements.len() == 0
    }

    /// The category's display name.
    pub fn name(&self) -> (r: String)
        ensures
            r@ == self.name@,
    {
        self.name.clone()
    }
}

impl<T: CategoryValue> From<core::ops::Range<CategoryElementRef<T>>> for CategoryElementsRange<T> {
    fn from(range: core::ops::Range<CategoryElementRef<T>>) -> (r: Self) {
        CategoryElementsRange(range.start, range.end)
    }
}

impl<T: CategoryValue> vstd::std_specs::convert::FromSpecImpl<core::ops::Range<CategoryElementRef<T>>> for CategoryElementsRange<T> {
    open spec fn obeys_from_spec() -> bool {
        true
    }

    open spec fn from_spec(range: core::ops::Range<CategoryElementRef<T>>) -> Self {
        CategoryElementsRange(range.start, range.end)
    }
}

impl<T: CategoryValue> AsRangedCoord for core::ops::Range<CategoryElementRef<T>> {
    type CoordDescType = CategoryElementsRange<T>;

    type Value = CategoryElementRef<T>;
}

/// Where a category element lands on the pixel span: the span is divided
/// into one more slot than there are index steps, and element `i` sits at
/// the end of slot `i + 1`, which leaves a half-slot margin at both ends.
pub open spec fn spec_category_map(i0: int, i1: int, idx: int, p0: int, p1: int) -> int {
    let total_span = i1 - i0 + 2;
    let value_span = idx - i0 + 1;
    if total_span == 0 {
        clamp_i32(p0)
    } else {
        clamp_i32(p0 + trunc_ratio((p1 - p0) * value_span, total_span))
    }
}

/// The indices the category picks as key points: from the first index,
/// stepping by a stride that keeps the count within the budget, up to the
/// last index.
pub open spec fn category_key_points_spec(i0: int, i1: int, max: int) -> Seq<int> {
    if max <= 0 || i1 < i0 {
        Seq::empty()
    } else {
        let step = (i1 - i0) / max + 1;
        Seq::new(((i1 - i0) / step + 1) as nat, |k: int| i0 + k * step)
    }
}

impl<T: CategoryValue> Ranged for CategoryElementsRange<T> {
    type ValueType = CategoryElementRef<T>;

    open spec fn spec_map(&self, value: &Self::ValueType, limit: (i32, i32)) -> i32 {
        spec_category_map(
            self.0.idx as int,
            self.1.idx as int,
            value.idx as int,
            limit.0 as int,
            limit.1 as int,
        ) as i32
    }

    fn map(&self, value: &Self::ValueType, limit: (i32, i32)) -> (r: i32) {
        let total_span: i128 = (self.1.idx as i128) - (self.0.idx as i128) + 2;
        let value_span: i128 = (value.idx as i128) - (self.0.idx as i128) + 1;
        if total_span == 0 {
            if limit.0 < i32::MIN {
                return i32::MIN;
            }
            return limit.0;
        }
        let s: i128 = (limit.1 as i128) - (limit.0 as i128);
        proof {
            assert(-18446744073709551616 <= (s as int) * (value_span as int)
                <= 18446744073709551616) by (nonlinear_arith)
                requires
                    -4294967296 <= s as int <= 4294967296,
                    -4294967296 <= value_span as int <= 4294967296,
            ;
        }
        let w = trunc_div_i128(s * value_span, total_span);
        let res = (limit.0 as i128) + w;
        if res < (i32::MIN as i128) {
            i32::MIN
        } else if res > (i32::MAX as i128) {
            i32::MAX
        } else {
            res as i32
        }
    }

    open spec fn key_points_post(&self, max_points: usize, r: Seq<Self::ValueType>) -> bool {
        &&& r.map_values(|e: CategoryElementRef<T>| e.idx as int) == category_key_points_spec(
            self.0.idx as int,
            self.1.idx as int,
            max_points as int,
        )
        &&& r.len() <= max_points
        &&& forall|i: int| 0 <= i < r.len() ==> #[trigger] r[i].inner@ == self.0.inner@
    }

    fn key_points(&self, max_points: usize) -> (r: Vec<Self::ValueType>) {
        let mut ret: Vec<CategoryElementRef<T>> = Vec::new();
        let ghost target = category_key_points_spec(
            self.0.idx as int,
            self.1.idx as int,
            max_points as int,
        );
        if max_points == 0 || self.1.idx < self.0.idx {
            assert(ret@.map_values(|e: CategoryElementRef<T>| e.idx as int) =~= target);
            return ret;
        }
        let i0: i64 = self.0.idx as i64;
        let i1: i64 = self.1.idx as i64;
        let span: i64 = i1 - i0;
        let maxw: i64 = if (max_points as u64) > 4294967296u64 {
            4294967296i64
        } else {
            max_points as i64
        };
        proof {
            lemma_category_stride(span as int, maxw as int);
            if maxw as int != max_points as int {
                assert((span as int) / (maxw as int) == (span as int) / (max_points as int)) by {
                    lemma_category_huge_budget(span as int, maxw as int, max_points as int);
                }
            }
        }
        let step: i64 = span / maxw + 1;
        let count: i64 = span / step + 1;
        let mut k: i64 = 0;
        while k < count
            invariant
                0 <= k <= count,
                1 <= step,
                0 <= span <= 4294967296,
                i0 == self.0.idx as int,
                i1 == self.1.idx as int,
                span == i1 - i0,
                count == span as int / step as int + 1,
                count <= maxw,
                maxw <= max_points as int,
                step as int == (span as int) / (max_points as int) + 1,
                -2147483648 <= i0 <= 2147483647,
                -2147483648 <= i1 <= 2147483647,
                ret@.len() == k as int,
                target == category_key_points_spec(
                    self.0.idx as int,
                    self.1.idx as int,
                    max_points as int,
                ),
                forall|j: int| 0 <= j < k ==> #[trigger] (ret@[j].idx as int) == i0 + j * (
                step as int),
                forall|j: int| 0 <= j < k ==> #[trigger] ret@[j].inner@ == self.0.inner@,
            decreases count - k,
    {
            proof {
                crate::arith::lemma_floor_div_bounds(span as int, step as int);
                assert(0 <= k * step <= span) by (nonlinear_arith)
                    requires
                        0 <= k as int <= span as int / step as int,
                        1 <= step,
                        0 <= span,
                        (step as int) * (span as int / step as int) <= span as int,
                ;
            }
            let idx64: i64 = i0 + k * step;
            let er = CategoryElementRef { inner: Rc::clone(&self.0.inner), idx: idx64 as i32 };
            ret.push(er);
            k = k + 1;
        }
        proof {
            assert(ret@.map_values(|e: CategoryElementRef<T>| e.idx as int) =~= target);
            lemma_category_count(span as int, max_points as int);
        }
        ret
    }

    open spec fn spec_range(&self) -> (Self::ValueType, Self::ValueType) {
        (self.0, self.1)
    }

    fn range(&self) -> (r: core::ops::Range<Self::ValueType>) {
        self.0.clone()..self.1.clone()
    }

    open spec fn spec_axis_pixel_range(&self, limit: (i32, i32)) -> (i32, i32) {
        limit
    }

    fn axis_pixel_range(&self, limit: (i32, i32)) -> (r: core::ops::Range<i32>) {
        limit.0..limit.1
    }
}

/// The stride divides the span into at most the budgeted number of steps.
proof fn lemma_category_stride(span: int, max: int)
    requires
        0 <= span,
        1 <= max,
    ensures
        span / (span / max + 1) + 1 <= max,
{
    let q = span / max;
    let step = q + 1;
    crate::arith::lemma_floor_div_bounds(span, max);
    crate::arith::lemma_floor_div_ordered(0, span, max);
    assert(q >= 0);
    assert(span <= max * q + max - 1);
    assert(max * q + max - 1 == step * max - 1) by (nonlinear_arith)
        requires
            step == q + 1,
    ;
    crate::arith::lemma_floor_div_ordered(span, step * max - 1, step);
    assert((step * max - 1) / step == max - 1) by {
        assert(step * max - 1 == (max - 1) * step + (step - 1)) by (nonlinear_arith);
        vstd::arithmetic::div_mod::lemma_fundamental_div_mod_converse(
            step * max - 1,
            step,
            max - 1,
            step - 1,
        );
    }
}

/// Any budget beyond the span gives the same (unit) stride.
proof fn lemma_category_huge_budget(span: int, max1: int, max2: int)
    requires
        0 <= span < max1 <= max2,
    ensures
        span / max1 == span / max2,
{
    crate::arith::lemma_floor_div_bounds(span, max1);
    crate::arith::lemma_floor_div_bounds(span, max2);
    assert(span / max1 == 0) by {
        if span / max1 >= 1 {
            assert(max1 * (span / max1) >= max1) by (nonlinear_arith)
                requires
                    max1 >= 1,
                    span / max1 >= 1,
            ;
        }
        assert(span / max1 >= 0) by {
            crate::arith::lemma_floor_div_ordered(0, span, max1);
        }
    }
    assert(span / max2 == 0) by {
        if span / max2 >= 1 {
            assert(max2 * (span / max2) >= max2) by (nonlinear_arith)
                requires
                    max2 >= 1,
                    span / max2 >= 1,
            ;
        }
        assert(span / max2 >= 0) by {
            crate::arith::lemma_floor_div_ordered(0, span, max2);
        }
    }
}

/// The generated count stays within the budget.
proof fn lemma_category_count(span: int, max: int)
    requires
        0 <= span,
        1 <= max,
    ensures
        category_key_points_spec(0, span, max).len() <= max,
{
    lemma_category_stride(span, max);
}

} // verus!
