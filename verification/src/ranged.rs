//! The ranged-value abstraction: what it means for a type to describe one
//! axis of a chart, the capability extensions for reversible and discrete
//! axes, the decorators that alter one aspect of an axis, and the 2D
//! coordinate system built from two axes.
use vstd::prelude::*;

use crate::arith::{abs_int, trunc_div_i128, trunc_ratio};
use crate::backend::{BackendCoord, DrawingBackend, DrawingErrorKind, ShapeStyle};
use vstd::std_specs::convert::IntoSpec;

verus! {

/// An ordered, ranged value domain that can serve as a chart axis.
///
/// Each implementation fixes a mathematical description of its pixel
/// mapping (`spec_map`), of its key points (`key_points_post`), of its
/// logical bounds (`spec_range`) and of the pixel sub-interval the visible
/// axis occupies (`spec_axis_pixel_range`); the executable methods are
/// proved to return exactly those descriptions. Requesting zero key points
/// always yields an empty sequence, whatever the implementation.
pub trait Ranged: Sized {
    /// The type of the values of this domain.
    type ValueType;

    /// What `map` returns: a pure function of the value and the limit.
    spec fn spec_map(&self, value: &Self::ValueType, limit: (i32, i32)) -> i32;

    /// Maps a logical value onto the 1D pixel span `limit`.
    fn map(&self, value: &Self::ValueType, limit: (i32, i32)) -> (r: i32)
        ensures
            r == self.spec_map(value, limit),
    ;

    /// The implementation's exact description of its key-point sequence.
    spec fn key_points_post(&self, max_points: usize, r: Seq<Self::ValueType>) -> bool;

    /// Produces the ascending sequence of representative values used for
    /// tick and grid-line placement, aiming at no more than `max_points`.
    fn key_points(&self, max_points: usize) -> (r: Vec<Self::ValueType>)
        ensures
            max_points == 0 ==> r@.len() == 0,
            self.key_points_post(max_points, r@),
    ;

    /// What `range` returns, as a (start, end) pair.
    spec fn spec_range(&self) -> (Self::ValueType, Self::ValueType);

    /// The logical `[start, end)` bounds of this domain.
    fn range(&self) -> (r: core::ops::Range<Self::ValueType>)
        ensures
            r.start == self.spec_range().0,
            r.end == self.spec_range().1,
    ;

    /// What `axis_pixel_range` returns, as a (start, end) pair.
    spec fn spec_axis_pixel_range(&self, limit: (i32, i32)) -> (i32, i32);

    /// The sub-interval of `limit` actually used by the visible axis; the
    /// full limit unless a decorator overrides it.
    fn axis_pixel_range(&self, limit: (i32, i32)) -> (r: core::ops::Range<i32>)
        ensures
            r.start == self.spec_axis_pixel_range(limit).0,
            r.end == self.spec_axis_pixel_range(limit).1,
    ;
}

/// A ranged value whose pixel mapping can be inverted: given a pixel
/// position, recover the logical value it stands for, or nothing when the
/// pixel lies outside the mapped interval.
pub trait ReversibleRanged: Ranged {
    /// What `unmap` returns: a pure function of the pixel and the limit.
    spec fn spec_unmap(&self, input: i32, limit: (i32, i32)) -> Option<Self::ValueType>;

    /// Inverts `map`. Returns `None` when `input` lies outside the pixel
    /// interval spanned by `limit`.
    fn unmap(&self, input: i32, limit: (i32, i32)) -> (r: Option<Self::ValueType>)
        ensures
            r == self.spec_unmap(input, limit),
    ;
}

/// A ranged value whose domain has a well-defined successor and
/// predecessor, as integers and categories do.
pub trait DiscreteRanged: Ranged {
    /// Contextual state needed to step through the domain.
    type RangeParameter;

    /// What `get_range_parameter` returns.
    spec fn spec_range_parameter(&self) -> Self::RangeParameter;

    fn get_range_parameter(&self) -> (r: Self::RangeParameter)
        ensures
            r == self.spec_range_parameter(),
    ;

    /// What `next_value` returns.
    spec fn spec_next(this: &Self::ValueType, param: &Self::RangeParameter) -> Self::ValueType;

    /// The smallest domain value larger than `this`, saturating at the
    /// domain's upper end so that stepping never fails.
    fn next_value(this: &Self::ValueType, param: &Self::RangeParameter) -> (r: Self::ValueType)
        ensures
            r == Self::spec_next(this, param),
    ;

    /// What `previous_value` returns.
    spec fn spec_prev(this: &Self::ValueType, param: &Self::RangeParameter) -> Self::ValueType;

    /// The largest domain value smaller than `this`, saturating at the
    /// domain's lower end so that stepping never fails.
    fn previous_value(this: &Self::ValueType, param: &Self::RangeParameter) -> (r: Self::ValueType)
        ensures
            r == Self::spec_prev(this, param),
    ;
}

/// A type that can be converted into a ranged coordinate description, such
/// as a plain `Range` of a primitive or an already-built ranged value.
pub trait AsRangedCoord: Sized {
    type CoordDescType: Ranged + From<Self>;

    type Value;
}

impl<T: Ranged> AsRangedCoord for T where core::ops::Range<T::ValueType>: Into<T> {
    type CoordDescType = T;

    type Value = T::ValueType;
}

/// The coordinate system described by two ranged values bound to a fixed
/// pixel viewport. Once built, the viewport never changes.
pub struct RangedCoord<X: Ranged, Y: Ranged> {
    pub logic_x: X,
    pub logic_y: Y,
    pub back_x: (i32, i32),
    pub back_y: (i32, i32),
}

impl<X: Ranged + Clone, Y: Ranged + Clone> Clone for RangedCoord<X, Y> {
    fn clone(&self) -> (r: Self)
        ensures
            r.back_x == self.back_x,
            r.back_y == self.back_y,
    {
        RangedCoord {
            logic_x: self.logic_x.clone(),
            logic_y: self.logic_y.clone(),
            back_x: self.back_x,
            back_y: self.back_y,
        }
    }
}

/// One grid line of a mesh: a vertical line at an X key point, or a
/// horizontal line at a Y key point, with the key point it stands at.
pub enum MeshLine<X: Ranged, Y: Ranged> {
    XMesh(BackendCoord, BackendCoord, X::ValueType),
    YMesh(BackendCoord, BackendCoord, Y::ValueType),
}

impl<X: Ranged, Y: Ranged> MeshLine<X, Y> {
    /// Draw this single mesh line onto a backend.
    pub fn draw<DB: DrawingBackend>(&self, backend: &mut DB, style: &ShapeStyle) -> Result<
        (),
        DrawingErrorKind<DB::ErrorType>,
    > {
        let (left, right) = match self {
            MeshLine::XMesh(a, b, _) => (*a, *b),
            MeshLine::YMesh(a, b, _) => (*a, *b),
        };
        backend.draw_line(left, right, &style.color)
    }
}

/// A consumer of mesh lines, typically drawing each one as it arrives.
/// Implementations live with the callers; whether a line is accepted is
/// theirs to decide, but each accepted line joins the handler's record,
/// so a caller can say afterwards which lines went through.
pub trait MeshLineHandler<X: Ranged, Y: Ranged> {
    type HandleError;

    /// The lines this handler has accepted so far, oldest first. The
    /// default record stays empty, which suits handlers nobody reasons
    /// about; a handler whose acceptances matter overrides it.
    open spec fn handled(&self) -> Seq<MeshLine<X, Y>> {
        Seq::empty()
    }

    /// Consume one mesh line. On success, the line joins the record of
    /// accepted lines; of a failure nothing is promised.
    fn handle(&mut self, line: MeshLine<X, Y>) -> (r: Result<(), Self::HandleError>)
        ensures
            r is Ok ==> final(self).handled() == old(self).handled().push(line),
    ;
}

/// A handler that accepts every mesh line and keeps it: drawing deferred
/// to whoever reads the collection.
pub struct MeshCollector<X: Ranged, Y: Ranged> {
    pub lines: Vec<MeshLine<X, Y>>,
}

impl<X: Ranged, Y: Ranged> MeshCollector<X, Y> {
    /// An empty collector.
    pub fn new() -> (r: Self)
        ensures
            r.lines@.len() == 0,
    {
        MeshCollector { lines: Vec::new() }
    }
}

impl<X: Ranged, Y: Ranged> MeshLineHandler<X, Y> for MeshCollector<X, Y> {
    type HandleError = ();

    open spec fn handled(&self) -> Seq<MeshLine<X, Y>> {
        self.lines@
    }

    fn handle(&mut self, line: MeshLine<X, Y>) -> (r: Result<(), ()>) {
        self.lines.push(line);
        Ok(())
    }
}

impl<X: Ranged, Y: Ranged> RangedCoord<X, Y> {
    /// Create a new ranged value coordinate system over the given pixel
    /// viewport.
    pub fn new<IntoX: Into<X>, IntoY: Into<Y>>(
        logic_x: IntoX,
        logic_y: IntoY,
        actual: (core::ops::Range<i32>, core::ops::Range<i32>),
    ) -> (r: Self)
        ensures
            r.back_x == (actual.0.start, actual.0.end),
            r.back_y == (actual.1.start, actual.1.end),
            IntoX::obeys_into_spec() ==> r.logic_x == logic_x.into_spec(),
            IntoY::obeys_into_spec() ==> r.logic_y == logic_y.into_spec(),
    {
        RangedCoord {
            logic_x: logic_x.into(),
            logic_y: logic_y.into(),
            back_x: (actual.0.start, actual.0.end),
            back_y: (actual.1.start, actual.1.end),
        }
    }

    /// Translate a pair of logical values into a pixel position, one axis
    /// at a time, with no coupling between the axes.
    pub fn translate(&self, from: &(X::ValueType, Y::ValueType)) -> (r: BackendCoord)
        ensures
            r.0 == self.logic_x.spec_map(&from.0, self.back_x),
            r.1 == self.logic_y.spec_map(&from.1, self.back_y),
    {
        (self.logic_x.map(&from.0, self.back_x), self.logic_y.map(&from.1, self.back_y))
    }

    /// What a mesh of this coordinate system holds: for some X and Y
    /// key-point sequences admitted by the axes' own key-point contracts,
    /// `lines` is one vertical line per X key point spanning the full Y
    /// pixel extent, followed by one horizontal line per Y key point
    /// spanning the full X pixel extent, each at its key point's mapped
    /// pixel position. The X tick count is budgeted by `v_limit` and the
    /// Y tick count by `h_limit`.
    pub open spec fn spec_mesh_lines(
        &self,
        h_limit: usize,
        v_limit: usize,
        lines: Seq<MeshLine<X, Y>>,
    ) -> bool {
        exists|xk: Seq<X::ValueType>, yk: Seq<Y::ValueType>|
            {
                &&& self.logic_x.key_points_post(v_limit, xk)
                &&& self.logic_y.key_points_post(h_limit, yk)
                &&& lines.len() == xk.len() + yk.len()
                &&& (forall|i: int|
                    0 <= i < xk.len() ==> lines[i] == MeshLine::<X, Y>::XMesh(
                        (self.logic_x.spec_map(&xk[i], self.back_x), self.back_y.0),
                        (self.logic_x.spec_map(&xk[i], self.back_x), self.back_y.1),
                        xk[i],
                    ))
                &&& (forall|i: int|
                    0 <= i < yk.len() ==> lines[xk.len() + i] == MeshLine::<X, Y>::YMesh(
                        (self.back_x.0, self.logic_y.spec_map(&yk[i], self.back_y)),
                        (self.back_x.1, self.logic_y.spec_map(&yk[i], self.back_y)),
                        yk[i],
                    ))
            }
    }

    /// Hand every line of the mesh — exactly the lines `mesh_lines`
    /// computes and `spec_mesh_lines` describes — to `draw_mesh`, vertical
    /// lines at the X key points first, then horizontal lines at the Y key
    /// points, stopping at the first failure, which is returned unchanged.
    /// On success the handler's record has grown by exactly the mesh, in
    /// order; when there is no line to hand over, no call is made and the
    /// result is success.
    pub fn draw_mesh<H: MeshLineHandler<X, Y>>(
        &self,
        h_limit: usize,
        v_limit: usize,
        draw_mesh: &mut H,
    ) -> (r: Result<(), H::HandleError>)
        ensures
            h_limit == 0 && v_limit == 0 ==> r is Ok,
            (forall|lines: Seq<MeshLine<X, Y>>|
                #[trigger] self.spec_mesh_lines(h_limit, v_limit, lines) ==> lines.len() == 0)
                ==> r is Ok,
            r is Ok ==> exists|lines: Seq<MeshLine<X, Y>>|
                {
                    &&& #[trigger] self.spec_mesh_lines(h_limit, v_limit, lines)
                    &&& final(draw_mesh).handled() == old(draw_mesh).handled() + lines
                },
    {
        let mut lines = self.mesh_lines(h_limit, v_limit);
        let ghost witness = lines@;
        while lines.len() > 0
            invariant
                self.spec_mesh_lines(h_limit, v_limit, witness),
                lines@.len() <= witness.len(),
                lines@ == witness.skip(witness.len() - lines@.len()),
                draw_mesh.handled() == old(draw_mesh).handled() + witness.take(
                    witness.len() - lines@.len(),
                ),
                h_limit == 0 && v_limit == 0 ==> witness.len() == 0,
            decreases lines.len(),
        {
            let ghost k = witness.len() - lines@.len();
            proof {
                assert(lines@[0] == witness.skip(k)[0]);
            }
            let line = lines.remove(0);
            let res = draw_mesh.handle(line);
            if let Err(e) = res {
                return Err(e);
            }
            proof {
                assert(witness.take(k + 1) =~= witness.take(k).push(witness[k]));
                assert(old(draw_mesh).handled() + witness.take(k + 1) =~= (old(
                    draw_mesh,
                ).handled() + witness.take(k)).push(witness[k]));
                assert(lines@ =~= witness.skip(k + 1));
            }
        }
        proof {
            assert(witness.take(witness.len() as int) =~= witness);
        }
        Ok(())
    }

    /// Compute every mesh line of this coordinate system without drawing:
    /// one vertical line per X key point spanning the full Y pixel extent,
    /// then one horizontal line per Y key point spanning the full X pixel
    /// extent, each at the key point's mapped pixel position.
    pub fn mesh_lines(&self, h_limit: usize, v_limit: usize) -> (r: Vec<MeshLine<X, Y>>)
        ensures
            self.spec_mesh_lines(h_limit, v_limit, r@),
            h_limit == 0 && v_limit == 0 ==> r@.len() == 0,
    {
        let mut xkp = self.logic_x.key_points(v_limit);
        let mut ykp = self.logic_y.key_points(h_limit);
        let ghost xk = xkp@;
        let ghost yk = ykp@;
        let mut ret: Vec<MeshLine<X, Y>> = Vec::new();
        while xkp.len() > 0
            invariant
                ret@.len() + xkp@.len() == xk.len(),
                xkp@ == xk.skip(ret@.len() as int),
                forall|i: int|
                    0 <= i < ret@.len() ==> ret@[i] == MeshLine::<X, Y>::XMesh(
                        (self.logic_x.spec_map(&xk[i], self.back_x), self.back_y.0),
                        (self.logic_x.spec_map(&xk[i], self.back_x), self.back_y.1),
                        xk[i],
                    ),
            decreases xkp.len(),
        {
            proof {
                assert(xkp@[0] == xk[ret@.len() as int]);
            }
            let logic_x = xkp.remove(0);
            let x = self.logic_x.map(&logic_x, self.back_x);
            ret.push(MeshLine::XMesh((x, self.back_y.0), (x, self.back_y.1), logic_x));
            proof {
                assert(xkp@ =~= xk.skip(ret@.len() as int));
            }
        }
        while ykp.len() > 0
            invariant
                xk.len() <= ret@.len() <= xk.len() + yk.len(),
                ret@.len() == xk.len() + (yk.len() - ykp@.len()),
                forall|j: int|
                    0 <= j < ykp@.len() ==> ykp@[j] == yk[(ret@.len() - xk.len()) + j],
                forall|i: int|
                    0 <= i < xk.len() ==> ret@[i] == MeshLine::<X, Y>::XMesh(
                        (self.logic_x.spec_map(&xk[i], self.back_x), self.back_y.0),
                        (self.logic_x.spec_map(&xk[i], self.back_x), self.back_y.1),
                        xk[i],
                    ),
                forall|i: int|
                    0 <= i < ret@.len() - xk.len() ==> ret@[xk.len() + i] == MeshLine::<
                        X,
                        Y,
                    >::YMesh(
                        (self.back_x.0, self.logic_y.spec_map(&yk[i], self.back_y)),
                        (self.back_x.1, self.logic_y.spec_map(&yk[i], self.back_y)),
                        yk[i],
                    ),
            decreases ykp.len(),
        {
            proof {
                assert(ykp@[0] == yk[ret@.len() - xk.len()]);
            }
            let logic_y = ykp.remove(0);
            let y = self.logic_y.map(&logic_y, self.back_y);
            ret.push(MeshLine::YMesh((self.back_x.0, y), (self.back_x.1, y), logic_y));
        }
        proof {
            assert(self.logic_x.key_points_post(v_limit, xk) && self.logic_y.key_points_post(
                h_limit,
                yk,
            ));
        }
        ret
    }

    /// Get the range of the X axis.
    pub fn get_x_range(&self) -> (r: core::ops::Range<X::ValueType>)
        ensures
            r.start == self.logic_x.spec_range().0,
            r.end == self.logic_x.spec_range().1,
    {
        self.logic_x.range()
    }

    /// Get the range of the Y axis.
    pub fn get_y_range(&self) -> (r: core::ops::Range<Y::ValueType>)
        ensures
            r.start == self.logic_y.spec_range().0,
            r.end == self.logic_y.spec_range().1,
    {
        self.logic_y.range()
    }

    /// The pixel sub-interval the visible X axis occupies.
    pub fn get_x_axis_pixel_range(&self) -> (r: core::ops::Range<i32>)
        ensures
            r.start == self.logic_x.spec_axis_pixel_range(self.back_x).0,
            r.end == self.logic_x.spec_axis_pixel_range(self.back_x).1,
    {
        self.logic_x.axis_pixel_range(self.back_x)
    }

    /// The pixel sub-interval the visible Y axis occupies.
    pub fn get_y_axis_pixel_range(&self) -> (r: core::ops::Range<i32>)
        ensures
            r.start == self.logic_y.spec_axis_pixel_range(self.back_y).0,
            r.end == self.logic_y.spec_axis_pixel_range(self.back_y).1,
    {
        self.logic_y.axis_pixel_range(self.back_y)
    }

    /// The X axis description.
    pub fn x_spec(&self) -> (r: &X)
        ensures
            r == &self.logic_x,
    {
        &self.logic_x
    }

    /// The Y axis description.
    pub fn y_spec(&self) -> (r: &Y)
        ensures
            r == &self.logic_y,
    {
        &self.logic_y
    }
}

/// The truncated midpoint of two pixel positions stays between them.
proof fn lemma_midpoint_bounds(m1: int, m2: int)
    ensures
        ({
            let w = trunc_ratio(m1 + m2, 2);
            let lo = if m1 <= m2 {
                m1
            } else {
                m2
            };
            let hi = if m1 <= m2 {
                m2
            } else {
                m1
            };
            lo <= w <= hi
        }),
{
    let n = m1 + m2;
    let lo = if m1 <= m2 {
        m1
    } else {
        m2
    };
    let hi = if m1 <= m2 {
        m2
    } else {
        m1
    };
    let w = trunc_ratio(n, 2);
    if n >= 0 {
        assert(w == n / 2);
        vstd::arithmetic::div_mod::lemma_fundamental_div_mod(n, 2);
        assert(2 * lo <= n <= 2 * hi);
    } else {
        let u = (-n) / 2;
        assert(w == -u);
        vstd::arithmetic::div_mod::lemma_fundamental_div_mod(-n, 2);
        assert(2 * lo <= n <= 2 * hi);
    }
}

/// The axis decorator that draws a tick at the midpoint between a value
/// and its predecessor, so that labels sit centred inside their bucket
/// rather than at its left edge. Only `map` changes; everything else
/// passes through to the wrapped value.
pub struct CentricDiscreteRange<D: DiscreteRanged>(pub D) where <D as Ranged>::ValueType: Eq;

impl<D: DiscreteRanged + Clone> Clone for CentricDiscreteRange<D> where
    <D as Ranged>::ValueType: Eq,
 {
    fn clone(&self) -> Self {
        CentricDiscreteRange(self.0.clone())
    }
}

impl<D: DiscreteRanged> Ranged for CentricDiscreteRange<D> where <D as Ranged>::ValueType: Eq {
    type ValueType = <D as Ranged>::ValueType;

    open spec fn spec_map(&self, value: &Self::ValueType, limit: (i32, i32)) -> i32 {
        trunc_ratio(
            self.0.spec_map(&D::spec_prev(value, &self.0.spec_range_parameter()), limit) as int
                + self.0.spec_map(value, limit) as int,
            2,
        ) as i32
    }

    fn map(&self, value: &Self::ValueType, limit: (i32, i32)) -> (r: i32) {
        let param = self.0.get_range_parameter();
        let prev = D::previous_value(value, &param);
        let m1 = self.0.map(&prev, limit);
        let m2 = self.0.map(value, limit);
        let w = trunc_div_i128(m1 as i128 + m2 as i128, 2);
        proof {
            lemma_midpoint_bounds(m1 as int, m2 as int);
        }
        w as i32
    }

    open spec fn key_points_post(&self, max_points: usize, r: Seq<Self::ValueType>) -> bool {
        self.0.key_points_post(max_points, r)
    }

    fn key_points(&self, max_points: usize) -> (r: Vec<Self::ValueType>) {
        self.0.key_points(max_points)
    }

    open spec fn spec_range(&self) -> (Self::ValueType, Self::ValueType) {
        self.0.spec_range()
    }

    fn range(&self) -> (r: core::ops::Range<Self::ValueType>) {
        self.0.range()
    }

    open spec fn spec_axis_pixel_range(&self, limit: (i32, i32)) -> (i32, i32) {
        limit
    }

    fn axis_pixel_range(&self, limit: (i32, i32)) -> (r: core::ops::Range<i32>) {
        limit.0..limit.1
    }
}

impl<D: DiscreteRanged> DiscreteRanged for CentricDiscreteRange<D> where
    <D as Ranged>::ValueType: Eq,
 {
    type RangeParameter = <D as DiscreteRanged>::RangeParameter;

    open spec fn spec_range_parameter(&self) -> Self::RangeParameter {
        self.0.spec_range_parameter()
    }

    fn get_range_parameter(&self) -> Self::RangeParameter {
        self.0.get_range_parameter()
    }

    open spec fn spec_next(this: &Self::ValueType, param: &Self::RangeParameter) -> Self::ValueType {
        D::spec_next(this, param)
    }

    fn next_value(this: &Self::ValueType, param: &Self::RangeParameter) -> Self::ValueType {
        D::next_value(this, param)
    }

    open spec fn spec_prev(this: &Self::ValueType, param: &Self::RangeParameter) -> Self::ValueType {
        D::spec_prev(this, param)
    }

    fn previous_value(this: &Self::ValueType, param: &Self::RangeParameter) -> Self::ValueType {
        D::previous_value(this, param)
    }
}

impl<D: DiscreteRanged> AsRangedCoord for CentricDiscreteRange<D> where
    <D as Ranged>::ValueType: Eq,
 {
    type CoordDescType = Self;

    type Value = <Self as Ranged>::ValueType;
}

/// The types that can be decorated by `CentricDiscreteRange`.
pub trait IntoCentric: AsRangedCoord where
    Self::CoordDescType: DiscreteRanged,
    <Self::CoordDescType as Ranged>::ValueType: Eq,
 {
    /// Convert this ranged value into a centric ranged value.
    fn into_centric(self) -> (r: CentricDiscreteRange<Self::CoordDescType>)
        ensures
            <Self as IntoSpec<Self::CoordDescType>>::obeys_into_spec() ==> r.0 == <Self as IntoSpec<Self::CoordDescType>>::into_spec(self),
    {
        CentricDiscreteRange(self.into())
    }
}

impl<T: AsRangedCoord> IntoCentric for T where
    T::CoordDescType: DiscreteRanged,
    <T::CoordDescType as Ranged>::ValueType: Eq,
 {
}

/// The axis decorator that displays only part of the axis: values still
/// map on the full underlying scale, but the visible axis is reported as
/// the pixel span covered by the given sub-range. Only `axis_pixel_range`
/// changes; everything else passes through to the wrapped value.
pub struct PartialAxis<R: Ranged>(pub R, pub core::ops::Range<R::ValueType>);

impl<R: Ranged + Clone> Clone for PartialAxis<R> where <R as Ranged>::ValueType: Clone {
    fn clone(&self) -> Self {
        PartialAxis(self.0.clone(), self.1.start.clone()..self.1.end.clone())
    }
}

impl<R: Ranged> Ranged for PartialAxis<R> where <R as Ranged>::ValueType: Clone {
    type ValueType = R::ValueType;

    open spec fn spec_map(&self, value: &Self::ValueType, limit: (i32, i32)) -> i32 {
        self.0.spec_map(value, limit)
    }

    fn map(&self, value: &Self::ValueType, limit: (i32, i32)) -> (r: i32) {
        self.0.map(value, limit)
    }

    open spec fn key_points_post(&self, max_points: usize, r: Seq<Self::ValueType>) -> bool {
        self.0.key_points_post(max_points, r)
    }

    fn key_points(&self, max_points: usize) -> (r: Vec<Self::ValueType>) {
        self.0.key_points(max_points)
    }

    open spec fn spec_range(&self) -> (Self::ValueType, Self::ValueType) {
        self.0.spec_range()
    }

    fn range(&self) -> (r: core::ops::Range<Self::ValueType>) {
        self.0.range()
    }

    open spec fn spec_axis_pixel_range(&self, limit: (i32, i32)) -> (i32, i32) {
        let left = self.0.spec_map(&self.1.start, limit);
        let right = self.0.spec_map(&self.1.end, limit);
        (
            if left <= right {
                left
            } else {
                right
            },
            if left <= right {
                right
            } else {
                left
            },
        )
    }

    /// The visible pixel pair comes out ordered smallest first, whichever
    /// way round the visible sub-range was given.
    fn axis_pixel_range(&self, limit: (i32, i32)) -> (r: core::ops::Range<i32>) {
        let left = self.0.map(&self.1.start, limit);
        let right = self.0.map(&self.1.end, limit);
        let lo = if left <= right {
            left
        } else {
            right
        };
        let hi = if left <= right {
            right
        } else {
            left
        };
        lo..hi
    }
}

impl<R: DiscreteRanged> DiscreteRanged for PartialAxis<R> where
    <R as Ranged>::ValueType: Eq + Clone,
 {
    type RangeParameter = <R as DiscreteRanged>::RangeParameter;

    open spec fn spec_range_parameter(&self) -> Self::RangeParameter {
        self.0.spec_range_parameter()
    }

    fn get_range_parameter(&self) -> Self::RangeParameter {
        self.0.get_range_parameter()
    }

    open spec fn spec_next(this: &Self::ValueType, param: &Self::RangeParameter) -> Self::ValueType {
        R::spec_next(this, param)
    }

    fn next_value(this: &Self::ValueType, param: &Self::RangeParameter) -> Self::ValueType {
        R::next_value(this, param)
    }

    open spec fn spec_prev(this: &Self::ValueType, param: &Self::RangeParameter) -> Self::ValueType {
        R::spec_prev(this, param)
    }

    fn previous_value(this: &Self::ValueType, param: &Self::RangeParameter) -> Self::ValueType {
        R::previous_value(this, param)
    }
}

impl<R: Ranged> AsRangedCoord for PartialAxis<R> where <R as Ranged>::ValueType: Clone {
    type CoordDescType = Self;

    type Value = <Self as Ranged>::ValueType;
}

/// The types that can be converted into a partial axis.
pub trait IntoPartialAxis: AsRangedCoord {
    /// Make a partial axis whose visible part is `axis_range`.
    fn partial_axis(
        self,
        axis_range: core::ops::Range<<Self::CoordDescType as Ranged>::ValueType>,
    ) -> (r: PartialAxis<Self::CoordDescType>)
        ensures
            r.1 == axis_range,
            <Self as IntoSpec<Self::CoordDescType>>::obeys_into_spec() ==> r.0 == <Self as IntoSpec<Self::CoordDescType>>::into_spec(self),
    {
        PartialAxis(self.into(), axis_range)
    }
}

impl<R: AsRangedCoord> IntoPartialAxis for R {

}

/// The start of the full underlying range that leaves `axis_range` as the
/// visible fraction from `ps` to `pe` (in thousandths).
pub open spec fn partial_full_left(left: int, right: int, ps: int, pe: int) -> int {
    trunc_ratio(left * (pe - ps) - (right - left) * ps, pe - ps)
}

/// The end of that full underlying range.
pub open spec fn partial_full_right(left: int, right: int, ps: int, pe: int) -> int {
    trunc_ratio(right * (pe - ps) + (right - left) * (1000 - pe), pe - ps)
}

/// Make a partial axis that shows `axis_range` as the given fraction of
/// the full scale: `part` names, in thousandths, where the visible span
/// starts and ends within the whole. The full underlying range is derived
/// by inverting that fraction algebraically; the result is `None` when the
/// fraction is empty or reversed, or when the derived range does not fit
/// the value type.
pub fn make_partial_axis<T: crate::numeric::CoordValue>(
    axis_range: core::ops::Range<T>,
    part: core::ops::Range<u32>,
) -> (r: Option<PartialAxis<crate::numeric::NumericCoord<T>>>)
    ensures
        ({
            let fl = partial_full_left(
                axis_range.start.as_int(),
                axis_range.end.as_int(),
                part.start as int,
                part.end as int,
            );
            let fr = partial_full_right(
                axis_range.start.as_int(),
                axis_range.end.as_int(),
                part.start as int,
                part.end as int,
            );
            &&& (r is Some <==> (part.start < part.end && T::min_spec() <= fl <= T::max_spec()
                && T::min_spec() <= fr <= T::max_spec()))
            &&& (r is Some ==> r->Some_0.0 == crate::numeric::NumericCoord(
                T::from_int_spec(fl),
                T::from_int_spec(fr),
            ))
            &&& (r is Some ==> r->Some_0.1 == axis_range)
        }),
{
    if part.end <= part.start {
        return None;
    }
    proof {
        axis_range.start.lemma_in_bounds();
        axis_range.end.lemma_in_bounds();
    }
    let left: i128 = axis_range.start.to_wide();
    let right: i128 = axis_range.end.to_wide();
    let ps: i128 = part.start as i128;
    let pe: i128 = part.end as i128;
    let ds: i128 = pe - ps;
    proof {
        let cl = crate::numeric::COORD_LIMIT as int;
        assert(-5000000000 * cl <= (left as int) * (ds as int) <= 5000000000 * cl)
            by (nonlinear_arith)
            requires
                -(cl as int) <= left as int <= cl as int,
                0 < ds as int <= 5000000000,
        ;
        assert(-20000000000 * cl <= (right as int - left as int) * (ps as int) <= 20000000000 * cl)
            by (nonlinear_arith)
            requires
                -2 * cl <= right as int - left as int <= 2 * cl,
                0 <= ps as int <= 5000000000,
        ;
        assert(-5000000000 * cl <= (right as int) * (ds as int) <= 5000000000 * cl)
            by (nonlinear_arith)
            requires
                -(cl as int) <= right as int <= cl as int,
                0 < ds as int <= 5000000000,
        ;
        assert(-20000000000 * cl <= (right as int - left as int) * (1000 - pe as int)
            <= 20000000000 * cl) by (nonlinear_arith)
            requires
                -2 * cl <= right as int - left as int <= 2 * cl,
                -5000000000 <= 1000 - pe as int <= 1000,
        ;
    }
    let nl: i128 = left * ds - (right - left) * ps;
    let nr: i128 = right * ds + (right - left) * (1000 - pe);
    let fl = trunc_div_i128(nl, ds);
    let fr = trunc_div_i128(nr, ds);
    if fl < T::wide_min() || fl > T::wide_max() || fr < T::wide_min() || fr > T::wide_max() {
        return None;
    }
    Some(
        PartialAxis(crate::numeric::NumericCoord(T::from_wide(fl), T::from_wide(fr)), axis_range),
    )
}

impl<X: ReversibleRanged, Y: ReversibleRanged> RangedCoord<X, Y> {
    /// Translate a pixel position back into a pair of logical values.
    /// The result is `None` as soon as either axis cannot invert its own
    /// pixel input, even if the other axis could.
    pub fn reverse_translate(&self, input: BackendCoord) -> (r: Option<
        (X::ValueType, Y::ValueType),
    >)
        ensures
            r is Some <==> (self.logic_x.spec_unmap(input.0, self.back_x) is Some
                && self.logic_y.spec_unmap(input.1, self.back_y) is Some),
            r is Some ==> r->Some_0.0 == self.logic_x.spec_unmap(input.0, self.back_x)->Some_0,
            r is Some ==> r->Some_0.1 == self.logic_y.spec_unmap(input.1, self.back_y)->Some_0,
    {
        match (self.logic_x.unmap(input.0, self.back_x), self.logic_y.unmap(input.1, self.back_y)) {
            (Some(x), Some(y)) => Some((x, y)),
            _ => None,
        }
    }
}

} // verus!
