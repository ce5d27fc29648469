//! Points and displacement vectors of a fixed number of components, with
//! componentwise arithmetic.
//!
//! A [`Point`] is a location and a [`Vector`] the difference of two
//! locations: point minus point is a vector, point plus vector is a point.
//! Both wrap an array `[T; N]`; all arithmetic on the components goes through
//! [`Scalar`].

use vstd::prelude::*;
use crate::scalar::Scalar;
use core::ops::{Add, AddAssign, Index, IndexMut, Mul, MulAssign, Sub, SubAssign};
use vstd::std_specs::ops::{AddSpec, MulSpec, SubSpec};

verus! {

/// A location, given by its coordinates.
#[derive(Debug, Copy, Clone)]
pub struct Point<A>(pub A);

/// A displacement, given by its components.
#[derive(Debug, Copy, Clone)]
pub struct Vector<A>(pub A);

/// The array whose elements are those of `s`, in order. It is meant for an
/// `s` of length `N`.
pub open spec fn array_of<T, const N: usize>(s: Seq<T>) -> [T; N] {
    choose|a: [T; N]| a@ == s
}

/// An array is the array of its own elements.
pub proof fn lemma_array_of<T, const N: usize>(a: [T; N])
    ensures
        array_of::<T, N>(a@) == a,
{
    assert(array_of::<T, N>(a@) =~= a);
}

/// Some array holds the first `k` elements of `s` at its first `k` places.
proof fn lemma_array_with_prefix<T, const N: usize>(s: Seq<T>, k: nat) -> (a: [T; N])
    requires
        s.len() == N,
        k <= N,
    ensures
        forall|i: int| 0 <= i < k ==> a@[i] == s[i],
    decreases k,
{
    if k == 0 {
        arbitrary()
    } else {
        let before = lemma_array_with_prefix::<T, N>(s, (k - 1) as nat);
        vstd::array::spec_array_update(before, k - 1, s[k - 1])
    }
}

/// The array of a sequence of length `N` holds that sequence.
pub proof fn lemma_array_of_view<T, const N: usize>(s: Seq<T>)
    requires
        s.len() == N,
    ensures
        array_of::<T, N>(s)@ == s,
{
    let a = lemma_array_with_prefix::<T, N>(s, N as nat);
    assert(a@ =~= s);
}

/// `a[i] + b[i]` for every index of `a`.
pub open spec fn seq_add<T: Scalar>(a: Seq<T>, b: Seq<T>) -> Seq<T> {
    Seq::new(a.len(), |i: int| a[i].add_spec(b[i]))
}

/// `a[i] - b[i]` for every index of `a`.
pub open spec fn seq_sub<T: Scalar>(a: Seq<T>, b: Seq<T>) -> Seq<T> {
    Seq::new(a.len(), |i: int| a[i].sub_spec(b[i]))
}

/// `a[i] * b[i]` for every index of `a`.
pub open spec fn seq_mul<T: Scalar>(a: Seq<T>, b: Seq<T>) -> Seq<T> {
    Seq::new(a.len(), |i: int| a[i].mul_spec(b[i]))
}

/// `a[i] * k` for every index of `a`.
pub open spec fn seq_scale<T: Scalar>(a: Seq<T>, k: T) -> Seq<T> {
    Seq::new(a.len(), |i: int| a[i].mul_spec(k))
}

/// `core::array::from_fn`: builds an array of `N` elements by calling `f`
/// on each index from `0` to `N - 1`. The contract claims that `f` is called
/// on no other argument and that element `i` is what `f` returned for `i`.
#[verifier::external_body]
fn array_from_fn<U, F: Fn(usize) -> U, const N: usize>(f: F) -> (r: [U; N])
    requires
        forall|i: usize| i < N ==> f.requires((i,)),
    ensures
        forall|i: int| 0 <= i < N ==> f.ensures((i as usize,), #[trigger] r@[i]),
{
    core::array::from_fn(f)
}

/// Combines two arrays element by element: element `i` of the result is what
/// `f` returns for `a[i]` and `b[i]`.
pub fn element_wise_binary<T, U, F, const N: usize>(a: [T; N], b: [T; N], f: F) -> (r: [U; N]) where
    F: Fn(T, T) -> U,
    T: Copy,

    requires
        forall|i: int| 0 <= i < N ==> f.requires((#[trigger] a@[i], b@[i])),
    ensures
        forall|i: int| 0 <= i < N ==> f.ensures((a@[i], b@[i]), #[trigger] r@[i]),
{
    let g = &f;
    let at = |i: usize| -> (u: U)
        requires
            i < N,
        ensures
            g.ensures((a@[i as int], b@[i as int]), u),
        {
            g(a[i], b[i])
        };
    array_from_fn(at)
}

impl<T, const N: usize> View for Point<[T; N]> {
    type V = Seq<T>;

    /// The coordinates, in order.
    open spec fn view(&self) -> Seq<T> {
        self.0@
    }
}

impl<T, const N: usize> View for Vector<[T; N]> {
    type V = Seq<T>;

    /// The components, in order.
    open spec fn view(&self) -> Seq<T> {
        self.0@
    }
}

impl<T, const N: usize> Point<[T; N]> {
    /// Coordinate `i`.
    pub open spec fn spec_index(self, i: int) -> T {
        self@[i]
    }
}

impl<T, const N: usize> Vector<[T; N]> {
    /// Component `i`.
    pub open spec fn spec_index(self, i: int) -> T {
        self@[i]
    }
}

impl<T, const N: usize> Index<usize> for Point<[T; N]> {
    type Output = T;

    fn index(&self, index: usize) -> (r: &T)
        ensures
            *r == self[index as int],
    {
        &self.0[index]
    }
}

impl<T, const N: usize> vstd::std_specs::core::IndexSpecImpl<usize> for Point<[T; N]> {
    open spec fn index_req(&self, index: &usize) -> bool {
        *index < N
    }
}

impl<T, const N: usize> IndexMut<usize> for Point<[T; N]> {
    fn index_mut(&mut self, index: usize) -> (r: &mut T)
        requires
            index < N,
        ensures
            *r == old(self)[index as int],
            final(self)@ == old(self)@.update(index as int, *final(r)),
    {
        &mut self.0[index]
    }
}

impl<T, const N: usize> Index<usize> for Vector<[T; N]> {
    type Output = T;

    fn index(&self, index: usize) -> (r: &T)
        ensures
            *r == self[index as int],
    {
        &self.0[index]
    }
}

impl<T, const N: usize> vstd::std_specs::core::IndexSpecImpl<usize> for Vector<[T; N]> {
    open spec fn index_req(&self, index: &usize) -> bool {
        *index < N
    }
}

impl<T, const N: usize> IndexMut<usize> for Vector<[T; N]> {
    fn index_mut(&mut self, index: usize) -> (r: &mut T)
        requires
            index < N,
        ensures
            *r == old(self)[index as int],
            final(self)@ == old(self)@.update(index as int, *final(r)),
    {
        &mut self.0[index]
    }
}

impl<T: Scalar, const N: usize> Add<Vector<[T; N]>> for Point<[T; N]> {
    type Output = Self;

    /// Moves the point by `rhs`.
    fn add(self, rhs: Vector<[T; N]>) -> (r: Self)
        ensures
            r@ == seq_add(self@, rhs@),
    {
        let r = Point(element_wise_binary(self.0, rhs.0, T::add));
        proof {
            assert(r@ =~= seq_add(self@, rhs@));
            lemma_array_of::<T, N>(r.0);
        }
        r
    }
}

impl<T: Scalar, const N: usize> vstd::std_specs::ops::AddSpecImpl<Vector<[T; N]>> for Point<[T; N]> {
    open spec fn obeys_add_spec() -> bool {
        true
    }

    open spec fn add_req(self, rhs: Vector<[T; N]>) -> bool {
        true
    }

    open spec fn add_spec(self, rhs: Vector<[T; N]>) -> Self {
        Point(array_of(seq_add(self@, rhs@)))
    }
}

impl<T: Scalar, const N: usize> AddAssign<Vector<[T; N]>> for Point<[T; N]> {
    /// Moves the point by `rhs`, in place.
    fn add_assign(&mut self, rhs: Vector<[T; N]>)
        ensures
            final(self)@ == seq_add(old(self)@, rhs@),
            *final(self) == old(self).add_spec(rhs),
    {
        let mut i: usize = 0;
        while i < N
            invariant
                i <= N,
                forall|j: int| 0 <= j < i ==> #[trigger] self.0@[j] == old(self).0@[j].add_spec(rhs@[j]),
                forall|j: int| i <= j < N ==> #[trigger] self.0@[j] == old(self).0@[j],
            decreases N - i,
        {
            let c = self.0[i].add(rhs.0[i]);
            self.0[i] = c;
            i += 1;
        }
        proof {
            assert(self@ =~= seq_add(old(self)@, rhs@));
            lemma_array_of::<T, N>(self.0);
        }
    }
}

impl<T: Scalar, const N: usize> Sub<Vector<[T; N]>> for Point<[T; N]> {
    type Output = Point<[T; N]>;

    /// Moves the point by the opposite of `rhs`.
    fn sub(self, rhs: Vector<[T; N]>) -> (r: Point<[T; N]>)
        ensures
            r@ == seq_sub(self@, rhs@),
    {
        let r = Point(element_wise_binary(self.0, rhs.0, T::sub));
        proof {
            assert(r@ =~= seq_sub(self@, rhs@));
            lemma_array_of::<T, N>(r.0);
        }
        r
    }
}

impl<T: Scalar, const N: usize> vstd::std_specs::ops::SubSpecImpl<Vector<[T; N]>> for Point<[T; N]> {
    open spec fn obeys_sub_spec() -> bool {
        true
    }

    open spec fn sub_req(self, rhs: Vector<[T; N]>) -> bool {
        true
    }

    open spec fn sub_spec(self, rhs: Vector<[T; N]>) -> Point<[T; N]> {
        Point(array_of(seq_sub(self@, rhs@)))
    }
}

impl<T: Scalar, const N: usize> SubAssign<Vector<[T; N]>> for Point<[T; N]> {
    /// Moves the point by the opposite of `rhs`, in place.
    fn sub_assign(&mut self, rhs: Vector<[T; N]>)
        ensures
            final(self)@ == seq_sub(old(self)@, rhs@),
            *final(self) == old(self).sub_spec(rhs),
    {
        let mut i: usize = 0;
        while i < N
            invariant
                i <= N,
                forall|j: int| 0 <= j < i ==> #[trigger] self.0@[j] == old(self).0@[j].sub_spec(rhs@[j]),
                forall|j: int| i <= j < N ==> #[trigger] self.0@[j] == old(self).0@[j],
            decreases N - i,
        {
            let c = self.0[i].sub(rhs.0[i]);
            self.0[i] = c;
            i += 1;
        }
        proof {
            assert(self@ =~= seq_sub(old(self)@, rhs@));
            lemma_array_of::<T, N>(self.0);
        }
    }
}

impl<T: Scalar, const N: usize> Sub for Point<[T; N]> {
    type Output = Vector<[T; N]>;

    /// The displacement that leads from `rhs` to `self`.
    fn sub(self, rhs: Self) -> (r: Vector<[T; N]>)
        ensures
            r@ == seq_sub(self@, rhs@),
    {
        let r = Vector(element_wise_binary(self.0, rhs.0, T::sub));
        proof {
            assert(r@ =~= seq_sub(self@, rhs@));
            lemma_array_of::<T, N>(r.0);
        }
        r
    }
}

impl<T: Scalar, const N: usize> vstd::std_specs::ops::SubSpecImpl for Point<[T; N]> {
    open spec fn obeys_sub_spec() -> bool {
        true
    }

    open spec fn sub_req(self, rhs: Self) -> bool {
        true
    }

    open spec fn sub_spec(self, rhs: Self) -> Vector<[T; N]> {
        Vector(array_of(seq_sub(self@, rhs@)))
    }
}

impl<T: Scalar, const N: usize> Add for Vector<[T; N]> {
    type Output = Vector<[T; N]>;

    fn add(self, rhs: Vector<[T; N]>) -> (r: Vector<[T; N]>)
        ensures
            r@ == seq_add(self@, rhs@),
    {
        let r = Vector(element_wise_binary(self.0, rhs.0, T::add));
        proof {
            assert(r@ =~= seq_add(self@, rhs@));
            lemma_array_of::<T, N>(r.0);
        }
        r
    }
}

impl<T: Scalar, const N: usize> vstd::std_specs::ops::AddSpecImpl for Vector<[T; N]> {
    open spec fn obeys_add_spec() -> bool {
        true
    }

    open spec fn add_req(self, rhs: Vector<[T; N]>) -> bool {
        true
    }

    open spec fn add_spec(self, rhs: Vector<[T; N]>) -> Vector<[T; N]> {
        Vector(array_of(seq_add(self@, rhs@)))
    }
}

impl<T: Scalar, const N: usize> AddAssign for Vector<[T; N]> {
    fn add_assign(&mut self, rhs: Vector<[T; N]>)
        ensures
            final(self)@ == seq_add(old(self)@, rhs@),
            *final(self) == old(self).add_spec(rhs),
    {
        let mut i: usize = 0;
        while i < N
            invariant
                i <= N,
                forall|j: int| 0 <= j < i ==> #[trigger] self.0@[j] == old(self).0@[j].add_spec(rhs@[j]),
                forall|j: int| i <= j < N ==> #[trigger] self.0@[j] == old(self).0@[j],
            decreases N - i,
        {
            let c = self.0[i].add(rhs.0[i]);
            self.0[i] = c;
            i += 1;
        }
        proof {
            assert(self@ =~= seq_add(old(self)@, rhs@));
            lemma_array_of::<T, N>(self.0);
        }
    }
}

impl<T: Scalar, const N: usize> Sub for Vector<[T; N]> {
    type Output = Vector<[T; N]>;

    fn sub(self, rhs: Vector<[T; N]>) -> (r: Vector<[T; N]>)
        ensures
            r@ == seq_sub(self@, rhs@),
    {
        let r = Vector(element_wise_binary(self.0, rhs.0, T::sub));
        proof {
            assert(r@ =~= seq_sub(self@, rhs@));
            lemma_array_of::<T, N>(r.0);
        }
        r
    }
}

impl<T: Scalar, const N: usize> vstd::std_specs::ops::SubSpecImpl for Vector<[T; N]> {
    open spec fn obeys_sub_spec() -> bool {
        true
    }

    open spec fn sub_req(self, rhs: Vector<[T; N]>) -> bool {
        true
    }

    open spec fn sub_spec(self, rhs: Vector<[T; N]>) -> Vector<[T; N]> {
        Vector(array_of(seq_sub(self@, rhs@)))
    }
}

impl<T: Scalar, const N: usize> SubAssign for Vector<[T; N]> {
    fn sub_assign(&mut self, rhs: Vector<[T; N]>)
        ensures
            final(self)@ == seq_sub(old(self)@, rhs@),
            *final(self) == old(self).sub_spec(rhs),
    {
        let mut i: usize = 0;
        while i < N
            invariant
                i <= N,
                forall|j: int| 0 <= j < i ==> #[trigger] self.0@[j] == old(self).0@[j].sub_spec(rhs@[j]),
                forall|j: int| i <= j < N ==> #[trigger] self.0@[j] == old(self).0@[j],
            decreases N - i,
        {
            let c = self.0[i].sub(rhs.0[i]);
            self.0[i] = c;
            i += 1;
        }
        proof {
            assert(self@ =~= seq_sub(old(self)@, rhs@));
            lemma_array_of::<T, N>(self.0);
        }
    }
}

impl<T: Scalar, const N: usize> Mul<T> for Vector<[T; N]> {
    type Output = Vector<[T; N]>;

    /// Scales every component by `rhs`.
    fn mul(self, rhs: T) -> (r: Vector<[T; N]>)
        ensures
            r@ == seq_scale(self@, rhs),
    {
        let at = |i: usize| -> (c: T)
            requires
                i < N,
            ensures
                c == self@[i as int].mul_spec(rhs),
            {
                self.0[i].mul(rhs)
            };
        let r = Vector(array_from_fn(at));
        proof {
            assert(r@ =~= seq_scale(self@, rhs));
            lemma_array_of::<T, N>(r.0);
        }
        r
    }
}

impl<T: Scalar, const N: usize> vstd::std_specs::ops::MulSpecImpl<T> for Vector<[T; N]> {
    open spec fn obeys_mul_spec() -> bool {
        true
    }

    open spec fn mul_req(self, rhs: T) -> bool {
        true
    }

    open spec fn mul_spec(self, rhs: T) -> Vector<[T; N]> {
        Vector(array_of(seq_scale(self@, rhs)))
    }
}

impl<T: Scalar, const N: usize> MulAssign for Vector<[T; N]> {
    /// Multiplies each component by the component of `rhs` at the same
    /// index, in place.
    fn mul_assign(&mut self, rhs: Self)
        ensures
            final(self)@ == seq_mul(old(self)@, rhs@),
    {
        let mut i: usize = 0;
        while i < N
            invariant
                i <= N,
                forall|j: int| 0 <= j < i ==> #[trigger] self.0@[j] == old(self).0@[j].mul_spec(rhs@[j]),
                forall|j: int| i <= j < N ==> #[trigger] self.0@[j] == old(self).0@[j],
            decreases N - i,
        {
            let c = self.0[i].mul(rhs.0[i]);
            self.0[i] = c;
            i += 1;
        }
        proof {
            assert(self@ =~= seq_mul(old(self)@, rhs@));
        }
    }
}

/// The sum of the squares of the elements of `s`: `x*x + y*y` in the plane,
/// and so on from the left for more elements; zero where `s` is empty.
pub open spec fn sum_of_squares<T: Scalar>(s: Seq<T>) -> T
    decreases s.len(),
{
    if s.len() == 0 {
        T::zero_spec()
    } else if s.len() == 1 {
        s[0].mul_spec(s[0])
    } else if s.len() == 2 {
        s[0].mul_spec(s[0]).add_spec(s[1].mul_spec(s[1]))
    } else {
        sum_of_squares(s.drop_last()).add_spec(s.last().mul_spec(s.last()))
    }
}

impl<T: Scalar, const N: usize> Vector<[T; N]> {
    /// The Euclidean norm: the square root of the sum of the squared
    /// components.
    pub open spec fn magnitude_spec(self) -> T {
        sum_of_squares(self@).sqrt_spec()
    }

    /// The vector scaled by the inverse of its magnitude.
    pub open spec fn normalize_spec(self) -> Self {
        self.mul_spec(T::one_spec().div_spec(self.magnitude_spec()))
    }

    /// Scales the vector to unit length.
    ///
    /// A vector whose magnitude is zero has no direction, and must not be
    /// passed.
    pub fn normalize(self) -> (r: Self)
        requires
            !self.magnitude_spec().eq_spec(T::zero_spec()),
        ensures
            r == self.normalize_spec(),
            r@ == seq_scale(self@, T::one_spec().div_spec(self.magnitude_spec())),
    {
        let scale = T::one().div(self.magnitude());
        self * scale
    }

    /// The Euclidean norm of the vector.
    pub fn magnitude(&self) -> (m: T)
        ensures
            m == self.magnitude_spec(),
    {
        if N == 0 {
            return T::zero().sqrt();
        }
        let mut sum = self.0[0].mul(self.0[0]);
        let mut i: usize = 1;
        while i < N
            invariant
                1 <= i <= N,
                sum == sum_of_squares(self@.take(i as int)),
            decreases N - i,
        {
            proof {
                let now = self@.take(i + 1);
                assert(now.drop_last() =~= self@.take(i as int));
                assert(now.last() == self@[i as int]);
                assert(i == 1 ==> now[0] == self@[0] && now[1] == self@[1]);
            }
            sum = sum.add(self.0[i].mul(self.0[i]));
            i += 1;
        }
        proof {
            assert(self@.take(N as int) =~= self@);
        }
        sum.sqrt()
    }
}

impl<T: Scalar> Point<[T; 2]> {
    /// The direction of the edge from `a` to `b`, turned a quarter turn
    /// (counter-clockwise where the y axis points up): with `d = b - a`, the
    /// vector `(-d.y, d.x)`.
    pub open spec fn perpendicular(a: Self, b: Self) -> Vector<[T; 2]> {
        Vector([b[1].sub_spec(a[1]).neg_spec(), b[0].sub_spec(a[0])])
    }

    /// Whether the edge from `a` to `b` has no length, and so no normal.
    pub open spec fn degenerate(a: Self, b: Self) -> bool {
        Self::perpendicular(a, b).magnitude_spec().eq_spec(T::zero_spec())
    }

    /// The unit normal of the edge from `a` to `b`: the perpendicular, each
    /// component scaled by one over its magnitude.
    pub open spec fn normal_spec(a: Self, b: Self) -> Vector<[T; 2]> {
        let turned = Self::perpendicular(a, b);
        let k = T::one_spec().div_spec(turned.magnitude_spec());
        Vector([turned[0].mul_spec(k), turned[1].mul_spec(k)])
    }

    /// The unit vector perpendicular to the edge from `a` to `b`: its
    /// direction turned a quarter turn, from the x axis toward the y axis,
    /// and normalized.
    ///
    /// The edge must have a length: see [`Point::is_degenerate`].
    pub fn normal(a: Point<[T; 2]>, b: Point<[T; 2]>) -> (n: Vector<[T; 2]>)
        requires
            !Self::degenerate(a, b),
        ensures
            n == Self::normal_spec(a, b),
    {
        let d = b - a;
        let turned = Vector([d[1].neg(), d[0]]);
        proof {
            assert(turned.0 =~= Self::perpendicular(a, b).0);
        }
        let n = turned.normalize();
        proof {
            assert(n.0 =~= Self::normal_spec(a, b).0);
        }
        n
    }

    /// Tells whether the edge from `a` to `b` has no length.
    pub fn is_degenerate(a: Point<[T; 2]>, b: Point<[T; 2]>) -> (r: bool)
        ensures
            r == Self::degenerate(a, b),
    {
        let d = b - a;
        let turned = Vector([d[1].neg(), d[0]]);
        proof {
            assert(turned.0 =~= Self::perpendicular(a, b).0);
        }
        turned.magnitude().eq(T::zero())
    }
}

/// The coordinates of `p + v` are the sums, place by place.
pub proof fn lemma_point_add_view<T: Scalar, const N: usize>(p: Point<[T; N]>, v: Vector<[T; N]>)
    ensures
        p.add_spec(v)@ == seq_add(p@, v@),
{
    lemma_array_of_view::<T, N>(seq_add(p@, v@));
}

/// The coordinates of `p - v` are the differences, place by place.
pub proof fn lemma_point_sub_view<T: Scalar, const N: usize>(p: Point<[T; N]>, v: Vector<[T; N]>)
    ensures
        p.sub_spec(v)@ == seq_sub(p@, v@),
{
    lemma_array_of_view::<T, N>(seq_sub(p@, v@));
}

/// The components of `p - q` are the differences of the coordinates, place
/// by place.
pub proof fn lemma_displacement_view<T: Scalar, const N: usize>(p: Point<[T; N]>, q: Point<[T; N]>)
    ensures
        p.sub_spec(q)@ == seq_sub(p@, q@),
{
    lemma_array_of_view::<T, N>(seq_sub(p@, q@));
}

/// The components of `v + w` are the sums, place by place.
pub proof fn lemma_vector_add_view<T: Scalar, const N: usize>(v: Vector<[T; N]>, w: Vector<[T; N]>)
    ensures
        v.add_spec(w)@ == seq_add(v@, w@),
{
    lemma_array_of_view::<T, N>(seq_add(v@, w@));
}

/// The components of `v - w` are the differences, place by place.
pub proof fn lemma_vector_sub_view<T: Scalar, const N: usize>(v: Vector<[T; N]>, w: Vector<[T; N]>)
    ensures
        v.sub_spec(w)@ == seq_sub(v@, w@),
{
    lemma_array_of_view::<T, N>(seq_sub(v@, w@));
}

/// The components of `v * k` are the components of `v`, each times `k`.
pub proof fn lemma_vector_scale_view<T: Scalar, const N: usize>(v: Vector<[T; N]>, k: T)
    ensures
        v.mul_spec(k)@ == seq_scale(v@, k),
{
    lemma_array_of_view::<T, N>(seq_scale(v@, k));
}

/// The unit normal is the normalized perpendicular, and the perpendicular
/// of the edge from `a` to `b` is `(-d.y, d.x)` for `d = b - a`.
pub proof fn lemma_normal_is_normalized_perpendicular<T: Scalar>(a: Point<[T; 2]>, b: Point<[T; 2]>)
    ensures
        Point::normal_spec(a, b) == Point::perpendicular(a, b).normalize_spec(),
        Point::perpendicular(a, b)[0] == b.sub_spec(a)[1].neg_spec(),
        Point::perpendicular(a, b)[1] == b.sub_spec(a)[0],
{
    let turned = Point::perpendicular(a, b);
    let k = T::one_spec().div_spec(turned.magnitude_spec());
    lemma_vector_scale_view(turned, k);
    assert(Point::normal_spec(a, b).0 =~= turned.mul_spec(k).0);
    lemma_displacement_view(b, a);
}

} // verus!
