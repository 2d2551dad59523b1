use vstd::prelude::*;
use core::ops::{Add, Mul};
use vstd::std_specs::ops::{AddSpec, MulSpec};
use vstd::std_specs::iter::IteratorSpec;
use crate::error::Error;

verus! {

/// An immutable ordered sequence of elements.
pub struct Vector<T> {
    data: Vec<T>,
}

impl<T> View for Vector<T> {
    type V = Seq<T>;

    /// The elements, first to last.
    closed spec fn view(&self) -> Seq<T> {
        self.data@
    }
}

/// Whether `zero` is a value that `T::default()` may return.
pub open spec fn is_default<T: Default>(zero: T) -> bool {
    call_ensures(T::default, (), zero)
}

/// The pairwise products of `a` and `b` added up from left to right, starting
/// from `zero`, with the element type's own addition and multiplication.
pub open spec fn dot_from<T: Add<Output = T> + Mul<Output = T>>(zero: T, a: Seq<T>, b: Seq<T>) -> T
    decreases a.len(),
{
    if a.len() == 0 {
        zero
    } else {
        dot_from(zero, a.drop_last(), b.drop_last()).add_spec(a.last().mul_spec(b.last()))
    }
}

/// Whether every multiplication and addition of `dot_from` may be carried
/// out: for the machine integers, whether none of them overflows.
pub open spec fn dot_defined<T: Add<Output = T> + Mul<Output = T>>(zero: T, a: Seq<T>, b: Seq<T>) -> bool
    decreases a.len(),
{
    a.len() == 0 || {
        &&& dot_defined(zero, a.drop_last(), b.drop_last())
        &&& a.last().mul_req(b.last())
        &&& dot_from(zero, a.drop_last(), b.drop_last()).add_req(a.last().mul_spec(b.last()))
    }
}

/// Whether `r` is a dot product of `a` and `b`: their pairwise products
/// added up from a default value of the element type.
pub open spec fn is_dot<T: Default + Add<Output = T> + Mul<Output = T>>(a: Seq<T>, b: Seq<T>, r: T) -> bool {
    exists|zero: T| #[trigger] is_default(zero) && r == dot_from(zero, a, b)
}

/// Whether the operators `+` and `*` of `T` compute what their
/// specifications say.
pub open spec fn lawful<T: Add<Output = T> + Mul<Output = T>>() -> bool {
    T::obeys_add_spec() && T::obeys_mul_spec()
}

/// Whether the dot product of `a` and `b` can be computed: where the lengths
/// agree, the operators are lawful and every step of the sum may be carried
/// out, from whatever default value it starts.
pub open spec fn dot_computable<T: Default + Add<Output = T> + Mul<Output = T>>(a: Seq<T>, b: Seq<T>) -> bool {
    a.len() == b.len() ==> lawful::<T>() && forall|zero: T| #[trigger]
        is_default(zero) ==> dot_defined(zero, a, b)
}

impl<T> Vector<T> {
    /// The vector of the elements of `data`, in their order.
    pub fn new(data: Vec<T>) -> (v: Self)
        ensures
            v@ == data@,
    {
        Vector { data }
    }

    /// The number of elements.
    pub fn len(&self) -> (n: usize)
        ensures
            n == self@.len(),
    {
        self.data.len()
    }

    /// An iterator over the elements, first to last.
    pub fn iter(&self) -> (it: core::slice::Iter<'_, T>)
        ensures
            vstd::std_specs::slice::into_iter_elts(it) == self@,
            IteratorSpec::remaining(&it).unref() == self@,
            IteratorSpec::decrease(&it) is Some,
    {
        let elements = self.data.as_slice();
        let it = elements.iter();
        proof {
            vstd::std_specs::slice::axiom_spec_slice_iter(elements);
            assert(self.data@.as_ref().unref() =~= self.data@);
        }
        it
    }
}

impl<T> core::ops::Index<usize> for Vector<T> {
    type Output = T;

    /// The element at `index`, counted from zero.
    fn index(&self, index: usize) -> (element: &T)
        ensures
            *element == self@[index as int],
    {
        &self.data[index]
    }
}

impl<T> vstd::std_specs::core::IndexSpecImpl<usize> for Vector<T> {
    open spec fn index_req(&self, index: &usize) -> bool {
        *index < self@.len()
    }
}

impl<T> core::ops::Deref for Vector<T> {
    type Target = Vec<T>;

    /// The elements as a `Vec`, to read only.
    fn deref(&self) -> (data: &Vec<T>)
        ensures
            data@ == self@,
    {
        &self.data
    }
}

/// The dot product of `a` and `b`: the sum of their pairwise products, added
/// up from the default value of `T`. Vectors of different lengths are
/// refused.
pub fn dot_product<T>(a: Vector<T>, b: Vector<T>) -> (r: Result<T, Error>)
    where T: Default + Add<Output = T> + Mul<Output = T> + Copy
    requires
        dot_computable(a@, b@),
    ensures
        a@.len() != b@.len() ==> r == Err::<T, Error>(Error::DimensionMismatch),
        a@.len() == b@.len() ==> r is Ok && is_dot(a@, b@, r->Ok_0),
{
    if a.len() != b.len() {
        return Err(Error::DimensionMismatch);
    }
    let zero = T::default();
    assert(is_default(zero));
    let mut result = zero;
    let n = a.len();
    let mut k: usize = 0;
    while k < n
        invariant
            T::obeys_add_spec(),
            T::obeys_mul_spec(),
            n == a@.len(),
            n == b@.len(),
            k <= n,
            dot_defined(zero, a@, b@),
            result == dot_from(zero, a@.take(k as int), b@.take(k as int)),
        decreases n - k,
    {
        proof {
            lemma_dot_defined_prefix(zero, a@, b@, k as int + 1);
            assert(a@.take(k as int + 1).drop_last() == a@.take(k as int));
            assert(b@.take(k as int + 1).drop_last() == b@.take(k as int));
        }
        result = result + a.data[k] * b.data[k];
        k += 1;
    }
    proof {
        assert(a@.take(n as int) == a@);
        assert(b@.take(n as int) == b@);
    }
    Ok(result)
}

/// If the whole sum may be carried out, so may each of its prefixes.
pub proof fn lemma_dot_defined_prefix<T: Add<Output = T> + Mul<Output = T>>(zero: T, a: Seq<T>, b: Seq<T>, k: int)
    requires
        a.len() == b.len(),
        0 <= k <= a.len(),
        dot_defined(zero, a, b),
    ensures
        dot_defined(zero, a.take(k), b.take(k)),
    decreases a.len(),
{
    if k == a.len() {
        assert(a.take(k) == a);
        assert(b.take(k) == b);
    } else {
        lemma_dot_defined_prefix(zero, a.drop_last(), b.drop_last(), k);
        assert(a.drop_last().take(k) == a.take(k));
        assert(b.drop_last().take(k) == b.take(k));
    }
}

} // verus!
