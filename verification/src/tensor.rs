//! The tensor value type: a contiguous flat buffer with shape and derived
//! row-major strides, validated at construction.

use vstd::prelude::*;

use crate::error::TensorError;
use crate::text::debug_text;
use crate::text::display_spec;
use crate::text::format_recursive;
use crate::text::has_zero_dim;
use crate::text::size_mismatch_message;
use crate::text::size_mismatch_text;
use crate::text::text_views;

verus! {

/// The number of elements a shape demands: the product of its dimensions,
/// with the empty product equal to 1 (a scalar).
pub open spec fn product(shape: Seq<usize>) -> int
    decreases shape.len(),
{
    if shape.len() == 0 {
        1
    } else {
        shape[0] * product(shape.skip(1))
    }
}

/// Every suffix product of `shape` fits in `usize`. This is the machine
/// limit under which the row-major strides of `shape` are representable.
pub open spec fn shape_fits(shape: Seq<usize>) -> bool {
    forall|i: int| 0 <= i <= shape.len() ==> product(#[trigger] shape.skip(i)) <= usize::MAX as int
}

pub proof fn lemma_product_nonneg(shape: Seq<usize>)
    ensures
        product(shape) >= 0,
    decreases shape.len(),
{
    if shape.len() > 0 {
        lemma_product_nonneg(shape.skip(1));
        assert(shape[0] as int * product(shape.skip(1)) >= 0) by (nonlinear_arith)
            requires
                shape[0] as int >= 0,
                product(shape.skip(1)) >= 0,
        ;
    }
}

/// Peeling one dimension off the front of a suffix.
pub proof fn lemma_product_skip_step(shape: Seq<usize>, i: int)
    requires
        0 <= i < shape.len(),
    ensures
        product(shape.skip(i)) == shape[i] * product(shape.skip(i + 1)),
{
    assert(shape.skip(i).skip(1) =~= shape.skip(i + 1));
}

/// A shape with a zero dimension demands no elements at all.
pub proof fn lemma_product_zero(shape: Seq<usize>, j: int)
    requires
        0 <= j < shape.len(),
        shape[j] == 0,
    ensures
        product(shape) == 0,
    decreases shape.len(),
{
    if j == 0 {
        assert(shape[0] as int * product(shape.skip(1)) == 0) by (nonlinear_arith)
            requires
                shape[0] == 0,
        ;
    } else {
        lemma_product_zero(shape.skip(1), j - 1);
        assert(shape[0] as int * product(shape.skip(1)) == 0) by (nonlinear_arith)
            requires
                product(shape.skip(1)) == 0,
        ;
    }
}

/// The element count of a rank-1 shape.
pub proof fn lemma_product1(d: usize)
    ensures
        product(seq![d]) == d as int,
        shape_fits(seq![d]),
{
    let s = seq![d];
    assert(s.skip(1).len() == 0);
    assert(product(s.skip(1)) == 1);
    assert(s[0] == d);
    assert(product(s) == d as int * product(s.skip(1)));
    assert forall|i: int| 0 <= i <= s.len() implies product(#[trigger] s.skip(i))
        <= usize::MAX as int by {
        if i == 0 {
            assert(s.skip(0) =~= s);
        } else {
            assert(s.skip(i).len() == 0);
        }
    }
}

/// The element count of a rank-2 shape, and the machine limit under which
/// its strides are representable.
pub proof fn lemma_product2(d1: usize, d2: usize)
    ensures
        product(seq![d1, d2]) == d1 as int * d2 as int,
        d1 as int * d2 as int <= usize::MAX as int ==> shape_fits(seq![d1, d2]),
{
    let s = seq![d1, d2];
    assert(s.skip(1) =~= seq![d2]);
    lemma_product1(d2);
    assert(product(s) == d1 as int * (d2 as int));
    if d1 as int * d2 as int <= usize::MAX as int {
        assert forall|i: int| 0 <= i <= s.len() implies product(#[trigger] s.skip(i))
            <= usize::MAX as int by {
            if i == 0 {
                assert(s.skip(0) =~= s);
            } else if i == 1 {
                assert(s.skip(1) =~= seq![d2]);
            } else {
                assert(s.skip(i).len() == 0);
            }
        }
    }
}

/// The element count of a rank-3 shape, and the machine limit under which
/// its strides are representable.
pub proof fn lemma_product3(d1: usize, d2: usize, d3: usize)
    ensures
        product(seq![d1, d2, d3]) == d1 as int * (d2 as int * d3 as int),
        (d1 as int * (d2 as int * d3 as int) <= usize::MAX as int && d2 as int * d3 as int
            <= usize::MAX as int) ==> shape_fits(seq![d1, d2, d3]),
{
    let s = seq![d1, d2, d3];
    assert(s.skip(1) =~= seq![d2, d3]);
    lemma_product2(d2, d3);
    assert(product(s) == d1 as int * (d2 as int * d3 as int));
    if d1 as int * (d2 as int * d3 as int) <= usize::MAX as int && d2 as int * d3 as int
        <= usize::MAX as int {
        assert forall|i: int| 0 <= i <= s.len() implies product(#[trigger] s.skip(i))
            <= usize::MAX as int by {
            if i == 0 {
                assert(s.skip(0) =~= s);
            } else if i == 1 {
                assert(s.skip(1) =~= seq![d2, d3]);
                assert(product(seq![d2, d3]) == d2 as int * d3 as int);
            } else if i == 2 {
                assert(s.skip(2) =~= seq![d3]);
                lemma_product1(d3);
            } else {
                assert(s.skip(i).len() == 0);
            }
        }
    }
}

/// An N-dimensional array: a contiguous, row-major flat buffer of elements
/// of type `T`, a shape, and the strides derived from the shape.
#[derive(Debug, PartialEq)]
pub struct Tensor<T> {
    /// A flat vector holding the array's data in a contiguous block.
    data: Vec<T>,
    /// The sizes of the dimensions, outer to inner.
    shape: Vec<usize>,
    /// How many elements of `data` to skip to move one step along each
    /// dimension; derived from `shape`, never set independently.
    strides: Vec<usize>,
}

impl<T> Tensor<T> {
    /// The elements, in row-major order.
    pub closed spec fn spec_data(&self) -> Seq<T> {
        self.data@
    }

    /// The dimension sizes, outer to inner.
    pub closed spec fn spec_shape(&self) -> Seq<usize> {
        self.shape@
    }

    /// The derived strides.
    pub closed spec fn spec_strides(&self) -> Seq<usize> {
        self.strides@
    }

    /// The invariants of a live tensor: the buffer's length equals the
    /// shape's element count, and the strides are exactly the row-major
    /// derivation of the shape (each stride is the product of the dimension
    /// sizes that follow it).
    pub open spec fn well_formed(&self) -> bool {
        &&& self.spec_data().len() == product(self.spec_shape())
        &&& self.spec_strides().len() == self.spec_shape().len()
        &&& forall|i: int|
            0 <= i < self.spec_shape().len() ==> #[trigger] self.spec_strides()[i] as int
                == product(self.spec_shape().skip(i + 1))
    }

    #[verifier::type_invariant]
    spec fn type_inv(&self) -> bool {
        self.well_formed()
    }

    /// The flat buffer. Every live tensor is well formed: construction goes
    /// through the validated constructor alone, and no operation mutates a
    /// tensor.
    pub fn data(&self) -> (d: &Vec<T>)
        ensures
            d@ == self.spec_data(),
            self.well_formed(),
    {
        proof {
            use_type_invariant(self);
        }
        &self.data
    }

    /// The shape.
    pub fn shape(&self) -> (s: &Vec<usize>)
        ensures
            s@ == self.spec_shape(),
            self.well_formed(),
    {
        proof {
            use_type_invariant(self);
        }
        &self.shape
    }

    /// The strides.
    pub fn strides(&self) -> (s: &Vec<usize>)
        ensures
            s@ == self.spec_strides(),
            self.well_formed(),
    {
        proof {
            use_type_invariant(self);
        }
        &self.strides
    }
}

impl<T: core::fmt::Debug> Tensor<T> {
    /// Renders the tensor as nested bracketed text mirroring its shape: an
    /// empty-bracket placeholder for a scalar shape or any zero-size
    /// dimension, otherwise one bracket level per dimension, elements
    /// comma-separated with no trailing comma, each level indented two
    /// spaces per depth. The bracket structure is pinned exactly; the text
    /// standing for each element comes from the element type's `Debug`
    /// implementation.
    pub fn to_display_string(&self) -> (s: String)
        ensures
            exists|elems: Seq<Seq<char>>|
                elems.len() == self.spec_data().len() && s@ == #[trigger] display_spec(
                    elems,
                    self.spec_shape(),
                    self.spec_strides(),
                ),
            (self.spec_shape().len() == 0 || has_zero_dim(self.spec_shape())) ==> s@ == seq![
                '[',
                ']',
                '\n',
            ],
    {
        proof {
            use_type_invariant(self);
        }
        let rank = self.shape.len();
        let mut zero_dim = false;
        let mut k: usize = 0;
        while k < rank
            invariant
                rank == self.shape@.len(),
                k <= rank,
                zero_dim <==> exists|j: int| 0 <= j < k && self.shape@[j] == 0,
            decreases rank - k,
        {
            if self.shape[k] == 0 {
                zero_dim = true;
            }
            k += 1;
        }
        if rank == 0 || zero_dim {
            let s = String::from_str("[]\n");
            proof {
                reveal_strlit("[]\n");
                assert(s@ =~= seq!['[', ']', '\n']);
                let w = Seq::new(self.spec_data().len(), |i: int| Seq::<char>::empty());
                if zero_dim {
                    let j = choose|j: int| 0 <= j < rank && self.shape@[j] == 0;
                    assert(has_zero_dim(self.spec_shape()));
                }
                assert(s@ == display_spec(w, self.spec_shape(), self.spec_strides()));
            }
            return s;
        }
        let n = self.data.len();
        let mut elems: Vec<String> = Vec::new();
        let mut i: usize = 0;
        while i < n
            invariant
                n == self.data@.len(),
                i <= n,
                elems@.len() == i,
            decreases n - i,
        {
            elems.push(debug_text(&self.data[i]));
            i += 1;
        }
        let mut out = String::new();
        proof {
            assert(self.shape@.skip(0) =~= self.shape@);
            assert forall|j: int| 0 <= j < self.shape@.len() implies #[trigger] self.shape@[j]
                >= 1 by {}
        }
        format_recursive(&mut out, &elems, self.shape.as_slice(), self.strides.as_slice(), 0, 0, 0);
        proof {
            let w = text_views(elems@);
            assert(w.len() == self.spec_data().len());
            assert(!has_zero_dim(self.spec_shape()));
            assert(out@ == display_spec(w, self.spec_shape(), self.spec_strides()));
        }
        out
    }
}

/// Copies a vector of dimension sizes element by element.
fn copy_usize_vec(v: &Vec<usize>) -> (res: Vec<usize>)
    ensures
        res@ == v@,
{
    let mut res: Vec<usize> = Vec::new();
    let mut j: usize = 0;
    while j < v.len()
        invariant
            j <= v@.len(),
            res@ == v@.take(j as int),
        decreases v@.len() - j,
    {
        res.push(v[j]);
        j += 1;
        proof {
            assert(res@ =~= v@.take(j as int));
        }
    }
    proof {
        assert(v@.take(v@.len() as int) =~= v@);
    }
    res
}

impl<T: Clone> Clone for Tensor<T> {
    /// Clones the tensor field by field. The shape and strides of the clone
    /// are those of the original; the buffer has the same length, each of
    /// its elements a clone of the original's.
    fn clone(&self) -> (res: Self)
        ensures
            res.spec_shape() == self.spec_shape(),
            res.spec_strides() == self.spec_strides(),
            res.spec_data().len() == self.spec_data().len(),
            forall|i: int|
                0 <= i < self.spec_data().len() ==> cloned::<T>(
                    self.spec_data()[i],
                    #[trigger] res.spec_data()[i],
                ),
    {
        proof {
            use_type_invariant(self);
        }
        Tensor {
            data: self.data.clone(),
            shape: copy_usize_vec(&self.shape),
            strides: copy_usize_vec(&self.strides),
        }
    }
}

/// Row-major strides satisfy the defining recurrence: the innermost stride
/// is 1 and each stride is the next stride times the next dimension's size.
pub proof fn lemma_strides_recurrence(shape: Seq<usize>, strides: Seq<usize>)
    requires
        strides.len() == shape.len(),
        forall|i: int|
            0 <= i < shape.len() ==> #[trigger] strides[i] as int == product(shape.skip(i + 1)),
    ensures
        shape.len() > 0 ==> strides[shape.len() - 1] == 1,
        forall|i: int|
            0 <= i < shape.len() - 1 ==> #[trigger] strides[i] as int == strides[i + 1] as int
                * shape[i + 1] as int,
{
    if shape.len() > 0 {
        assert(shape.skip(shape.len() as int).len() == 0);
    }
    assert forall|i: int| 0 <= i < shape.len() - 1 implies #[trigger] strides[i] as int
        == strides[i + 1] as int * shape[i + 1] as int by {
        assert(strides[i] as int == product(shape.skip(i + 1)));
        assert(strides[i + 1] as int == product(shape.skip(i + 1 + 1)));
        lemma_product_skip_step(shape, i + 1);
    }
}

/// For every well-formed tensor — hence for the result of every successful
/// construction — the innermost stride is 1 and each stride is the next
/// stride times the next dimension's size.
pub proof fn lemma_tensor_strides_recurrence<T>(t: &Tensor<T>)
    requires
        t.well_formed(),
    ensures
        t.spec_shape().len() > 0 ==> t.spec_strides()[t.spec_shape().len() - 1] == 1,
        forall|i: int|
            0 <= i < t.spec_shape().len() - 1 ==> #[trigger] t.spec_strides()[i] as int
                == t.spec_strides()[i + 1] as int * t.spec_shape()[i + 1] as int,
{
    lemma_strides_recurrence(t.spec_shape(), t.spec_strides());
}

/// Two well-formed tensors with equal data and equal shape agree on their
/// strides as well: strides are derived from the shape and carry no state
/// of their own, so equality of data and shape is equality of tensors.
pub proof fn lemma_strides_determined<T>(a: &Tensor<T>, b: &Tensor<T>)
    requires
        a.well_formed(),
        b.well_formed(),
        a.spec_data() == b.spec_data(),
        a.spec_shape() == b.spec_shape(),
    ensures
        a.spec_strides() == b.spec_strides(),
{
    assert(a.spec_strides() =~= b.spec_strides());
}

impl<T: Copy + Clone> Tensor<T> {
    /// Creates a tensor from a flat data buffer and a shape.
    ///
    /// Succeeds exactly when the buffer's length equals the product of the
    /// dimensions in `shape`; the buffer is taken as given, neither copied
    /// nor reordered, and the strides are derived from the shape. Otherwise
    /// no tensor is constructed and a `ShapeError` names both the buffer's
    /// length and the expected element count.
    pub fn new(data: Vec<T>, shape: Vec<usize>) -> (result: Result<Tensor<T>, TensorError>)
        requires
            data@.len() == product(shape@) ==> shape_fits(shape@),
        ensures
            result is Ok <==> data@.len() == product(shape@),
            (match result {
                Ok(t) => {
                    &&& data@.len() == product(shape@)
                    &&& t.spec_data() == data@
                    &&& t.spec_shape() == shape@
                    &&& t.well_formed()
                },
                Err(e) => {
                    &&& data@.len() != product(shape@)
                    &&& (match e {
                        TensorError::ShapeError(m) => m@ == size_mismatch_message(
                            data@.len() as int,
                            product(shape@),
                        ),
                    })
                },
            }),
    {
        let n = shape.len();
        let mut has_zero = false;
        let mut k: usize = 0;
        while k < n
            invariant
                n == shape@.len(),
                k <= n,
                has_zero <==> exists|j: int| 0 <= j < k && shape@[j] == 0,
            decreases n - k,
        {
            if shape[k] == 0 {
                has_zero = true;
            }
            k += 1;
        }
        let expected: Option<usize>;
        if has_zero {
            proof {
                let j = choose|j: int| 0 <= j < n && shape@[j] == 0;
                lemma_product_zero(shape@, j);
            }
            expected = Some(0);
        } else {
            let mut p: usize = 1;
            let mut ok = true;
            let mut i: usize = n;
            proof {
                assert(shape@.skip(n as int).len() == 0);
            }
            while i > 0
                invariant
                    n == shape@.len(),
                    i <= n,
                    forall|j: int| 0 <= j < n ==> shape@[j] >= 1,
                    ok ==> p as int == product(shape@.skip(i as int)),
                    !ok ==> product(shape@.skip(i as int)) > usize::MAX as int,
                decreases i,
            {
                i -= 1;
                proof {
                    lemma_product_skip_step(shape@, i as int);
                }
                if ok {
                    match shape[i].checked_mul(p) {
                        Some(v) => {
                            p = v;
                        },
                        None => {
                            ok = false;
                        },
                    }
                } else {
                    proof {
                        lemma_product_nonneg(shape@.skip(i as int + 1));
                        assert(shape@[i as int] as int * product(shape@.skip(i as int + 1))
                            >= product(shape@.skip(i as int + 1))) by (nonlinear_arith)
                            requires
                                shape@[i as int] as int >= 1,
                                product(shape@.skip(i as int + 1)) >= 0,
                        ;
                    }
                }
            }
            proof {
                assert(shape@.skip(0) =~= shape@);
            }
            expected = if ok {
                Some(p)
            } else {
                None
            };
        }
        let len_ok = match expected {
            Some(e) => data.len() == e,
            None => false,
        };
        if len_ok {
            let strides = Self::calculate_strides(shape.as_slice());
            Ok(Tensor { data, shape, strides })
        } else {
            Err(TensorError::ShapeError(size_mismatch_text(data.len(), expected)))
        }
    }

    /// Calculates row-major strides for a given shape: the innermost stride
    /// is 1 and each earlier stride is the product of the dimension sizes
    /// that follow it. For an empty shape the result is empty.
    pub fn calculate_strides(shape: &[usize]) -> (strides: Vec<usize>)
        requires
            shape_fits(shape@),
        ensures
            strides@.len() == shape@.len(),
            forall|i: int|
                0 <= i < shape@.len() ==> #[trigger] strides@[i] as int == product(
                    shape@.skip(i + 1),
                ),
    {
        let n = shape.len();
        let mut strides: Vec<usize> = Vec::new();
        while strides.len() < n
            invariant
                strides@.len() <= n,
                forall|k: int| 0 <= k < strides@.len() ==> #[trigger] strides@[k] == 1,
            decreases n - strides@.len(),
        {
            strides.push(1);
        }
        proof {
            assert(shape@.skip(n as int).len() == 0);
        }
        if n > 0 {
            let mut i: usize = n - 1;
            while i > 0
                invariant
                    n == shape@.len(),
                    strides@.len() == n,
                    i < n,
                    shape_fits(shape@),
                    forall|k: int|
                        i <= k < n ==> #[trigger] strides@[k] as int == product(shape@.skip(k + 1)),
                    forall|k: int| 0 <= k < i ==> #[trigger] strides@[k] == 1,
                decreases i,
            {
                i -= 1;
                proof {
                    assert(strides@[i as int + 1] as int == product(shape@.skip(i as int + 2)));
                    lemma_product_skip_step(shape@, i as int + 1);
                    lemma_product_nonneg(shape@.skip(i as int + 2));
                    assert(product(shape@.skip(i as int + 1)) <= usize::MAX as int);
                    assert(strides@[i as int + 1] as int * shape@[i as int + 1] as int
                        <= usize::MAX as int) by (nonlinear_arith)
                        requires
                            strides@[i as int + 1] as int == product(shape@.skip(i as int + 2)),
                            shape@[i as int + 1] as int * product(shape@.skip(i as int + 2))
                                <= usize::MAX as int,
                    ;
                }
                let v = strides[i + 1] * shape[i + 1];
                strides.set(i, v);
            }
        }
        strides
    }
}

} // verus!
