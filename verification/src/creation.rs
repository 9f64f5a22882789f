//! Construction helpers: a zero-filling factory and nested-literal builders
//! that assemble a flat buffer and a shape, then delegate to the validated
//! tensor constructor.

use vstd::pervasive::unreached;
use vstd::prelude::*;
use vstd::slice::slice_to_vec;

use crate::error::TensorError;
use crate::tensor::lemma_product1;
use crate::tensor::lemma_product2;
use crate::tensor::lemma_product3;
use crate::tensor::lemma_product_nonneg;
use crate::tensor::lemma_product_skip_step;
use crate::tensor::product;
use crate::tensor::shape_fits;
use crate::tensor::Tensor;

verus! {

/// The views of a list of rows.
pub open spec fn row_views<T>(rows: Seq<Vec<T>>) -> Seq<Seq<T>> {
    Seq::new(rows.len(), |i: int| rows[i]@)
}

/// The views of a list of rank-2 blocks.
pub open spec fn block_views<T>(blocks: Seq<Vec<Vec<T>>>) -> Seq<Seq<Seq<T>>> {
    Seq::new(blocks.len(), |i: int| row_views(blocks[i]@))
}

/// All rows have length `cols`.
pub open spec fn uniform_rows<T>(rows: Seq<Seq<T>>, cols: int) -> bool {
    forall|i: int| 0 <= i < rows.len() ==> (#[trigger] rows[i]).len() == cols
}

/// A rank-2 block has `rows` rows, each of length `cols`.
pub open spec fn block_matches<T>(block: Seq<Seq<T>>, rows: int, cols: int) -> bool {
    block.len() == rows && uniform_rows(block, cols)
}

/// All blocks have `rows` rows, each of length `cols`.
pub open spec fn uniform_blocks<T>(blocks: Seq<Seq<Seq<T>>>, rows: int, cols: int) -> bool {
    forall|i: int| 0 <= i < blocks.len() ==> block_matches(#[trigger] blocks[i], rows, cols)
}

/// Rows concatenated top to bottom.
pub open spec fn flatten_rows<T>(rows: Seq<Seq<T>>) -> Seq<T>
    decreases rows.len(),
{
    if rows.len() == 0 {
        Seq::empty()
    } else {
        flatten_rows(rows.drop_last()) + rows.last()
    }
}

/// Blocks flattened and concatenated first to last.
pub open spec fn flatten_blocks<T>(blocks: Seq<Seq<Seq<T>>>) -> Seq<T>
    decreases blocks.len(),
{
    if blocks.len() == 0 {
        Seq::empty()
    } else {
        flatten_blocks(blocks.drop_last()) + flatten_rows(blocks.last())
    }
}

proof fn lemma_flatten_rows_take_step<T>(rows: Seq<Seq<T>>, i: int)
    requires
        0 <= i < rows.len(),
    ensures
        flatten_rows(rows.take(i + 1)) == flatten_rows(rows.take(i)) + rows[i],
{
    assert(rows.take(i + 1).drop_last() =~= rows.take(i));
    assert(rows.take(i + 1).last() == rows[i]);
}

proof fn lemma_flatten_blocks_take_step<T>(blocks: Seq<Seq<Seq<T>>>, i: int)
    requires
        0 <= i < blocks.len(),
    ensures
        flatten_blocks(blocks.take(i + 1)) == flatten_blocks(blocks.take(i)) + flatten_rows(
            blocks[i],
        ),
{
    assert(blocks.take(i + 1).drop_last() =~= blocks.take(i));
    assert(blocks.take(i + 1).last() == blocks[i]);
}

/// Creates a tensor of the given shape with every element set to the
/// element type's default value.
///
/// The shape's element count, and each of its suffix products, must fit in
/// `usize`: an overflowing count is not a recoverable condition and is ruled
/// out up front rather than silently wrapped.
pub fn zeros<T: Default + Copy>(shape: &[usize]) -> (t: Tensor<T>)
    requires
        shape_fits(shape@),
    ensures
        t.spec_shape() == shape@,
        t.spec_data().len() == product(shape@),
        t.well_formed(),
        forall|i: int|
            0 <= i < t.spec_data().len() ==> call_ensures(
                T::default,
                (),
                #[trigger] t.spec_data()[i],
            ),
        forall|i: int|
            0 <= i < t.spec_data().len() ==> #[trigger] t.spec_data()[i] == t.spec_data()[0],
{
    let z: T = T::default();
    let n = shape.len();
    let mut count: usize = 1;
    let mut i: usize = n;
    proof {
        assert(shape@.skip(n as int).len() == 0);
    }
    while i > 0
        invariant
            n == shape@.len(),
            i <= n,
            shape_fits(shape@),
            count as int == product(shape@.skip(i as int)),
        decreases i,
    {
        i -= 1;
        proof {
            lemma_product_skip_step(shape@, i as int);
            lemma_product_nonneg(shape@.skip(i as int + 1));
            assert(product(shape@.skip(i as int)) <= usize::MAX as int);
        }
        count = shape[i] * count;
    }
    proof {
        assert(shape@.skip(0) =~= shape@);
    }
    let mut data: Vec<T> = Vec::new();
    while data.len() < count
        invariant
            data@.len() <= count,
            forall|k: int| 0 <= k < data@.len() ==> #[trigger] data@[k] == z,
        decreases count - data@.len(),
    {
        data.push(z);
    }
    match Tensor::new(data, slice_to_vec(shape)) {
        Ok(t) => t,
        Err(_) => unreached(),
    }
}

/// Flattens rows of equal length `cols` into one buffer, top to bottom.
fn flatten_uniform_rows<T: Copy + Clone>(rows: &Vec<Vec<T>>, cols: usize) -> (out: Vec<T>)
    requires
        uniform_rows(row_views(rows@), cols as int),
    ensures
        out@ == flatten_rows(row_views(rows@)),
        out@.len() == rows@.len() * cols as int,
{
    let d1 = rows.len();
    let mut out: Vec<T> = Vec::new();
    let mut i: usize = 0;
    proof {
        assert(row_views(rows@).take(0) =~= Seq::<Seq<T>>::empty());
    }
    while i < d1
        invariant
            d1 == rows@.len(),
            i <= d1,
            uniform_rows(row_views(rows@), cols as int),
            out@ == flatten_rows(row_views(rows@).take(i as int)),
            out@.len() == i as int * cols as int,
        decreases d1 - i,
    {
        let row = &rows[i];
        proof {
            assert(row_views(rows@)[i as int] == rows@[i as int]@);
            assert(row@.len() == cols as int);
        }
        let mut j: usize = 0;
        while j < cols
            invariant
                j <= cols,
                row@.len() == cols as int,
                out@ == flatten_rows(row_views(rows@).take(i as int)) + row@.take(j as int),
                flatten_rows(row_views(rows@).take(i as int)).len() == i as int * cols as int,
            decreases cols - j,
        {
            out.push(row[j]);
            j += 1;
            proof {
                assert(row@.take(j as int) =~= row@.take(j as int - 1).push(row@[j as int - 1]));
                assert(out@ =~= flatten_rows(row_views(rows@).take(i as int)) + row@.take(
                    j as int,
                ));
            }
        }
        proof {
            assert(row@.take(cols as int) =~= row@);
            lemma_flatten_rows_take_step(row_views(rows@), i as int);
            assert(out@ == flatten_rows(row_views(rows@).take(i as int + 1)));
            assert((i as int + 1) * cols as int == i as int * cols as int + cols as int)
                by (nonlinear_arith);
        }
        i += 1;
    }
    proof {
        assert(row_views(rows@).take(d1 as int) =~= row_views(rows@));
    }
    out
}

/// Builds a rank-2 tensor from a list of at least one row: the shape is the
/// row count by the first row's length, the data the rows concatenated top
/// to bottom. Fails exactly when some row's length differs from the first
/// row's; a ragged list is never silently padded or truncated.
pub fn from_rank2<T: Copy + Clone>(rows: Vec<Vec<T>>) -> (result: Result<Tensor<T>, TensorError>)
    requires
        rows@.len() > 0,
    ensures
        (match result {
            Ok(t) => {
                &&& uniform_rows(row_views(rows@), rows@[0]@.len() as int)
                &&& t.spec_shape() == seq![rows@.len() as usize, rows@[0]@.len() as usize]
                &&& t.spec_data() == flatten_rows(row_views(rows@))
                &&& t.well_formed()
            },
            Err(e) => {
                &&& !uniform_rows(row_views(rows@), rows@[0]@.len() as int)
                &&& (match e {
                    TensorError::ShapeError(m) => m@ == "all rows must have the same length"@,
                })
            },
        }),
{
    let d1 = rows.len();
    let d2 = rows[0].len();
    let mut uniform = true;
    let mut i: usize = 0;
    while i < d1
        invariant
            d1 == rows@.len(),
            i <= d1,
            d2 == rows@[0]@.len(),
            uniform <==> (forall|a: int| 0 <= a < i ==> (#[trigger] rows@[a]@).len() == d2),
        decreases d1 - i,
    {
        if rows[i].len() != d2 {
            uniform = false;
        }
        i += 1;
    }
    if !uniform {
        proof {
            let a = choose|a: int| 0 <= a < d1 && rows@[a]@.len() != d2;
            assert(row_views(rows@)[a].len() != d2);
        }
        return Err(
            TensorError::ShapeError(String::from_str("all rows must have the same length")),
        );
    }
    proof {
        assert forall|a: int| 0 <= a < row_views(rows@).len() implies (#[trigger] row_views(
            rows@,
        )[a]).len() == d2 by {
            assert(rows@[a]@.len() == d2);
        }
    }
    let data = flatten_uniform_rows(&rows, d2);
    let total = data.len();
    let mut shape: Vec<usize> = Vec::new();
    shape.push(d1);
    shape.push(d2);
    proof {
        assert(shape@ =~= seq![d1, d2]);
        lemma_product2(d1, d2);
        assert(total as int == data@.len());
        assert(data@.len() <= usize::MAX as int);
    }
    match Tensor::new(data, shape) {
        Ok(t) => Ok(t),
        Err(_) => unreached(),
    }
}

/// Builds a rank-3 tensor from a list of at least one rank-2 block, each a
/// non-empty list of rows: the shape is the block count by the first
/// block's row count by its first row's length, the data the blocks
/// flattened and concatenated first to last. Fails exactly when some block
/// differs from the first in row count or row length; a ragged list is
/// never silently padded or truncated.
pub fn from_rank3<T: Copy + Clone>(blocks: Vec<Vec<Vec<T>>>) -> (result: Result<
    Tensor<T>,
    TensorError,
>)
    requires
        blocks@.len() > 0,
        blocks@[0]@.len() > 0,
    ensures
        (match result {
            Ok(t) => {
                &&& uniform_blocks(
                    block_views(blocks@),
                    blocks@[0]@.len() as int,
                    blocks@[0]@[0]@.len() as int,
                )
                &&& t.spec_shape() == seq![
                    blocks@.len() as usize,
                    blocks@[0]@.len() as usize,
                    blocks@[0]@[0]@.len() as usize,
                ]
                &&& t.spec_data() == flatten_blocks(block_views(blocks@))
                &&& t.well_formed()
            },
            Err(e) => {
                &&& !uniform_blocks(
                    block_views(blocks@),
                    blocks@[0]@.len() as int,
                    blocks@[0]@[0]@.len() as int,
                )
                &&& (match e {
                    TensorError::ShapeError(m) => m@ == "all inner matrices must have equal sizes"@,
                })
            },
        }),
{
    let d1 = blocks.len();
    let d2 = blocks[0].len();
    let d3 = blocks[0][0].len();
    let mut uniform = true;
    let mut i: usize = 0;
    while i < d1
        invariant
            d1 == blocks@.len(),
            0 < d1,
            i <= d1,
            uniform <==> (forall|a: int|
                0 <= a < i ==> block_matches(#[trigger] block_views(blocks@)[a], d2 as int, d3 as int)),
        decreases d1 - i,
    {
        let block = &blocks[i];
        proof {
            assert(block_views(blocks@)[i as int] == row_views(blocks@[i as int]@));
        }
        let mut rows_ok = block.len() == d2;
        let mut j: usize = 0;
        while j < block.len()
            invariant
                j <= block@.len(),
                rows_ok <==> (block@.len() == d2 && forall|b: int|
                    0 <= b < j ==> (#[trigger] block@[b]@).len() == d3),
            decreases block@.len() - j,
        {
            if block[j].len() != d3 {
                rows_ok = false;
            }
            j += 1;
        }
        proof {
            if rows_ok {
                assert forall|b: int| 0 <= b < row_views(block@).len() implies (#[trigger] row_views(
                    block@,
                )[b]).len() == d3 by {
                    assert(block@[b]@.len() == d3);
                }
                assert(block_matches(row_views(block@), d2 as int, d3 as int));
            } else {
                if block@.len() == d2 {
                    let b = choose|b: int| 0 <= b < j && (#[trigger] block@[b]@).len() != d3;
                    assert(row_views(block@)[b].len() != d3);
                    assert(!uniform_rows(row_views(block@), d3 as int));
                }
                assert(!block_matches(row_views(block@), d2 as int, d3 as int));
            }
        }
        if !rows_ok {
            uniform = false;
        }
        i += 1;
    }
    if !uniform {
        return Err(
            TensorError::ShapeError(String::from_str("all inner matrices must have equal sizes")),
        );
    }
    let mut data: Vec<T> = Vec::new();
    let mut i: usize = 0;
    proof {
        assert(block_views(blocks@).take(0) =~= Seq::<Seq<Seq<T>>>::empty());
    }
    while i < d1
        invariant
            d1 == blocks@.len(),
            0 < d1,
            i <= d1,
            uniform_blocks(block_views(blocks@), d2 as int, d3 as int),
            data@ == flatten_blocks(block_views(blocks@).take(i as int)),
            data@.len() == i as int * (d2 as int * d3 as int),
            i > 0 ==> d2 as int * d3 as int <= usize::MAX as int,
        decreases d1 - i,
    {
        proof {
            assert(block_matches(block_views(blocks@)[i as int], d2 as int, d3 as int));
            assert(block_views(blocks@)[i as int] == row_views(blocks@[i as int]@));
        }
        let mut part = flatten_uniform_rows(&blocks[i], d3);
        let part_len = part.len();
        proof {
            assert(part_len as int == part@.len());
            assert(part@.len() == d2 as int * d3 as int);
        }
        data.append(&mut part);
        proof {
            lemma_flatten_blocks_take_step(block_views(blocks@), i as int);
            assert(data@ == flatten_blocks(block_views(blocks@).take(i as int + 1)));
            assert((i as int + 1) * (d2 as int * d3 as int) == i as int * (d2 as int * d3 as int)
                + d2 as int * d3 as int) by (nonlinear_arith);
        }
        i += 1;
    }
    proof {
        assert(block_views(blocks@).take(d1 as int) =~= block_views(blocks@));
    }
    let total = data.len();
    let mut shape: Vec<usize> = Vec::new();
    shape.push(d1);
    shape.push(d2);
    shape.push(d3);
    proof {
        assert(shape@ =~= seq![d1, d2, d3]);
        lemma_product3(d1, d2, d3);
        assert(total as int == data@.len());
        assert(data@.len() <= usize::MAX as int);
    }
    match Tensor::new(data, shape) {
        Ok(t) => Ok(t),
        Err(_) => unreached(),
    }
}

/// Builds a rank-1 tensor from a flat list of values: the shape is the
/// list's length and the data is the list itself. Cannot fail.
pub fn from_rank1<T: Copy + Clone>(values: Vec<T>) -> (t: Tensor<T>)
    ensures
        t.spec_shape() == seq![values@.len() as usize],
        t.spec_data() == values@,
        t.well_formed(),
{
    let n = values.len();
    let mut shape: Vec<usize> = Vec::new();
    shape.push(n);
    proof {
        assert(shape@ =~= seq![n]);
        lemma_product1(n);
    }
    match Tensor::new(values, shape) {
        Ok(t) => t,
        Err(_) => unreached(),
    }
}

} // verus!
