//! Text helpers: decimal rendering of sizes and the message carried by a
//! shape-mismatch error.

use vstd::prelude::*;

use crate::tensor::lemma_product_nonneg;
use crate::tensor::lemma_product_skip_step;
use crate::tensor::product;

verus! {

/// The views of a list of element texts.
pub open spec fn text_views(elems: Seq<String>) -> Seq<Seq<char>> {
    Seq::new(elems.len(), |i: int| elems[i]@)
}

/// The indentation at a recursion depth: two spaces per level.
pub open spec fn indent(level: nat) -> Seq<char>
    decreases level,
{
    if level == 0 {
        Seq::empty()
    } else {
        indent((level - 1) as nat) + seq![' ', ' ']
    }
}

/// Some dimension has size zero, so the tensor holds no elements.
pub open spec fn has_zero_dim(shape: Seq<usize>) -> bool {
    exists|i: int| 0 <= i < shape.len() && shape[i] == 0
}

/// The text of the sub-tensor spanning dimensions `d..` of `shape` at
/// element offset `offset`: one bracket level, holding one row per step
/// along dimension `d`.
pub open spec fn render_node(
    elems: Seq<Seq<char>>,
    shape: Seq<usize>,
    strides: Seq<usize>,
    d: int,
    offset: int,
    level: nat,
) -> Seq<char>
    recommends
        0 <= d < shape.len(),
    decreases shape.len() - d, shape[d] as int + 1,
{
    seq!['[', '\n'] + render_rows(elems, shape, strides, d, offset, level, 0) + indent(level)
        + seq![']']
}

/// The rows of a bracket level from row `i` on, each indented one level
/// deeper: the element's text at the innermost dimension, a nested bracket
/// level otherwise, then a separating comma for every row but the last.
pub open spec fn render_rows(
    elems: Seq<Seq<char>>,
    shape: Seq<usize>,
    strides: Seq<usize>,
    d: int,
    offset: int,
    level: nat,
    i: int,
) -> Seq<char>
    recommends
        0 <= d < shape.len(),
        0 <= i,
    decreases shape.len() - d, shape[d] as int - i,
{
    if i < 0 || i >= shape[d] as int || d < 0 || d >= shape.len() {
        Seq::empty()
    } else {
        let body = if d == shape.len() - 1 {
            elems[offset + i * strides[d] as int]
        } else {
            render_node(elems, shape, strides, d + 1, offset + i * strides[d] as int, level + 1)
        };
        let sep = if i < shape[d] as int - 1 {
            seq![',', '\n']
        } else {
            seq!['\n']
        };
        indent(level + 1) + body + sep + render_rows(elems, shape, strides, d, offset, level, i + 1)
    }
}

/// The full rendering of a tensor: an empty-bracket placeholder for a
/// scalar shape or any zero-size dimension, a nested bracket structure
/// otherwise.
pub open spec fn display_spec(elems: Seq<Seq<char>>, shape: Seq<usize>, strides: Seq<usize>) -> Seq<
    char,
> {
    if shape.len() == 0 || has_zero_dim(shape) {
        seq!['[', ']', '\n']
    } else {
        render_node(elems, shape, strides, 0, 0, 0)
    }
}

/// The character for a single decimal digit.
pub open spec fn digit_char(d: int) -> char {
    if d == 0 {
        '0'
    } else if d == 1 {
        '1'
    } else if d == 2 {
        '2'
    } else if d == 3 {
        '3'
    } else if d == 4 {
        '4'
    } else if d == 5 {
        '5'
    } else if d == 6 {
        '6'
    } else if d == 7 {
        '7'
    } else if d == 8 {
        '8'
    } else {
        '9'
    }
}

/// The decimal rendering of a non-negative integer, most significant digit
/// first, with no leading zeros (`0` renders as `"0"`).
pub open spec fn decimal_digits(n: int) -> Seq<char>
    decreases n,
{
    if n < 10 {
        seq![digit_char(n)]
    } else {
        decimal_digits(n / 10).push(digit_char(n % 10))
    }
}

/// A one-character string for the digit `d`.
fn digit_str(d: usize) -> (s: &'static str)
    requires
        d < 10,
    ensures
        s@ == seq![digit_char(d as int)],
{
    match d {
        0 => {
            proof {
                reveal_strlit("0");
                assert("0"@ =~= seq![digit_char(0)]);
            }
            "0"
        },
        1 => {
            proof {
                reveal_strlit("1");
                assert("1"@ =~= seq![digit_char(1)]);
            }
            "1"
        },
        2 => {
            proof {
                reveal_strlit("2");
                assert("2"@ =~= seq![digit_char(2)]);
            }
            "2"
        },
        3 => {
            proof {
                reveal_strlit("3");
                assert("3"@ =~= seq![digit_char(3)]);
            }
            "3"
        },
        4 => {
            proof {
                reveal_strlit("4");
                assert("4"@ =~= seq![digit_char(4)]);
            }
            "4"
        },
        5 => {
            proof {
                reveal_strlit("5");
                assert("5"@ =~= seq![digit_char(5)]);
            }
            "5"
        },
        6 => {
            proof {
                reveal_strlit("6");
                assert("6"@ =~= seq![digit_char(6)]);
            }
            "6"
        },
        7 => {
            proof {
                reveal_strlit("7");
                assert("7"@ =~= seq![digit_char(7)]);
            }
            "7"
        },
        8 => {
            proof {
                reveal_strlit("8");
                assert("8"@ =~= seq![digit_char(8)]);
            }
            "8"
        },
        9 => {
            proof {
                reveal_strlit("9");
                assert("9"@ =~= seq![digit_char(9)]);
            }
            "9"
        },
        _ => {
            proof {
                assert(false);
            }
            "0"
        },
    }
}

/// Renders `n` in decimal.
pub fn usize_to_decimal(n: usize) -> (s: String)
    ensures
        s@ == decimal_digits(n as int),
    decreases n,
{
    if n < 10 {
        String::from_str(digit_str(n))
    } else {
        let mut s = usize_to_decimal(n / 10);
        s.append(digit_str(n % 10));
        proof {
            assert(s@ =~= decimal_digits((n / 10) as int).push(digit_char((n % 10) as int)));
        }
        s
    }
}

/// Relies on `core::fmt`'s `Debug` formatting: the text standing for one
/// element is whatever the element type's `Debug` implementation writes.
/// Nothing is assumed about that text.
#[verifier::external_body]
pub(crate) fn debug_text<T: core::fmt::Debug>(x: &T) -> String {
    format!("{:?}", x)
}

/// Appends the indentation for a recursion depth: two spaces per level.
fn push_indent(out: &mut String, level: usize)
    ensures
        final(out)@ == old(out)@ + indent(level as nat),
{
    let ghost base: Seq<char> = out@;
    let mut j: usize = 0;
    proof {
        reveal_strlit("  ");
        assert("  "@ =~= seq![' ', ' ']);
    }
    while j < level
        invariant
            j <= level,
            "  "@ =~= seq![' ', ' '],
            out@ == base + indent(j as nat),
        decreases level - j,
    {
        out.append("  ");
        j += 1;
        proof {
            assert(indent(j as nat) == indent((j - 1) as nat) + seq![' ', ' ']);
            assert(out@ =~= base + indent(j as nat));
        }
    }
}

/// Writes the text of the sub-tensor spanning dimensions `d..` of `shape`
/// at element offset `offset`, indented by `level`: the verified core of
/// the pretty-printer.
pub fn format_recursive(
    out: &mut String,
    elems: &Vec<String>,
    shape: &[usize],
    strides: &[usize],
    d: usize,
    offset: usize,
    level: usize,
)
    requires
        d < shape@.len(),
        strides@.len() == shape@.len(),
        forall|k: int|
            0 <= k < shape@.len() ==> #[trigger] strides@[k] as int == product(shape@.skip(k + 1)),
        forall|k: int| d <= k < shape@.len() ==> #[trigger] shape@[k] >= 1,
        offset + product(shape@.skip(d as int)) <= elems@.len(),
        level as int + shape@.len() - d <= usize::MAX as int,
    ensures
        final(out)@ == old(out)@ + render_node(
            text_views(elems@),
            shape@,
            strides@,
            d as int,
            offset as int,
            level as nat,
        ),
    decreases shape@.len() - d,
{
    let ghost base: Seq<char> = out@;
    let ghost tv = text_views(elems@);
    let n_elems = elems.len();
    let n_dims = shape.len();
    proof {
        assert(n_elems as int == elems@.len());
        assert(n_dims as int == shape@.len());
        reveal_strlit("[\n");
        assert("[\n"@ =~= seq!['[', '\n']);
        reveal_strlit(",\n");
        assert(",\n"@ =~= seq![',', '\n']);
        reveal_strlit("\n");
        assert("\n"@ =~= seq!['\n']);
        reveal_strlit("]");
        assert("]"@ =~= seq![']']);
        lemma_product_skip_step(shape@, d as int);
        lemma_product_nonneg(shape@.skip(d as int + 1));
    }
    out.append("[\n");
    let dim = shape[d];
    let sd = strides[d];
    let mut i: usize = 0;
    while i < dim
        invariant
            d < shape@.len(),
            strides@.len() == shape@.len(),
            forall|k: int|
                0 <= k < shape@.len() ==> #[trigger] strides@[k] as int == product(
                    shape@.skip(k + 1),
                ),
            forall|k: int| d <= k < shape@.len() ==> #[trigger] shape@[k] >= 1,
            offset + product(shape@.skip(d as int)) <= elems@.len(),
            elems@.len() <= usize::MAX as int,
            shape@.len() <= usize::MAX as int,
            level as int + shape@.len() - d <= usize::MAX as int,
            dim == shape@[d as int],
            sd == strides@[d as int],
            product(shape@.skip(d as int)) == dim as int * product(shape@.skip(d as int + 1)),
            product(shape@.skip(d as int + 1)) >= 0,
            tv == text_views(elems@),
            i <= dim,
            "[\n"@ =~= seq!['[', '\n'],
            ",\n"@ =~= seq![',', '\n'],
            "\n"@ =~= seq!['\n'],
            "]"@ =~= seq![']'],
            out@ + render_rows(tv, shape@, strides@, d as int, offset as int, level as nat, i as int)
                == base + seq!['[', '\n'] + render_rows(
                tv,
                shape@,
                strides@,
                d as int,
                offset as int,
                level as nat,
                0,
            ),
        decreases dim - i,
    {
        proof {
            assert(i as int * sd as int + sd as int == (i as int + 1) * sd as int)
                by (nonlinear_arith);
            assert((i as int + 1) * sd as int <= dim as int * sd as int) by (nonlinear_arith)
                requires
                    i as int + 1 <= dim as int,
                    sd as int >= 0,
            ;
        }
        push_indent(out, level);
        out.append("  ");
        proof {
            reveal_strlit("  ");
            assert("  "@ =~= seq![' ', ' ']);
            assert(indent(level as nat + 1) == indent(level as nat) + seq![' ', ' ']);
        }
        let off2 = offset + i * sd;
        let ghost body: Seq<char>;
        if d + 1 < shape.len() {
            proof {
                lemma_product_skip_step(shape@, d as int + 1);
                lemma_product_nonneg(shape@.skip(d as int + 2));
                assert(sd as int <= (i as int + 1) * sd as int) by (nonlinear_arith)
                    requires
                        i as int >= 0,
                        sd as int >= 0,
                ;
                body = render_node(
                    tv,
                    shape@,
                    strides@,
                    d as int + 1,
                    off2 as int,
                    level as nat + 1,
                );
            }
            format_recursive(out, elems, shape, strides, d + 1, off2, level + 1);
        } else {
            proof {
                assert(shape@.skip(d as int + 1).len() == 0);
                assert(sd == 1);
                assert(off2 < elems@.len());
                body = tv[off2 as int];
                assert(tv[off2 as int] == elems@[off2 as int]@);
            }
            out.append(elems[off2].as_str());
        }
        let ghost sep: Seq<char>;
        if i + 1 < dim {
            out.append(",\n");
            proof {
                sep = seq![',', '\n'];
            }
        } else {
            out.append("\n");
            proof {
                sep = seq!['\n'];
            }
        }
        i += 1;
        proof {
            assert(render_rows(
                tv,
                shape@,
                strides@,
                d as int,
                offset as int,
                level as nat,
                i as int - 1,
            ) =~= indent(level as nat + 1) + body + sep + render_rows(
                tv,
                shape@,
                strides@,
                d as int,
                offset as int,
                level as nat,
                i as int,
            ));
            assert(out@ + render_rows(
                tv,
                shape@,
                strides@,
                d as int,
                offset as int,
                level as nat,
                i as int,
            ) =~= base + seq!['[', '\n'] + render_rows(
                tv,
                shape@,
                strides@,
                d as int,
                offset as int,
                level as nat,
                0,
            ));
        }
    }
    proof {
        assert(render_rows(tv, shape@, strides@, d as int, offset as int, level as nat, dim as int)
            =~= Seq::<char>::empty());
        assert(out@ + Seq::<char>::empty() =~= out@);
        assert(out@ == base + seq!['[', '\n'] + render_rows(
            tv,
            shape@,
            strides@,
            d as int,
            offset as int,
            level as nat,
            0,
        ));
    }
    push_indent(out, level);
    out.append("]");
    proof {
        reveal_strlit("]");
        assert("]"@ =~= seq![']']);
        assert(out@ =~= base + render_node(
            tv,
            shape@,
            strides@,
            d as int,
            offset as int,
            level as nat,
        ));
    }
}

/// The message carried by a shape-mismatch error: both the flat buffer's
/// length and the element count the shape demands. A shape whose element
/// count does not fit in `usize` cannot be printed exactly and is named
/// `overflow` instead.
pub open spec fn size_mismatch_message(data_len: int, expected: int) -> Seq<char> {
    if expected <= usize::MAX as int {
        "Data size ("@ + decimal_digits(data_len) + ") does not match shape product ("@
            + decimal_digits(expected) + ")"@
    } else {
        "Data size ("@ + decimal_digits(data_len) + ") does not match shape product (overflow)"@
    }
}

/// Builds the shape-mismatch message; `expected` is `None` when the shape's
/// element count exceeds `usize::MAX`.
pub(crate) fn size_mismatch_text(data_len: usize, expected: Option<usize>) -> (s: String)
    ensures
        s@ == size_mismatch_message(
            data_len as int,
            (match expected {
                Some(e) => e as int,
                None => usize::MAX as int + 1,
            }),
        ),
{
    let mut s = String::from_str("Data size (");
    let d = usize_to_decimal(data_len);
    s.append(d.as_str());
    match expected {
        Some(e) => {
            s.append(") does not match shape product (");
            let x = usize_to_decimal(e);
            s.append(x.as_str());
            s.append(")");
            proof {
                assert(s@ =~= size_mismatch_message(data_len as int, e as int));
            }
        },
        None => {
            s.append(") does not match shape product (overflow)");
            proof {
                assert(s@ =~= size_mismatch_message(data_len as int, usize::MAX as int + 1));
            }
        },
    }
    s
}

} // verus!
