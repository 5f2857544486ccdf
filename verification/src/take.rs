//! The gather ("take") kernel: one routine per physical encoding and the
//! dispatcher over them.
//!
//! Every routine returns a freshly allocated column of the source's
//! logical type whose length equals the index column's length, and applies
//! the same two-source null rule: an output row is null exactly when its
//! index row is null or the referenced source row is null.  An index value
//! that cannot address a buffer is reported as an overflow error, never
//! truncated.

use vstd::prelude::*;

use crate::array::{
    share_values, Array, BooleanArray, DictionaryArray, PrimitiveArray, VarBinaryArray,
};
use crate::bitmap::Bitmap;
use crate::datatypes::{in_range, is_index_type, max_offset, DataType};
use crate::error::Error;
use crate::gather::{
    byte_total, gather_opt, gather_seq, gathered_bytes, lemma_byte_accounting,
    lemma_byte_total_monotonic, lemma_gathered_bytes_row, row_bytes, varlen_check,
};

verus! {

/// Every valid index row references a row of a source of length `len`.
/// Null index rows are unconstrained: their payload may be stale and is
/// never used.
pub open spec fn indices_in_bounds(indices: &PrimitiveArray, len: int) -> bool {
    forall|i: int|
        0 <= i < indices@.len() && (#[trigger] indices@[i]) is Some ==> indices@[i].unwrap() < len
}

/// Some valid index row holds a negative value.
pub open spec fn has_negative_index(indices: &PrimitiveArray) -> bool {
    exists|i: int|
        0 <= i < indices@.len() && (#[trigger] indices@[i]) is Some && indices@[i].unwrap() < 0
}

/// The shared two-source null rule: an output row is valid only when its
/// index row is valid and the source row it references is valid.
pub fn combine_validity(index_valid: bool, source_valid: bool) -> (r: bool)
    ensures
        r == (index_valid && source_valid),
{
    index_valid && source_valid
}

/// Converts an index or dictionary-key value to a buffer position.
/// A value that is negative or wider than the platform word is reported
/// as key overflow, never truncated or wrapped.
pub fn maybe_usize(index: i128) -> (r: Result<usize, Error>)
    ensures
        match r {
            Ok(u) => 0 <= index <= usize::MAX && u == index,
            Err(e) => e == Error::DictionaryKeyOverflow && !(0 <= index <= usize::MAX),
        },
{
    if 0 <= index && index <= usize::MAX as i128 {
        Ok(index as usize)
    } else {
        Err(Error::DictionaryKeyOverflow)
    }
}

/// What a fixed-width gather returns: the gathered view on success, with
/// the validity bitmap omitted exactly when neither input carries one;
/// key overflow exactly when some valid index row is negative.
pub open spec fn take_primitive_post(
    values: &PrimitiveArray,
    indices: &PrimitiveArray,
    r: Result<PrimitiveArray, Error>,
) -> bool {
    match r {
        Ok(out) => {
            &&& out.wf()
            &&& out.data_type == values.data_type
            &&& out.spec_len() == indices.spec_len()
            &&& out@ == gather_seq(values@, indices@)
            &&& (out.validity is None <==> (indices.validity is None && values.validity is None))
            &&& !has_negative_index(indices)
        },
        Err(e) => e == Error::DictionaryKeyOverflow && has_negative_index(indices),
    }
}

/// Fixed-width gather: one output scalar per index row.  A null index row
/// produces a null output row without its payload ever addressing the
/// source buffer.
pub fn take_primitive(values: &PrimitiveArray, indices: &PrimitiveArray) -> (r: Result<
    PrimitiveArray,
    Error,
>)
    requires
        values.wf(),
        indices.wf(),
        is_index_type(indices.data_type),
        indices_in_bounds(indices, values.spec_len()),
    ensures
        take_primitive_post(values, indices, r),
{
    let n = indices.len();
    let source_len = values.len();
    let mut out_values: Vec<i128> = Vec::new();
    let mut out_bits: Vec<bool> = Vec::new();
    let mut i: usize = 0;
    while i < n
        invariant
            values.wf(),
            indices.wf(),
            indices_in_bounds(indices, values.spec_len()),
            n == indices.spec_len(),
            source_len == values.spec_len(),
            i <= n,
            out_values@.len() == i,
            out_bits@.len() == i,
            forall|j: int|
                0 <= j < i ==> #[trigger] out_bits@[j] == (gather_opt(values@, indices@[j]) is Some),
            forall|j: int|
                0 <= j < i && out_bits@[j] ==> #[trigger] out_values@[j] == gather_opt(
                    values@,
                    indices@[j],
                ).unwrap(),
            forall|j: int| 0 <= j < i ==> in_range(values.data_type, #[trigger] out_values@[j]),
            forall|j: int|
                0 <= j < i && indices.valid(j) ==> #[trigger] indices.values@[j] >= 0,
        decreases n - i,
    {
        let idx_valid = indices.is_valid(i);
        if idx_valid {
            let raw = indices.values[i];
            match maybe_usize(raw) {
                Err(e) => {
                    proof {
                        assert(indices@[i as int] == Some(indices.values@[i as int]));
                        assert(indices.values@[i as int] < source_len <= usize::MAX);
                        assert(has_negative_index(indices));
                    }
                    return Err(e);
                },
                Ok(k) => {
                    proof {
                        assert(indices@[i as int] == Some(indices.values@[i as int]));
                    }
                    let source_valid = values.is_valid(k);
                    let out_valid = combine_validity(idx_valid, source_valid);
                    if out_valid {
                        out_values.push(values.values[k]);
                        out_bits.push(true);
                    } else {
                        out_values.push(0);
                        out_bits.push(false);
                    }
                },
            }
        } else {
            proof {
                assert(indices@[i as int] is None);
            }
            out_values.push(0);
            out_bits.push(false);
        }
        i = i + 1;
    }
    let validity = if indices.validity.is_none() && values.validity.is_none() {
        None
    } else {
        Some(Bitmap { bits: out_bits })
    };
    let out = PrimitiveArray { data_type: values.data_type, values: out_values, validity };
    proof {
        assert forall|j: int| 0 <= j < n implies out@[j] == gather_seq(values@, indices@)[j] by {
            assert(out_bits@[j] == (gather_opt(values@, indices@[j]) is Some));
        }
        assert(out@ =~= gather_seq(values@, indices@));
    }
    Ok(out)
}

/// What a bit-packed gather returns; the clauses mirror the fixed-width
/// case over boolean rows.
pub open spec fn take_boolean_post(
    values: &BooleanArray,
    indices: &PrimitiveArray,
    r: Result<BooleanArray, Error>,
) -> bool {
    match r {
        Ok(out) => {
            &&& out.wf()
            &&& out.spec_len() == indices.spec_len()
            &&& out@ == gather_seq(values@, indices@)
            &&& (out.validity is None <==> (indices.validity is None && values.validity is None))
            &&& !has_negative_index(indices)
        },
        Err(e) => e == Error::DictionaryKeyOverflow && has_negative_index(indices),
    }
}

/// Bit-packed gather: the fixed-width algorithm read and written one bit
/// per row.
pub fn take_boolean(values: &BooleanArray, indices: &PrimitiveArray) -> (r: Result<
    BooleanArray,
    Error,
>)
    requires
        values.wf(),
        indices.wf(),
        is_index_type(indices.data_type),
        indices_in_bounds(indices, values.spec_len()),
    ensures
        take_boolean_post(values, indices, r),
{
    let n = indices.len();
    let source_len = values.len();
    let mut out_values: Vec<bool> = Vec::new();
    let mut out_bits: Vec<bool> = Vec::new();
    let mut i: usize = 0;
    while i < n
        invariant
            values.wf(),
            indices.wf(),
            indices_in_bounds(indices, values.spec_len()),
            n == indices.spec_len(),
            source_len == values.spec_len(),
            i <= n,
            out_values@.len() == i,
            out_bits@.len() == i,
            forall|j: int|
                0 <= j < i ==> #[trigger] out_bits@[j] == (gather_opt(values@, indices@[j]) is Some),
            forall|j: int|
                0 <= j < i && out_bits@[j] ==> #[trigger] out_values@[j] == gather_opt(
                    values@,
                    indices@[j],
                ).unwrap(),
            forall|j: int|
                0 <= j < i && indices.valid(j) ==> #[trigger] indices.values@[j] >= 0,
        decreases n - i,
    {
        let idx_valid = indices.is_valid(i);
        if idx_valid {
            let raw = indices.values[i];
            match maybe_usize(raw) {
                Err(e) => {
                    proof {
                        assert(indices@[i as int] == Some(indices.values@[i as int]));
                        assert(indices.values@[i as int] < source_len <= usize::MAX);
                        assert(has_negative_index(indices));
                    }
                    return Err(e);
                },
                Ok(k) => {
                    proof {
                        assert(indices@[i as int] == Some(indices.values@[i as int]));
                    }
                    let source_valid = values.is_valid(k);
                    let out_valid = combine_validity(idx_valid, source_valid);
                    if out_valid {
                        out_values.push(values.values.get(k));
                        out_bits.push(true);
                    } else {
                        out_values.push(false);
                        out_bits.push(false);
                    }
                },
            }
        } else {
            proof {
                assert(indices@[i as int] is None);
            }
            out_values.push(false);
            out_bits.push(false);
        }
        i = i + 1;
    }
    let validity = if indices.validity.is_none() && values.validity.is_none() {
        None
    } else {
        Some(Bitmap { bits: out_bits })
    };
    let out = BooleanArray { values: Bitmap { bits: out_values }, validity };
    proof {
        assert forall|j: int| 0 <= j < n implies out@[j] == gather_seq(values@, indices@)[j] by {
            assert(out_bits@[j] == (gather_opt(values@, indices@[j]) is Some));
        }
        assert(out@ =~= gather_seq(values@, indices@));
    }
    Ok(out)
}

/// What a variable-length gather returns: the gathered view; an offsets
/// sequence whose entry `i` is the byte total of the first `i` output
/// rows; a byte buffer that is the concatenation, in index order, of the
/// selected spans; and the outcome of the sizing pass, so that key and
/// offset overflow are reported exactly where the pass meets them.
pub open spec fn take_varbinary_post(
    values: &VarBinaryArray,
    indices: &PrimitiveArray,
    r: Result<VarBinaryArray, Error>,
) -> bool {
    match r {
        Ok(out) => {
            &&& out.wf()
            &&& out.data_type == values.data_type
            &&& out.spec_len() == indices.spec_len()
            &&& out@ == gather_seq(values@, indices@)
            &&& out.values@ == gathered_bytes(values@, indices@, indices.spec_len())
            &&& out.offsets@.len() == indices.spec_len() + 1
            &&& (forall|i: int|
                0 <= i <= indices.spec_len() ==> #[trigger] out.offsets@[i] == byte_total(
                    values@,
                    indices@,
                    i,
                ))
            &&& (out.validity is None <==> (indices.validity is None && values.validity is None))
            &&& varlen_check(values@, indices@, max_offset(values.data_type), 0) is Ok
        },
        Err(e) => varlen_check(values@, indices@, max_offset(values.data_type), 0) == Err::<
            (),
            Error,
        >(e),
    }
}

/// Variable-length gather, in the two passes the data-dependent output
/// size forces: a sizing pass that accumulates the output offsets and
/// checks them against the offset width, then a copy pass that lays the
/// selected spans out contiguously.
pub fn take_varbinary(values: &VarBinaryArray, indices: &PrimitiveArray) -> (r: Result<
    VarBinaryArray,
    Error,
>)
    requires
        values.wf(),
        indices.wf(),
        is_index_type(indices.data_type),
        indices_in_bounds(indices, values.spec_len()),
    ensures
        take_varbinary_post(values, indices, r),
{
    let max: i64 = if values.data_type == DataType::Utf8 || values.data_type == DataType::Binary {
        i32::MAX as i64
    } else {
        i64::MAX
    };
    proof {
        assert(max == max_offset(values.data_type));
    }
    let n = indices.len();
    let source_len = values.len();
    let mut out_offsets: Vec<i64> = Vec::new();
    out_offsets.push(0);
    let mut out_bits: Vec<bool> = Vec::new();
    let mut acc: i64 = 0;
    let mut i: usize = 0;
    // Sizing pass: per output row, the referenced span's byte length where
    // the row is valid, zero where it is null.
    while i < n
        invariant
            values.wf(),
            indices.wf(),
            indices_in_bounds(indices, values.spec_len()),
            n == indices.spec_len(),
            source_len == values.spec_len(),
            max == max_offset(values.data_type),
            i <= n,
            out_offsets@.len() == i + 1,
            out_bits@.len() == i,
            acc == byte_total(values@, indices@, i as int),
            0 <= acc <= max,
            forall|j: int|
                0 <= j <= i ==> #[trigger] out_offsets@[j] == byte_total(values@, indices@, j),
            forall|j: int| 0 <= j <= i ==> 0 <= #[trigger] out_offsets@[j] <= max,
            forall|j: int|
                0 <= j < i ==> #[trigger] out_bits@[j] == (gather_opt(values@, indices@[j]) is Some),
            forall|j: int|
                0 <= j < i && indices.valid(j) ==> #[trigger] indices.values@[j] >= 0,
            varlen_check(values@, indices@, max as int, 0) == varlen_check(
                values@,
                indices@,
                max as int,
                i as int,
            ),
        decreases n - i,
    {
        let idx_valid = indices.is_valid(i);
        if idx_valid {
            let raw = indices.values[i];
            match maybe_usize(raw) {
                Err(e) => {
                    proof {
                        assert(indices@[i as int] == Some(indices.values@[i as int]));
                        assert(indices.values@[i as int] < source_len <= usize::MAX);
                        assert(varlen_check(values@, indices@, max as int, i as int) == Err::<
                            (),
                            Error,
                        >(Error::DictionaryKeyOverflow));
                    }
                    return Err(e);
                },
                Ok(k) => {
                    proof {
                        assert(indices@[i as int] == Some(indices.values@[i as int]));
                    }
                    let start = values.offsets[k];
                    let end = values.offsets[k + 1];
                    let source_valid = values.is_valid(k);
                    let out_valid = combine_validity(idx_valid, source_valid);
                    proof {
                        assert(values.offsets@[k as int] <= values.offsets@[k + 1]);
                        values.lemma_offsets_monotonic(k + 1, source_len as int);
                    }
                    let c: i64 = if out_valid {
                        end - start
                    } else {
                        0
                    };
                    proof {
                        assert(c == row_bytes(values@, indices@[i as int]).len());
                        assert(byte_total(values@, indices@, i as int + 1) == acc + c);
                    }
                    if (acc as i128) + (c as i128) > (max as i128) {
                        proof {
                            assert(varlen_check(values@, indices@, max as int, i as int) == Err::<
                                (),
                                Error,
                            >(Error::Overflow));
                        }
                        return Err(Error::Overflow);
                    }
                    acc = acc + c;
                    out_offsets.push(acc);
                    out_bits.push(out_valid);
                    proof {
                        assert(varlen_check(values@, indices@, max as int, i as int)
                            == varlen_check(values@, indices@, max as int, i as int + 1));
                    }
                },
            }
        } else {
            proof {
                assert(indices@[i as int] is None);
                assert(byte_total(values@, indices@, i as int + 1) == acc);
                assert(varlen_check(values@, indices@, max as int, i as int) == varlen_check(
                    values@,
                    indices@,
                    max as int,
                    i as int + 1,
                ));
            }
            out_offsets.push(acc);
            out_bits.push(false);
        }
        i = i + 1;
    }
    // Copy pass: the byte total is known, so each selected span is copied
    // into its contiguous slot.
    let source_bytes = values.values.len();
    let mut out_values: Vec<u8> = Vec::new();
    let mut i: usize = 0;
    while i < n
        invariant
            values.wf(),
            indices.wf(),
            indices_in_bounds(indices, values.spec_len()),
            n == indices.spec_len(),
            source_len == values.spec_len(),
            source_bytes == values.values@.len(),
            i <= n,
            out_values@ == gathered_bytes(values@, indices@, i as int),
            forall|j: int|
                0 <= j < n && indices.valid(j) ==> #[trigger] indices.values@[j] >= 0,
        decreases n - i,
    {
        let ghost pre = out_values@;
        let idx_valid = indices.is_valid(i);
        if idx_valid {
            let raw = indices.values[i];
            proof {
                assert(indices.values@[i as int] >= 0);
                assert(indices@[i as int] == Some(indices.values@[i as int]));
            }
            let k = raw as usize;
            let source_valid = values.is_valid(k);
            if source_valid {
                let start = values.offsets[k];
                let end = values.offsets[k + 1];
                proof {
                    assert(values.offsets@[k as int] <= values.offsets@[k + 1]);
                    values.lemma_offsets_monotonic(k + 1, source_len as int);
                    assert(0 <= values.offsets@[k as int]);
                    assert(values.offsets@[k + 1] <= source_bytes);
                }
                let start_u = start as usize;
                let row_len = (end - start) as usize;
                let mut t: usize = 0;
                while t < row_len
                    invariant
                        values.wf(),
                        t <= row_len,
                        k < source_len,
                        source_len == values.spec_len(),
                        start_u == values.offsets@[k as int],
                        start_u + row_len == values.offsets@[k + 1],
                        source_bytes == values.values@.len(),
                        start_u + row_len <= source_bytes,
                        out_values@ == pre + values.values@.subrange(
                            start_u as int,
                            start_u + t,
                        ),
                    decreases row_len - t,
                {
                    out_values.push(values.values[start_u + t]);
                    proof {
                        assert(pre + values.values@.subrange(start_u as int, start_u + t + 1)
                            =~= (pre + values.values@.subrange(start_u as int, start_u + t)).push(
                            values.values@[start_u + t],
                        ));
                    }
                    t = t + 1;
                }
                proof {
                    assert(values.values@.subrange(start_u as int, start_u + row_len) == values.row(
                        k as int,
                    ));
                    assert(row_bytes(values@, indices@[i as int]) == values.row(k as int));
                    assert(out_values@ =~= gathered_bytes(values@, indices@, i as int + 1));
                }
            } else {
                proof {
                    assert(row_bytes(values@, indices@[i as int]) =~= Seq::<u8>::empty());
                    assert(out_values@ =~= gathered_bytes(values@, indices@, i as int + 1));
                }
            }
        } else {
            proof {
                assert(indices@[i as int] is None);
                assert(row_bytes(values@, indices@[i as int]) =~= Seq::<u8>::empty());
                assert(out_values@ =~= gathered_bytes(values@, indices@, i as int + 1));
            }
        }
        i = i + 1;
    }
    let validity = if indices.validity.is_none() && values.validity.is_none() {
        None
    } else {
        Some(Bitmap { bits: out_bits })
    };
    let out = VarBinaryArray {
        data_type: values.data_type,
        offsets: out_offsets,
        values: out_values,
        validity,
    };
    proof {
        lemma_byte_accounting(values@, indices@, n as int);
        assert forall|j: int| 0 <= j < n implies #[trigger] out.offsets@[j] <= out.offsets@[j
            + 1] by {
            lemma_byte_total_monotonic(values@, indices@, j, j + 1);
        }
        assert(out.wf());
        assert forall|j: int| 0 <= j < n implies out@[j] == gather_seq(values@, indices@)[j] by {
            lemma_gathered_bytes_row(values@, indices@, j, n as int);
            assert(out_bits@[j] == (gather_opt(values@, indices@[j]) is Some));
            assert(out.row(j) == row_bytes(values@, indices@[j]));
        }
        assert(out@ =~= gather_seq(values@, indices@));
    }
    Ok(out)
}

/// What a dictionary gather returns: the keys are gathered exactly as a
/// fixed-width column, and the values pool is handed through unchanged.
pub open spec fn take_dict_post(
    values: &DictionaryArray,
    indices: &PrimitiveArray,
    r: Result<DictionaryArray, Error>,
) -> bool {
    match r {
        Ok(out) => {
            &&& out.wf()
            &&& out.keys.data_type == values.keys.data_type
            &&& out.spec_len() == indices.spec_len()
            &&& out.keys@ == gather_seq(values.keys@, indices@)
            &&& (out.keys.validity is None <==> (indices.validity is None
                && values.keys.validity is None))
            &&& out.values == values.values
            &&& !has_negative_index(indices)
        },
        Err(e) => e == Error::DictionaryKeyOverflow && has_negative_index(indices),
    }
}

/// Dictionary gather: only the keys array is gathered; the shared values
/// pool is passed through without being copied or re-encoded.  A null in
/// the gathered keys (from either null source) makes the logical row null.
pub fn take_dict(values: &DictionaryArray, indices: &PrimitiveArray) -> (r: Result<
    DictionaryArray,
    Error,
>)
    requires
        values.wf(),
        indices.wf(),
        is_index_type(indices.data_type),
        indices_in_bounds(indices, values.spec_len()),
    ensures
        take_dict_post(values, indices, r),
{
    match take_primitive(&values.keys, indices) {
        Err(e) => Err(e),
        Ok(new_keys) => {
            proof {
                assert forall|i: int|
                    0 <= i < new_keys.spec_len() && new_keys.valid(i) implies 0
                    <= new_keys.values@[i] < (*values.values).spec_len() by {
                    assert(new_keys@[i] == gather_seq(values.keys@, indices@)[i]);
                    assert(new_keys@[i] == Some(new_keys.values@[i]));
                }
            }
            Ok(DictionaryArray { keys: new_keys, values: share_values(&values.values) })
        },
    }
}

/// What the dispatcher returns: per representation, exactly what the
/// matching routine returns, in an output of the same representation.
/// One fixed-width tag, `Float16`, has no gather implementation and is
/// reported as such before anything else is looked at.
pub open spec fn take_post(values: &Array, indices: &PrimitiveArray, r: Result<Array, Error>) -> bool {
    match values {
        Array::FixedWidth(s) => if s.data_type == DataType::Float16 {
            r == Err::<Array, Error>(Error::NotYetImplemented)
        } else {
            match r {
                Ok(out) => out matches Array::FixedWidth(o) && take_primitive_post(
                    s,
                    indices,
                    Ok(o),
                ),
                Err(e) => take_primitive_post(s, indices, Err(e)),
            }
        },
        Array::BitPacked(s) => match r {
            Ok(out) => out matches Array::BitPacked(o) && take_boolean_post(s, indices, Ok(o)),
            Err(e) => take_boolean_post(s, indices, Err(e)),
        },
        Array::VariableLength(s) => match r {
            Ok(out) => out matches Array::VariableLength(o) && take_varbinary_post(
                s,
                indices,
                Ok(o),
            ),
            Err(e) => take_varbinary_post(s, indices, Err(e)),
        },
        Array::Dictionary(s) => match r {
            Ok(out) => out matches Array::Dictionary(o) && take_dict_post(s, indices, Ok(o)),
            Err(e) => take_dict_post(s, indices, Err(e)),
        },
    }
}

/// Gather: return a new column holding, for each index row, the source
/// row it references.  The output has the source's logical type and the
/// index column's length; its row `i` is null exactly when index row `i`
/// is null or references a null source row.  Index values that cannot
/// address the source, and variable-length byte totals past the offset
/// width, are reported as errors, never truncated.
pub fn take(values: &Array, indices: &PrimitiveArray) -> (r: Result<Array, Error>)
    requires
        values.wf(),
        indices.wf(),
        is_index_type(indices.data_type),
        indices_in_bounds(indices, values.spec_len()),
    ensures
        take_post(values, indices, r),
        r matches Ok(out) ==> out.wf() && out.spec_data_type() == values.spec_data_type()
            && out.spec_len() == indices.spec_len(),
{
    match values {
        Array::FixedWidth(s) => if s.data_type == DataType::Float16 {
            Err(Error::NotYetImplemented)
        } else {
            match take_primitive(s, indices) {
                Ok(o) => Ok(Array::FixedWidth(o)),
                Err(e) => Err(e),
            }
        },
        Array::BitPacked(s) => match take_boolean(s, indices) {
            Ok(o) => Ok(Array::BitPacked(o)),
            Err(e) => Err(e),
        },
        Array::VariableLength(s) => match take_varbinary(s, indices) {
            Ok(o) => Ok(Array::VariableLength(o)),
            Err(e) => Err(e),
        },
        Array::Dictionary(s) => match take_dict(s, indices) {
            Ok(o) => Ok(Array::Dictionary(o)),
            Err(e) => Err(e),
        },
    }
}

} // verus!

