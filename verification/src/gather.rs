//! The mathematical model of a gather, shared by every encoding.
//!
//! A gather is described row by row over logical views: sequences of
//! optional row values, `None` standing for a null row.  The two-source
//! null rule is built into [`gather_opt`]: a selected row is null exactly
//! when its index is null or the source row it references is null.

use vstd::prelude::*;

use crate::error::Error;

verus! {

/// The output row an index slot selects from a source view: `None` when
/// the slot is null or the referenced source row is null, otherwise the
/// referenced value.
pub open spec fn gather_opt<V>(src: Seq<Option<V>>, slot: Option<i128>) -> Option<V> {
    match slot {
        None => None,
        Some(k) => if 0 <= k < src.len() {
            src[k as int]
        } else {
            None
        },
    }
}

/// The whole gathered view: one output row per index row.
pub open spec fn gather_seq<V>(src: Seq<Option<V>>, idx: Seq<Option<i128>>) -> Seq<Option<V>> {
    Seq::new(idx.len(), |i: int| gather_opt(src, idx[i]))
}

/// The index sequence `[0, 1, ..., n - 1]`, with every row valid.
pub open spec fn identity_indices(n: int) -> Seq<Option<i128>> {
    Seq::new(n as nat, |i: int| Some(i as i128))
}

/// Law: null propagation.  Output row `i` is null exactly when index row
/// `i` is null, or index row `i` references a null source row.
pub proof fn lemma_null_propagation<V>(src: Seq<Option<V>>, idx: Seq<Option<i128>>, i: int)
    requires
        0 <= i < idx.len(),
        idx[i] matches Some(k) ==> 0 <= k < src.len(),
    ensures
        gather_seq(src, idx)[i] is None <==> (idx[i] is None || src[
            idx[i].unwrap() as int
        ] is None),
{
}

/// Law: identity.  Taking with the index sequence `[0, 1, ..., n - 1]`
/// over a source of length `n` reproduces the source exactly, values and
/// nulls alike.
pub proof fn lemma_identity<V>(src: Seq<Option<V>>)
    requires
        src.len() <= i128::MAX,
    ensures
        gather_seq(src, identity_indices(src.len() as int)) == src,
{
    let idx = identity_indices(src.len() as int);
    assert forall|i: int| 0 <= i < src.len() implies gather_seq(src, idx)[i] == src[i] by {
        assert(idx[i] == Some(i as i128));
    }
    assert(gather_seq(src, idx) =~= src);
}

/// The bytes output row `i` contributes to a variable-length gather: the
/// referenced byte span where the output row is valid, nothing where it
/// is null.
pub open spec fn row_bytes(src: Seq<Option<Seq<u8>>>, slot: Option<i128>) -> Seq<u8> {
    match gather_opt(src, slot) {
        None => Seq::empty(),
        Some(b) => b,
    }
}

/// The concatenation, in index order, of the byte spans of the first `n`
/// output rows.
pub open spec fn gathered_bytes(
    src: Seq<Option<Seq<u8>>>,
    idx: Seq<Option<i128>>,
    n: int,
) -> Seq<u8>
    decreases n,
{
    if n <= 0 {
        Seq::empty()
    } else {
        gathered_bytes(src, idx, n - 1) + row_bytes(src, idx[n - 1])
    }
}

/// The summed byte length of the first `n` output rows; null rows
/// contribute zero.
pub open spec fn byte_total(src: Seq<Option<Seq<u8>>>, idx: Seq<Option<i128>>, n: int) -> int
    decreases n,
{
    if n <= 0 {
        0
    } else {
        byte_total(src, idx, n - 1) + row_bytes(src, idx[n - 1]).len()
    }
}

/// Law: variable-length byte accounting.  The length of the concatenated
/// output buffer equals the sum of the byte lengths of the selected
/// non-null rows.
pub proof fn lemma_byte_accounting(src: Seq<Option<Seq<u8>>>, idx: Seq<Option<i128>>, n: int)
    ensures
        gathered_bytes(src, idx, n).len() == byte_total(src, idx, n),
    decreases n,
{
    if n > 0 {
        lemma_byte_accounting(src, idx, n - 1);
    }
}

/// The byte total never shrinks as more rows are taken in.
pub proof fn lemma_byte_total_monotonic(
    src: Seq<Option<Seq<u8>>>,
    idx: Seq<Option<i128>>,
    i: int,
    n: int,
)
    requires
        i <= n,
    ensures
        byte_total(src, idx, i) <= byte_total(src, idx, n),
    decreases n - i,
{
    if i < n {
        lemma_byte_total_monotonic(src, idx, i, n - 1);
    }
}

/// The bytes of the first `i` rows are a prefix of the bytes of the first
/// `n` rows.
pub proof fn lemma_gathered_bytes_prefix(
    src: Seq<Option<Seq<u8>>>,
    idx: Seq<Option<i128>>,
    i: int,
    n: int,
)
    requires
        0 <= i <= n,
    ensures
        gathered_bytes(src, idx, n).subrange(0, byte_total(src, idx, i)) == gathered_bytes(
            src,
            idx,
            i,
        ),
    decreases n - i,
{
    lemma_byte_accounting(src, idx, i);
    lemma_byte_accounting(src, idx, n);
    lemma_byte_total_monotonic(src, idx, 0, i);
    lemma_byte_total_monotonic(src, idx, i, n);
    if i == n {
        assert(gathered_bytes(src, idx, n).subrange(0, byte_total(src, idx, i)) =~= gathered_bytes(
            src,
            idx,
            i,
        ));
    } else {
        lemma_gathered_bytes_prefix(src, idx, i, n - 1);
        lemma_byte_accounting(src, idx, n - 1);
        lemma_byte_total_monotonic(src, idx, i, n - 1);
        assert(gathered_bytes(src, idx, n).subrange(0, byte_total(src, idx, i)) =~= gathered_bytes(
            src,
            idx,
            n - 1,
        ).subrange(0, byte_total(src, idx, i)));
    }
}

/// Within the concatenated output buffer, row `i`'s slot holds exactly the
/// bytes that row contributes.
pub proof fn lemma_gathered_bytes_row(
    src: Seq<Option<Seq<u8>>>,
    idx: Seq<Option<i128>>,
    i: int,
    n: int,
)
    requires
        0 <= i < n,
    ensures
        byte_total(src, idx, i) <= byte_total(src, idx, i + 1) <= byte_total(src, idx, n),
        gathered_bytes(src, idx, n).subrange(
            byte_total(src, idx, i),
            byte_total(src, idx, i + 1),
        ) == row_bytes(src, idx[i]),
    decreases n - i,
{
    lemma_byte_total_monotonic(src, idx, i, i + 1);
    lemma_byte_total_monotonic(src, idx, i + 1, n);
    lemma_gathered_bytes_prefix(src, idx, i + 1, n);
    lemma_byte_accounting(src, idx, i);
    lemma_byte_accounting(src, idx, i + 1);
    lemma_byte_accounting(src, idx, n);
    lemma_byte_total_monotonic(src, idx, 0, i);
    let g_n = gathered_bytes(src, idx, n);
    let g_i1 = gathered_bytes(src, idx, i + 1);
    let row = row_bytes(src, idx[i]);
    let a = byte_total(src, idx, i);
    let b = byte_total(src, idx, i + 1);
    assert(g_i1 == gathered_bytes(src, idx, i) + row);
    assert forall|j: int| 0 <= j < b - a implies g_n.subrange(a, b)[j] == row[j] by {
        assert(g_n.subrange(a, b)[j] == g_n[a + j]);
        assert(g_n.subrange(0, b)[a + j] == g_n[a + j]);
        assert(g_i1[a + j] == row[j]);
    }
    assert(g_n.subrange(a, b) =~= row);
}

/// The outcome of the sizing pass of a variable-length gather, read row
/// by row from row `i` on: the first valid negative index reports key
/// overflow, and the first row that pushes the accumulated byte total
/// past `max` reports offset overflow.
pub open spec fn varlen_check(
    src: Seq<Option<Seq<u8>>>,
    idx: Seq<Option<i128>>,
    max: int,
    i: int,
) -> Result<(), Error>
    decreases idx.len() - i,
{
    if i < 0 || i >= idx.len() {
        Ok(())
    } else {
        match idx[i] {
            None => varlen_check(src, idx, max, i + 1),
            Some(k) => if k < 0 {
                Err(Error::DictionaryKeyOverflow)
            } else if byte_total(src, idx, i + 1) > max {
                Err(Error::Overflow)
            } else {
                varlen_check(src, idx, max, i + 1)
            },
        }
    }
}

} // verus!
