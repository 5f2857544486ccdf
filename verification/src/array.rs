//! The physical encodings of a column and the `Array` sum type over them.
//!
//! A column is one of four physical representations: fixed-width scalars,
//! bit-packed booleans, variable-length byte rows behind an offsets
//! sequence, or dictionary keys indexing a shared values pool.  Every
//! representation carries an optional validity bitmap; an absent bitmap
//! means every row is valid.  Each type's view is its logical content: a
//! sequence of optional row values, `None` standing for a null row.

use std::sync::Arc;
use vstd::prelude::*;

use crate::bitmap::{valid_at, Bitmap};
use crate::datatypes::{
    in_range, is_dictionary_key, is_fixed_width, is_variable_length, key_integer,
    key_integer_of, max_offset, DataType, IntegerType,
};
use crate::gather::{
    byte_total, gathered_bytes, identity_indices, lemma_byte_accounting,
    lemma_byte_total_monotonic, lemma_gathered_bytes_row, row_bytes,
};

verus! {

/// A contiguous sequence of fixed-width scalars.  Values are held widened
/// to 128 bits; `data_type` pins the native width each value must fit.
#[derive(Clone, Debug)]
pub struct PrimitiveArray {
    pub data_type: DataType,
    pub values: Vec<i128>,
    pub validity: Option<Bitmap>,
}

impl View for PrimitiveArray {
    type V = Seq<Option<i128>>;

    open spec fn view(&self) -> Seq<Option<i128>> {
        Seq::new(
            self.values@.len(),
            |i: int|
                if self.valid(i) {
                    Some(self.values@[i])
                } else {
                    None
                },
        )
    }
}

impl PrimitiveArray {
    pub open spec fn spec_len(&self) -> int {
        self.values@.len() as int
    }

    /// Whether row `i` is valid (not null).
    pub open spec fn valid(&self, i: int) -> bool {
        valid_at(self.validity, i)
    }

    pub open spec fn wf(&self) -> bool {
        &&& is_fixed_width(self.data_type)
        &&& (self.validity matches Some(b) ==> b@.len() == self.values@.len())
        &&& forall|i: int|
            0 <= i < self.values@.len() ==> in_range(self.data_type, self.values@[i])
    }

    pub fn len(&self) -> (n: usize)
        ensures
            n == self.spec_len(),
    {
        self.values.len()
    }

    /// Whether row `i` is valid (not null).
    pub fn is_valid(&self, i: usize) -> (b: bool)
        requires
            self.wf(),
            i < self.spec_len(),
        ensures
            b == self.valid(i as int),
    {
        match &self.validity {
            None => true,
            Some(bm) => bm.get(i),
        }
    }

    /// Builds a column from one optional scalar per row; the validity
    /// bitmap is attached only when some row is null.
    pub fn from_options(data_type: DataType, opts: Vec<Option<i128>>) -> (out: PrimitiveArray)
        requires
            is_fixed_width(data_type),
            forall|i: int|
                0 <= i < opts@.len() && opts@[i] is Some ==> in_range(
                    data_type,
                    (#[trigger] opts@[i]).unwrap(),
                ),
        ensures
            out.wf(),
            out.data_type == data_type,
            out@ == opts@,
            (out.validity is None <==> (forall|i: int|
                0 <= i < opts@.len() ==> #[trigger] opts@[i] is Some)),
    {
        let n = opts.len();
        let mut values: Vec<i128> = Vec::new();
        let mut bits: Vec<bool> = Vec::new();
        let mut has_null = false;
        let mut i: usize = 0;
        while i < n
            invariant
                n == opts@.len(),
                i <= n,
                values@.len() == i,
                bits@.len() == i,
                forall|j: int|
                    0 <= j < opts@.len() && opts@[j] is Some ==> in_range(
                        data_type,
                        (#[trigger] opts@[j]).unwrap(),
                    ),
                is_fixed_width(data_type),
                forall|j: int| 0 <= j < i ==> #[trigger] bits@[j] == (opts@[j] is Some),
                forall|j: int|
                    0 <= j < i && opts@[j] is Some ==> #[trigger] values@[j] == opts@[j].unwrap(),
                forall|j: int| 0 <= j < i ==> in_range(data_type, #[trigger] values@[j]),
                has_null == !(forall|j: int| 0 <= j < i ==> #[trigger] opts@[j] is Some),
            decreases n - i,
        {
            match opts[i] {
                Some(v) => {
                    values.push(v);
                    bits.push(true);
                },
                None => {
                    values.push(0);
                    bits.push(false);
                    has_null = true;
                },
            }
            i = i + 1;
        }
        let validity = if has_null {
            Some(Bitmap { bits })
        } else {
            None
        };
        let out = PrimitiveArray { data_type, values, validity };
        proof {
            assert forall|j: int| 0 <= j < n implies out@[j] == opts@[j] by {
                assert(bits@[j] == (opts@[j] is Some));
            }
            assert(out@ =~= opts@);
        }
        out
    }

    /// Builds a column with no validity bitmap: every row valid.
    pub fn from_values(data_type: DataType, values: Vec<i128>) -> (out: PrimitiveArray)
        requires
            is_fixed_width(data_type),
            forall|i: int| 0 <= i < values@.len() ==> in_range(data_type, #[trigger] values@[i]),
        ensures
            out.wf(),
            out.data_type == data_type,
            out.validity is None,
            out@.len() == values@.len(),
            forall|i: int| 0 <= i < values@.len() ==> #[trigger] out@[i] == Some(values@[i]),
    {
        PrimitiveArray { data_type, values, validity: None }
    }
}

/// Bit-packed booleans: one bit per row for the values, beside the shared
/// validity bitmap.
#[derive(Clone, Debug)]
pub struct BooleanArray {
    pub values: Bitmap,
    pub validity: Option<Bitmap>,
}

impl View for BooleanArray {
    type V = Seq<Option<bool>>;

    open spec fn view(&self) -> Seq<Option<bool>> {
        Seq::new(
            self.values@.len(),
            |i: int|
                if self.valid(i) {
                    Some(self.values@[i])
                } else {
                    None
                },
        )
    }
}

impl BooleanArray {
    pub open spec fn spec_len(&self) -> int {
        self.values@.len() as int
    }

    /// Whether row `i` is valid (not null).
    pub open spec fn valid(&self, i: int) -> bool {
        valid_at(self.validity, i)
    }

    pub open spec fn wf(&self) -> bool {
        self.validity matches Some(b) ==> b@.len() == self.values@.len()
    }

    pub fn len(&self) -> (n: usize)
        ensures
            n == self.spec_len(),
    {
        self.values.len()
    }

    /// Whether row `i` is valid (not null).
    pub fn is_valid(&self, i: usize) -> (b: bool)
        requires
            self.wf(),
            i < self.spec_len(),
        ensures
            b == self.valid(i as int),
    {
        match &self.validity {
            None => true,
            Some(bm) => bm.get(i),
        }
    }

    /// Builds a column from one optional boolean per row; the validity
    /// bitmap is attached only when some row is null.
    pub fn from_options(opts: Vec<Option<bool>>) -> (out: BooleanArray)
        ensures
            out.wf(),
            out@ == opts@,
            (out.validity is None <==> (forall|i: int|
                0 <= i < opts@.len() ==> #[trigger] opts@[i] is Some)),
    {
        let n = opts.len();
        let mut values: Vec<bool> = Vec::new();
        let mut bits: Vec<bool> = Vec::new();
        let mut has_null = false;
        let mut i: usize = 0;
        while i < n
            invariant
                n == opts@.len(),
                i <= n,
                values@.len() == i,
                bits@.len() == i,
                forall|j: int| 0 <= j < i ==> #[trigger] bits@[j] == (opts@[j] is Some),
                forall|j: int|
                    0 <= j < i && opts@[j] is Some ==> #[trigger] values@[j] == opts@[j].unwrap(),
                has_null == !(forall|j: int| 0 <= j < i ==> #[trigger] opts@[j] is Some),
            decreases n - i,
        {
            match opts[i] {
                Some(v) => {
                    values.push(v);
                    bits.push(true);
                },
                None => {
                    values.push(false);
                    bits.push(false);
                    has_null = true;
                },
            }
            i = i + 1;
        }
        let validity = if has_null {
            Some(Bitmap { bits })
        } else {
            None
        };
        let out = BooleanArray { values: Bitmap { bits: values }, validity };
        proof {
            assert forall|j: int| 0 <= j < n implies out@[j] == opts@[j] by {
                assert(bits@[j] == (opts@[j] is Some));
            }
            assert(out@ =~= opts@);
        }
        out
    }
}

/// Variable-length byte rows: row `i` spans bytes
/// `[offsets[i], offsets[i + 1])` of one flat buffer.  The tag selects the
/// offset width (32-bit for `Utf8`/`Binary`, 64-bit for the large tags);
/// offsets are held widened to 64 bits and each must fit the tag's width.
#[derive(Clone, Debug)]
pub struct VarBinaryArray {
    pub data_type: DataType,
    pub offsets: Vec<i64>,
    pub values: Vec<u8>,
    pub validity: Option<Bitmap>,
}

impl View for VarBinaryArray {
    type V = Seq<Option<Seq<u8>>>;

    open spec fn view(&self) -> Seq<Option<Seq<u8>>> {
        Seq::new(
            self.spec_len() as nat,
            |i: int|
                if self.valid(i) {
                    Some(self.row(i))
                } else {
                    None
                },
        )
    }
}

impl VarBinaryArray {
    pub open spec fn spec_len(&self) -> int {
        self.offsets@.len() - 1
    }

    /// Whether row `i` is valid (not null).
    pub open spec fn valid(&self, i: int) -> bool {
        valid_at(self.validity, i)
    }

    /// The byte span of row `i`.
    pub open spec fn row(&self, i: int) -> Seq<u8> {
        self.values@.subrange(self.offsets@[i] as int, self.offsets@[i + 1] as int)
    }

    pub open spec fn wf(&self) -> bool {
        &&& is_variable_length(self.data_type)
        &&& self.offsets@.len() >= 1
        &&& self.offsets@[0] == 0
        &&& forall|i: int|
            0 <= i < self.spec_len() ==> #[trigger] self.offsets@[i] <= self.offsets@[i + 1]
        &&& forall|i: int|
            0 <= i < self.offsets@.len()
                ==> 0 <= #[trigger] self.offsets@[i] <= max_offset(self.data_type)
        &&& self.offsets@[self.spec_len()] <= self.values@.len()
        &&& (self.validity matches Some(b) ==> b@.len() == self.spec_len())
    }

    pub fn len(&self) -> (n: usize)
        requires
            self.offsets@.len() >= 1,
        ensures
            n == self.spec_len(),
    {
        self.offsets.len() - 1
    }

    /// In a well-formed array the offsets never decrease, so any earlier
    /// offset bounds any later one.
    pub proof fn lemma_offsets_monotonic(&self, i: int, j: int)
        requires
            self.wf(),
            0 <= i <= j <= self.spec_len(),
        ensures
            self.offsets@[i] <= self.offsets@[j],
        decreases j - i,
    {
        if i < j {
            self.lemma_offsets_monotonic(i, j - 1);
            assert(self.offsets@[j - 1] <= self.offsets@[j]);
        }
    }

    /// Builds a column from one optional byte row per row, laying the rows
    /// out contiguously; the validity bitmap is attached only when some
    /// row is null.
    pub fn from_options(data_type: DataType, opts: Vec<Option<Vec<u8>>>) -> (out: VarBinaryArray)
        requires
            is_variable_length(data_type),
            total_row_bytes(opts_bytes(opts@)) <= max_offset(data_type),
        ensures
            out.wf(),
            out.data_type == data_type,
            out@ == opts_bytes(opts@),
            (out.validity is None <==> (forall|i: int|
                0 <= i < opts@.len() ==> #[trigger] opts@[i] is Some)),
    {
        let ghost srcv = opts_bytes(opts@);
        let ghost ident = identity_indices(opts@.len() as int);
        let max: i64 = if data_type == DataType::Utf8 || data_type == DataType::Binary {
            i32::MAX as i64
        } else {
            i64::MAX
        };
        proof {
            assert(max == max_offset(data_type));
        }
        let n = opts.len();
        let mut offsets: Vec<i64> = Vec::new();
        offsets.push(0);
        let mut bits: Vec<bool> = Vec::new();
        let mut buf: Vec<u8> = Vec::new();
        let mut has_null = false;
        let mut acc: i64 = 0;
        let mut i: usize = 0;
        while i < n
            invariant
                n == opts@.len(),
                srcv == opts_bytes(opts@),
                ident == identity_indices(n as int),
                max == max_offset(data_type),
                byte_total(srcv, ident, n as int) <= max,
                i <= n,
                offsets@.len() == i + 1,
                bits@.len() == i,
                acc == byte_total(srcv, ident, i as int),
                0 <= acc <= max,
                buf@ == gathered_bytes(srcv, ident, i as int),
                forall|j: int|
                    0 <= j <= i ==> #[trigger] offsets@[j] == byte_total(srcv, ident, j),
                forall|j: int| 0 <= j <= i ==> 0 <= #[trigger] offsets@[j] <= max,
                forall|j: int| 0 <= j < i ==> #[trigger] bits@[j] == (opts@[j] is Some),
                has_null == !(forall|j: int| 0 <= j < i ==> #[trigger] opts@[j] is Some),
            decreases n - i,
        {
            proof {
                assert(ident[i as int] == Some(i as i128));
            }
            match &opts[i] {
                None => {
                    proof {
                        assert(srcv[i as int] is None);
                        assert(row_bytes(srcv, ident[i as int]) =~= Seq::<u8>::empty());
                        assert(byte_total(srcv, ident, i as int + 1) == acc);
                        assert(buf@ =~= gathered_bytes(srcv, ident, i as int + 1));
                    }
                    offsets.push(acc);
                    bits.push(false);
                    has_null = true;
                },
                Some(row) => {
                    proof {
                        assert(srcv[i as int] == Some(row@));
                        assert(row_bytes(srcv, ident[i as int]) == row@);
                        assert(byte_total(srcv, ident, i as int + 1) == acc + row@.len());
                        lemma_byte_total_monotonic(srcv, ident, i as int + 1, n as int);
                    }
                    let row_len = row.len();
                    let ghost pre = buf@;
                    let mut t: usize = 0;
                    while t < row_len
                        invariant
                            t <= row_len,
                            row_len == row@.len(),
                            buf@ == pre + row@.subrange(0, t as int),
                        decreases row_len - t,
                    {
                        buf.push(row[t]);
                        proof {
                            assert(pre + row@.subrange(0, t + 1) =~= (pre + row@.subrange(
                                0,
                                t as int,
                            )).push(row@[t as int]));
                        }
                        t = t + 1;
                    }
                    proof {
                        assert(row@.subrange(0, row_len as int) =~= row@);
                        assert(buf@ =~= gathered_bytes(srcv, ident, i as int + 1));
                    }
                    acc = acc + (row_len as i64);
                    offsets.push(acc);
                    bits.push(true);
                },
            }
            i = i + 1;
        }
        let validity = if has_null {
            Some(Bitmap { bits })
        } else {
            None
        };
        let out = VarBinaryArray { data_type, offsets, values: buf, validity };
        proof {
            lemma_byte_accounting(srcv, ident, n as int);
            assert forall|j: int| 0 <= j < n implies #[trigger] out.offsets@[j] <= out.offsets@[j
                + 1] by {
                lemma_byte_total_monotonic(srcv, ident, j, j + 1);
            }
            assert(out.wf());
            assert forall|j: int| 0 <= j < n implies out@[j] == srcv[j] by {
                lemma_gathered_bytes_row(srcv, ident, j, n as int);
                assert(ident[j] == Some(j as i128));
                assert(bits@[j] == (opts@[j] is Some));
                assert(out.row(j) == row_bytes(srcv, ident[j]));
            }
            assert(out@ =~= srcv);
        }
        out
    }

    /// Whether row `i` is valid (not null).
    pub fn is_valid(&self, i: usize) -> (b: bool)
        requires
            self.wf(),
            i < self.spec_len(),
        ensures
            b == self.valid(i as int),
    {
        match &self.validity {
            None => true,
            Some(bm) => bm.get(i),
        }
    }
}

/// The logical rows a sequence of optional byte rows stands for.
pub open spec fn opts_bytes(opts: Seq<Option<Vec<u8>>>) -> Seq<Option<Seq<u8>>> {
    Seq::new(
        opts.len(),
        |i: int|
            match opts[i] {
                None => None,
                Some(v) => Some(v@),
            },
    )
}

/// The summed byte length of a sequence of optional rows; null rows count
/// for nothing.
pub open spec fn total_row_bytes(rows: Seq<Option<Seq<u8>>>) -> int {
    byte_total(rows, identity_indices(rows.len() as int), rows.len() as int)
}

/// Dictionary encoding: integer keys indexing a shared pool of values.
/// The pool is reference-counted, so selecting rows never copies it.
#[derive(Clone, Debug)]
pub struct DictionaryArray {
    pub keys: PrimitiveArray,
    pub values: Arc<Array>,
}

impl DictionaryArray {
    pub open spec fn spec_len(&self) -> int {
        self.keys.spec_len()
    }

    pub open spec fn wf(&self) -> bool
        decreases *self,
    {
        &&& self.keys.wf()
        &&& is_dictionary_key(self.keys.data_type)
        &&& (*self.values).wf()
        &&& forall|i: int|
            0 <= i < self.keys.spec_len() && self.keys.valid(i)
                ==> 0 <= self.keys.values@[i] < (*self.values).spec_len()
    }

    /// Wraps a keys array and a values pool into a dictionary column; the
    /// pool moves behind a reference count.
    pub fn new(keys: PrimitiveArray, values: Array) -> (out: DictionaryArray)
        requires
            keys.wf(),
            is_dictionary_key(keys.data_type),
            values.wf(),
            forall|i: int|
                0 <= i < keys.spec_len() && keys.valid(i) ==> 0 <= #[trigger] keys.values@[i]
                    < values.spec_len(),
        ensures
            out.wf(),
            out.keys == keys,
            out.values == values,
    {
        DictionaryArray { keys, values: Arc::new(values) }
    }
}

/// A column: one logical type tag over one of the four physical
/// representations.
#[derive(Clone, Debug)]
pub enum Array {
    FixedWidth(PrimitiveArray),
    BitPacked(BooleanArray),
    VariableLength(VarBinaryArray),
    Dictionary(DictionaryArray),
}

impl Array {
    pub open spec fn spec_len(&self) -> int {
        match self {
            Array::FixedWidth(a) => a.spec_len(),
            Array::BitPacked(a) => a.spec_len(),
            Array::VariableLength(a) => a.spec_len(),
            Array::Dictionary(d) => d.spec_len(),
        }
    }

    pub open spec fn spec_data_type(&self) -> DataType {
        match self {
            Array::FixedWidth(a) => a.data_type,
            Array::BitPacked(_) => DataType::Boolean,
            Array::VariableLength(a) => a.data_type,
            Array::Dictionary(d) => DataType::Dictionary(key_integer_of(d.keys.data_type)),
        }
    }

    pub open spec fn wf(&self) -> bool
        decreases *self,
    {
        match self {
            Array::FixedWidth(a) => a.wf(),
            Array::BitPacked(a) => a.wf(),
            Array::VariableLength(a) => a.wf(),
            Array::Dictionary(d) => d.wf(),
        }
    }

    pub fn len(&self) -> (n: usize)
        requires
            self.wf(),
        ensures
            n == self.spec_len(),
    {
        match self {
            Array::FixedWidth(a) => a.len(),
            Array::BitPacked(a) => a.len(),
            Array::VariableLength(a) => a.len(),
            Array::Dictionary(d) => d.keys.len(),
        }
    }

    /// The column's logical type tag.
    pub fn data_type(&self) -> (dt: DataType)
        requires
            self.wf(),
        ensures
            dt == self.spec_data_type(),
    {
        match self {
            Array::FixedWidth(a) => a.data_type,
            Array::BitPacked(_) => DataType::Boolean,
            Array::VariableLength(a) => a.data_type,
            Array::Dictionary(d) => DataType::Dictionary(key_integer(d.keys.data_type)),
        }
    }
}

/// Logical equality of two columns: same logical type, same length, and
/// the same optional value at every row.  Filler bytes under null rows do
/// not count, and neither does how validity happens to be stored.
pub open spec fn logical_eq(a: Array, b: Array) -> bool
    decreases a,
{
    match a {
        Array::FixedWidth(x) => b matches Array::FixedWidth(y) && x.data_type == y.data_type
            && x@ == y@,
        Array::BitPacked(x) => b matches Array::BitPacked(y) && x@ == y@,
        Array::VariableLength(x) => b matches Array::VariableLength(y) && x.data_type
            == y.data_type && x@ == y@,
        Array::Dictionary(x) => b matches Array::Dictionary(y) && x.keys.data_type
            == y.keys.data_type && x.keys@ == y.keys@ && logical_eq(*x.values, *y.values),
    }
}

/// Logical equality of two fixed-width columns.
pub fn equal_primitive(a: &PrimitiveArray, b: &PrimitiveArray) -> (r: bool)
    requires
        a.wf(),
        b.wf(),
    ensures
        r == (a.data_type == b.data_type && a@ == b@),
{
    let same_type = a.data_type == b.data_type;
    if !same_type {
        return false;
    }
    let n = a.len();
    if b.len() != n {
        proof {
            assert(a@.len() == a.spec_len());
            assert(b@.len() == b.spec_len());
        }
        return false;
    }
    let mut i: usize = 0;
    while i < n
        invariant
            a.wf(),
            b.wf(),
            n == a.spec_len(),
            n == b.spec_len(),
            i <= n,
            forall|j: int| 0 <= j < i ==> a@[j] == b@[j],
        decreases n - i,
    {
        let av = a.is_valid(i);
        let bv = b.is_valid(i);
        if av != bv {
            proof {
                assert(a@[i as int] is Some == a.valid(i as int));
                assert(b@[i as int] is Some == b.valid(i as int));
                assert(a@[i as int] != b@[i as int]);
            }
            return false;
        }
        if av && a.values[i] != b.values[i] {
            proof {
                assert(a@[i as int] == Some(a.values@[i as int]));
                assert(b@[i as int] == Some(b.values@[i as int]));
            }
            return false;
        }
        proof {
            assert(a@[i as int] == b@[i as int]);
        }
        i = i + 1;
    }
    proof {
        assert(a@ =~= b@);
    }
    true
}

/// Logical equality of two bit-packed boolean columns.
pub fn equal_boolean(a: &BooleanArray, b: &BooleanArray) -> (r: bool)
    requires
        a.wf(),
        b.wf(),
    ensures
        r == (a@ == b@),
{
    let n = a.len();
    if b.len() != n {
        proof {
            assert(a@.len() == a.spec_len());
            assert(b@.len() == b.spec_len());
        }
        return false;
    }
    let mut i: usize = 0;
    while i < n
        invariant
            a.wf(),
            b.wf(),
            n == a.spec_len(),
            n == b.spec_len(),
            i <= n,
            forall|j: int| 0 <= j < i ==> a@[j] == b@[j],
        decreases n - i,
    {
        let av = a.is_valid(i);
        let bv = b.is_valid(i);
        if av != bv {
            proof {
                assert(a@[i as int] is Some == a.valid(i as int));
                assert(b@[i as int] is Some == b.valid(i as int));
                assert(a@[i as int] != b@[i as int]);
            }
            return false;
        }
        if av && a.values.get(i) != b.values.get(i) {
            proof {
                assert(a@[i as int] == Some(a.values@[i as int]));
                assert(b@[i as int] == Some(b.values@[i as int]));
            }
            return false;
        }
        proof {
            assert(a@[i as int] == b@[i as int]);
        }
        i = i + 1;
    }
    proof {
        assert(a@ =~= b@);
    }
    true
}

/// Logical equality of two variable-length columns.
pub fn equal_varbinary(a: &VarBinaryArray, b: &VarBinaryArray) -> (r: bool)
    requires
        a.wf(),
        b.wf(),
    ensures
        r == (a.data_type == b.data_type && a@ == b@),
{
    let same_type = a.data_type == b.data_type;
    if !same_type {
        return false;
    }
    let n = a.len();
    if b.len() != n {
        proof {
            assert(a@.len() == a.spec_len());
            assert(b@.len() == b.spec_len());
        }
        return false;
    }
    let a_bytes = a.values.len();
    let b_bytes = b.values.len();
    let mut i: usize = 0;
    while i < n
        invariant
            a.wf(),
            b.wf(),
            n == a.spec_len(),
            n == b.spec_len(),
            a_bytes == a.values@.len(),
            b_bytes == b.values@.len(),
            i <= n,
            forall|j: int| 0 <= j < i ==> a@[j] == b@[j],
        decreases n - i,
    {
        let av = a.is_valid(i);
        let bv = b.is_valid(i);
        if av != bv {
            proof {
                assert(a@[i as int] is Some == a.valid(i as int));
                assert(b@[i as int] is Some == b.valid(i as int));
                assert(a@[i as int] != b@[i as int]);
            }
            return false;
        }
        if av {
            proof {
                assert(a.offsets@[i as int] <= a.offsets@[i as int + 1]);
                assert(b.offsets@[i as int] <= b.offsets@[i as int + 1]);
                a.lemma_offsets_monotonic(i as int + 1, n as int);
                b.lemma_offsets_monotonic(i as int + 1, n as int);
                assert(0 <= a.offsets@[i as int]);
                assert(0 <= b.offsets@[i as int]);
            }
            let a_start = a.offsets[i] as usize;
            let a_end = a.offsets[i + 1] as usize;
            let b_start = b.offsets[i] as usize;
            let b_end = b.offsets[i + 1] as usize;
            if a_end - a_start != b_end - b_start {
                proof {
                    assert(a@[i as int] == Some(a.row(i as int)));
                    assert(b@[i as int] == Some(b.row(i as int)));
                    assert(a.row(i as int).len() != b.row(i as int).len());
                }
                return false;
            }
            let row_len = a_end - a_start;
            let mut t: usize = 0;
            while t < row_len
                invariant
                    a.wf(),
                    b.wf(),
                    i < n,
                    n == a.spec_len(),
                    n == b.spec_len(),
                    t <= row_len,
                    a.valid(i as int),
                    b.valid(i as int),
                    a_start == a.offsets@[i as int],
                    a_start + row_len == a.offsets@[i as int + 1],
                    a_start + row_len <= a.values@.len(),
                    b_start == b.offsets@[i as int],
                    b_start + row_len == b.offsets@[i as int + 1],
                    b_start + row_len <= b.values@.len(),
                    a_bytes == a.values@.len(),
                    b_bytes == b.values@.len(),
                    forall|u: int|
                        0 <= u < t ==> #[trigger] a.values@[a_start + u] == b.values@[b_start
                            + u],
                decreases row_len - t,
            {
                if a.values[a_start + t] != b.values[b_start + t] {
                    proof {
                        assert(a.row(i as int)[t as int] == a.values@[a_start + t]);
                        assert(b.row(i as int)[t as int] == b.values@[b_start + t]);
                        assert(a@[i as int] == Some(a.row(i as int)));
                        assert(b@[i as int] == Some(b.row(i as int)));
                        assert(a.row(i as int) != b.row(i as int));
                    }
                    return false;
                }
                t = t + 1;
            }
            proof {
                assert forall|u: int| 0 <= u < row_len implies a.row(i as int)[u] == b.row(
                    i as int,
                )[u] by {
                    assert(a.values@[a_start + u] == b.values@[b_start + u]);
                }
                assert(a.row(i as int) =~= b.row(i as int));
                assert(a@[i as int] == b@[i as int]);
            }
        } else {
            proof {
                assert(a@[i as int] is None);
                assert(b@[i as int] is None);
            }
        }
        i = i + 1;
    }
    proof {
        assert(a@ =~= b@);
    }
    true
}

/// Logical equality of two columns of any representation.  Columns of
/// different representations are never equal.
pub fn equal(lhs: &Array, rhs: &Array) -> (r: bool)
    requires
        lhs.wf(),
        rhs.wf(),
    ensures
        r == logical_eq(*lhs, *rhs),
    decreases *lhs,
{
    match (lhs, rhs) {
        (Array::FixedWidth(a), Array::FixedWidth(b)) => equal_primitive(a, b),
        (Array::BitPacked(a), Array::BitPacked(b)) => equal_boolean(a, b),
        (Array::VariableLength(a), Array::VariableLength(b)) => equal_varbinary(a, b),
        (Array::Dictionary(a), Array::Dictionary(b)) => {
            let keys_eq = equal_primitive(&a.keys, &b.keys);
            keys_eq && equal(&*a.values, &*b.values)
        },
        _ => {
            proof {
                assert(!logical_eq(*lhs, *rhs));
            }
            false
        },
    }
}

/// Relies on `std::sync::Arc::clone`: the clone shares the source's
/// allocation, so it carries the very same value.
#[verifier::external_body]
pub(crate) fn share_values(values: &Arc<Array>) -> (r: Arc<Array>)
    ensures
        r == *values,
{
    Arc::clone(values)
}

} // verus!
