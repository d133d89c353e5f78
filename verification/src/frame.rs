//! Frame serializer: encodes the fixed-layout binary record consumed by the
//! downstream matrix runtime.
//!
//! Layout, with no padding between fields: header (version byte = 1, data
//! kind byte = 2 for a CSR matrix, row count and column count as 8-byte
//! little-endian), one value-type tag byte, a reserved body of two 8-byte
//! zero fields, a body block (row and column count as 4-byte little-endian,
//! body kind byte = 2 for sparse), the value-type tag byte repeated, the
//! 8-byte nonzero count, then the row-pointer, column-index and value
//! arrays as raw contiguous little-endian bytes. Ids and offsets are
//! always 8-byte and values are 8-byte floats, independent of the host.

use vstd::prelude::*;
use vstd::string::StrSliceExecFns;

use crate::bytes::one_f64_le;
use crate::bytes::push_one_f64;
use crate::bytes::push_u32_le;
use crate::bytes::push_u64_le;
use crate::bytes::u32_le;
use crate::bytes::u64_le;
use crate::csr::build_csr;
use crate::csr::spec_row_ptr;
use crate::graph::Edge;
use crate::graph::Metadata;
use crate::graph::Vertex;

verus! {

/// The closed set of numeric value-type tags the frame format knows.
#[allow(non_camel_case_types)]
#[derive(Clone, Copy, PartialEq, Eq, Structural)]
pub enum ValueType {
    SI8,
    SI32,
    SI64,
    UI8,
    UI32,
    UI64,
    F32,
    F64,
}

impl ValueType {
    /// The tag byte written for this value type.
    pub open spec fn spec_tag(self) -> u8 {
        match self {
            ValueType::SI8 => 0,
            ValueType::SI32 => 1,
            ValueType::SI64 => 2,
            ValueType::UI8 => 3,
            ValueType::UI32 => 4,
            ValueType::UI64 => 5,
            ValueType::F32 => 6,
            ValueType::F64 => 7,
        }
    }

    pub fn tag(&self) -> (r: u8)
        ensures
            r == self.spec_tag(),
    {
        match self {
            ValueType::SI8 => 0,
            ValueType::SI32 => 1,
            ValueType::SI64 => 2,
            ValueType::UI8 => 3,
            ValueType::UI32 => 4,
            ValueType::UI64 => 5,
            ValueType::F32 => 6,
            ValueType::F64 => 7,
        }
    }
}

/// Case-insensitive match of one character against its lower- and
/// upper-case form.
pub open spec fn ci(c: char, lo: char, up: char) -> bool {
    c == lo || c == up
}

/// The value type a name resolves to, case-insensitively, or `None` when
/// the name matches no member of the closed enumeration.
pub open spec fn spec_value_type(s: Seq<char>) -> Option<ValueType> {
    if s.len() == 3 && ci(s[0], 's', 'S') && ci(s[1], 'i', 'I') && s[2] == '8' {
        Some(ValueType::SI8)
    } else if s.len() == 4 && ci(s[0], 's', 'S') && ci(s[1], 'i', 'I') && s[2] == '3' && s[3]
        == '2' {
        Some(ValueType::SI32)
    } else if s.len() == 4 && ci(s[0], 's', 'S') && ci(s[1], 'i', 'I') && s[2] == '6' && s[3]
        == '4' {
        Some(ValueType::SI64)
    } else if s.len() == 3 && ci(s[0], 'u', 'U') && ci(s[1], 'i', 'I') && s[2] == '8' {
        Some(ValueType::UI8)
    } else if s.len() == 4 && ci(s[0], 'u', 'U') && ci(s[1], 'i', 'I') && s[2] == '3' && s[3]
        == '2' {
        Some(ValueType::UI32)
    } else if s.len() == 4 && ci(s[0], 'u', 'U') && ci(s[1], 'i', 'I') && s[2] == '6' && s[3]
        == '4' {
        Some(ValueType::UI64)
    } else if s.len() == 3 && ci(s[0], 'f', 'F') && s[1] == '3' && s[2] == '2' {
        Some(ValueType::F32)
    } else if s.len() == 3 && ci(s[0], 'f', 'F') && s[1] == '6' && s[2] == '4' {
        Some(ValueType::F64)
    } else {
        None
    }
}

/// Resolves a value-type name against the closed enumeration,
/// case-insensitively. Unknown names resolve to `None`, never to a tag.
pub fn value_type_from_str(s: &str) -> (r: Option<ValueType>)
    ensures
        r == spec_value_type(s@),
{
    let n = s.unicode_len();
    if n == 3 {
        let c0 = s.get_char(0);
        let c1 = s.get_char(1);
        let c2 = s.get_char(2);
        if (c0 == 's' || c0 == 'S') && (c1 == 'i' || c1 == 'I') && c2 == '8' {
            Some(ValueType::SI8)
        } else if (c0 == 'u' || c0 == 'U') && (c1 == 'i' || c1 == 'I') && c2 == '8' {
            Some(ValueType::UI8)
        } else if (c0 == 'f' || c0 == 'F') && c1 == '3' && c2 == '2' {
            Some(ValueType::F32)
        } else if (c0 == 'f' || c0 == 'F') && c1 == '6' && c2 == '4' {
            Some(ValueType::F64)
        } else {
            None
        }
    } else if n == 4 {
        let c0 = s.get_char(0);
        let c1 = s.get_char(1);
        let c2 = s.get_char(2);
        let c3 = s.get_char(3);
        if (c0 == 's' || c0 == 'S') && (c1 == 'i' || c1 == 'I') && c2 == '3' && c3 == '2' {
            Some(ValueType::SI32)
        } else if (c0 == 's' || c0 == 'S') && (c1 == 'i' || c1 == 'I') && c2 == '6' && c3 == '4' {
            Some(ValueType::SI64)
        } else if (c0 == 'u' || c0 == 'U') && (c1 == 'i' || c1 == 'I') && c2 == '3' && c3 == '2' {
            Some(ValueType::UI32)
        } else if (c0 == 'u' || c0 == 'U') && (c1 == 'i' || c1 == 'I') && c2 == '6' && c3 == '4' {
            Some(ValueType::UI64)
        } else {
            None
        }
    } else {
        None
    }
}

/// The declared value-type name resolves to no member of the enumeration.
/// Carries the offending name.
#[derive(Debug)]
pub struct ValueTypeError {
    pub name: String,
}

/// The concatenated little-endian encodings of a sequence of 64-bit values.
pub open spec fn le_u64_seq(s: Seq<u64>) -> Seq<u8>
    decreases s.len(),
{
    if s.len() == 0 {
        Seq::empty()
    } else {
        le_u64_seq(s.drop_last()) + u64_le(s.last())
    }
}

/// `n` repetitions of the encoded value 1.0: the value array of an
/// unweighted adjacency matrix with `n` nonzeros.
pub open spec fn ones_f64(n: nat) -> Seq<u8>
    decreases n,
{
    if n == 0 {
        Seq::empty()
    } else {
        ones_f64((n - 1) as nat) + one_f64_le()
    }
}

/// Each 64-bit value occupies exactly 8 bytes of the frame.
pub proof fn lemma_le_u64_seq_len(s: Seq<u64>)
    ensures
        le_u64_seq(s).len() == 8 * s.len(),
    decreases s.len(),
{
    if s.len() > 0 {
        lemma_le_u64_seq_len(s.drop_last());
    }
}

/// The value array holds one 8-byte value per nonzero: its byte length,
/// the column-index count and the nonzero count agree.
pub proof fn lemma_ones_f64_len(n: nat)
    ensures
        ones_f64(n).len() == 8 * n,
    decreases n,
{
    if n > 0 {
        lemma_ones_f64_len((n - 1) as nat);
    }
}

/// The destinations of the edges, as 64-bit column indices.
pub open spec fn col_seq(edges: Seq<Edge>) -> Seq<u64> {
    edges.map_values(|e: Edge| e.1.0 as u64)
}

/// A 64-bit value clipped to its low 32 bits, as the 4-byte block fields
/// store it.
pub open spec fn low32(x: u64) -> u32 {
    (x % 0x100000000) as u32
}

/// The complete binary frame for metadata `m`, resolved value type `vt`,
/// and sorted normalized edges `edges`.
pub open spec fn spec_frame(m: Metadata, vt: ValueType, edges: Seq<Edge>) -> Seq<u8> {
    seq![1u8, 2u8] + u64_le(m.numRows as u64) + u64_le(m.numCols as u64) + seq![vt.spec_tag()]
        + u64_le(0) + u64_le(0) + u32_le(low32(m.numRows as u64)) + u32_le(low32(m.numCols as u64))
        + seq![2u8] + seq![vt.spec_tag()] + u64_le(m.numNonZeros as u64) + le_u64_seq(
        spec_row_ptr(edges),
    ) + le_u64_seq(col_seq(edges)) + ones_f64(edges.len())
}

/// Serializes the vertices, sorted edges and metadata of one run.
pub struct Serializer {
    pub vertices: Vec<Vertex>,
    pub edges: Vec<Edge>,
    pub meta: Metadata,
}

impl Serializer {
    /// Encodes the binary frame. Fails with a [`ValueTypeError`], before
    /// producing any output, exactly when the declared value-type name
    /// resolves to no member of the enumeration; otherwise the returned
    /// bytes are exactly [`spec_frame`] for the resolved value type.
    pub fn serialize(&self) -> (r: Result<Vec<u8>, ValueTypeError>)
        ensures
            r is Ok <==> spec_value_type(self.meta.valueType@) is Some,
            r matches Ok(bytes) ==> bytes@ == spec_frame(
                self.meta,
                spec_value_type(self.meta.valueType@).unwrap(),
                self.edges@,
            ),
            r matches Err(e) ==> e.name@ == self.meta.valueType@,
    {
        let vt = match value_type_from_str(self.meta.valueType.as_str()) {
            Some(vt) => vt,
            None => {
                return Err(ValueTypeError { name: self.meta.valueType.clone() });
            },
        };
        let mut out: Vec<u8> = Vec::new();
        out.push(1);  // header: format version
        out.push(2);  // header: data kind, CSR matrix
        push_u64_le(&mut out, self.meta.numRows as u64);
        push_u64_le(&mut out, self.meta.numCols as u64);
        out.push(vt.tag());
        push_u64_le(&mut out, 0);  // reserved row-offset field
        push_u64_le(&mut out, 0);  // reserved column-offset field
        push_u32_le(&mut out, ((self.meta.numRows as u64) % 0x100000000) as u32);
        push_u32_le(&mut out, ((self.meta.numCols as u64) % 0x100000000) as u32);
        out.push(2);  // body kind: sparse
        out.push(vt.tag());
        push_u64_le(&mut out, self.meta.numNonZeros as u64);
        let ghost head = out@;
        let csr = build_csr(&self.edges);
        let n_rows = csr.row_ptr.len();
        let mut i: usize = 0;
        proof {
            assert(le_u64_seq(csr.row_ptr@.take(0)) =~= Seq::<u8>::empty());
            assert(out@ =~= head + Seq::<u8>::empty());
        }
        while i < n_rows
            invariant
                i <= n_rows,
                n_rows == csr.row_ptr@.len(),
                out@ == head + le_u64_seq(csr.row_ptr@.take(i as int)),
            decreases n_rows - i,
        {
            push_u64_le(&mut out, csr.row_ptr[i]);
            proof {
                assert(csr.row_ptr@.take(i + 1).drop_last() =~= csr.row_ptr@.take(i as int));
                assert(le_u64_seq(csr.row_ptr@.take(i + 1)) == le_u64_seq(
                    csr.row_ptr@.take(i as int),
                ) + u64_le(csr.row_ptr@[i as int]));
                assert(out@ =~= head + le_u64_seq(csr.row_ptr@.take(i + 1)));
            }
            i += 1;
        }
        proof {
            assert(csr.row_ptr@.take(n_rows as int) =~= csr.row_ptr@);
        }
        let ghost head2 = out@;
        let n_cols = csr.col_idx.len();
        let mut j: usize = 0;
        proof {
            assert(le_u64_seq(csr.col_idx@.take(0)) =~= Seq::<u8>::empty());
            assert(out@ =~= head2 + Seq::<u8>::empty());
        }
        while j < n_cols
            invariant
                j <= n_cols,
                n_cols == csr.col_idx@.len(),
                out@ == head2 + le_u64_seq(csr.col_idx@.take(j as int)),
            decreases n_cols - j,
        {
            push_u64_le(&mut out, csr.col_idx[j]);
            proof {
                assert(csr.col_idx@.take(j + 1).drop_last() =~= csr.col_idx@.take(j as int));
                assert(le_u64_seq(csr.col_idx@.take(j + 1)) == le_u64_seq(
                    csr.col_idx@.take(j as int),
                ) + u64_le(csr.col_idx@[j as int]));
                assert(out@ =~= head2 + le_u64_seq(csr.col_idx@.take(j + 1)));
            }
            j += 1;
        }
        proof {
            assert(csr.col_idx@.take(n_cols as int) =~= csr.col_idx@);
            assert(csr.col_idx@ =~= col_seq(self.edges@));
        }
        let ghost head3 = out@;
        let mut k: usize = 0;
        proof {
            assert(out@ =~= head3 + ones_f64(0));
        }
        while k < n_cols
            invariant
                k <= n_cols,
                out@ == head3 + ones_f64(k as nat),
            decreases n_cols - k,
        {
            push_one_f64(&mut out);
            proof {
                assert(ones_f64((k + 1) as nat) == ones_f64(k as nat) + one_f64_le());
                assert(out@ =~= head3 + ones_f64((k + 1) as nat));
            }
            k += 1;
        }
        proof {
            assert(out@ =~= spec_frame(
                self.meta,
                spec_value_type(self.meta.valueType@).unwrap(),
                self.edges@,
            ));
        }
        Ok(out)
    }
}

} // verus!

