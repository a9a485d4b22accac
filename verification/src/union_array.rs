//! The immutable union-typed array and its children.

use vstd::prelude::*;

use crate::datatypes::DataType;
use crate::datatypes::UnionError;

verus! {

/// One finalized child of a union array: the values of a single field,
/// immutable, together with its validity flags.
pub struct ChildArray {
    /// The field name this child was built from.
    pub name: String,
    /// The primitive type of the values.
    pub data_type: DataType,
    /// Number of slots.
    pub len: usize,
    /// The values, `len` groups of `data_type.width()` bytes each, in append
    /// order.
    pub values: Vec<u8>,
    /// Per-slot validity: `None` is the "no nulls present" sentinel.
    pub nulls: Option<Vec<bool>>,
}

impl ChildArray {
    pub open spec fn wf(self) -> bool {
        &&& self.values@.len() == self.len * self.data_type.spec_width()
        &&& match self.nulls {
            Some(b) => b@.len() == self.len,
            None => true,
        }
    }

    /// Whether slot `s` holds a present value (`false`: a null).
    pub open spec fn is_valid_at(self, s: int) -> bool {
        match self.nulls {
            None => true,
            Some(b) => b@[s],
        }
    }

    /// The native byte encoding of the value in slot `s`.
    pub open spec fn bytes_at(self, s: int) -> Seq<u8> {
        self.values@.subrange(
            s * self.data_type.spec_width(),
            (s + 1) * self.data_type.spec_width(),
        )
    }

    /// Whether slot `s` holds a present value.
    pub fn is_valid(&self, s: usize) -> (r: bool)
        requires
            self.wf(),
            s < self.len,
        ensures
            r == self.is_valid_at(s as int),
    {
        match &self.nulls {
            None => true,
            Some(b) => b[s],
        }
    }

    /// Copies the byte encoding of the value in slot `s`.
    pub fn value_bytes(&self, s: usize) -> (r: Vec<u8>)
        requires
            self.wf(),
            s < self.len,
        ensures
            r@ == self.bytes_at(s as int),
    {
        let w = self.data_type.width();
        let total = self.values.len();
        proof {
            assert((s + 1) * self.data_type.spec_width() <= self.len * self.data_type.spec_width())
                by (nonlinear_arith)
                requires
                    s < self.len,
            ;
            assert(s * self.data_type.spec_width() + self.data_type.spec_width() == (s + 1)
                * self.data_type.spec_width()) by (nonlinear_arith);
        }
        let start = s * w;
        let mut r: Vec<u8> = Vec::new();
        proof {
            assert(r@ =~= self.values@.subrange(start as int, start as int));
        }
        let mut j: usize = 0;
        while j < w
            invariant
                j <= w,
                w == self.data_type.spec_width(),
                start == s * w,
                total == self.values@.len(),
                start + w <= total,
                r@ == self.values@.subrange(start as int, start as int + j),
            decreases w - j,
        {
            r.push(self.values[start + j]);
            j = j + 1;
            proof {
                assert(r@ =~= self.values@.subrange(start as int, start as int + j));
            }
        }
        proof {
            assert(r@ =~= self.bytes_at(s as int));
        }
        r
    }
}

/// An immutable union-typed array: one discriminant per row, an offset
/// sequence when the layout is dense, and one child per declared field, in
/// tag order (child index equals tag).
pub struct UnionArray {
    /// Row discriminants: `type_ids[i]` is the tag of the field row `i`
    /// targeted.
    pub type_ids: Vec<i8>,
    /// Dense layout: per-row physical slot within the targeted child.
    /// `None` for the sparse layout.
    pub value_offsets: Option<Vec<i32>>,
    /// The children, indexed by tag.
    pub children: Vec<ChildArray>,
}

impl UnionArray {
    pub open spec fn num_rows(self) -> int {
        self.type_ids@.len() as int
    }

    pub open spec fn is_dense(self) -> bool {
        self.value_offsets is Some
    }

    /// Validity of the parts a union array is assembled from; construction
    /// through [`UnionArray::try_new`] accepts exactly these.
    pub open spec fn parts_valid(
        type_ids: Seq<i8>,
        value_offsets: Option<Vec<i32>>,
        children: Seq<ChildArray>,
    ) -> bool {
        &&& type_ids.len() <= i32::MAX
        &&& forall|j: int| 0 <= j < type_ids.len() ==> 0 <= #[trigger] type_ids[j] < children.len()
        &&& match value_offsets {
            Some(ob) => {
                &&& ob@.len() == type_ids.len()
                &&& forall|j: int|
                    0 <= j < type_ids.len() ==> 0 <= ob@[j] && (ob@[j] as int) < children[
                        type_ids[j] as int
                    ].len
            },
            None => forall|k: int| 0 <= k < children.len() ==> children[k].len == type_ids.len(),
        }
    }

    pub open spec fn wf(self) -> bool {
        &&& forall|k: int| 0 <= k < self.children@.len() ==> self.children@[k].wf()
        &&& Self::parts_valid(self.type_ids@, self.value_offsets, self.children@)
    }

    /// The physical slot within the targeted child that holds row `i`'s
    /// value; for the sparse layout this is `i` itself.
    pub open spec fn row_offset(self, i: int) -> int {
        match self.value_offsets {
            Some(ob) => ob@[i] as int,
            None => i,
        }
    }

    /// Whether row `i` holds a present value.
    pub open spec fn row_is_valid(self, i: int) -> bool {
        self.children@[self.type_ids@[i] as int].is_valid_at(self.row_offset(i))
    }

    /// The native byte encoding of row `i`'s value.
    pub open spec fn row_bytes(self, i: int) -> Seq<u8> {
        self.children@[self.type_ids@[i] as int].bytes_at(self.row_offset(i))
    }

    /// Assembles a union array, validating that every discriminant indexes a
    /// child and that every slot reference is within its child's bounds.
    /// Returns the array exactly when the parts are valid.
    pub fn try_new(
        type_ids: Vec<i8>,
        value_offsets: Option<Vec<i32>>,
        children: Vec<ChildArray>,
    ) -> (r: Result<UnionArray, UnionError>)
        requires
            forall|k: int| 0 <= k < children@.len() ==> children@[k].wf(),
            type_ids@.len() <= i32::MAX,
        ensures
            r is Ok <==> Self::parts_valid(type_ids@, value_offsets, children@),
            r matches Ok(a) ==> a == (UnionArray { type_ids, value_offsets, children }),
            r matches Ok(a) ==> a.wf(),
    {
        let rows = type_ids.len();
        let n_children = children.len();
        let mut j: usize = 0;
        while j < rows
            invariant
                rows == type_ids@.len(),
                n_children == children@.len(),
                j <= rows,
                forall|i: int| 0 <= i < j ==> 0 <= #[trigger] type_ids@[i] < n_children,
            decreases rows - j,
        {
            let t = type_ids[j];
            if t < 0 || t as usize >= n_children {
                return Err(UnionError::InvalidTypeId { row: j });
            }
            j = j + 1;
        }
        match value_offsets {
            Some(ref ob) => {
                if ob.len() != rows {
                    return Err(UnionError::OffsetLengthMismatch);
                }
                let mut j: usize = 0;
                while j < rows
                    invariant
                        rows == type_ids@.len(),
                        n_children == children@.len(),
                        value_offsets matches Some(obv) && obv == *ob,
                        ob@.len() == rows,
                        forall|i: int| 0 <= i < rows ==> 0 <= #[trigger] type_ids@[i] < n_children,
                        j <= rows,
                        forall|i: int|
                            0 <= i < j ==> 0 <= ob@[i] && (ob@[i] as int) < children@[
                                type_ids@[i] as int
                            ].len,
                    decreases rows - j,
                {
                    let off = ob[j];
                    let t = type_ids[j] as usize;
                    if off < 0 || off as usize >= children[t].len {
                        proof {
                            let tj = type_ids@[j as int] as int;
                            assert(value_offsets->0 == *ob);
                            assert(!(0 <= ob@[j as int] && (ob@[j as int] as int)
                                < children@[tj].len));
                            assert(!Self::parts_valid(type_ids@, value_offsets, children@));
                        }
                        return Err(UnionError::InvalidOffset { row: j });
                    }
                    j = j + 1;
                }
            },
            None => {
                let mut k: usize = 0;
                while k < n_children
                    invariant
                        rows == type_ids@.len(),
                        n_children == children@.len(),
                        value_offsets is None,
                        k <= n_children,
                        forall|i: int| 0 <= i < k ==> children@[i].len == rows,
                    decreases n_children - k,
                {
                    if children[k].len != rows {
                        proof {
                            assert(children@[k as int].len != type_ids@.len());
                            assert(!Self::parts_valid(type_ids@, value_offsets, children@));
                        }
                        return Err(UnionError::ChildLengthMismatch { child: k });
                    }
                    k = k + 1;
                }
            },
        }
        Ok(UnionArray { type_ids, value_offsets, children })
    }

    /// Number of rows.
    pub fn len(&self) -> (r: usize)
        ensures
            r == self.num_rows(),
    {
        self.type_ids.len()
    }

    /// Number of children (the number of fields ever declared).
    pub fn num_children(&self) -> (r: usize)
        ensures
            r == self.children@.len(),
    {
        self.children.len()
    }

    /// The tag of the field row `i` targeted.
    pub fn type_id(&self, i: usize) -> (r: i8)
        requires
            i < self.num_rows(),
        ensures
            r == self.type_ids@[i as int],
    {
        self.type_ids[i]
    }

    /// The physical slot within row `i`'s targeted child; for the sparse
    /// layout this is `i` itself.
    pub fn value_offset(&self, i: usize) -> (r: i32)
        requires
            self.wf(),
            i < self.num_rows(),
        ensures
            r as int == self.row_offset(i as int),
    {
        match &self.value_offsets {
            Some(ob) => ob[i],
            None => i as i32,
        }
    }
}

} // verus!
