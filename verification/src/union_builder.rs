//! The union builder: the append/build protocol over a set of named,
//! type-bound fields.

use vstd::prelude::*;

use crate::buffer::BufferBuilder;
use crate::buffer::NullBufferBuilder;
use crate::buffer::zero_bytes;
use crate::datatypes::DataType;
use crate::datatypes::UnionError;
use crate::union_array::ChildArray;
use crate::union_array::UnionArray;

verus! {

/// How many times tag `t` occurs in `s`.
pub open spec fn count_tag(s: Seq<i8>, t: i8) -> int
    decreases s.len(),
{
    if s.len() == 0 {
        0
    } else {
        count_tag(s.drop_last(), t) + if s.last() == t {
            1int
        } else {
            0int
        }
    }
}

pub proof fn lemma_count_tag_push(s: Seq<i8>, t: i8, u: i8)
    ensures
        count_tag(s.push(t), u) == count_tag(s, u) + if t == u {
            1int
        } else {
            0int
        },
{
    assert(s.push(t).drop_last() =~= s);
}

pub proof fn lemma_count_tag_nonneg(s: Seq<i8>, t: i8)
    ensures
        0 <= count_tag(s, t) <= s.len(),
    decreases s.len(),
{
    if s.len() > 0 {
        lemma_count_tag_nonneg(s.drop_last(), t);
    }
}

/// Counting over a longer prefix never decreases the count.
pub proof fn lemma_count_tag_prefix_le(s: Seq<i8>, t: i8, j: int, k: int)
    requires
        0 <= j <= k <= s.len(),
    ensures
        count_tag(s.take(j), t) <= count_tag(s.take(k), t),
    decreases k - j,
{
    if j < k {
        lemma_count_tag_prefix_le(s, t, j, k - 1);
        assert(s.take(k).drop_last() =~= s.take(k - 1));
    }
}

/// Extending the prefix past index `j` with `s[j] == t` increases the count.
pub proof fn lemma_count_tag_take_lt(s: Seq<i8>, j: int)
    requires
        0 <= j < s.len(),
    ensures
        count_tag(s.take(j), s[j]) < count_tag(s.take(s.len() as int), s[j]),
{
    assert(s.take(j + 1).drop_last() =~= s.take(j));
    assert(s.take(j + 1).last() == s[j]);
    lemma_count_tag_prefix_le(s, s[j], j + 1, s.len() as int);
}

/// `count_tag` of a tag that occurs nowhere in `s` is zero.
pub proof fn lemma_count_tag_absent(s: Seq<i8>, t: i8)
    requires
        forall|j: int| 0 <= j < s.len() ==> s[j] != t,
    ensures
        count_tag(s, t) == 0,
    decreases s.len(),
{
    if s.len() > 0 {
        lemma_count_tag_absent(s.drop_last(), t);
    }
}

/// Taking a prefix commutes with pushing past it.
pub proof fn lemma_take_of_push(s: Seq<i8>, x: i8, j: int)
    requires
        0 <= j <= s.len(),
    ensures
        s.push(x).take(j) == s.take(j),
{
    assert(s.push(x).take(j) =~= s.take(j));
}

/// The state of one declared field: its stable tag, its bound type, and its
/// accumulators, which always hold exactly `slots` entries each.
pub struct FieldData {
    /// The tag (discriminant value) of this field, assigned at first
    /// reference and never changed.
    pub type_id: i8,
    /// The primitive type this field is bound to for its whole lifetime.
    pub data_type: DataType,
    /// The values written so far, as raw fixed-width bytes.
    pub values_buffer: BufferBuilder,
    /// Number of physical slots written so far.
    pub slots: usize,
    /// Per-slot validity.
    pub null_buffer_builder: NullBufferBuilder,
}

impl FieldData {
    pub open spec fn wf(self) -> bool {
        &&& self.values_buffer.wf()
        &&& self.values_buffer.width == self.data_type.spec_width()
        &&& self.values_buffer.data@.len() == self.slots * self.data_type.spec_width()
        &&& self.null_buffer_builder.bits@.len() == self.slots
    }

    /// Whether slot `s` holds a present value.
    pub open spec fn valid_at(self, s: int) -> bool {
        self.null_buffer_builder.bits@[s]
    }

    /// The byte encoding stored in slot `s`.
    pub open spec fn bytes_at(self, s: int) -> Seq<u8> {
        self.values_buffer.data@.subrange(
            s * self.data_type.spec_width(),
            (s + 1) * self.data_type.spec_width(),
        )
    }

    /// Creates the state of a newly declared field, with no slots yet.
    pub fn new(type_id: i8, data_type: DataType) -> (r: FieldData)
        ensures
            r.wf(),
            r.type_id == type_id,
            r.data_type == data_type,
            r.slots == 0,
            r.values_buffer.data@ == Seq::<u8>::empty(),
            r.null_buffer_builder.bits@ == Seq::<bool>::empty(),
    {
        FieldData {
            type_id,
            data_type,
            values_buffer: BufferBuilder::new(data_type.width()),
            slots: 0,
            null_buffer_builder: NullBufferBuilder::new(),
        }
    }

    /// Writes one present value (its fixed-width byte encoding) into the
    /// next slot.
    pub fn append_value(&mut self, v: &[u8])
        requires
            old(self).wf(),
            v@.len() == old(self).data_type.spec_width(),
            old(self).slots < usize::MAX,
        ensures
            final(self).wf(),
            final(self).type_id == old(self).type_id,
            final(self).data_type == old(self).data_type,
            final(self).slots == old(self).slots + 1,
            final(self).values_buffer.data@ == old(self).values_buffer.data@ + v@,
            final(self).null_buffer_builder.bits@ == old(self).null_buffer_builder.bits@.push(
                true,
            ),
    {
        self.values_buffer.append(v);
        self.null_buffer_builder.append(true);
        self.slots = self.slots + 1;
        proof {
            assert(self.slots * self.data_type.spec_width() == (self.slots - 1)
                * self.data_type.spec_width() + self.data_type.spec_width()) by (nonlinear_arith);
        }
    }

    /// Writes a null placeholder into the next slot.
    pub fn append_null(&mut self)
        requires
            old(self).wf(),
            old(self).slots < usize::MAX,
        ensures
            final(self).wf(),
            final(self).type_id == old(self).type_id,
            final(self).data_type == old(self).data_type,
            final(self).slots == old(self).slots + 1,
            final(self).values_buffer.data@ == old(self).values_buffer.data@ + zero_bytes(
                old(self).data_type.spec_width(),
            ),
            final(self).null_buffer_builder.bits@ == old(self).null_buffer_builder.bits@.push(
                false,
            ),
    {
        self.values_buffer.append_null();
        self.null_buffer_builder.append(false);
        self.slots = self.slots + 1;
        proof {
            assert(self.slots * self.data_type.spec_width() == (self.slots - 1)
                * self.data_type.spec_width() + self.data_type.spec_width()) by (nonlinear_arith);
        }
    }
}

impl FieldData {
    /// How one write (a present value `Some(b)`, or a null `None`) changes a
    /// field's state: one more slot, holding that value.
    pub open spec fn is_written_from(self, pre: FieldData, v: Option<Seq<u8>>) -> bool {
        &&& self.type_id == pre.type_id
        &&& self.data_type == pre.data_type
        &&& self.slots == pre.slots + 1
        &&& self.values_buffer.width == pre.values_buffer.width
        &&& match v {
            Some(b) => {
                &&& self.values_buffer.data@ == pre.values_buffer.data@ + b
                &&& self.null_buffer_builder.bits@ == pre.null_buffer_builder.bits@.push(true)
            },
            None => {
                &&& self.values_buffer.data@ == pre.values_buffer.data@ + zero_bytes(
                    pre.data_type.spec_width(),
                )
                &&& self.null_buffer_builder.bits@ == pre.null_buffer_builder.bits@.push(false)
            },
        }
    }
}

/// A write extends the buffers at the end, so every earlier slot keeps its
/// bytes and its validity.
pub proof fn lemma_write_preserves_slots(pre: FieldData, post: FieldData, v: Option<Seq<u8>>, s: int)
    requires
        pre.wf(),
        post.is_written_from(pre, v),
        0 <= s < pre.slots,
    ensures
        post.bytes_at(s) == pre.bytes_at(s),
        post.valid_at(s) == pre.valid_at(s),
{
    let w = pre.data_type.spec_width() as int;
    assert(0 <= s * w && s * w <= (s + 1) * w && (s + 1) * w <= pre.slots * w)
        by (nonlinear_arith)
        requires
            0 <= s < pre.slots,
            1 <= w,
    ;
    assert(pre.values_buffer.data@.len() == pre.slots * w);
    assert forall|i: int| s * w <= i < (s + 1) * w implies post.values_buffer.data@[i]
        == pre.values_buffer.data@[i] by {}
    assert(post.values_buffer.data@.subrange(s * w, (s + 1) * w) =~= pre.values_buffer.data@
        .subrange(s * w, (s + 1) * w));
}

/// The slot a write fills holds exactly the written value (or a null).
pub proof fn lemma_write_new_slot(pre: FieldData, post: FieldData, v: Option<Seq<u8>>)
    requires
        pre.wf(),
        post.is_written_from(pre, v),
        v matches Some(b) ==> b.len() == pre.data_type.spec_width(),
    ensures
        post.wf(),
        post.valid_at(pre.slots as int) == (v is Some),
        v matches Some(b) ==> post.bytes_at(pre.slots as int) == b,
{
    let w = pre.data_type.spec_width() as int;
    let s = pre.slots as int;
    assert(s * w + w == (s + 1) * w) by (nonlinear_arith);
    assert((s + 1) * w == (pre.slots + 1) * w) by (nonlinear_arith)
        requires
            s == pre.slots as int,
    ;
    match v {
        Some(b) => {
            assert(post.values_buffer.data@.subrange(s * w, (s + 1) * w) =~= b);
        },
        None => {
            assert(post.values_buffer.data@.len() == (pre.slots + 1) * w);
        },
    }
}

/// Builder for a union-typed column.
///
/// Rows are appended one at a time, each targeting a named field; fields are
/// declared lazily on first reference and keep their tag and bound type
/// forever after.  `build` consumes the builder and assembles the immutable
/// [`UnionArray`].
pub struct UnionBuilder {
    /// Number of logical rows appended so far.
    pub len: usize,
    /// The declared fields with their names, in first-reference order, so
    /// that a field's position equals its tag.
    pub fields: Vec<(String, FieldData)>,
    /// One tag per appended row.
    pub type_id_builder: Vec<i8>,
    /// One physical slot per appended row; `None` for the sparse layout.
    pub value_offset_builder: Option<Vec<i32>>,
}

impl UnionBuilder {
    pub open spec fn num_rows(self) -> int {
        self.len as int
    }

    pub open spec fn num_fields(self) -> int {
        self.fields@.len() as int
    }

    pub open spec fn is_dense(self) -> bool {
        self.value_offset_builder is Some
    }

    /// The name of the field with tag `k`.
    pub open spec fn name_at(self, k: int) -> Seq<char> {
        self.fields@[k].0@
    }

    /// The state of the field with tag `k`.
    pub open spec fn field_at(self, k: int) -> FieldData {
        self.fields@[k].1
    }

    /// The discriminant sequence: one tag per appended row.
    pub open spec fn discriminants(self) -> Seq<i8> {
        self.type_id_builder@
    }

    /// The offset sequence (dense layout only).
    pub open spec fn offsets(self) -> Seq<i32> {
        self.value_offset_builder->0@
    }

    /// Whether a field of that name has been declared.
    pub open spec fn has_field(self, name: Seq<char>) -> bool {
        exists|k: int| 0 <= k < self.num_fields() && self.name_at(k) == name
    }

    /// The tag of the field of that name (well defined whenever the names
    /// are distinct and the field exists).
    pub open spec fn field_index_of(self, name: Seq<char>) -> int {
        choose|k: int| 0 <= k < self.num_fields() && self.name_at(k) == name
    }

    pub open spec fn wf(self) -> bool {
        &&& self.type_id_builder@.len() == self.len
        &&& self.num_fields() <= 128
        &&& self.len <= i32::MAX
        &&& forall|k: int| 0 <= k < self.num_fields() ==> (#[trigger] self.field_at(k)).wf()
        &&& forall|k: int|
            0 <= k < self.num_fields() ==> (#[trigger] self.field_at(k)).type_id == k as i8
        &&& forall|k1: int, k2: int|
            0 <= k1 < k2 < self.num_fields() ==> self.name_at(k1) != self.name_at(k2)
        &&& forall|j: int|
            0 <= j < self.len ==> 0 <= #[trigger] self.discriminants()[j] < self.num_fields()
        &&& match self.value_offset_builder {
            Some(ob) => {
                &&& ob@.len() == self.len
                &&& forall|j: int|
                    0 <= j < self.len ==> (#[trigger] ob@[j]) as int == count_tag(
                        self.discriminants().take(j),
                        self.discriminants()[j],
                    )
                &&& forall|k: int|
                    0 <= k < self.num_fields() ==> (#[trigger] self.field_at(k)).slots
                        == count_tag(self.discriminants(), k as i8)
            },
            None => forall|k: int|
                0 <= k < self.num_fields() ==> (#[trigger] self.field_at(k)).slots == self.len,
        }
    }

    /// The physical slot within the targeted field that holds row `i`'s
    /// value; for the sparse layout this is `i` itself.
    pub open spec fn row_offset(self, i: int) -> int {
        match self.value_offset_builder {
            Some(ob) => ob@[i] as int,
            None => i,
        }
    }

    /// Whether row `i` holds a present value.
    pub open spec fn row_is_valid(self, i: int) -> bool {
        self.field_at(self.discriminants()[i] as int).valid_at(self.row_offset(i))
    }

    /// The native byte encoding of row `i`'s value.
    pub open spec fn row_bytes(self, i: int) -> Seq<u8> {
        self.field_at(self.discriminants()[i] as int).bytes_at(self.row_offset(i))
    }

    /// An empty builder: no fields, no rows.
    pub open spec fn is_empty_builder(self) -> bool {
        &&& self.len == 0
        &&& self.num_fields() == 0
        &&& self.discriminants() == Seq::<i8>::empty()
    }

    /// Creates a new builder for the dense layout.
    pub fn new_dense() -> (r: UnionBuilder)
        ensures
            r.wf(),
            r.is_empty_builder(),
            r.is_dense(),
    {
        Self::with_capacity_dense(1024)
    }

    /// Creates a new builder for the sparse layout.
    pub fn new_sparse() -> (r: UnionBuilder)
        ensures
            r.wf(),
            r.is_empty_builder(),
            !r.is_dense(),
    {
        Self::with_capacity_sparse(1024)
    }

    /// Creates a new dense-layout builder sized for about `capacity` rows.
    pub fn with_capacity_dense(capacity: usize) -> (r: UnionBuilder)
        ensures
            r.wf(),
            r.is_empty_builder(),
            r.is_dense(),
    {
        let r = UnionBuilder {
            len: 0,
            fields: Vec::new(),
            type_id_builder: Vec::with_capacity(capacity),
            value_offset_builder: Some(Vec::with_capacity(capacity)),
        };
        proof {
            assert(r.type_id_builder@ =~= Seq::<i8>::empty());
        }
        r
    }

    /// Creates a new sparse-layout builder sized for about `capacity` rows.
    pub fn with_capacity_sparse(capacity: usize) -> (r: UnionBuilder)
        ensures
            r.wf(),
            r.is_empty_builder(),
            !r.is_dense(),
    {
        let r = UnionBuilder {
            len: 0,
            fields: Vec::new(),
            type_id_builder: Vec::with_capacity(capacity),
            value_offset_builder: None,
        };
        proof {
            assert(r.type_id_builder@ =~= Seq::<i8>::empty());
        }
        r
    }

    /// The tag a row with this field name is (or would be) recorded under:
    /// the field's tag if the name is declared, else the next free tag.
    pub open spec fn append_target(self, name: Seq<char>) -> int {
        if self.has_field(name) {
            self.field_index_of(name)
        } else {
            self.num_fields()
        }
    }

    /// How one accepted append call, targeting field `name` with type `dt`
    /// and value `v` (`None`: a null), relates the new builder state to the
    /// old.
    pub open spec fn appended_from(
        self,
        pre: UnionBuilder,
        name: Seq<char>,
        dt: DataType,
        v: Option<Seq<u8>>,
    ) -> bool {
        let t = pre.append_target(name);
        &&& self.num_rows() == pre.num_rows() + 1
        &&& self.is_dense() == pre.is_dense()
        &&& self.num_fields() == if pre.has_field(name) {
            pre.num_fields()
        } else {
            pre.num_fields() + 1
        }
        &&& forall|k: int|
            0 <= k < pre.num_fields() ==> #[trigger] self.name_at(k) == pre.name_at(k)
        &&& forall|k: int|
            0 <= k < pre.num_fields() ==> (#[trigger] self.field_at(k)).data_type == pre.field_at(
                k,
            ).data_type && self.field_at(k).type_id == pre.field_at(k).type_id
        &&& !pre.has_field(name) ==> self.name_at(t) == name
        &&& self.field_at(t).data_type == dt
        &&& self.field_at(t).type_id == t as i8
        &&& forall|k: int|
            0 <= k < pre.num_fields() && k != t && self.is_dense() ==> #[trigger] self.field_at(k)
                == pre.field_at(k)
        &&& forall|k: int|
            0 <= k < pre.num_fields() && k != t && !self.is_dense()
                ==> (#[trigger] self.field_at(k)).is_written_from(
                pre.field_at(k),
                Option::<Seq<u8>>::None,
            )
        &&& pre.has_field(name) ==> self.field_at(t).is_written_from(pre.field_at(t), v)
        &&& self.discriminants() == pre.discriminants().push(t as i8)
        &&& self.is_dense() ==> self.offsets() == pre.offsets().push(
            count_tag(pre.discriminants(), t as i8) as i32,
        )
        &&& self.row_is_valid(pre.num_rows()) == (v is Some)
        &&& (v matches Some(b) ==> self.row_bytes(pre.num_rows()) == b)
        &&& forall|i: int|
            0 <= i < pre.num_rows() ==> #[trigger] self.row_offset(i) == pre.row_offset(i)
                && self.row_is_valid(i) == pre.row_is_valid(i) && self.row_bytes(i)
                == pre.row_bytes(i)
    }

    /// Looks a field name up; the returned index is the field's tag.
    fn find_field(&self, field_name: &str) -> (r: Option<usize>)
        requires
            self.wf(),
        ensures
            match r {
                Some(k) => 0 <= k < self.num_fields() && self.name_at(k as int) == field_name@,
                None => !self.has_field(field_name@),
            },
    {
        let key: String = field_name.to_owned();
        let n = self.fields.len();
        let mut k: usize = 0;
        while k < n
            invariant
                self.wf(),
                key@ == field_name@,
                n == self.num_fields(),
                k <= n,
                forall|m: int| 0 <= m < k ==> #[trigger] self.name_at(m) != field_name@,
            decreases n - k,
        {
            if self.fields[k].0 == key {
                return Some(k);
            }
            k = k + 1;
        }
        None
    }

    /// Appends one row targeting field `field_name` of type `data_type`,
    /// with a present value (its fixed-width byte encoding) or a null.
    ///
    /// The single recoverable failure is a type conflict: the name is
    /// already bound to another type.  A rejected call leaves the builder
    /// exactly as it was.
    pub fn append_option(
        &mut self,
        field_name: &str,
        data_type: DataType,
        v: Option<&[u8]>,
    ) -> (r: Result<(), UnionError>)
        requires
            old(self).wf(),
            old(self).num_rows() < i32::MAX,
            old(self).has_field(field_name@) || old(self).num_fields() < 128,
            v matches Some(b) ==> b@.len() == data_type.spec_width(),
        ensures
            final(self).wf(),
            r is Err <==> (old(self).has_field(field_name@) && old(self).field_at(
                old(self).append_target(field_name@),
            ).data_type != data_type),
            r is Err ==> *final(self) == *old(self),
            r matches Err(e) ==> (e matches UnionError::TypeConflict {
                field,
                existing,
                requested,
            } && field@ == field_name@ && existing == old(self).field_at(
                old(self).append_target(field_name@),
            ).data_type && requested == data_type),
            r is Ok ==> final(self).appended_from(
                *old(self),
                field_name@,
                data_type,
                opt_bytes_view(v),
            ),
    {
        let ghost pre = *old(self);
        let ghost vv = opt_bytes_view(v);
        let found = self.find_field(field_name);
        let idx: usize;
        match found {
            Some(k) => {
                proof {
                    assert(pre.has_field(field_name@));
                    let k0 = pre.field_index_of(field_name@);
                    assert(0 <= k0 < pre.num_fields() && pre.name_at(k0) == field_name@);
                    assert(k0 == k as int);
                }
                let existing = self.fields[k].1.data_type;
                if existing != data_type {
                    return Err(
                        UnionError::TypeConflict {
                            field: field_name.to_owned(),
                            existing,
                            requested: data_type,
                        },
                    );
                }
                idx = k;
            },
            None => {
                let tag = self.fields.len() as i8;
                let mut fd = FieldData::new(tag, data_type);
                if self.value_offset_builder.is_none() {
                    let n_rows = self.len;
                    let mut j: usize = 0;
                    while j < n_rows
                        invariant
                            n_rows < i32::MAX,
                            fd.wf(),
                            fd.type_id == tag,
                            fd.data_type == data_type,
                            fd.slots == j,
                            j <= n_rows,
                        decreases n_rows - j,
                    {
                        fd.append_null();
                        j = j + 1;
                    }
                }
                self.fields.push((field_name.to_owned(), fd));
                idx = self.fields.len() - 1;
            },
        }
        let ghost t: int = idx as int;
        let ghost fields0 = self.fields@;
        proof {
            assert(pre.append_target(field_name@) == t);
            assert forall|m: int|
                0 <= m < fields0.len() implies (#[trigger] fields0[m].1).wf() && (!pre.is_dense()
                    ==> fields0[m].1.slots == pre.len) by {
                if m < pre.num_fields() {
                    assert(fields0[m] == pre.fields@[m]);
                    assert(pre.field_at(m).wf());
                    if !pre.is_dense() {
                        assert(pre.field_at(m).slots == pre.len);
                    }
                }
            }
        }
        let tag_i8 = self.fields[idx].1.type_id;
        self.type_id_builder.push(tag_i8);
        let slots_now = self.fields[idx].1.slots;
        proof {
            assert(tag_i8 == t as i8);
            assert(tag_i8 as int == t);
            if pre.is_dense() {
                lemma_count_tag_nonneg(pre.discriminants(), tag_i8);
                if pre.has_field(field_name@) {
                    assert(slots_now as int == count_tag(pre.discriminants(), t as i8));
                } else {
                    assert forall|j: int|
                        0 <= j < pre.discriminants().len() implies pre.discriminants()[j]
                        != tag_i8 by {
                        assert(0 <= pre.discriminants()[j] < pre.num_fields());
                    }
                    lemma_count_tag_absent(pre.discriminants(), tag_i8);
                    assert(slots_now as int == count_tag(pre.discriminants(), t as i8));
                }
            }
        }
        match &mut self.value_offset_builder {
            Some(ob) => {
                ob.push(slots_now as i32);
            },
            None => {
                let n = self.fields.len();
                let mut k2: usize = 0;
                while k2 < n
                    invariant
                        n == self.fields@.len(),
                        n == fields0.len(),
                        idx < n,
                        t == idx as int,
                        k2 <= n,
                        pre.len < i32::MAX,
                        self.len == pre.len,
                        self.type_id_builder@ == pre.type_id_builder@.push(tag_i8),
                        self.value_offset_builder is None,
                        forall|m: int|
                            0 <= m < fields0.len() ==> (#[trigger] fields0[m].1).wf() && fields0[
                                m
                            ].1.slots == pre.len,
                        forall|m: int|
                            0 <= m < n && (m == t || k2 <= m) ==> self.fields@[m] == fields0[m],
                        forall|m: int|
                            0 <= m < k2 && m != t ==> (#[trigger] self.fields@[m]).0 == fields0[
                                m
                            ].0 && self.fields@[m].1.is_written_from(
                                fields0[m].1,
                                Option::<Seq<u8>>::None,
                            ),
                    decreases n - k2,
                {
                    if k2 != idx {
                        let ghost fb = self.fields@;
                        let mut pair = self.fields.remove(k2);
                        proof {
                            assert(fb[k2 as int] == fields0[k2 as int]);
                            assert(fields0[k2 as int].1.wf());
                            assert(fields0[k2 as int].1.slots == pre.len);
                        }
                        pair.1.append_null();
                        self.fields.insert(k2, pair);
                        proof {
                            assert(self.fields@ =~= fb.update(k2 as int, self.fields@[k2 as int]));
                        }
                    }
                    k2 = k2 + 1;
                }
            },
        }
        let ghost mid = *self;
        let ghost pre_field = self.fields@[t].1;
        let ghost fb2 = self.fields@;
        let mut pair = self.fields.remove(idx);
        match v {
            Some(bytes) => pair.1.append_value(bytes),
            None => pair.1.append_null(),
        }
        self.fields.insert(idx, pair);
        self.len = self.len + 1;
        proof {
            assert(self.fields@ =~= fb2.update(t, self.fields@[t]));
            assert(self.fields@[t].1.is_written_from(pre_field, vv));
            lemma_append_shape(pre, mid, *self, field_name@, data_type, vv, t);
        }
        Ok(())
    }

    /// Appends one row with a present value, given as its fixed-width byte
    /// encoding.
    pub fn append(&mut self, field_name: &str, data_type: DataType, v: &[u8]) -> (r: Result<
        (),
        UnionError,
    >)
        requires
            old(self).wf(),
            old(self).num_rows() < i32::MAX,
            old(self).has_field(field_name@) || old(self).num_fields() < 128,
            v@.len() == data_type.spec_width(),
        ensures
            final(self).wf(),
            r is Err <==> (old(self).has_field(field_name@) && old(self).field_at(
                old(self).append_target(field_name@),
            ).data_type != data_type),
            r is Err ==> *final(self) == *old(self),
            r matches Err(e) ==> (e matches UnionError::TypeConflict {
                field,
                existing,
                requested,
            } && field@ == field_name@ && existing == old(self).field_at(
                old(self).append_target(field_name@),
            ).data_type && requested == data_type),
            r is Ok ==> final(self).appended_from(*old(self), field_name@, data_type, Some(v@)),
    {
        self.append_option(field_name, data_type, Some(v))
    }

    /// Appends one row holding a null, encoded in the named field's child.
    ///
    /// A union array encodes nulls as entries of its children, so appending
    /// a null still names the field (and type) the placeholder goes to.
    pub fn append_null(&mut self, field_name: &str, data_type: DataType) -> (r: Result<
        (),
        UnionError,
    >)
        requires
            old(self).wf(),
            old(self).num_rows() < i32::MAX,
            old(self).has_field(field_name@) || old(self).num_fields() < 128,
        ensures
            final(self).wf(),
            r is Err <==> (old(self).has_field(field_name@) && old(self).field_at(
                old(self).append_target(field_name@),
            ).data_type != data_type),
            r is Err ==> *final(self) == *old(self),
            r matches Err(e) ==> (e matches UnionError::TypeConflict {
                field,
                existing,
                requested,
            } && field@ == field_name@ && existing == old(self).field_at(
                old(self).append_target(field_name@),
            ).data_type && requested == data_type),
            r is Ok ==> final(self).appended_from(
                *old(self),
                field_name@,
                data_type,
                Option::<Seq<u8>>::None,
            ),
    {
        self.append_option(field_name, data_type, None)
    }

    /// What the built array holds, in terms of the builder it came from:
    /// the same discriminants and offsets, and one child per field, in tag
    /// order, holding that field's values and validity.
    pub open spec fn builds_to(self, a: UnionArray) -> bool {
        &&& a.wf()
        &&& a.type_ids@ == self.discriminants()
        &&& a.is_dense() == self.is_dense()
        &&& self.is_dense() ==> a.value_offsets->0@ == self.offsets()
        &&& a.children@.len() == self.num_fields()
        &&& forall|k: int|
            0 <= k < self.num_fields() ==> child_corresponds(
                #[trigger] a.children@[k],
                self.name_at(k),
                self.field_at(k),
            )
        &&& forall|i: int|
            0 <= i < self.num_rows() ==> #[trigger] a.row_offset(i) == self.row_offset(i)
                && a.row_is_valid(i) == self.row_is_valid(i) && a.row_bytes(i) == self.row_bytes(
                i,
            )
    }

    /// Consumes the builder and assembles the immutable union array.
    ///
    /// The fields stand in first-reference order and every tag equals its
    /// field's position, so taking the children in storage order already
    /// yields tag order and no sort is needed.
    pub fn build(self) -> (r: Result<UnionArray, UnionError>)
        requires
            self.wf(),
        ensures
            r is Ok,
            r matches Ok(a) ==> self.builds_to(a),
    {
        let ghost pre = self;
        let UnionBuilder { len: _, mut fields, type_id_builder, value_offset_builder } = self;
        let n = fields.len();
        let mut children: Vec<ChildArray> = Vec::new();
        proof {
            assert(fields@ =~= pre.fields@.subrange(0, n as int));
        }
        while children.len() < n
            invariant
                pre.wf(),
                n == pre.num_fields(),
                children@.len() <= n,
                fields@ == pre.fields@.subrange(children@.len() as int, n as int),
                forall|m: int|
                    0 <= m < children@.len() ==> child_corresponds(
                        #[trigger] children@[m],
                        pre.name_at(m),
                        pre.field_at(m),
                    ),
            decreases n - children.len(),
        {
            let ghost m = children@.len() as int;
            proof {
                assert(fields@[0] == pre.fields@[m]);
                assert(pre.field_at(m).wf());
            }
            let pair = fields.remove(0);
            let fd = pair.1;
            let data_type = fd.data_type;
            let slots = fd.slots;
            let values = fd.values_buffer.finish();
            let nulls = fd.null_buffer_builder.finish();
            let child = ChildArray { name: pair.0, data_type, len: slots, values, nulls };
            proof {
                let fdm = pre.field_at(m);
                assert(child.values@ == fdm.values_buffer.data@);
                assert forall|s: int|
                    0 <= s < fdm.slots implies #[trigger] child.is_valid_at(s) == fdm.valid_at(
                        s,
                    ) by {
                    if child.nulls is None {
                        assert(fdm.null_buffer_builder.bits@[s]);
                    }
                }
                assert(child_corresponds(child, pre.name_at(m), pre.field_at(m)));
                assert(fields@ =~= pre.fields@.subrange(m + 1, n as int));
            }
            children.push(child);
        }
        proof {
            lemma_builder_parts_valid(pre, type_id_builder@, value_offset_builder, children@);
        }
        let ghost tids = type_id_builder@;
        let ghost vo = value_offset_builder;
        let ghost ch = children@;
        let r = UnionArray::try_new(type_id_builder, value_offset_builder, children);
        proof {
            assert(r is Ok);
            let a = r->Ok_0;
            assert(a.type_ids@ == tids && a.value_offsets == vo && a.children@ == ch);
            lemma_built_rows(pre, a);
        }
        r
    }
}

/// One finalized child holds exactly one field's name, type, values and
/// validity.
pub open spec fn child_corresponds(c: ChildArray, name: Seq<char>, fd: FieldData) -> bool {
    &&& c.wf()
    &&& c.name@ == name
    &&& c.data_type == fd.data_type
    &&& c.len == fd.slots
    &&& c.values@ == fd.values_buffer.data@
    &&& forall|s: int| 0 <= s < fd.slots ==> #[trigger] c.is_valid_at(s) == fd.valid_at(s)
}

/// A well-formed builder hands the array constructor parts it accepts:
/// every discriminant indexes a child and every slot reference is in
/// bounds.
pub proof fn lemma_builder_parts_valid(
    pre: UnionBuilder,
    tids: Seq<i8>,
    vo: Option<Vec<i32>>,
    ch: Seq<ChildArray>,
)
    requires
        pre.wf(),
        tids == pre.discriminants(),
        vo == pre.value_offset_builder,
        ch.len() == pre.num_fields(),
        forall|m: int|
            0 <= m < ch.len() ==> child_corresponds(
                #[trigger] ch[m],
                pre.name_at(m),
                pre.field_at(m),
            ),
    ensures
        forall|k: int| 0 <= k < ch.len() ==> (#[trigger] ch[k]).wf(),
        tids.len() <= i32::MAX,
        UnionArray::parts_valid(tids, vo, ch),
{
    assert forall|k: int| 0 <= k < ch.len() implies (#[trigger] ch[k]).wf() by {
        assert(child_corresponds(ch[k], pre.name_at(k), pre.field_at(k)));
    }
    match vo {
        Some(ob) => {
            assert forall|j: int|
                0 <= j < tids.len() implies 0 <= ob@[j] && (ob@[j] as int) < ch[
                    tids[j] as int
                ].len by {
                let f = tids[j] as int;
                lemma_count_tag_take_lt(tids, j);
                lemma_count_tag_nonneg(tids.take(j), tids[j]);
                assert(tids.take(tids.len() as int) =~= tids);
                assert(pre.field_at(f).slots == count_tag(tids, tids[j]));
                assert(child_corresponds(ch[f], pre.name_at(f), pre.field_at(f)));
            }
        },
        None => {
            assert forall|k: int| 0 <= k < ch.len() implies ch[k].len == tids.len() by {
                assert(child_corresponds(ch[k], pre.name_at(k), pre.field_at(k)));
                assert(pre.field_at(k).slots == pre.len);
            }
        },
    }
}

/// In every well-formed builder state, the discriminant sequence holds one
/// tag per appended row, and the offset sequence (dense layout) one offset
/// per row.
pub proof fn lemma_sequence_lengths(b: UnionBuilder)
    requires
        b.wf(),
    ensures
        b.discriminants().len() == b.num_rows(),
        b.is_dense() ==> b.offsets().len() == b.num_rows(),
{
}

/// Dense layout: each recorded offset equals the number of earlier rows
/// with the same discriminant, so the offsets of the rows that target one
/// field are exactly 0, 1, 2, ... in call order; in particular they grow
/// strictly between two such rows.
pub proof fn lemma_dense_offsets(b: UnionBuilder, j1: int, j2: int)
    requires
        b.wf(),
        b.is_dense(),
        0 <= j1 < j2 < b.num_rows(),
        b.discriminants()[j1] == b.discriminants()[j2],
    ensures
        b.offsets()[j1] as int == count_tag(b.discriminants().take(j1), b.discriminants()[j1]),
        (b.offsets()[j1] as int) < (b.offsets()[j2] as int),
{
    let d = b.discriminants();
    let t = d[j1];
    assert(d.take(j1 + 1).drop_last() =~= d.take(j1));
    assert(d.take(j1 + 1).last() == t);
    lemma_count_tag_prefix_le(d, t, j1 + 1, j2);
}

/// Sparse layout: after any number of appends, every declared field holds
/// exactly one physical slot per logical row.
pub proof fn lemma_sparse_slots(b: UnionBuilder)
    requires
        b.wf(),
        !b.is_dense(),
    ensures
        forall|k: int|
            0 <= k < b.num_fields() ==> (#[trigger] b.field_at(k)).slots == b.num_rows(),
{
}

/// Tag stability: every declared field's tag is its first-reference
/// position, and an accepted append keeps every declared field's tag, name
/// and bound type.  (A rejected append leaves the whole builder unchanged.)
pub proof fn lemma_tag_stability(
    pre: UnionBuilder,
    post: UnionBuilder,
    name: Seq<char>,
    dt: DataType,
    v: Option<Seq<u8>>,
    k: int,
)
    requires
        pre.wf(),
        0 <= k < pre.num_fields(),
        post.appended_from(pre, name, dt, v),
    ensures
        pre.field_at(k).type_id == k as i8,
        post.field_at(k).type_id == pre.field_at(k).type_id,
        post.name_at(k) == pre.name_at(k),
        post.field_at(k).data_type == pre.field_at(k).data_type,
{
}

/// Round trip: a row appended with value `v` (or a null, `None`) to a field
/// is recovered from the built array: its discriminant is the field's tag,
/// its validity matches, and its bytes are exactly `v`.
pub proof fn lemma_round_trip(
    pre: UnionBuilder,
    post: UnionBuilder,
    a: UnionArray,
    name: Seq<char>,
    dt: DataType,
    v: Option<Seq<u8>>,
)
    requires
        pre.wf(),
        post.appended_from(pre, name, dt, v),
        post.builds_to(a),
    ensures
        a.type_ids@[pre.num_rows()] == pre.append_target(name) as i8,
        a.row_is_valid(pre.num_rows()) == (v is Some),
        v matches Some(b) ==> a.row_bytes(pre.num_rows()) == b,
{
    let i = pre.num_rows();
    assert(post.discriminants()[i] == pre.append_target(name) as i8);
    assert(a.row_is_valid(i) == post.row_is_valid(i));
    assert(a.row_bytes(i) == post.row_bytes(i));
}

/// The array assembled from a well-formed builder reports, for each row,
/// the same offset, validity and bytes the builder recorded.
pub proof fn lemma_built_rows(pre: UnionBuilder, a: UnionArray)
    requires
        pre.wf(),
        a.wf(),
        a.type_ids@ == pre.discriminants(),
        a.value_offsets == pre.value_offset_builder,
        a.children@.len() == pre.num_fields(),
        forall|m: int|
            0 <= m < a.children@.len() ==> child_corresponds(
                #[trigger] a.children@[m],
                pre.name_at(m),
                pre.field_at(m),
            ),
    ensures
        pre.builds_to(a),
{
    let d = pre.discriminants();
    assert forall|i: int|
        0 <= i < pre.num_rows() implies #[trigger] a.row_offset(i) == pre.row_offset(i)
            && a.row_is_valid(i) == pre.row_is_valid(i) && a.row_bytes(i) == pre.row_bytes(i) by {
        let f = d[i] as int;
        let fd = pre.field_at(f);
        assert(child_corresponds(a.children@[f], pre.name_at(f), fd));
        let s = pre.row_offset(i);
        if pre.is_dense() {
            lemma_count_tag_take_lt(d, i);
            lemma_count_tag_nonneg(d.take(i), d[i]);
            assert(d.take(d.len() as int) =~= d);
            assert(0 <= s < fd.slots);
        } else {
            assert(s == i && fd.slots == pre.len);
        }
        assert(a.children@[f].is_valid_at(s) == fd.valid_at(s));
        assert(a.children@[f].bytes_at(s) == fd.bytes_at(s));
    }
}

/// The byte sequence carried by an optional value argument.
pub open spec fn opt_bytes_view(v: Option<&[u8]>) -> Option<Seq<u8>> {
    match v {
        Some(b) => Some(b@),
        None => None,
    }
}

/// The builder state in the middle of an accepted append call: the field is
/// resolved or created, the discriminant is recorded, and the offset is
/// recorded (dense) or the siblings are padded (sparse); only the write into
/// the target field is still to come.
pub open spec fn append_mid_state(
    mid: UnionBuilder,
    pre: UnionBuilder,
    name: Seq<char>,
    dt: DataType,
    t: int,
) -> bool {
    &&& t == pre.append_target(name)
    &&& mid.len == pre.len
    &&& mid.is_dense() == pre.is_dense()
    &&& mid.num_fields() == if pre.has_field(name) {
        pre.num_fields()
    } else {
        pre.num_fields() + 1
    }
    &&& 0 <= t < mid.num_fields()
    &&& mid.type_id_builder@ == pre.discriminants().push(t as i8)
    &&& pre.is_dense() ==> mid.value_offset_builder->0@ == pre.offsets().push(
        count_tag(pre.discriminants(), t as i8) as i32,
    )
    &&& forall|k: int| 0 <= k < pre.num_fields() ==> #[trigger] mid.name_at(k) == pre.name_at(k)
    &&& !pre.has_field(name) ==> mid.name_at(t) == name
    &&& forall|k: int|
        0 <= k < pre.num_fields() && k != t && pre.is_dense() ==> mid.fields@[k] == pre.fields@[k]
    &&& forall|k: int|
        0 <= k < pre.num_fields() && k != t && !pre.is_dense()
            ==> (#[trigger] mid.field_at(k)).is_written_from(
            pre.field_at(k),
            Option::<Seq<u8>>::None,
        )
    &&& pre.has_field(name) ==> mid.field_at(t) == pre.field_at(t)
    &&& !pre.has_field(name) ==> (mid.field_at(t).wf() && mid.field_at(t).type_id == t as i8
        && mid.field_at(t).data_type == dt && mid.field_at(t).slots == if pre.is_dense() {
        0int
    } else {
        pre.len as int
    } && mid.field_at(t).slots * dt.spec_width() == mid.field_at(t).values_buffer.data@.len())
    &&& mid.field_at(t).data_type == dt
}

/// An accepted append call preserves well-formedness and stands in the
/// `appended_from` relation to the state it started from.
pub proof fn lemma_append_shape(
    pre: UnionBuilder,
    mid: UnionBuilder,
    post: UnionBuilder,
    name: Seq<char>,
    dt: DataType,
    v: Option<Seq<u8>>,
    t: int,
)
    requires
        pre.wf(),
        pre.len < i32::MAX,
        pre.has_field(name) || pre.num_fields() < 128,
        v matches Some(b) ==> b.len() == dt.spec_width(),
        append_mid_state(mid, pre, name, dt, t),
        post.len == pre.len + 1,
        post.type_id_builder == mid.type_id_builder,
        post.value_offset_builder == mid.value_offset_builder,
        post.fields@ == mid.fields@.update(t, post.fields@[t]),
        post.fields@[t].0 == mid.fields@[t].0,
        post.field_at(t).is_written_from(mid.field_at(t), v),
    ensures
        post.wf(),
        post.appended_from(pre, name, dt, v),
{
    let dpre = pre.discriminants();
    let d2 = post.discriminants();
    let tb = t as i8;
    let nfp = pre.num_fields();
    let nf = post.num_fields();
    let mid_t = mid.field_at(t);
    let post_t = post.field_at(t);
    let s0 = mid_t.slots as int;

    assert(tb as int == t);
    assert(d2 == dpre.push(tb));
    assert(nf == mid.num_fields());
    assert(post.name_at(t) == mid.name_at(t));
    assert forall|k: int| 0 <= k < nf && k != t implies post.fields@[k] == mid.fields@[k] by {}
    lemma_count_tag_nonneg(dpre, tb);

    // the slot the new row goes to: the target's slot count before the write
    if pre.is_dense() {
        if !pre.has_field(name) {
            assert forall|j: int| 0 <= j < dpre.len() implies dpre[j] != tb by {
                assert(0 <= dpre[j] < nfp);
            }
            lemma_count_tag_absent(dpre, tb);
        }
        assert(s0 == count_tag(dpre, tb));
    } else {
        assert(s0 == pre.len as int);
    }
    lemma_write_new_slot(mid_t, post_t, v);

    // well-formedness of every field, and tag identity
    assert forall|k: int|
        0 <= k < nf implies (#[trigger] post.field_at(k)).wf() && post.field_at(k).type_id == k
            as i8 by {
        if k == t {
            assert(post.field_at(k) == post_t);
        } else {
            assert(k < nfp);
            if pre.is_dense() {
                assert(post.field_at(k) == pre.field_at(k));
            } else {
                lemma_write_new_slot(pre.field_at(k), mid.field_at(k), Option::<Seq<u8>>::None);
                assert(post.field_at(k) == mid.field_at(k));
            }
        }
    }

    // names: preserved, and distinct
    assert forall|k: int| 0 <= k < nfp implies #[trigger] post.name_at(k) == pre.name_at(k) by {
        if k == t {
            assert(post.fields@[t].0 == mid.fields@[t].0);
        } else {
            assert(post.fields@[k] == mid.fields@[k]);
        }
        assert(mid.name_at(k) == pre.name_at(k));
    }
    // is_dense agrees across the three states
    assert(post.is_dense() == pre.is_dense());
    // data types and tags of previously declared fields are preserved
    assert forall|k: int|
        0 <= k < nfp implies (#[trigger] post.field_at(k)).data_type == pre.field_at(
            k,
        ).data_type && post.field_at(k).type_id == pre.field_at(k).type_id by {
        if k == t {
            assert(mid_t == pre.field_at(t));
        } else {
            assert(post.field_at(k) == mid.field_at(k));
            if pre.is_dense() {
                assert(mid.fields@[k] == pre.fields@[k]);
            } else {
                assert(mid.field_at(k).is_written_from(pre.field_at(k), Option::<Seq<u8>>::None));
            }
        }
    }
    // fields other than the target: untouched (dense) or padded (sparse)
    assert forall|k: int|
        0 <= k < nfp && k != t && post.is_dense() implies #[trigger] post.field_at(k)
            == pre.field_at(k) by {
        assert(post.fields@[k] == mid.fields@[k]);
        assert(mid.fields@[k] == pre.fields@[k]);
    }
    assert forall|k: int|
        0 <= k < nfp && k != t && !post.is_dense() implies (#[trigger] post.field_at(
            k,
        )).is_written_from(pre.field_at(k), Option::<Seq<u8>>::None) by {
        assert(post.fields@[k] == mid.fields@[k]);
        assert(mid.field_at(k).is_written_from(pre.field_at(k), Option::<Seq<u8>>::None));
    }
    assert forall|k1: int, k2: int|
        0 <= k1 < k2 < nf implies post.name_at(k1) != post.name_at(k2) by {
        if k2 < nfp {
        } else {
            assert(k2 == t && !pre.has_field(name));
            assert(post.name_at(k2) == name);
            assert(post.name_at(k1) == pre.name_at(k1));
            if pre.name_at(k1) == name {
                assert(pre.has_field(name));
            }
        }
    }

    // discriminants stay in range
    assert forall|j: int| 0 <= j < post.len implies 0 <= #[trigger] d2[j] < nf by {
        if j < pre.len {
            assert(d2[j] == dpre[j]);
            assert(0 <= dpre[j] < nfp);
        } else {
            assert(d2[j] == tb);
        }
    }

    if pre.is_dense() {
        let ob2 = post.value_offset_builder->0@;
        assert(ob2 == pre.offsets().push(count_tag(dpre, tb) as i32));
        assert forall|j: int|
            0 <= j < post.len implies (#[trigger] ob2[j]) as int == count_tag(
                d2.take(j),
                d2[j],
            ) by {
            if j < pre.len {
                lemma_take_of_push(dpre, tb, j);
                assert(d2[j] == dpre[j]);
                assert(ob2[j] == pre.offsets()[j]);
            } else {
                lemma_take_of_push(dpre, tb, pre.len as int);
                assert(dpre.take(pre.len as int) =~= dpre);
                assert(d2.take(j) == dpre);
                assert(d2[j] == tb);
                assert(ob2[j] == count_tag(dpre, tb) as i32);
            }
        }
        assert forall|k: int|
            0 <= k < nf implies (#[trigger] post.field_at(k)).slots == count_tag(d2, k as i8) by {
            lemma_count_tag_push(dpre, tb, k as i8);
            if k == t {
                assert(post_t.slots == s0 + 1);
            } else {
                assert((k as i8) as int == k);
                assert(k as i8 != tb);
                assert(k < nfp);
                assert(post.field_at(k) == pre.field_at(k));
            }
        }
    } else {
        assert forall|k: int| 0 <= k < nf implies (#[trigger] post.field_at(k)).slots == post.len
            by {
            if k == t {
            } else {
                assert(k < nfp);
                assert(post.field_at(k) == mid.field_at(k));
                assert(mid.field_at(k).is_written_from(pre.field_at(k), Option::<Seq<u8>>::None));
                assert(pre.field_at(k).slots == pre.len);
            }
        }
    }
    assert(post.wf());

    // earlier rows keep their offset, validity and bytes
    assert forall|i: int|
        0 <= i < pre.num_rows() implies #[trigger] post.row_offset(i) == pre.row_offset(i)
            && post.row_is_valid(i) == pre.row_is_valid(i) && post.row_bytes(i) == pre.row_bytes(
            i,
        ) by {
        let f = dpre[i] as int;
        assert(d2[i] == dpre[i]);
        assert(0 <= f < nfp);
        if pre.is_dense() {
            let ob2 = post.value_offset_builder->0@;
            assert(ob2[i] == pre.offsets()[i]);
            let s = pre.offsets()[i] as int;
            lemma_count_tag_take_lt(dpre, i);
            lemma_count_tag_nonneg(dpre.take(i), dpre[i]);
            assert(dpre.take(dpre.len() as int) =~= dpre);
            assert(0 <= s < pre.field_at(f).slots);
            if f == t {
                assert(mid_t == pre.field_at(t));
                assert(s < mid_t.slots);
                lemma_write_preserves_slots(mid_t, post_t, v, s);
            } else {
                assert(post.field_at(f) == pre.field_at(f));
            }
        } else {
            assert(i < pre.field_at(f).slots);
            if f == t {
                assert(mid_t == pre.field_at(t));
                lemma_write_preserves_slots(mid_t, post_t, v, i);
            } else {
                assert(post.field_at(f) == mid.field_at(f));
                lemma_write_preserves_slots(
                    pre.field_at(f),
                    mid.field_at(f),
                    Option::<Seq<u8>>::None,
                    i,
                );
            }
        }
    }

    // the new row holds the appended value
    assert(post.row_offset(pre.num_rows()) == s0);
    assert(post.row_is_valid(pre.num_rows()) == (v is Some));
    assert(post.appended_from(pre, name, dt, v));
}

} // verus!

