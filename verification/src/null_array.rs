//! Arrays of the null physical type.
//!
//! A null array carries no buffers at all: it is a declared logical type
//! plus a length. It lives beside the lookup index's catalog as the
//! degenerate columnar array shape, and converts to and from the
//! interchange form of the `arrow-data` crate.

use vstd::prelude::*;

verus! {

/// The logical type an array declares.
#[derive(Clone, Copy, Debug, PartialEq, Eq, Structural)]
pub enum DataType {
    Null,
    Boolean,
    Int64,
    Utf8,
}

/// The in-memory physical layout behind a logical type.
#[derive(Clone, Copy, Debug, PartialEq, Eq, Structural)]
pub enum PhysicalType {
    Null,
    Boolean,
    Primitive,
    Utf8,
}

/// The physical layout of each logical type.
pub open spec fn spec_physical_type(dt: DataType) -> PhysicalType {
    match dt {
        DataType::Null => PhysicalType::Null,
        DataType::Boolean => PhysicalType::Boolean,
        DataType::Int64 => PhysicalType::Primitive,
        DataType::Utf8 => PhysicalType::Utf8,
    }
}

impl DataType {
    /// The physical layout behind this logical type.
    pub fn to_physical_type(&self) -> (r: PhysicalType)
        ensures
            r == spec_physical_type(*self),
    {
        match self {
            DataType::Null => PhysicalType::Null,
            DataType::Boolean => PhysicalType::Boolean,
            DataType::Int64 => PhysicalType::Primitive,
            DataType::Utf8 => PhysicalType::Utf8,
        }
    }
}

/// Failure to build an array from an out-of-spec combination of arguments.
#[derive(Clone, Copy, Debug, PartialEq, Eq, Structural)]
pub enum ArrayError {
    OutOfSpec,
}

/// The concrete array of the null physical type: a logical type and a
/// length, no buffers.
#[derive(Clone, Copy, Debug, PartialEq, Eq, Structural)]
pub struct NullArray {
    pub data_type: DataType,
    pub length: usize,
}

impl NullArray {
    /// Builds a null array; errors exactly when the declared type's
    /// physical type is not null.
    pub fn try_new(data_type: DataType, length: usize) -> (r: Result<Self, ArrayError>)
        ensures
            match r {
                Ok(a) => {
                    &&& spec_physical_type(data_type) == PhysicalType::Null
                    &&& a.data_type == data_type
                    &&& a.length == length
                },
                Err(e) => {
                    &&& spec_physical_type(data_type) != PhysicalType::Null
                    &&& e == ArrayError::OutOfSpec
                },
            },
    {
        match data_type.to_physical_type() {
            PhysicalType::Null => Ok(NullArray { data_type, length }),
            _ => Err(ArrayError::OutOfSpec),
        }
    }

    /// Builds a null array from a type whose physical type is null.
    pub fn new(data_type: DataType, length: usize) -> (r: Self)
        requires
            spec_physical_type(data_type) == PhysicalType::Null,
        ensures
            r.data_type == data_type,
            r.length == length,
    {
        match Self::try_new(data_type, length) {
            Ok(a) => a,
            Err(_) => vstd::pervasive::unreached(),
        }
    }

    /// A new empty null array.
    pub fn new_empty(data_type: DataType) -> (r: Self)
        requires
            spec_physical_type(data_type) == PhysicalType::Null,
        ensures
            r.data_type == data_type,
            r.length == 0,
    {
        Self::new(data_type, 0)
    }

    /// A new null array whose slots are all null, which is every slot.
    pub fn new_null(data_type: DataType, length: usize) -> (r: Self)
        requires
            spec_physical_type(data_type) == PhysicalType::Null,
        ensures
            r.data_type == data_type,
            r.length == length,
    {
        Self::new(data_type, length)
    }

    /// The number of slots.
    pub fn len(&self) -> (r: usize)
        ensures
            r == self.length,
    {
        self.length
    }

    /// Restricts this array to a slice of itself; the slice must lie
    /// within the array.
    pub fn slice(&mut self, offset: usize, length: usize)
        requires
            offset + length <= old(self).length,
        ensures
            final(self).data_type == old(self).data_type,
            final(self).length == length,
    {
        self.length = length;
    }
}

/// A growable null array, distinct from [`NullArray`] to keep the mutable
/// and frozen method sets apart.
#[derive(Clone, Copy, Debug, PartialEq, Eq, Structural)]
pub struct MutableNullArray {
    pub inner: NullArray,
}

impl MutableNullArray {
    /// Builds a mutable null array from a type whose physical type is
    /// null.
    pub fn new(data_type: DataType, length: usize) -> (r: Self)
        requires
            spec_physical_type(data_type) == PhysicalType::Null,
        ensures
            r.inner.data_type == data_type,
            r.inner.length == length,
    {
        let inner = NullArray::new(data_type, length);
        MutableNullArray { inner }
    }

    /// The declared logical type, always null.
    pub fn data_type(&self) -> (r: DataType)
        ensures
            r == DataType::Null,
    {
        DataType::Null
    }

    /// The number of slots.
    pub fn len(&self) -> (r: usize)
        ensures
            r == self.inner.length,
    {
        self.inner.length
    }

    /// Appends one null slot.
    pub fn push_null(&mut self)
        requires
            old(self).inner.length < usize::MAX,
        ensures
            final(self).inner.length == old(self).inner.length + 1,
            final(self).inner.data_type == old(self).inner.data_type,
    {
        self.inner.length = self.inner.length + 1;
    }

    /// Capacity hint; a null array allocates nothing, so this does
    /// nothing.
    pub fn reserve(&mut self, additional: usize)
        ensures
            *final(self) == *old(self),
    {
        let _ = additional;
    }

    /// Shrink hint; a null array allocates nothing, so this does nothing.
    pub fn shrink_to_fit(&mut self)
        ensures
            *final(self) == *old(self),
    {
    }
}

impl From<MutableNullArray> for NullArray {
    /// Freezes a mutable null array into its immutable form.
    fn from(value: MutableNullArray) -> (r: NullArray) {
        value.inner
    }
}

impl vstd::std_specs::convert::FromSpecImpl<MutableNullArray> for NullArray {
    open spec fn obeys_from_spec() -> bool {
        true
    }

    open spec fn from_spec(value: MutableNullArray) -> NullArray {
        value.inner
    }
}

/// The interchange form of an array, from the `arrow-data` crate. The
/// value is opaque here: only its length is read, through the declaration
/// below.
#[verifier::external_type_specification]
#[verifier::external_body]
pub struct ExArrayData(arrow_data::ArrayData);

/// Relies on arrow_data::ArrayData::len: the number of slots the array
/// data holds. Nothing further is assumed of it.
pub assume_specification[ arrow_data::ArrayData::len ](d: &arrow_data::ArrayData) -> usize;

impl NullArray {
    /// Reads interchange array data back as a null array of the same
    /// length, whatever length that is.
    pub fn from_data(data: &arrow_data::ArrayData) -> (r: Self)
        ensures
            r.data_type == DataType::Null,
    {
        Self::new(DataType::Null, data.len())
    }
}

} // verus!
