//! The `ResourceHandle` message: a handle on a resource held by a device.
//!
//! The message has four string fields and one integer field.  A field that
//! holds the default value of its type (the empty string, zero) is absent from
//! the encoded message.

use vstd::prelude::*;
use vstd::std_specs::cmp::PartialEqSpecImpl;

verus! {

/// Field number of `device`.
pub const DEVICE_FIELD: u32 = 1;

/// Field number of `container`.
pub const CONTAINER_FIELD: u32 = 2;

/// Field number of `name`.
pub const NAME_FIELD: u32 = 3;

/// Field number of `hash_code`.
pub const HASH_CODE_FIELD: u32 = 4;

/// Field number of `maybe_type_name`.
pub const MAYBE_TYPE_NAME_FIELD: u32 = 5;

/// Largest field number that a tag can carry.
pub const FIELD_NUMBER_MAX: u32 = 0x1fff_ffff;

/// Handle on a stateful resource: where it lives, how it is named, and the
/// hash and name of its type.
#[derive(Debug)]
pub struct ResourceHandle {
    /// Unique name of the device that holds the resource.
    pub device: String,
    /// Container in which the resource is placed.
    pub container: String,
    /// Unique name of the resource.
    pub name: String,
    /// Hash code of the resource's type.
    pub hash_code: u64,
    /// Name of the resource's type, for debugging only.
    pub maybe_type_name: String,
}

/// The five fields of a handle as mathematical values.
pub struct ResourceHandleView {
    pub device: Seq<char>,
    pub container: Seq<char>,
    pub name: Seq<char>,
    pub hash_code: u64,
    pub maybe_type_name: Seq<char>,
}

impl View for ResourceHandle {
    type V = ResourceHandleView;

    open spec fn view(&self) -> ResourceHandleView {
        ResourceHandleView {
            device: self.device@,
            container: self.container@,
            name: self.name@,
            hash_code: self.hash_code,
            maybe_type_name: self.maybe_type_name@,
        }
    }
}

impl ResourceHandleView {
    /// The handle whose every field holds the default value of its type.
    pub open spec fn empty() -> ResourceHandleView {
        ResourceHandleView {
            device: Seq::empty(),
            container: Seq::empty(),
            name: Seq::empty(),
            hash_code: 0,
            maybe_type_name: Seq::empty(),
        }
    }
}

impl ResourceHandle {
    /// A handle whose every field holds the default value of its type.
    pub fn new() -> (r: ResourceHandle)
        ensures
            r@ == ResourceHandleView::empty(),
    {
        ResourceHandle {
            device: String::new(),
            container: String::new(),
            name: String::new(),
            hash_code: 0,
            maybe_type_name: String::new(),
        }
    }

    /// Resets `device` to the empty string.
    pub fn clear_device(&mut self)
        ensures
            final(self)@ == (ResourceHandleView { device: Seq::empty(), ..old(self)@ }),
    {
        self.device = String::new();
    }

    /// Replaces `device` by `v`.
    pub fn set_device(&mut self, v: String)
        ensures
            final(self)@ == (ResourceHandleView { device: v@, ..old(self)@ }),
    {
        self.device = v;
    }

    /// Borrows `device` for writing: what the caller leaves in the borrowed
    /// string is the field's new value, and no other field changes.
    pub fn mut_device(&mut self) -> (r: &mut String)
        ensures
            *r == old(self).device,
            final(self)@ == (ResourceHandleView { device: final(r)@, ..old(self)@ }),
    {
        &mut self.device
    }

    /// Moves `device` out of the handle and leaves the empty string in its place.
    pub fn take_device(&mut self) -> (r: String)
        ensures
            r@ == old(self).device@,
            final(self)@ == (ResourceHandleView { device: Seq::empty(), ..old(self)@ }),
    {
        let mut taken = String::new();
        core::mem::swap(&mut self.device, &mut taken);
        taken
    }

    /// The current value of `device`.
    pub fn get_device(&self) -> (r: &str)
        ensures
            r@ == self.device@,
    {
        self.device.as_str()
    }

    /// Resets `container` to the empty string.
    pub fn clear_container(&mut self)
        ensures
            final(self)@ == (ResourceHandleView { container: Seq::empty(), ..old(self)@ }),
    {
        self.container = String::new();
    }

    /// Replaces `container` by `v`.
    pub fn set_container(&mut self, v: String)
        ensures
            final(self)@ == (ResourceHandleView { container: v@, ..old(self)@ }),
    {
        self.container = v;
    }

    /// Borrows `container` for writing: what the caller leaves in the borrowed
    /// string is the field's new value, and no other field changes.
    pub fn mut_container(&mut self) -> (r: &mut String)
        ensures
            *r == old(self).container,
            final(self)@ == (ResourceHandleView { container: final(r)@, ..old(self)@ }),
    {
        &mut self.container
    }

    /// Moves `container` out of the handle and leaves the empty string in its place.
    pub fn take_container(&mut self) -> (r: String)
        ensures
            r@ == old(self).container@,
            final(self)@ == (ResourceHandleView { container: Seq::empty(), ..old(self)@ }),
    {
        let mut taken = String::new();
        core::mem::swap(&mut self.container, &mut taken);
        taken
    }

    /// The current value of `container`.
    pub fn get_container(&self) -> (r: &str)
        ensures
            r@ == self.container@,
    {
        self.container.as_str()
    }

    /// Resets `name` to the empty string.
    pub fn clear_name(&mut self)
        ensures
            final(self)@ == (ResourceHandleView { name: Seq::empty(), ..old(self)@ }),
    {
        self.name = String::new();
    }

    /// Replaces `name` by `v`.
    pub fn set_name(&mut self, v: String)
        ensures
            final(self)@ == (ResourceHandleView { name: v@, ..old(self)@ }),
    {
        self.name = v;
    }

    /// Borrows `name` for writing: what the caller leaves in the borrowed
    /// string is the field's new value, and no other field changes.
    pub fn mut_name(&mut self) -> (r: &mut String)
        ensures
            *r == old(self).name,
            final(self)@ == (ResourceHandleView { name: final(r)@, ..old(self)@ }),
    {
        &mut self.name
    }

    /// Moves `name` out of the handle and leaves the empty string in its place.
    pub fn take_name(&mut self) -> (r: String)
        ensures
            r@ == old(self).name@,
            final(self)@ == (ResourceHandleView { name: Seq::empty(), ..old(self)@ }),
    {
        let mut taken = String::new();
        core::mem::swap(&mut self.name, &mut taken);
        taken
    }

    /// The current value of `name`.
    pub fn get_name(&self) -> (r: &str)
        ensures
            r@ == self.name@,
    {
        self.name.as_str()
    }

    /// Resets `hash_code` to zero.
    pub fn clear_hash_code(&mut self)
        ensures
            final(self)@ == (ResourceHandleView { hash_code: 0, ..old(self)@ }),
    {
        self.hash_code = 0;
    }

    /// Replaces `hash_code` by `v`.
    pub fn set_hash_code(&mut self, v: u64)
        ensures
            final(self)@ == (ResourceHandleView { hash_code: v, ..old(self)@ }),
    {
        self.hash_code = v;
    }

    /// The current value of `hash_code`.
    pub fn get_hash_code(&self) -> (r: u64)
        ensures
            r == self.hash_code,
    {
        self.hash_code
    }

    /// Resets `maybe_type_name` to the empty string.
    pub fn clear_maybe_type_name(&mut self)
        ensures
            final(self)@ == (ResourceHandleView { maybe_type_name: Seq::empty(), ..old(self)@ }),
    {
        self.maybe_type_name = String::new();
    }

    /// Replaces `maybe_type_name` by `v`.
    pub fn set_maybe_type_name(&mut self, v: String)
        ensures
            final(self)@ == (ResourceHandleView { maybe_type_name: v@, ..old(self)@ }),
    {
        self.maybe_type_name = v;
    }

    /// Borrows `maybe_type_name` for writing: what the caller leaves in the borrowed
    /// string is the field's new value, and no other field changes.
    pub fn mut_maybe_type_name(&mut self) -> (r: &mut String)
        ensures
            *r == old(self).maybe_type_name,
            final(self)@ == (ResourceHandleView { maybe_type_name: final(r)@, ..old(self)@ }),
    {
        &mut self.maybe_type_name
    }

    /// Moves `maybe_type_name` out of the handle and leaves the empty string in its place.
    pub fn take_maybe_type_name(&mut self) -> (r: String)
        ensures
            r@ == old(self).maybe_type_name@,
            final(self)@ == (ResourceHandleView { maybe_type_name: Seq::empty(), ..old(self)@ }),
    {
        let mut taken = String::new();
        core::mem::swap(&mut self.maybe_type_name, &mut taken);
        taken
    }

    /// The current value of `maybe_type_name`.
    pub fn get_maybe_type_name(&self) -> (r: &str)
        ensures
            r@ == self.maybe_type_name@,
    {
        self.maybe_type_name.as_str()
    }

    /// Resets every field to the default value of its type.
    pub fn clear(&mut self)
        ensures
            final(self)@ == ResourceHandleView::empty(),
    {
        self.clear_device();
        self.clear_container();
        self.clear_name();
        self.clear_hash_code();
        self.clear_maybe_type_name();
    }
}

/// Number of bytes in the base-128 encoding of `v`: one byte for each group
/// of seven bits up to the highest bit set, and one byte for zero.
pub open spec fn varint_size(v: u64) -> nat
    decreases v,
{
    if v < 128 {
        1
    } else {
        1 + varint_size(v / 128)
    }
}

/// Number of bytes of the tag that precedes a field: the field number,
/// shifted left by three bits to make room for the wire type, as a varint.
pub open spec fn tag_size(field_number: u32) -> nat {
    varint_size((field_number as u64 * 8 + 1) as u64)
}

/// Encoded size of a string field: its tag, the length of its UTF-8 bytes as
/// a varint, and the bytes.
pub open spec fn string_field_size(field_number: u32, s: Seq<char>) -> nat {
    let bytes = vstd::utf8::encode_utf8(s).len();
    tag_size(field_number) + varint_size(bytes as u64) + bytes
}

/// Encoded size of an unsigned integer field: its tag and the value as a
/// varint.
pub open spec fn uint64_field_size(field_number: u32, v: u64) -> nat {
    tag_size(field_number) + varint_size(v)
}

impl ResourceHandleView {
    /// Number of bytes of the encoded message.  Fields that hold the default
    /// value of their type take no room.
    pub open spec fn encoded_size(self) -> nat {
        (if self.device.len() == 0 {
            0
        } else {
            string_field_size(DEVICE_FIELD, self.device)
        }) + (if self.container.len() == 0 {
            0
        } else {
            string_field_size(CONTAINER_FIELD, self.container)
        }) + (if self.name.len() == 0 {
            0
        } else {
            string_field_size(NAME_FIELD, self.name)
        }) + (if self.hash_code == 0 {
            0
        } else {
            uint64_field_size(HASH_CODE_FIELD, self.hash_code)
        }) + (if self.maybe_type_name.len() == 0 {
            0
        } else {
            string_field_size(MAYBE_TYPE_NAME_FIELD, self.maybe_type_name)
        })
    }
}

/// Calls `protobuf::rt::string_size`, which adds up the size of the tag for
/// `field_number`, the size of the varint that holds the number of UTF-8
/// bytes of `s`, and that number.  The contract claims this sum; the caller
/// keeps the field number in the range of tags and the sum within `u32`,
/// outside of which the outside function panics or wraps.
#[verifier::external_body]
fn string_size(field_number: u32, s: &str) -> (r: u32)
    requires
        1 <= field_number <= FIELD_NUMBER_MAX,
        string_field_size(field_number, s@) <= u32::MAX,
    ensures
        r == string_field_size(field_number, s@),
{
    protobuf::rt::string_size(field_number, s)
}

/// Calls `protobuf::rt::value_size` for a `u64` with the varint wire type,
/// which adds the size of the tag for `field_number` to the size of `v` as a
/// varint.  The contract claims this sum.
#[verifier::external_body]
fn uint64_size(field_number: u32, v: u64) -> (r: u32)
    requires
        1 <= field_number <= FIELD_NUMBER_MAX,
    ensures
        r == uint64_field_size(field_number, v),
{
    protobuf::rt::value_size(field_number, v, protobuf::wire_format::WireType::WireTypeVarint)
}

/// A varint takes at most ten bytes.
pub proof fn lemma_varint_size_bounds(v: u64)
    ensures
        1 <= varint_size(v) <= 10,
{
    reveal_with_fuel(varint_size, 11);
}

/// How a field travels on the wire.
#[derive(Debug, Clone, Copy, PartialEq, Eq, Structural)]
pub enum WireType {
    Varint,
    Fixed64,
    LengthDelimited,
    StartGroup,
    EndGroup,
    Fixed32,
}

/// What a reader of an encoded handle does with the field that follows a tag.
#[derive(Debug, Clone, Copy, PartialEq, Eq, Structural)]
pub enum FieldRead {
    /// Read a length-delimited string and merge it into the field of that number.
    Text,
    /// Read a varint and merge it into `hash_code`.
    Number,
    /// The message has no field of that number: keep or skip the value.
    Unknown,
}

/// A value that a writer of an encoded handle puts after a tag.
#[derive(Debug)]
pub enum FieldValue {
    Text(String),
    Number(u64),
}

/// A field of an encoded handle: its number and its value.
#[derive(Debug)]
pub struct Field {
    pub number: u32,
    pub value: FieldValue,
}

/// The value of a field as mathematical data.
pub enum FieldValueView {
    Text(Seq<char>),
    Number(u64),
}

impl View for Field {
    type V = (u32, FieldValueView);

    open spec fn view(&self) -> (u32, FieldValueView) {
        (
            self.number,
            match self.value {
                FieldValue::Text(s) => FieldValueView::Text(s@),
                FieldValue::Number(n) => FieldValueView::Number(n),
            },
        )
    }
}

/// Whether `number` is the number of one of the four string fields.
pub open spec fn is_text_field(number: u32) -> bool {
    number == DEVICE_FIELD || number == CONTAINER_FIELD || number == NAME_FIELD || number
        == MAYBE_TYPE_NAME_FIELD
}

/// What is to be read after the tag `(number, wire_type)`, or nothing where
/// a field of the message comes with a wire type that is not its own.
pub open spec fn field_read_spec(number: u32, wire_type: WireType) -> Option<FieldRead> {
    if is_text_field(number) {
        if wire_type == WireType::LengthDelimited {
            Some(FieldRead::Text)
        } else {
            None
        }
    } else if number == HASH_CODE_FIELD {
        if wire_type == WireType::Varint {
            Some(FieldRead::Number)
        } else {
            None
        }
    } else {
        Some(FieldRead::Unknown)
    }
}

impl ResourceHandleView {
    /// The handle after a string read for field `number` has been merged in.
    pub open spec fn with_text(self, number: u32, v: Seq<char>) -> ResourceHandleView {
        if number == DEVICE_FIELD {
            ResourceHandleView { device: v, ..self }
        } else if number == CONTAINER_FIELD {
            ResourceHandleView { container: v, ..self }
        } else if number == NAME_FIELD {
            ResourceHandleView { name: v, ..self }
        } else if number == MAYBE_TYPE_NAME_FIELD {
            ResourceHandleView { maybe_type_name: v, ..self }
        } else {
            self
        }
    }

    /// The fields that an encoder writes, in the order of their numbers:
    /// those that do not hold the default value of their type.
    pub open spec fn written_fields(self) -> Seq<(u32, FieldValueView)> {
        (if self.device.len() == 0 {
            seq![]
        } else {
            seq![(DEVICE_FIELD, FieldValueView::Text(self.device))]
        }) + (if self.container.len() == 0 {
            seq![]
        } else {
            seq![(CONTAINER_FIELD, FieldValueView::Text(self.container))]
        }) + (if self.name.len() == 0 {
            seq![]
        } else {
            seq![(NAME_FIELD, FieldValueView::Text(self.name))]
        }) + (if self.hash_code == 0 {
            seq![]
        } else {
            seq![(HASH_CODE_FIELD, FieldValueView::Number(self.hash_code))]
        }) + (if self.maybe_type_name.len() == 0 {
            seq![]
        } else {
            seq![(MAYBE_TYPE_NAME_FIELD, FieldValueView::Text(self.maybe_type_name))]
        })
    }
}

impl ResourceHandle {
    /// A handle needs no field to be set.
    pub fn is_initialized(&self) -> (r: bool)
        ensures
            r,
    {
        true
    }

    /// Decides what a decoder reads after a tag: a string for the four string
    /// fields, a varint for `hash_code`, both only with their own wire type,
    /// and an unknown value for every other field number.  The error is the
    /// wire type that was not expected.
    pub fn field_read(number: u32, wire_type: WireType) -> (r: Result<FieldRead, WireType>)
        ensures
            match field_read_spec(number, wire_type) {
                Some(read) => r == Ok::<FieldRead, WireType>(read),
                None => r == Err::<FieldRead, WireType>(wire_type),
            },
    {
        if number == DEVICE_FIELD || number == CONTAINER_FIELD || number == NAME_FIELD || number
            == MAYBE_TYPE_NAME_FIELD {
            match wire_type {
                WireType::LengthDelimited => Ok(FieldRead::Text),
                _ => Err(wire_type),
            }
        } else if number == HASH_CODE_FIELD {
            match wire_type {
                WireType::Varint => Ok(FieldRead::Number),
                _ => Err(wire_type),
            }
        } else {
            Ok(FieldRead::Unknown)
        }
    }

    /// Merges a string that was read for field `number`: it replaces the
    /// field's value.  A number that names no string field changes nothing.
    pub fn merge_text(&mut self, number: u32, v: String)
        ensures
            final(self)@ == old(self)@.with_text(number, v@),
    {
        if number == DEVICE_FIELD {
            self.device = v;
        } else if number == CONTAINER_FIELD {
            self.container = v;
        } else if number == NAME_FIELD {
            self.name = v;
        } else if number == MAYBE_TYPE_NAME_FIELD {
            self.maybe_type_name = v;
        }
    }

    /// Merges a varint that was read for `hash_code`.
    pub fn merge_number(&mut self, v: u64)
        ensures
            final(self)@ == (ResourceHandleView { hash_code: v, ..old(self)@ }),
    {
        self.hash_code = v;
    }

    /// The number of bytes that the encoded message takes.
    pub fn compute_size(&self) -> (r: u32)
        requires
            self@.encoded_size() <= u32::MAX,
        ensures
            r == self@.encoded_size(),
    {
        let mut my_size: u32 = 0;
        if !self.device.as_str().is_empty() {
            my_size += string_size(DEVICE_FIELD, self.device.as_str());
        }
        if !self.container.as_str().is_empty() {
            my_size += string_size(CONTAINER_FIELD, self.container.as_str());
        }
        if !self.name.as_str().is_empty() {
            my_size += string_size(NAME_FIELD, self.name.as_str());
        }
        if self.hash_code != 0 {
            my_size += uint64_size(HASH_CODE_FIELD, self.hash_code);
        }
        if !self.maybe_type_name.as_str().is_empty() {
            my_size += string_size(MAYBE_TYPE_NAME_FIELD, self.maybe_type_name.as_str());
        }
        my_size
    }

    /// The fields that an encoder writes for this handle, in the order in
    /// which it writes them.
    pub fn written_fields(&self) -> (r: Vec<Field>)
        ensures
            r@.map_values(|f: Field| f@) == self@.written_fields(),
    {
        let mut fields: Vec<Field> = Vec::new();
        if !self.device.as_str().is_empty() {
            fields.push(Field { number: DEVICE_FIELD, value: FieldValue::Text(self.device.clone()) });
        }
        if !self.container.as_str().is_empty() {
            fields.push(
                Field { number: CONTAINER_FIELD, value: FieldValue::Text(self.container.clone()) },
            );
        }
        if !self.name.as_str().is_empty() {
            fields.push(Field { number: NAME_FIELD, value: FieldValue::Text(self.name.clone()) });
        }
        if self.hash_code != 0 {
            fields.push(Field { number: HASH_CODE_FIELD, value: FieldValue::Number(self.hash_code) });
        }
        if !self.maybe_type_name.as_str().is_empty() {
            fields.push(
                Field {
                    number: MAYBE_TYPE_NAME_FIELD,
                    value: FieldValue::Text(self.maybe_type_name.clone()),
                },
            );
        }
        assert(fields@.map_values(|f: Field| f@) =~= self@.written_fields());
        fields
    }
}

impl Default for ResourceHandle {
    fn default() -> (r: ResourceHandle)
        ensures
            r@ == ResourceHandleView::empty(),
    {
        ResourceHandle::new()
    }
}

impl Clone for ResourceHandle {
    fn clone(&self) -> (r: ResourceHandle)
        ensures
            r@ == self@,
    {
        ResourceHandle {
            device: self.device.clone(),
            container: self.container.clone(),
            name: self.name.clone(),
            hash_code: self.hash_code,
            maybe_type_name: self.maybe_type_name.clone(),
        }
    }
}

impl PartialEq for ResourceHandle {
    fn eq(&self, other: &ResourceHandle) -> (r: bool) {
        self.device == other.device && self.container == other.container && self.name
            == other.name && self.hash_code == other.hash_code && self.maybe_type_name
            == other.maybe_type_name
    }
}

impl PartialEqSpecImpl for ResourceHandle {
    open spec fn obeys_eq_spec() -> bool {
        true
    }

    open spec fn eq_spec(&self, other: &ResourceHandle) -> bool {
        self.device@ == other.device@ && self.container@ == other.container@ && self.name@
            == other.name@ && self.hash_code == other.hash_code && self.maybe_type_name@
            == other.maybe_type_name@
    }
}

} // verus!
