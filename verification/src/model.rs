//! The object model of a class file: the root aggregate, the symbol table
//! (constant pool) with its tagged entry variants, field and method records,
//! and the recursive attribute variants.
//!
//! Symbol-table references are held normalized: a non-nullable reference is
//! the 0-based slot index (one less than its 1-based wire value); a nullable
//! reference keeps 0 as the "absent" sentinel and is otherwise 0-based too.
//! Interface references and the `SourceFile` payload are kept exactly as
//! they appear on the wire. The well-formedness predicates say when a model
//! value can be written back out: every stored count matches its sequence,
//! and every normalized reference leaves room for the `+1` readjustment.

use vstd::prelude::*;

verus! {

pub const CONSTANT_UTF8: u8 = 1;

pub const CONSTANT_INTEGER: u8 = 3;

pub const CONSTANT_FLOAT: u8 = 4;

pub const CONSTANT_LONG: u8 = 5;

pub const CONSTANT_DOUBLE: u8 = 6;

pub const CONSTANT_CLASS: u8 = 7;

pub const CONSTANT_STRING: u8 = 8;

pub const CONSTANT_FIELDREF: u8 = 9;

pub const CONSTANT_METHODREF: u8 = 10;

pub const CONSTANT_INTERFACEMETHODREF: u8 = 11;

pub const CONSTANT_NAMEANDTYPE: u8 = 12;

pub const CONSTANT_METHODHANDLE: u8 = 15;

pub const CONSTANT_METHODTYPE: u8 = 16;

pub const CONSTANT_DYNAMIC: u8 = 17;

pub const CONSTANT_INVOKEDYNAMIC: u8 = 18;

pub const CONSTANT_MODULE: u8 = 19;

pub const CONSTANT_PACKAGE: u8 = 20;

/// The largest 0-based index a normalized reference may hold: one less than
/// the largest 16-bit wire value, so that re-adding 1 stays in 16 bits.
pub const MAX_NORMALIZED_REF: u16 = 0xFFFE;

/// One entry of the symbol table, discriminated on the wire by its leading
/// tag byte. The stored `tag` is written back verbatim; a well-formed entry
/// carries the tag that matches its variant.
#[derive(Debug, PartialEq, Eq)]
#[allow(inconsistent_fields)]
pub enum CpInfo {
    ConstantClassInfo { tag: u8, name_index: u16 },
    ConstantFieldrefInfo { tag: u8, class_index: u16, name_and_type_index: u16 },
    ConstantMethodrefInfo { tag: u8, class_index: u16, name_and_type_index: u16 },
    ConstantInterfaceMethodrefInfo { tag: u8, class_index: u16, name_and_type_index: u16 },
    ConstantStringInfo { tag: u8, string_index: u16 },
    ConstantIntegerInfo { tag: u8, bytes: u32 },
    ConstantFloatInfo { tag: u8, bytes: u32 },
    ConstantLongInfo { tag: u8, high_bytes: u32, low_bytes: u32 },
    ConstantDoubleInfo { tag: u8, high_bytes: u32, low_bytes: u32 },
    ConstantNameAndTypeInfo { tag: u8, name_index: u16, descriptor_index: u16 },
    ConstantUtf8Info { tag: u8, length: u16, bytes: Vec<u8> },
    ConstantMethodHandleInfo { tag: u8, reference_kind: u8, reference_index: u16 },
    ConstantMethodTypeInfo { tag: u8, descriptor_index: u16 },
    ConstantDynamicInfo { tag: u8, bootstrap_method_attr_index: u16, name_and_type_index: u16 },
    ConstantInvokeDynamicInfo {
        tag: u8,
        bootstrap_method_attr_index: u16,
        name_and_type_index: u16,
    },
    ConstantModuleInfo { tag: u8, name_index: u16 },
    ConstantPackageInfo { tag: u8, name_index: u16 },
}

impl CpInfo {
    /// Whether the entry occupies two slots: its own and a reserved empty
    /// successor.
    pub open spec fn is_double_width(&self) -> bool {
        self is ConstantLongInfo || self is ConstantDoubleInfo
    }

    /// Every stored reference leaves room for the wire readjustment, the
    /// stored tag matches the variant, and a UTF-8 entry's stored length
    /// matches its byte string.
    pub open spec fn well_formed(&self) -> bool {
        match *self {
            CpInfo::ConstantClassInfo { tag, name_index } => tag == CONSTANT_CLASS && name_index
                <= MAX_NORMALIZED_REF,
            CpInfo::ConstantFieldrefInfo { tag, class_index, name_and_type_index } => tag
                == CONSTANT_FIELDREF && class_index <= MAX_NORMALIZED_REF && name_and_type_index
                <= MAX_NORMALIZED_REF,
            CpInfo::ConstantMethodrefInfo { tag, class_index, name_and_type_index } => tag
                == CONSTANT_METHODREF && class_index <= MAX_NORMALIZED_REF && name_and_type_index
                <= MAX_NORMALIZED_REF,
            CpInfo::ConstantInterfaceMethodrefInfo { tag, class_index, name_and_type_index } => tag
                == CONSTANT_INTERFACEMETHODREF && class_index <= MAX_NORMALIZED_REF
                && name_and_type_index <= MAX_NORMALIZED_REF,
            CpInfo::ConstantStringInfo { tag, string_index } => tag == CONSTANT_STRING
                && string_index <= MAX_NORMALIZED_REF,
            CpInfo::ConstantIntegerInfo { tag, .. } => tag == CONSTANT_INTEGER,
            CpInfo::ConstantFloatInfo { tag, .. } => tag == CONSTANT_FLOAT,
            CpInfo::ConstantLongInfo { tag, .. } => tag == CONSTANT_LONG,
            CpInfo::ConstantDoubleInfo { tag, .. } => tag == CONSTANT_DOUBLE,
            CpInfo::ConstantNameAndTypeInfo { tag, name_index, descriptor_index } => tag
                == CONSTANT_NAMEANDTYPE && name_index <= MAX_NORMALIZED_REF && descriptor_index
                <= MAX_NORMALIZED_REF,
            CpInfo::ConstantUtf8Info { tag, length, ref bytes } => tag == CONSTANT_UTF8
                && length as int == bytes@.len(),
            CpInfo::ConstantMethodHandleInfo { tag, reference_index, .. } => tag
                == CONSTANT_METHODHANDLE && reference_index <= MAX_NORMALIZED_REF,
            CpInfo::ConstantMethodTypeInfo { tag, descriptor_index } => tag == CONSTANT_METHODTYPE
                && descriptor_index <= MAX_NORMALIZED_REF,
            CpInfo::ConstantDynamicInfo { tag, name_and_type_index, .. } => tag == CONSTANT_DYNAMIC
                && name_and_type_index <= MAX_NORMALIZED_REF,
            CpInfo::ConstantInvokeDynamicInfo { tag, name_and_type_index, .. } => tag
                == CONSTANT_INVOKEDYNAMIC && name_and_type_index <= MAX_NORMALIZED_REF,
            CpInfo::ConstantModuleInfo { tag, name_index } => tag == CONSTANT_MODULE && name_index
                <= MAX_NORMALIZED_REF,
            CpInfo::ConstantPackageInfo { tag, name_index } => tag == CONSTANT_PACKAGE && name_index
                <= MAX_NORMALIZED_REF,
        }
    }
}

/// Whether slot `i` of a symbol table holds a double-width entry.
pub open spec fn slot_is_double_width(slot: Option<CpInfo>) -> bool {
    slot matches Some(e) && e.is_double_width()
}

/// The symbol table invariant: slot 0 is the reserved empty slot, every
/// occupied slot holds a well-formed entry, and every long or double entry
/// is followed by a reserved empty slot inside the table.
pub open spec fn cp_wf(pool: Seq<Option<CpInfo>>) -> bool {
    &&& pool.len() >= 1
    &&& pool[0] is None
    &&& forall|i: int|
        0 <= i < pool.len() ==> (#[trigger] pool[i] matches Some(e) ==> e.well_formed())
    &&& forall|i: int|
        0 <= i < pool.len() && slot_is_double_width(#[trigger] pool[i]) ==> i + 1 < pool.len()
            && pool[i + 1] is None
}

/// Appending a single-width, well-formed entry keeps the symbol table
/// invariant.
pub proof fn lemma_cp_wf_push_entry(pool: Seq<Option<CpInfo>>, e: CpInfo)
    requires
        cp_wf(pool),
        e.well_formed(),
        !e.is_double_width(),
    ensures
        cp_wf(pool.push(Some(e))),
{
    let p2 = pool.push(Some(e));
    assert forall|i: int|
        0 <= i < p2.len() implies (#[trigger] p2[i] matches Some(x) ==> x.well_formed()) by {
        if i < pool.len() {
            assert(p2[i] == pool[i]);
        } else {
            assert(p2[i] == Some(e));
        }
    }
    assert forall|i: int|
        0 <= i < p2.len() && slot_is_double_width(#[trigger] p2[i]) implies i + 1 < p2.len() && p2[i
        + 1] is None by {
        assert(p2[i] == pool[i]);
        assert(p2[i + 1] == pool[i + 1]);
    }
}

/// Appending a double-width, well-formed entry together with its reserved
/// empty slot keeps the symbol table invariant.
pub proof fn lemma_cp_wf_push_wide(pool: Seq<Option<CpInfo>>, e: CpInfo)
    requires
        cp_wf(pool),
        e.well_formed(),
        e.is_double_width(),
    ensures
        cp_wf(pool.push(Some(e)).push(None)),
{
    let p2 = pool.push(Some(e)).push(None);
    assert forall|i: int|
        0 <= i < p2.len() implies (#[trigger] p2[i] matches Some(x) ==> x.well_formed()) by {
        if i < pool.len() {
            assert(p2[i] == pool[i]);
        } else if i == pool.len() {
            assert(p2[i] == Some(e));
        } else {
            assert(p2[i] is None);
        }
    }
    assert forall|i: int|
        0 <= i < p2.len() && slot_is_double_width(#[trigger] p2[i]) implies i + 1 < p2.len() && p2[i
        + 1] is None by {
        if i < pool.len() {
            assert(p2[i] == pool[i]);
            assert(p2[i + 1] == pool[i + 1]);
        } else if i == pool.len() {
            assert(p2[i + 1] is None);
        } else {
            assert(p2[i] is None);
        }
    }
}

/// An exception-handler row of a `Code` attribute. `catch_type` is a
/// nullable reference: 0 means "catches everything".
#[derive(Debug, PartialEq, Eq)]
pub struct ExceptionHandler {
    pub start_pc: u16,
    pub end_pc: u16,
    pub handler_pc: u16,
    pub catch_type: u16,
}

/// A line-number row: both fields are plain numbers, not references.
#[derive(Debug, PartialEq, Eq)]
pub struct LineNumber {
    pub start_pc: u16,
    pub line_number: u16,
}

/// A local-variable row; the name and descriptor are non-nullable
/// references, `index` is a local-variable slot, not a reference.
#[derive(Debug, PartialEq, Eq)]
pub struct LocalVariable {
    pub start_pc: u16,
    pub length: u16,
    pub name_index: u16,
    pub descriptor_index: u16,
    pub index: u16,
}

/// A named, length-prefixed extension record, keyed by the string value of
/// the symbol-table entry its name reference points to. A name this decoder
/// does not recognize is preserved as the opaque `Unrecognized` byte blob.
#[derive(Debug, PartialEq, Eq)]
pub enum AttributeInfo {
    SourceFile { attribute_name_index: u16, attribute_length: u32, sourcefile_index: u16 },
    ConstantValue { attribute_name_index: u16, attribute_length: u32, constantvalue_index: u16 },
    Code {
        attribute_name_index: u16,
        attribute_length: u32,
        max_stack: u16,
        max_locals: u16,
        code_length: u32,
        code: Vec<u8>,
        exception_table_length: u16,
        exception_table: Vec<ExceptionHandler>,
        code_attributes_count: u16,
        code_attributes: Vec<AttributeInfo>,
    },
    Exceptions {
        attribute_name_index: u16,
        attribute_length: u32,
        number_of_exceptions: u16,
        exception_index_table: Vec<u16>,
    },
    LineNumberTable {
        attribute_name_index: u16,
        attribute_length: u32,
        line_number_table_length: u16,
        line_number_table: Vec<LineNumber>,
    },
    LocalVariableTable {
        attribute_name_index: u16,
        attribute_length: u32,
        local_variable_table_length: u16,
        local_variable_table: Vec<LocalVariable>,
    },
    Unrecognized { attribute_name_index: u16, attribute_length: u32, info: Vec<u8> },
}

impl AttributeInfo {
    /// Every stored count or length matches its sequence, every reference
    /// leaves room for the wire readjustment, and nested attributes are
    /// well-formed in turn.
    pub open spec fn well_formed(&self) -> bool
        decreases self,
    {
        match *self {
            AttributeInfo::SourceFile { attribute_name_index, .. } => attribute_name_index
                <= MAX_NORMALIZED_REF,
            AttributeInfo::ConstantValue { attribute_name_index, constantvalue_index, .. } =>
                attribute_name_index <= MAX_NORMALIZED_REF && constantvalue_index
                <= MAX_NORMALIZED_REF,
            AttributeInfo::Code {
                attribute_name_index,
                code_length,
                ref code,
                exception_table_length,
                ref exception_table,
                code_attributes_count,
                ref code_attributes,
                ..
            } => {
                &&& attribute_name_index <= MAX_NORMALIZED_REF
                &&& code_length as int == code@.len()
                &&& exception_table_length as int == exception_table@.len()
                &&& forall|i: int|
                    0 <= i < exception_table@.len() ==> (#[trigger] exception_table@[i]).catch_type
                        <= MAX_NORMALIZED_REF
                &&& code_attributes_count as int == code_attributes@.len()
                &&& attrs_wf(code_attributes@)
            },
            AttributeInfo::Exceptions {
                attribute_name_index,
                number_of_exceptions,
                ref exception_index_table,
                ..
            } => {
                &&& attribute_name_index <= MAX_NORMALIZED_REF
                &&& number_of_exceptions as int == exception_index_table@.len()
                &&& forall|i: int|
                    0 <= i < exception_index_table@.len() ==> #[trigger] exception_index_table@[i]
                        <= MAX_NORMALIZED_REF
            },
            AttributeInfo::LineNumberTable {
                attribute_name_index,
                line_number_table_length,
                ref line_number_table,
                ..
            } => {
                &&& attribute_name_index <= MAX_NORMALIZED_REF
                &&& line_number_table_length as int == line_number_table@.len()
            },
            AttributeInfo::LocalVariableTable {
                attribute_name_index,
                local_variable_table_length,
                ref local_variable_table,
                ..
            } => {
                &&& attribute_name_index <= MAX_NORMALIZED_REF
                &&& local_variable_table_length as int == local_variable_table@.len()
                &&& forall|i: int|
                    0 <= i < local_variable_table@.len() ==> (#[trigger] local_variable_table@[i]).name_index
                        <= MAX_NORMALIZED_REF && local_variable_table@[i].descriptor_index
                        <= MAX_NORMALIZED_REF
            },
            AttributeInfo::Unrecognized { attribute_name_index, attribute_length, ref info } => {
                &&& attribute_name_index <= MAX_NORMALIZED_REF
                &&& attribute_length as int == info@.len()
            },
        }
    }
}

/// All attributes of a sequence are well-formed.
pub open spec fn attrs_wf(attrs: Seq<AttributeInfo>) -> bool
    decreases attrs,
{
    forall|i: int| 0 <= i < attrs.len() ==> (#[trigger] attrs[i]).well_formed()
}

/// Appending a well-formed attribute keeps a list of attributes well-formed.
pub proof fn lemma_attrs_wf_push(attrs: Seq<AttributeInfo>, a: AttributeInfo)
    requires
        attrs_wf(attrs),
        a.well_formed(),
    ensures
        attrs_wf(attrs.push(a)),
{
    let p2 = attrs.push(a);
    assert forall|i: int| 0 <= i < p2.len() implies (#[trigger] p2[i]).well_formed() by {
        if i < attrs.len() {
            assert(p2[i] == attrs[i]);
        } else {
            assert(p2[i] == a);
        }
    }
}

/// A field record: flags, name and descriptor references, and attributes.
#[derive(Debug, PartialEq, Eq)]
pub struct FieldInfo {
    pub access_flags: u16,
    pub name_index: u16,
    pub descriptor_index: u16,
    pub attributes_count: u16,
    pub attributes: Vec<AttributeInfo>,
}

impl FieldInfo {
    pub open spec fn well_formed(&self) -> bool {
        &&& self.name_index <= MAX_NORMALIZED_REF
        &&& self.descriptor_index <= MAX_NORMALIZED_REF
        &&& self.attributes_count as int == self.attributes@.len()
        &&& attrs_wf(self.attributes@)
    }
}

/// A method record: flags, name and descriptor references, and attributes.
#[derive(Debug, PartialEq, Eq)]
pub struct MethodInfo {
    pub access_flags: u16,
    pub name_index: u16,
    pub descriptor_index: u16,
    pub attributes_count: u16,
    pub attributes: Vec<AttributeInfo>,
}

impl MethodInfo {
    pub open spec fn well_formed(&self) -> bool {
        &&& self.name_index <= MAX_NORMALIZED_REF
        &&& self.descriptor_index <= MAX_NORMALIZED_REF
        &&& self.attributes_count as int == self.attributes@.len()
        &&& attrs_wf(self.attributes@)
    }
}

/// The root aggregate: everything one class file holds, in file order.
#[derive(Debug, PartialEq, Eq)]
pub struct ClassFile {
    pub magic: u32,
    pub minor_version: u16,
    pub major_version: u16,
    pub constant_pool_count: u16,
    pub constant_pool: Vec<Option<CpInfo>>,
    pub access_flags: u16,
    pub this_class: u16,
    pub super_class: u16,
    pub interfaces_count: u16,
    pub interfaces: Vec<u16>,
    pub fields_count: u16,
    pub fields: Vec<FieldInfo>,
    pub methods_count: u16,
    pub methods: Vec<MethodInfo>,
    pub attributes_count: u16,
    pub attributes: Vec<AttributeInfo>,
}

impl ClassFile {
    /// What the encoder relies on: every stored count matches its sequence,
    /// the symbol table obeys its invariant, and every normalized reference
    /// leaves room for the wire readjustment. The decoder establishes all of
    /// it.
    pub open spec fn well_formed(&self) -> bool {
        &&& self.constant_pool_count >= 1
        &&& self.constant_pool_count as int == self.constant_pool@.len()
        &&& cp_wf(self.constant_pool@)
        &&& self.this_class <= MAX_NORMALIZED_REF
        &&& self.super_class <= MAX_NORMALIZED_REF
        &&& self.interfaces_count as int == self.interfaces@.len()
        &&& self.fields_count as int == self.fields@.len()
        &&& forall|i: int|
            0 <= i < self.fields@.len() ==> (#[trigger] self.fields@[i]).well_formed()
        &&& self.methods_count as int == self.methods@.len()
        &&& forall|i: int|
            0 <= i < self.methods@.len() ==> (#[trigger] self.methods@[i]).well_formed()
        &&& self.attributes_count as int == self.attributes@.len()
        &&& attrs_wf(self.attributes@)
    }
}

/// The bytes of the attribute name `"SourceFile"`.
pub open spec fn source_file_name() -> Seq<u8> {
    seq![83u8, 111u8, 117u8, 114u8, 99u8, 101u8, 70u8, 105u8, 108u8, 101u8]
}

/// The bytes of the attribute name `"ConstantValue"`.
pub open spec fn constant_value_name() -> Seq<u8> {
    seq![67u8, 111u8, 110u8, 115u8, 116u8, 97u8, 110u8, 116u8, 86u8, 97u8, 108u8, 117u8, 101u8]
}

/// The bytes of the attribute name `"Code"`.
pub open spec fn code_name() -> Seq<u8> {
    seq![67u8, 111u8, 100u8, 101u8]
}

/// The bytes of the attribute name `"Exceptions"`.
pub open spec fn exceptions_name() -> Seq<u8> {
    seq![69u8, 120u8, 99u8, 101u8, 112u8, 116u8, 105u8, 111u8, 110u8, 115u8]
}

/// The bytes of the attribute name `"LineNumberTable"`.
pub open spec fn line_number_table_name() -> Seq<u8> {
    seq![76u8, 105u8, 110u8, 101u8, 78u8, 117u8, 109u8, 98u8, 101u8, 114u8, 84u8, 97u8, 98u8,
        108u8, 101u8]
}

/// The bytes of the attribute name `"LocalVariableTable"`.
pub open spec fn local_variable_table_name() -> Seq<u8> {
    seq![76u8, 111u8, 99u8, 97u8, 108u8, 86u8, 97u8, 114u8, 105u8, 97u8, 98u8, 108u8, 101u8, 84u8,
        97u8, 98u8, 108u8, 101u8]
}

} // verus!
