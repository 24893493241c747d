//! The wire form of every model value: one specification function per
//! record, stating exactly which bytes the encoder emits and which bytes the
//! decoder must have consumed to produce that value. Non-nullable references
//! are written one greater than their stored 0-based index; nullable ones
//! keep the 0 sentinel; interface references and the `SourceFile` payload
//! are written verbatim.

use vstd::prelude::*;

use crate::model::{
    AttributeInfo, ClassFile, CpInfo, ExceptionHandler, FieldInfo, LineNumber, LocalVariable,
    MethodInfo,
};
use crate::wire::{enc_nullable_ref, enc_ref, enc_u16, enc_u32, enc_u8};

verus! {

/// The bytes of one symbol-table entry: its stored tag, then the variant's
/// payload with references readjusted to their 1-based wire form.
pub open spec fn enc_cp_entry(e: CpInfo) -> Seq<u8> {
    match e {
        CpInfo::ConstantClassInfo { tag, name_index } => enc_u8(tag) + enc_ref(name_index),
        CpInfo::ConstantFieldrefInfo { tag, class_index, name_and_type_index } => enc_u8(tag)
            + enc_ref(class_index) + enc_ref(name_and_type_index),
        CpInfo::ConstantMethodrefInfo { tag, class_index, name_and_type_index } => enc_u8(tag)
            + enc_ref(class_index) + enc_ref(name_and_type_index),
        CpInfo::ConstantInterfaceMethodrefInfo { tag, class_index, name_and_type_index } => enc_u8(
            tag,
        ) + enc_ref(class_index) + enc_ref(name_and_type_index),
        CpInfo::ConstantStringInfo { tag, string_index } => enc_u8(tag) + enc_ref(string_index),
        CpInfo::ConstantIntegerInfo { tag, bytes } => enc_u8(tag) + enc_u32(bytes),
        CpInfo::ConstantFloatInfo { tag, bytes } => enc_u8(tag) + enc_u32(bytes),
        CpInfo::ConstantLongInfo { tag, high_bytes, low_bytes } => enc_u8(tag) + enc_u32(high_bytes)
            + enc_u32(low_bytes),
        CpInfo::ConstantDoubleInfo { tag, high_bytes, low_bytes } => enc_u8(tag) + enc_u32(
            high_bytes,
        ) + enc_u32(low_bytes),
        CpInfo::ConstantNameAndTypeInfo { tag, name_index, descriptor_index } => enc_u8(tag)
            + enc_ref(name_index) + enc_ref(descriptor_index),
        CpInfo::ConstantUtf8Info { tag, length, bytes } => enc_u8(tag) + enc_u16(length) + bytes@,
        CpInfo::ConstantMethodHandleInfo { tag, reference_kind, reference_index } => enc_u8(tag)
            + enc_u8(reference_kind) + enc_ref(reference_index),
        CpInfo::ConstantMethodTypeInfo { tag, descriptor_index } => enc_u8(tag) + enc_ref(
            descriptor_index,
        ),
        CpInfo::ConstantDynamicInfo { tag, bootstrap_method_attr_index, name_and_type_index } =>
            enc_u8(tag) + enc_u16(bootstrap_method_attr_index) + enc_ref(name_and_type_index),
        CpInfo::ConstantInvokeDynamicInfo {
            tag,
            bootstrap_method_attr_index,
            name_and_type_index,
        } => enc_u8(tag) + enc_u16(bootstrap_method_attr_index) + enc_ref(name_and_type_index),
        CpInfo::ConstantModuleInfo { tag, name_index } => enc_u8(tag) + enc_ref(name_index),
        CpInfo::ConstantPackageInfo { tag, name_index } => enc_u8(tag) + enc_ref(name_index),
    }
}

/// The bytes of one symbol-table slot: a reserved empty slot contributes
/// nothing to the stream.
pub open spec fn enc_cp_slot(slot: Option<CpInfo>) -> Seq<u8> {
    match slot {
        None => Seq::empty(),
        Some(e) => enc_cp_entry(e),
    }
}

/// The bytes of the whole symbol table, slot by slot.
pub open spec fn enc_cp_pool(pool: Seq<Option<CpInfo>>) -> Seq<u8>
    decreases pool.len(),
{
    if pool.len() == 0 {
        Seq::empty()
    } else {
        enc_cp_slot(pool[0]) + enc_cp_pool(pool.subrange(1, pool.len() as int))
    }
}

/// One exception-handler row: three program counters and the nullable
/// catch-type reference.
pub open spec fn enc_exception_handler(h: ExceptionHandler) -> Seq<u8> {
    enc_u16(h.start_pc) + enc_u16(h.end_pc) + enc_u16(h.handler_pc) + enc_nullable_ref(h.catch_type)
}

/// The rows of an exception table, in order.
pub open spec fn enc_exception_table(s: Seq<ExceptionHandler>) -> Seq<u8>
    decreases s.len(),
{
    if s.len() == 0 {
        Seq::empty()
    } else {
        enc_exception_handler(s[0]) + enc_exception_table(s.subrange(1, s.len() as int))
    }
}

/// One line-number row.
pub open spec fn enc_line_number(l: LineNumber) -> Seq<u8> {
    enc_u16(l.start_pc) + enc_u16(l.line_number)
}

/// The rows of a line-number table, in order.
pub open spec fn enc_line_number_table(s: Seq<LineNumber>) -> Seq<u8>
    decreases s.len(),
{
    if s.len() == 0 {
        Seq::empty()
    } else {
        enc_line_number(s[0]) + enc_line_number_table(s.subrange(1, s.len() as int))
    }
}

/// One local-variable row.
pub open spec fn enc_local_variable(v: LocalVariable) -> Seq<u8> {
    enc_u16(v.start_pc) + enc_u16(v.length) + enc_ref(v.name_index) + enc_ref(v.descriptor_index)
        + enc_u16(v.index)
}

/// The rows of a local-variable table, in order.
pub open spec fn enc_local_variable_table(s: Seq<LocalVariable>) -> Seq<u8>
    decreases s.len(),
{
    if s.len() == 0 {
        Seq::empty()
    } else {
        enc_local_variable(s[0]) + enc_local_variable_table(s.subrange(1, s.len() as int))
    }
}

/// Interface references, written exactly as they were read: this list is
/// the one reference field the model keeps in its raw 1-based wire form.
pub open spec fn enc_interfaces(s: Seq<u16>) -> Seq<u8>
    decreases s.len(),
{
    if s.len() == 0 {
        Seq::empty()
    } else {
        enc_u16(s[0]) + enc_interfaces(s.subrange(1, s.len() as int))
    }
}

/// The entries of a declared-exceptions list: each one a nullable reference.
pub open spec fn enc_exception_indices(s: Seq<u16>) -> Seq<u8>
    decreases s.len(),
{
    if s.len() == 0 {
        Seq::empty()
    } else {
        enc_nullable_ref(s[0]) + enc_exception_indices(s.subrange(1, s.len() as int))
    }
}

/// The bytes of one attribute record: name reference, payload byte length,
/// then the variant's payload; a `Code` attribute recursively contains the
/// bytes of its nested attribute list.
pub open spec fn enc_attr(a: AttributeInfo) -> Seq<u8>
    decreases a,
{
    match a {
        AttributeInfo::SourceFile { attribute_name_index, attribute_length, sourcefile_index } =>
            enc_ref(attribute_name_index) + enc_u32(attribute_length) + enc_u16(sourcefile_index),
        AttributeInfo::ConstantValue {
            attribute_name_index,
            attribute_length,
            constantvalue_index,
        } => enc_ref(attribute_name_index) + enc_u32(attribute_length) + enc_ref(
            constantvalue_index,
        ),
        AttributeInfo::Code {
            attribute_name_index,
            attribute_length,
            max_stack,
            max_locals,
            code_length,
            code,
            exception_table_length,
            exception_table,
            code_attributes_count,
            code_attributes,
        } => enc_ref(attribute_name_index) + enc_u32(attribute_length) + enc_u16(max_stack)
            + enc_u16(max_locals) + enc_u32(code_length) + code@ + enc_u16(exception_table_length)
            + enc_exception_table(exception_table@) + enc_u16(code_attributes_count) + enc_attrs(
            code_attributes@,
        ),
        AttributeInfo::Exceptions {
            attribute_name_index,
            attribute_length,
            number_of_exceptions,
            exception_index_table,
        } => enc_ref(attribute_name_index) + enc_u32(attribute_length) + enc_u16(
            number_of_exceptions,
        ) + enc_exception_indices(exception_index_table@),
        AttributeInfo::LineNumberTable {
            attribute_name_index,
            attribute_length,
            line_number_table_length,
            line_number_table,
        } => enc_ref(attribute_name_index) + enc_u32(attribute_length) + enc_u16(
            line_number_table_length,
        ) + enc_line_number_table(line_number_table@),
        AttributeInfo::LocalVariableTable {
            attribute_name_index,
            attribute_length,
            local_variable_table_length,
            local_variable_table,
        } => enc_ref(attribute_name_index) + enc_u32(attribute_length) + enc_u16(
            local_variable_table_length,
        ) + enc_local_variable_table(local_variable_table@),
        AttributeInfo::Unrecognized { attribute_name_index, attribute_length, info } => enc_ref(
            attribute_name_index,
        ) + enc_u32(attribute_length) + info@,
    }
}

/// The bytes of an attribute list, in order.
pub open spec fn enc_attrs(attrs: Seq<AttributeInfo>) -> Seq<u8>
    decreases attrs,
{
    if attrs.len() == 0 {
        Seq::empty()
    } else {
        enc_attr(attrs[0]) + enc_attrs(attrs.subrange(1, attrs.len() as int))
    }
}

/// The bytes of one field record.
pub open spec fn enc_field(f: FieldInfo) -> Seq<u8> {
    enc_u16(f.access_flags) + enc_ref(f.name_index) + enc_ref(f.descriptor_index) + enc_u16(
        f.attributes_count,
    ) + enc_attrs(f.attributes@)
}

/// The bytes of the field records, in order.
pub open spec fn enc_fields(s: Seq<FieldInfo>) -> Seq<u8>
    decreases s.len(),
{
    if s.len() == 0 {
        Seq::empty()
    } else {
        enc_field(s[0]) + enc_fields(s.subrange(1, s.len() as int))
    }
}

/// The bytes of one method record.
pub open spec fn enc_method(m: MethodInfo) -> Seq<u8> {
    enc_u16(m.access_flags) + enc_ref(m.name_index) + enc_ref(m.descriptor_index) + enc_u16(
        m.attributes_count,
    ) + enc_attrs(m.attributes@)
}

/// The bytes of the method records, in order.
pub open spec fn enc_methods(s: Seq<MethodInfo>) -> Seq<u8>
    decreases s.len(),
{
    if s.len() == 0 {
        Seq::empty()
    } else {
        enc_method(s[0]) + enc_methods(s.subrange(1, s.len() as int))
    }
}

/// The bytes of a whole class file, in file order: header, symbol table,
/// class-level references, interfaces, fields, methods, attributes.
pub open spec fn enc_class_file(cf: ClassFile) -> Seq<u8> {
    enc_u32(cf.magic) + enc_u16(cf.minor_version) + enc_u16(cf.major_version) + enc_u16(
        cf.constant_pool_count,
    ) + enc_cp_pool(cf.constant_pool@) + enc_u16(cf.access_flags) + enc_ref(cf.this_class)
        + enc_nullable_ref(cf.super_class) + enc_u16(cf.interfaces_count) + enc_interfaces(
        cf.interfaces@,
    ) + enc_u16(cf.fields_count) + enc_fields(cf.fields@) + enc_u16(cf.methods_count) + enc_methods(
        cf.methods@,
    ) + enc_u16(cf.attributes_count) + enc_attrs(cf.attributes@)
}

/// Appending a slot to a symbol table appends that slot's bytes.
pub proof fn lemma_enc_cp_pool_push(s: Seq<Option<CpInfo>>, x: Option<CpInfo>)
    ensures
        enc_cp_pool(s.push(x)) == enc_cp_pool(s) + enc_cp_slot(x),
    decreases s.len(),
{
    if s.len() == 0 {
        assert(s.push(x)[0] == x);
        assert(s.push(x).subrange(1, 1) =~= Seq::<Option<CpInfo>>::empty());
        assert(enc_cp_pool(Seq::<Option<CpInfo>>::empty()) == Seq::<u8>::empty());
        assert(enc_cp_pool(s.push(x)) =~= enc_cp_pool(s) + enc_cp_slot(x));
    } else {
        let t = s.subrange(1, s.len() as int);
        assert(s.push(x)[0] == s[0]);
        assert(s.push(x).subrange(1, s.len() as int + 1) =~= t.push(x));
        lemma_enc_cp_pool_push(t, x);
        assert((enc_cp_slot(s[0]) + enc_cp_pool(t)) + enc_cp_slot(x) =~= enc_cp_slot(s[0]) + (
        enc_cp_pool(t) + enc_cp_slot(x)));
    }
}

/// Appending a row to an exception table appends that row's bytes.
pub proof fn lemma_enc_exception_table_push(s: Seq<ExceptionHandler>, x: ExceptionHandler)
    ensures
        enc_exception_table(s.push(x)) == enc_exception_table(s) + enc_exception_handler(x),
    decreases s.len(),
{
    if s.len() == 0 {
        assert(s.push(x)[0] == x);
        assert(s.push(x).subrange(1, 1) =~= Seq::<ExceptionHandler>::empty());
        assert(enc_exception_table(Seq::<ExceptionHandler>::empty()) == Seq::<u8>::empty());
        assert(enc_exception_table(s.push(x)) =~= enc_exception_table(s) + enc_exception_handler(
            x,
        ));
    } else {
        let t = s.subrange(1, s.len() as int);
        assert(s.push(x)[0] == s[0]);
        assert(s.push(x).subrange(1, s.len() as int + 1) =~= t.push(x));
        lemma_enc_exception_table_push(t, x);
        assert((enc_exception_handler(s[0]) + enc_exception_table(t)) + enc_exception_handler(x)
            =~= enc_exception_handler(s[0]) + (enc_exception_table(t) + enc_exception_handler(x)));
    }
}

/// Appending a row to a line-number table appends that row's bytes.
pub proof fn lemma_enc_line_number_table_push(s: Seq<LineNumber>, x: LineNumber)
    ensures
        enc_line_number_table(s.push(x)) == enc_line_number_table(s) + enc_line_number(x),
    decreases s.len(),
{
    if s.len() == 0 {
        assert(s.push(x)[0] == x);
        assert(s.push(x).subrange(1, 1) =~= Seq::<LineNumber>::empty());
        assert(enc_line_number_table(Seq::<LineNumber>::empty()) == Seq::<u8>::empty());
        assert(enc_line_number_table(s.push(x)) =~= enc_line_number_table(s) + enc_line_number(x));
    } else {
        let t = s.subrange(1, s.len() as int);
        assert(s.push(x)[0] == s[0]);
        assert(s.push(x).subrange(1, s.len() as int + 1) =~= t.push(x));
        lemma_enc_line_number_table_push(t, x);
        assert((enc_line_number(s[0]) + enc_line_number_table(t)) + enc_line_number(x)
            =~= enc_line_number(s[0]) + (enc_line_number_table(t) + enc_line_number(x)));
    }
}

/// Appending a row to a local-variable table appends that row's bytes.
pub proof fn lemma_enc_local_variable_table_push(s: Seq<LocalVariable>, x: LocalVariable)
    ensures
        enc_local_variable_table(s.push(x)) == enc_local_variable_table(s) + enc_local_variable(x),
    decreases s.len(),
{
    if s.len() == 0 {
        assert(s.push(x)[0] == x);
        assert(s.push(x).subrange(1, 1) =~= Seq::<LocalVariable>::empty());
        assert(enc_local_variable_table(Seq::<LocalVariable>::empty()) == Seq::<u8>::empty());
        assert(enc_local_variable_table(s.push(x)) =~= enc_local_variable_table(s)
            + enc_local_variable(x));
    } else {
        let t = s.subrange(1, s.len() as int);
        assert(s.push(x)[0] == s[0]);
        assert(s.push(x).subrange(1, s.len() as int + 1) =~= t.push(x));
        lemma_enc_local_variable_table_push(t, x);
        assert((enc_local_variable(s[0]) + enc_local_variable_table(t)) + enc_local_variable(x)
            =~= enc_local_variable(s[0]) + (enc_local_variable_table(t) + enc_local_variable(x)));
    }
}

/// Appending an interface reference appends its two raw bytes.
pub proof fn lemma_enc_interfaces_push(s: Seq<u16>, x: u16)
    ensures
        enc_interfaces(s.push(x)) == enc_interfaces(s) + enc_u16(x),
    decreases s.len(),
{
    if s.len() == 0 {
        assert(s.push(x)[0] == x);
        assert(s.push(x).subrange(1, 1) =~= Seq::<u16>::empty());
        assert(enc_interfaces(Seq::<u16>::empty()) == Seq::<u8>::empty());
        assert(enc_interfaces(s.push(x)) =~= enc_interfaces(s) + enc_u16(x));
    } else {
        let t = s.subrange(1, s.len() as int);
        assert(s.push(x)[0] == s[0]);
        assert(s.push(x).subrange(1, s.len() as int + 1) =~= t.push(x));
        lemma_enc_interfaces_push(t, x);
        assert((enc_u16(s[0]) + enc_interfaces(t)) + enc_u16(x) =~= enc_u16(s[0]) + (enc_interfaces(
            t,
        ) + enc_u16(x)));
    }
}

/// Appending a declared-exception entry appends its nullable-reference bytes.
pub proof fn lemma_enc_exception_indices_push(s: Seq<u16>, x: u16)
    ensures
        enc_exception_indices(s.push(x)) == enc_exception_indices(s) + enc_nullable_ref(x),
    decreases s.len(),
{
    if s.len() == 0 {
        assert(s.push(x)[0] == x);
        assert(s.push(x).subrange(1, 1) =~= Seq::<u16>::empty());
        assert(enc_exception_indices(Seq::<u16>::empty()) == Seq::<u8>::empty());
        assert(enc_exception_indices(s.push(x)) =~= enc_exception_indices(s) + enc_nullable_ref(x));
    } else {
        let t = s.subrange(1, s.len() as int);
        assert(s.push(x)[0] == s[0]);
        assert(s.push(x).subrange(1, s.len() as int + 1) =~= t.push(x));
        lemma_enc_exception_indices_push(t, x);
        assert((enc_nullable_ref(s[0]) + enc_exception_indices(t)) + enc_nullable_ref(x)
            =~= enc_nullable_ref(s[0]) + (enc_exception_indices(t) + enc_nullable_ref(x)));
    }
}

/// Appending an attribute to a list appends that attribute's bytes.
pub proof fn lemma_enc_attrs_push(s: Seq<AttributeInfo>, x: AttributeInfo)
    ensures
        enc_attrs(s.push(x)) == enc_attrs(s) + enc_attr(x),
    decreases s.len(),
{
    if s.len() == 0 {
        assert(s.push(x)[0] == x);
        assert(s.push(x).subrange(1, 1) =~= Seq::<AttributeInfo>::empty());
        assert(enc_attrs(Seq::<AttributeInfo>::empty()) == Seq::<u8>::empty());
        assert(enc_attrs(s.push(x)) =~= enc_attrs(s) + enc_attr(x));
    } else {
        let t = s.subrange(1, s.len() as int);
        assert(s.push(x)[0] == s[0]);
        assert(s.push(x).subrange(1, s.len() as int + 1) =~= t.push(x));
        lemma_enc_attrs_push(t, x);
        assert((enc_attr(s[0]) + enc_attrs(t)) + enc_attr(x) =~= enc_attr(s[0]) + (enc_attrs(t)
            + enc_attr(x)));
    }
}

/// Appending a field record appends that record's bytes.
pub proof fn lemma_enc_fields_push(s: Seq<FieldInfo>, x: FieldInfo)
    ensures
        enc_fields(s.push(x)) == enc_fields(s) + enc_field(x),
    decreases s.len(),
{
    if s.len() == 0 {
        assert(s.push(x)[0] == x);
        assert(s.push(x).subrange(1, 1) =~= Seq::<FieldInfo>::empty());
        assert(enc_fields(Seq::<FieldInfo>::empty()) == Seq::<u8>::empty());
        assert(enc_fields(s.push(x)) =~= enc_fields(s) + enc_field(x));
    } else {
        let t = s.subrange(1, s.len() as int);
        assert(s.push(x)[0] == s[0]);
        assert(s.push(x).subrange(1, s.len() as int + 1) =~= t.push(x));
        lemma_enc_fields_push(t, x);
        assert((enc_field(s[0]) + enc_fields(t)) + enc_field(x) =~= enc_field(s[0]) + (enc_fields(t)
            + enc_field(x)));
    }
}

/// Appending a method record appends that record's bytes.
pub proof fn lemma_enc_methods_push(s: Seq<MethodInfo>, x: MethodInfo)
    ensures
        enc_methods(s.push(x)) == enc_methods(s) + enc_method(x),
    decreases s.len(),
{
    if s.len() == 0 {
        assert(s.push(x)[0] == x);
        assert(s.push(x).subrange(1, 1) =~= Seq::<MethodInfo>::empty());
        assert(enc_methods(Seq::<MethodInfo>::empty()) == Seq::<u8>::empty());
        assert(enc_methods(s.push(x)) =~= enc_methods(s) + enc_method(x));
    } else {
        let t = s.subrange(1, s.len() as int);
        assert(s.push(x)[0] == s[0]);
        assert(s.push(x).subrange(1, s.len() as int + 1) =~= t.push(x));
        lemma_enc_methods_push(t, x);
        assert((enc_method(s[0]) + enc_methods(t)) + enc_method(x) =~= enc_method(s[0]) + (
        enc_methods(t) + enc_method(x)));
    }
}

} // verus!
