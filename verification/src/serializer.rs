//! The encoder: walks a class-file model in file order and emits exactly the
//! bytes that `enc_class_file` specifies. It trusts every stored count and
//! length field — well-formedness of the model is the caller's obligation —
//! and its only transformation is re-adding 1 to every normalized reference
//! (leaving the 0 sentinel of nullable references unchanged).

use vstd::prelude::*;

use crate::encoding::{
    enc_attr, enc_attrs, enc_class_file, enc_cp_entry, enc_cp_pool, enc_cp_slot,
    enc_exception_handler, enc_exception_indices, enc_exception_table, enc_field, enc_fields,
    enc_interfaces, enc_line_number, enc_line_number_table, enc_local_variable,
    enc_local_variable_table, enc_method, enc_methods, lemma_enc_attrs_push,
    lemma_enc_cp_pool_push, lemma_enc_exception_indices_push, lemma_enc_exception_table_push,
    lemma_enc_fields_push, lemma_enc_interfaces_push, lemma_enc_line_number_table_push,
    lemma_enc_local_variable_table_push, lemma_enc_methods_push,
};
use crate::error::SerializeError;
use crate::model::{
    attrs_wf, AttributeInfo, ClassFile, CpInfo, FieldInfo, MethodInfo, MAX_NORMALIZED_REF,
};
use crate::rw::{WriteResult, Writer};
use crate::wire::{enc_nullable_ref, enc_ref, lemma_enc_u8_single};

verus! {

pub type SerializeResult<T> = Result<T, SerializeError>;

/// Takes a class-file model and writes the raw class-file bytes to the
/// supplied writer, mirroring the decoder's traversal order and widths.
pub struct Serializer {
    writer: Writer,
}

impl View for Serializer {
    type V = Seq<u8>;

    closed spec fn view(&self) -> Seq<u8> {
        self.writer@
    }
}

impl Serializer {
    pub fn new(writer: Writer) -> (r: Serializer)
        ensures
            r@ == writer@,
    {
        Serializer { writer }
    }

    /// Hand back everything written so far.
    pub fn into_inner(self) -> (r: Vec<u8>)
        ensures
            r@ == self@,
    {
        self.writer.into_inner()
    }

    /// Write a non-nullable reference in its 1-based wire form.
    fn write_ref(&mut self, r: u16) -> (res: WriteResult<()>)
        requires
            r <= MAX_NORMALIZED_REF,
        ensures
            res is Ok,
            final(self)@ == old(self)@ + enc_ref(r),
    {
        self.writer.write_unsigned_short(r + 1)
    }

    /// Write a nullable reference: the 0 sentinel stays 0, everything else
    /// goes back to its 1-based wire form.
    fn write_nullable_ref(&mut self, r: u16) -> (res: WriteResult<()>)
        requires
            r <= MAX_NORMALIZED_REF,
        ensures
            res is Ok,
            final(self)@ == old(self)@ + enc_nullable_ref(r),
    {
        if r == 0 {
            self.writer.write_unsigned_short(0)
        } else {
            self.writer.write_unsigned_short(r + 1)
        }
    }

    /// Write a byte string verbatim.
    fn write_bytes(&mut self, bytes: &Vec<u8>) -> (res: WriteResult<()>)
        ensures
            res is Ok,
            final(self)@ == old(self)@ + bytes@,
    {
        let mut i: usize = 0;
        while i < bytes.len()
            invariant
                0 <= i <= bytes.len(),
                self@ == old(self)@ + bytes@.subrange(0, i as int),
            decreases bytes.len() - i,
        {
            let res = self.writer.write_unsigned_byte(bytes[i]);
            proof {
                lemma_enc_u8_single(bytes@[i as int]);
                assert((old(self)@ + bytes@.subrange(0, i as int)) + seq![bytes@[i as int]]
                    =~= old(self)@ + bytes@.subrange(0, i as int + 1));
            }
            i = i + 1;
        }
        proof {
            assert(bytes@.subrange(0, bytes@.len() as int) =~= bytes@);
        }
        Ok(())
    }

    /// Serialize one attribute record; a `Code` attribute recursively
    /// serializes its nested attribute list.
    fn serialize_attribute(&mut self, attribute: &AttributeInfo) -> (res: SerializeResult<()>)
        requires
            attribute.well_formed(),
        ensures
            res is Ok,
            final(self)@ == old(self)@ + enc_attr(*attribute),
        decreases *attribute,
    {
        match attribute {
            AttributeInfo::SourceFile {
                attribute_name_index,
                attribute_length,
                sourcefile_index,
            } => {
                self.write_ref(*attribute_name_index)?;
                self.writer.write_unsigned_int(*attribute_length)?;
                self.writer.write_unsigned_short(*sourcefile_index)?;
                proof {
                    assert(self@ =~= old(self)@ + enc_attr(*attribute));
                }
            },
            AttributeInfo::ConstantValue {
                attribute_name_index,
                attribute_length,
                constantvalue_index,
            } => {
                self.write_ref(*attribute_name_index)?;
                self.writer.write_unsigned_int(*attribute_length)?;
                self.write_ref(*constantvalue_index)?;
                proof {
                    assert(self@ =~= old(self)@ + enc_attr(*attribute));
                }
            },
            AttributeInfo::Code {
                attribute_name_index,
                attribute_length,
                max_stack,
                max_locals,
                code_length,
                code,
                exception_table_length,
                exception_table,
                code_attributes_count,
                code_attributes,
            } => {
                self.write_ref(*attribute_name_index)?;
                self.writer.write_unsigned_int(*attribute_length)?;
                self.writer.write_unsigned_short(*max_stack)?;
                self.writer.write_unsigned_short(*max_locals)?;
                self.writer.write_unsigned_int(*code_length)?;
                self.write_bytes(code)?;
                self.writer.write_unsigned_short(*exception_table_length)?;
                let ghost rows_base = self@;
                let mut i: usize = 0;
                while i < exception_table.len()
                    invariant
                        0 <= i <= exception_table.len(),
                        forall|k: int|
                            0 <= k < exception_table@.len() ==> (
                            #[trigger] exception_table@[k]).catch_type <= MAX_NORMALIZED_REF,
                        self@ == rows_base + enc_exception_table(
                            exception_table@.subrange(0, i as int),
                        ),
                    decreases exception_table.len() - i,
                {
                    let ghost row_base = self@;
                    let handler = &exception_table[i];
                    self.writer.write_unsigned_short(handler.start_pc)?;
                    self.writer.write_unsigned_short(handler.end_pc)?;
                    self.writer.write_unsigned_short(handler.handler_pc)?;
                    self.write_nullable_ref(handler.catch_type)?;
                    proof {
                        assert(self@ =~= row_base + enc_exception_handler(
                            exception_table@[i as int],
                        ));
                        lemma_enc_exception_table_push(
                            exception_table@.subrange(0, i as int),
                            exception_table@[i as int],
                        );
                        assert(exception_table@.subrange(0, i as int).push(
                            exception_table@[i as int],
                        ) =~= exception_table@.subrange(0, i as int + 1));
                        assert(self@ =~= rows_base + enc_exception_table(
                            exception_table@.subrange(0, i as int + 1),
                        ));
                    }
                    i = i + 1;
                }
                proof {
                    assert(exception_table@.subrange(0, exception_table@.len() as int)
                        =~= exception_table@);
                }
                self.writer.write_unsigned_short(*code_attributes_count)?;
                proof {
                    assert(decreases_to!(*attribute => attribute->Code_code_attributes));
                    assert(attribute->Code_code_attributes == *code_attributes);
                    assert(decreases_to!(*code_attributes => code_attributes@));
                }
                self.serialize_attributes(code_attributes)?;
                proof {
                    assert(self@ =~= old(self)@ + enc_attr(*attribute));
                }
            },
            AttributeInfo::Exceptions {
                attribute_name_index,
                attribute_length,
                number_of_exceptions,
                exception_index_table,
            } => {
                self.write_ref(*attribute_name_index)?;
                self.writer.write_unsigned_int(*attribute_length)?;
                self.writer.write_unsigned_short(*number_of_exceptions)?;
                let ghost rows_base = self@;
                let mut i: usize = 0;
                while i < exception_index_table.len()
                    invariant
                        0 <= i <= exception_index_table.len(),
                        forall|k: int|
                            0 <= k < exception_index_table@.len()
                                ==> #[trigger] exception_index_table@[k] <= MAX_NORMALIZED_REF,
                        self@ == rows_base + enc_exception_indices(
                            exception_index_table@.subrange(0, i as int),
                        ),
                    decreases exception_index_table.len() - i,
                {
                    self.write_nullable_ref(exception_index_table[i])?;
                    proof {
                        lemma_enc_exception_indices_push(
                            exception_index_table@.subrange(0, i as int),
                            exception_index_table@[i as int],
                        );
                        assert(exception_index_table@.subrange(0, i as int).push(
                            exception_index_table@[i as int],
                        ) =~= exception_index_table@.subrange(0, i as int + 1));
                        assert(self@ =~= rows_base + enc_exception_indices(
                            exception_index_table@.subrange(0, i as int + 1),
                        ));
                    }
                    i = i + 1;
                }
                proof {
                    assert(exception_index_table@.subrange(0, exception_index_table@.len() as int)
                        =~= exception_index_table@);
                    assert(self@ =~= old(self)@ + enc_attr(*attribute));
                }
            },
            AttributeInfo::LineNumberTable {
                attribute_name_index,
                attribute_length,
                line_number_table_length,
                line_number_table,
            } => {
                self.write_ref(*attribute_name_index)?;
                self.writer.write_unsigned_int(*attribute_length)?;
                self.writer.write_unsigned_short(*line_number_table_length)?;
                let ghost rows_base = self@;
                let mut i: usize = 0;
                while i < line_number_table.len()
                    invariant
                        0 <= i <= line_number_table.len(),
                        self@ == rows_base + enc_line_number_table(
                            line_number_table@.subrange(0, i as int),
                        ),
                    decreases line_number_table.len() - i,
                {
                    let ghost row_base = self@;
                    let line_number = &line_number_table[i];
                    self.writer.write_unsigned_short(line_number.start_pc)?;
                    self.writer.write_unsigned_short(line_number.line_number)?;
                    proof {
                        assert(self@ =~= row_base + enc_line_number(line_number_table@[i as int]));
                        lemma_enc_line_number_table_push(
                            line_number_table@.subrange(0, i as int),
                            line_number_table@[i as int],
                        );
                        assert(line_number_table@.subrange(0, i as int).push(
                            line_number_table@[i as int],
                        ) =~= line_number_table@.subrange(0, i as int + 1));
                        assert(self@ =~= rows_base + enc_line_number_table(
                            line_number_table@.subrange(0, i as int + 1),
                        ));
                    }
                    i = i + 1;
                }
                proof {
                    assert(line_number_table@.subrange(0, line_number_table@.len() as int)
                        =~= line_number_table@);
                    assert(self@ =~= old(self)@ + enc_attr(*attribute));
                }
            },
            AttributeInfo::LocalVariableTable {
                attribute_name_index,
                attribute_length,
                local_variable_table_length,
                local_variable_table,
            } => {
                self.write_ref(*attribute_name_index)?;
                self.writer.write_unsigned_int(*attribute_length)?;
                self.writer.write_unsigned_short(*local_variable_table_length)?;
                let ghost rows_base = self@;
                let mut i: usize = 0;
                while i < local_variable_table.len()
                    invariant
                        0 <= i <= local_variable_table.len(),
                        forall|k: int|
                            0 <= k < local_variable_table@.len() ==> (
                            #[trigger] local_variable_table@[k]).name_index <= MAX_NORMALIZED_REF
                                && local_variable_table@[k].descriptor_index
                                <= MAX_NORMALIZED_REF,
                        self@ == rows_base + enc_local_variable_table(
                            local_variable_table@.subrange(0, i as int),
                        ),
                    decreases local_variable_table.len() - i,
                {
                    let ghost row_base = self@;
                    let local_var = &local_variable_table[i];
                    self.writer.write_unsigned_short(local_var.start_pc)?;
                    self.writer.write_unsigned_short(local_var.length)?;
                    self.write_ref(local_var.name_index)?;
                    self.write_ref(local_var.descriptor_index)?;
                    self.writer.write_unsigned_short(local_var.index)?;
                    proof {
                        assert(self@ =~= row_base + enc_local_variable(
                            local_variable_table@[i as int],
                        ));
                        lemma_enc_local_variable_table_push(
                            local_variable_table@.subrange(0, i as int),
                            local_variable_table@[i as int],
                        );
                        assert(local_variable_table@.subrange(0, i as int).push(
                            local_variable_table@[i as int],
                        ) =~= local_variable_table@.subrange(0, i as int + 1));
                        assert(self@ =~= rows_base + enc_local_variable_table(
                            local_variable_table@.subrange(0, i as int + 1),
                        ));
                    }
                    i = i + 1;
                }
                proof {
                    assert(local_variable_table@.subrange(0, local_variable_table@.len() as int)
                        =~= local_variable_table@);
                    assert(self@ =~= old(self)@ + enc_attr(*attribute));
                }
            },
            AttributeInfo::Unrecognized { attribute_name_index, attribute_length, info } => {
                self.write_ref(*attribute_name_index)?;
                self.writer.write_unsigned_int(*attribute_length)?;
                self.write_bytes(info)?;
                proof {
                    assert(self@ =~= old(self)@ + enc_attr(*attribute));
                }
            },
        }
        Ok(())
    }

    /// Serialize an attribute list in order.
    fn serialize_attributes(&mut self, attributes: &Vec<AttributeInfo>) -> (res: SerializeResult<
        (),
    >)
        requires
            attrs_wf(attributes@),
        ensures
            res is Ok,
            final(self)@ == old(self)@ + enc_attrs(attributes@),
        decreases attributes@,
    {
        let mut i: usize = 0;
        while i < attributes.len()
            invariant
                0 <= i <= attributes.len(),
                attrs_wf(attributes@),
                self@ == old(self)@ + enc_attrs(attributes@.subrange(0, i as int)),
            decreases attributes.len() - i,
        {
            proof {
                assert(decreases_to!(attributes@ => attributes@[i as int]));
            }
            self.serialize_attribute(&attributes[i])?;
            proof {
                lemma_enc_attrs_push(attributes@.subrange(0, i as int), attributes@[i as int]);
                assert(attributes@.subrange(0, i as int).push(attributes@[i as int]) =~= attributes@
                    .subrange(0, i as int + 1));
                assert(self@ =~= old(self)@ + enc_attrs(attributes@.subrange(0, i as int + 1)));
            }
            i = i + 1;
        }
        proof {
            assert(attributes@.subrange(0, attributes@.len() as int) =~= attributes@);
        }
        Ok(())
    }

    /// Serialize the field records in order.
    fn serialize_fields(&mut self, fields: &Vec<FieldInfo>) -> (res: SerializeResult<()>)
        requires
            forall|i: int| 0 <= i < fields@.len() ==> (#[trigger] fields@[i]).well_formed(),
        ensures
            res is Ok,
            final(self)@ == old(self)@ + enc_fields(fields@),
    {
        let mut i: usize = 0;
        while i < fields.len()
            invariant
                0 <= i <= fields.len(),
                forall|k: int| 0 <= k < fields@.len() ==> (#[trigger] fields@[k]).well_formed(),
                self@ == old(self)@ + enc_fields(fields@.subrange(0, i as int)),
            decreases fields.len() - i,
        {
            let ghost row_base = self@;
            let field = &fields[i];
            self.writer.write_unsigned_short(field.access_flags)?;
            self.write_ref(field.name_index)?;
            self.write_ref(field.descriptor_index)?;
            self.writer.write_unsigned_short(field.attributes_count)?;
            self.serialize_attributes(&field.attributes)?;
            proof {
                assert(self@ =~= row_base + enc_field(fields@[i as int]));
                lemma_enc_fields_push(fields@.subrange(0, i as int), fields@[i as int]);
                assert(fields@.subrange(0, i as int).push(fields@[i as int]) =~= fields@.subrange(
                    0,
                    i as int + 1,
                ));
                assert(self@ =~= old(self)@ + enc_fields(fields@.subrange(0, i as int + 1)));
            }
            i = i + 1;
        }
        proof {
            assert(fields@.subrange(0, fields@.len() as int) =~= fields@);
        }
        Ok(())
    }

    /// Serialize the method records in order.
    fn serialize_methods(&mut self, methods: &Vec<MethodInfo>) -> (res: SerializeResult<()>)
        requires
            forall|i: int| 0 <= i < methods@.len() ==> (#[trigger] methods@[i]).well_formed(),
        ensures
            res is Ok,
            final(self)@ == old(self)@ + enc_methods(methods@),
    {
        let mut i: usize = 0;
        while i < methods.len()
            invariant
                0 <= i <= methods.len(),
                forall|k: int| 0 <= k < methods@.len() ==> (#[trigger] methods@[k]).well_formed(),
                self@ == old(self)@ + enc_methods(methods@.subrange(0, i as int)),
            decreases methods.len() - i,
        {
            let ghost row_base = self@;
            let method = &methods[i];
            self.writer.write_unsigned_short(method.access_flags)?;
            self.write_ref(method.name_index)?;
            self.write_ref(method.descriptor_index)?;
            self.writer.write_unsigned_short(method.attributes_count)?;
            self.serialize_attributes(&method.attributes)?;
            proof {
                assert(self@ =~= row_base + enc_method(methods@[i as int]));
                lemma_enc_methods_push(methods@.subrange(0, i as int), methods@[i as int]);
                assert(methods@.subrange(0, i as int).push(methods@[i as int]) =~= methods@
                    .subrange(0, i as int + 1));
                assert(self@ =~= old(self)@ + enc_methods(methods@.subrange(0, i as int + 1)));
            }
            i = i + 1;
        }
        proof {
            assert(methods@.subrange(0, methods@.len() as int) =~= methods@);
        }
        Ok(())
    }

    /// Serialize the symbol table, slot by slot: reserved empty slots (slot
    /// 0 and the slot after each long or double entry) emit nothing.
    fn serialize_constant_pool(&mut self, constant_pool: &Vec<Option<CpInfo>>) -> (res:
        SerializeResult<()>)
        requires
            forall|i: int|
                0 <= i < constant_pool@.len() ==> (#[trigger] constant_pool@[i] matches Some(e)
                    ==> e.well_formed()),
        ensures
            res is Ok,
            final(self)@ == old(self)@ + enc_cp_pool(constant_pool@),
    {
        let mut i: usize = 0;
        while i < constant_pool.len()
            invariant
                0 <= i <= constant_pool.len(),
                forall|k: int|
                    0 <= k < constant_pool@.len() ==> (#[trigger] constant_pool@[k] matches Some(e)
                        ==> e.well_formed()),
                self@ == old(self)@ + enc_cp_pool(constant_pool@.subrange(0, i as int)),
            decreases constant_pool.len() - i,
        {
            let ghost slot_base = self@;
            match &constant_pool[i] {
                None => {
                    proof {
                        assert(self@ =~= slot_base + enc_cp_slot(constant_pool@[i as int]));
                    }
                },
                Some(cp_info) => {
                    match cp_info {
                        CpInfo::ConstantClassInfo { tag, name_index } => {
                            self.writer.write_unsigned_byte(*tag)?;
                            self.write_ref(*name_index)?;
                        },
                        CpInfo::ConstantFieldrefInfo { tag, class_index, name_and_type_index } => {
                            self.writer.write_unsigned_byte(*tag)?;
                            self.write_ref(*class_index)?;
                            self.write_ref(*name_and_type_index)?;
                        },
                        CpInfo::ConstantMethodrefInfo { tag, class_index, name_and_type_index } => {
                            self.writer.write_unsigned_byte(*tag)?;
                            self.write_ref(*class_index)?;
                            self.write_ref(*name_and_type_index)?;
                        },
                        CpInfo::ConstantInterfaceMethodrefInfo {
                            tag,
                            class_index,
                            name_and_type_index,
                        } => {
                            self.writer.write_unsigned_byte(*tag)?;
                            self.write_ref(*class_index)?;
                            self.write_ref(*name_and_type_index)?;
                        },
                        CpInfo::ConstantStringInfo { tag, string_index } => {
                            self.writer.write_unsigned_byte(*tag)?;
                            self.write_ref(*string_index)?;
                        },
                        CpInfo::ConstantIntegerInfo { tag, bytes } => {
                            self.writer.write_unsigned_byte(*tag)?;
                            self.writer.write_unsigned_int(*bytes)?;
                        },
                        CpInfo::ConstantFloatInfo { tag, bytes } => {
                            self.writer.write_unsigned_byte(*tag)?;
                            self.writer.write_unsigned_int(*bytes)?;
                        },
                        CpInfo::ConstantLongInfo { tag, high_bytes, low_bytes } => {
                            self.writer.write_unsigned_byte(*tag)?;
                            self.writer.write_unsigned_int(*high_bytes)?;
                            self.writer.write_unsigned_int(*low_bytes)?;
                        },
                        CpInfo::ConstantDoubleInfo { tag, high_bytes, low_bytes } => {
                            self.writer.write_unsigned_byte(*tag)?;
                            self.writer.write_unsigned_int(*high_bytes)?;
                            self.writer.write_unsigned_int(*low_bytes)?;
                        },
                        CpInfo::ConstantNameAndTypeInfo { tag, name_index, descriptor_index } => {
                            self.writer.write_unsigned_byte(*tag)?;
                            self.write_ref(*name_index)?;
                            self.write_ref(*descriptor_index)?;
                        },
                        CpInfo::ConstantUtf8Info { tag, length, bytes } => {
                            self.writer.write_unsigned_byte(*tag)?;
                            self.writer.write_unsigned_short(*length)?;
                            self.write_bytes(bytes)?;
                        },
                        CpInfo::ConstantMethodHandleInfo {
                            tag,
                            reference_kind,
                            reference_index,
                        } => {
                            self.writer.write_unsigned_byte(*tag)?;
                            self.writer.write_unsigned_byte(*reference_kind)?;
                            self.write_ref(*reference_index)?;
                        },
                        CpInfo::ConstantMethodTypeInfo { tag, descriptor_index } => {
                            self.writer.write_unsigned_byte(*tag)?;
                            self.write_ref(*descriptor_index)?;
                        },
                        CpInfo::ConstantDynamicInfo {
                            tag,
                            bootstrap_method_attr_index,
                            name_and_type_index,
                        } => {
                            self.writer.write_unsigned_byte(*tag)?;
                            self.writer.write_unsigned_short(*bootstrap_method_attr_index)?;
                            self.write_ref(*name_and_type_index)?;
                        },
                        CpInfo::ConstantInvokeDynamicInfo {
                            tag,
                            bootstrap_method_attr_index,
                            name_and_type_index,
                        } => {
                            self.writer.write_unsigned_byte(*tag)?;
                            self.writer.write_unsigned_short(*bootstrap_method_attr_index)?;
                            self.write_ref(*name_and_type_index)?;
                        },
                        CpInfo::ConstantModuleInfo { tag, name_index } => {
                            self.writer.write_unsigned_byte(*tag)?;
                            self.write_ref(*name_index)?;
                        },
                        CpInfo::ConstantPackageInfo { tag, name_index } => {
                            self.writer.write_unsigned_byte(*tag)?;
                            self.write_ref(*name_index)?;
                        },
                    }
                    proof {
                        assert(self@ =~= slot_base + enc_cp_entry(constant_pool@[i as int]->0));
                        assert(self@ =~= slot_base + enc_cp_slot(constant_pool@[i as int]));
                    }
                },
            }
            proof {
                lemma_enc_cp_pool_push(
                    constant_pool@.subrange(0, i as int),
                    constant_pool@[i as int],
                );
                assert(constant_pool@.subrange(0, i as int).push(constant_pool@[i as int])
                    =~= constant_pool@.subrange(0, i as int + 1));
                assert(self@ =~= old(self)@ + enc_cp_pool(constant_pool@.subrange(0, i as int + 1)));
            }
            i = i + 1;
        }
        proof {
            assert(constant_pool@.subrange(0, constant_pool@.len() as int) =~= constant_pool@);
        }
        Ok(())
    }

    /// Serialize a whole class file: the emitted bytes are exactly
    /// `enc_class_file` of the given model, appended to the sink.
    #[verifier::rlimit(60)]
    pub fn serialize(&mut self, classfile: &ClassFile) -> (res: SerializeResult<()>)
        requires
            classfile.well_formed(),
        ensures
            res is Ok,
            final(self)@ == old(self)@ + enc_class_file(*classfile),
    {
        self.writer.write_unsigned_int(classfile.magic)?;
        self.writer.write_unsigned_short(classfile.minor_version)?;
        self.writer.write_unsigned_short(classfile.major_version)?;
        self.writer.write_unsigned_short(classfile.constant_pool_count)?;
        self.serialize_constant_pool(&classfile.constant_pool)?;
        self.writer.write_unsigned_short(classfile.access_flags)?;
        self.write_ref(classfile.this_class)?;
        self.write_nullable_ref(classfile.super_class)?;
        self.writer.write_unsigned_short(classfile.interfaces_count)?;
        let ghost rows_base = self@;
        let mut i: usize = 0;
        while i < classfile.interfaces.len()
            invariant
                0 <= i <= classfile.interfaces.len(),
                self@ == rows_base + enc_interfaces(classfile.interfaces@.subrange(0, i as int)),
            decreases classfile.interfaces.len() - i,
        {
            self.writer.write_unsigned_short(classfile.interfaces[i])?;
            proof {
                lemma_enc_interfaces_push(
                    classfile.interfaces@.subrange(0, i as int),
                    classfile.interfaces@[i as int],
                );
                assert(classfile.interfaces@.subrange(0, i as int).push(
                    classfile.interfaces@[i as int],
                ) =~= classfile.interfaces@.subrange(0, i as int + 1));
                assert(self@ =~= rows_base + enc_interfaces(
                    classfile.interfaces@.subrange(0, i as int + 1),
                ));
            }
            i = i + 1;
        }
        proof {
            assert(classfile.interfaces@.subrange(0, classfile.interfaces@.len() as int)
                =~= classfile.interfaces@);
        }
        self.writer.write_unsigned_short(classfile.fields_count)?;
        self.serialize_fields(&classfile.fields)?;
        self.writer.write_unsigned_short(classfile.methods_count)?;
        self.serialize_methods(&classfile.methods)?;
        self.writer.write_unsigned_short(classfile.attributes_count)?;
        self.serialize_attributes(&classfile.attributes)?;
        proof {
            assert(self@ =~= old(self)@ + enc_class_file(*classfile));
        }
        Ok(())
    }
}

} // verus!
