//! The decoder: one strictly sequential pass over the raw bytes of a class
//! file, producing the object model. Every contract here states the same
//! two things: the function succeeds exactly where the parsing functions of
//! `decoding` accept the stream, and on success the bytes consumed are
//! exactly the wire encoding of the well-formed value produced — which is
//! what makes re-encoding reproduce the input byte-for-byte.

use vstd::prelude::*;

use crate::encoding::{
    enc_attr, enc_attrs, enc_class_file, enc_cp_entry, enc_cp_pool, enc_exception_handler,
    enc_exception_indices, enc_exception_table, enc_field, enc_fields, enc_interfaces,
    enc_line_number, enc_line_number_table, enc_local_variable, enc_local_variable_table,
    enc_method, enc_methods, lemma_enc_attrs_push, lemma_enc_cp_pool_push,
    lemma_enc_exception_indices_push, lemma_enc_exception_table_push, lemma_enc_fields_push,
    lemma_enc_interfaces_push, lemma_enc_line_number_table_push,
    lemma_enc_local_variable_table_push, lemma_enc_methods_push,
};
use crate::decoding::{
    attr_dispatch_consistent, attrs_dispatch_consistent, known_cp_tag,
    lemma_attrs_dispatch_consistent_push, lemma_utf8_slots_push, parse_attr, parse_attr_name,
    parse_attrs, parse_class_file, parse_constant_pool, parse_cp_entry, parse_cp_items,
    parse_exception_handler_rows, parse_exception_index_rows, parse_interface_rows,
    parse_line_number_rows, parse_local_variable_rows, parse_member_records, parse_nullable_ref,
    parse_ref, slot_utf8, utf8_slots,
};
use crate::error::{DeserializeError, DeserializeErrorKind};
use crate::model::{
    attrs_wf, code_name, constant_value_name, cp_wf, exceptions_name, lemma_attrs_wf_push,
    lemma_cp_wf_push_entry, lemma_cp_wf_push_wide, line_number_table_name,
    local_variable_table_name, source_file_name, AttributeInfo, ClassFile, CpInfo,
    ExceptionHandler, FieldInfo, LineNumber, LocalVariable, MethodInfo, CONSTANT_CLASS,
    CONSTANT_DOUBLE,
    CONSTANT_DYNAMIC, CONSTANT_FIELDREF, CONSTANT_FLOAT, CONSTANT_INTEGER,
    CONSTANT_INTERFACEMETHODREF, CONSTANT_INVOKEDYNAMIC, CONSTANT_LONG, CONSTANT_METHODHANDLE,
    CONSTANT_METHODREF, CONSTANT_METHODTYPE, CONSTANT_MODULE, CONSTANT_NAMEANDTYPE,
    CONSTANT_PACKAGE, CONSTANT_STRING, CONSTANT_UTF8, MAX_NORMALIZED_REF,
};
use crate::rw::Reader;
use crate::wire::{
    enc_nullable_ref, enc_ref, enc_u8, lemma_be_val_of_enc, lemma_enc_u8_single,
    lemma_pow256_values, lemma_subrange_split,
};

verus! {

pub type DeserializeResult<T> = Result<T, DeserializeError>;

/// Reads a class-file byte stream and builds the object model from it.
pub struct Deserializer {
    reader: Reader,
}

impl Deserializer {
    /// The whole underlying stream.
    pub closed spec fn bytes(&self) -> Seq<u8> {
        self.reader.bytes()
    }

    /// The position of the next unread byte.
    pub closed spec fn posn(&self) -> nat {
        self.reader.posn()
    }

    pub fn new(reader: Reader) -> (r: Deserializer)
        ensures
            r.bytes() == reader.bytes(),
            r.posn() == reader.posn(),
    {
        Deserializer { reader }
    }

    /// Read a non-nullable reference and normalize it to its 0-based model
    /// form; the wire value 0 names the reserved slot and is rejected.
    fn read_ref(&mut self) -> (r: DeserializeResult<u16>)
        requires
            old(self).posn() <= old(self).bytes().len(),
        ensures
            final(self).bytes() == old(self).bytes(),
            old(self).posn() <= final(self).posn() <= final(self).bytes().len(),
            r matches Ok(v) ==> v <= MAX_NORMALIZED_REF && final(self).posn() == old(self).posn()
                + 2 && old(self).bytes().subrange(old(self).posn() as int, final(self).posn() as int) == enc_ref(
                v,
            ),
            r is Err <==> parse_ref(old(self).bytes(), old(self).posn() as int) is None,
            r matches Ok(v) ==> parse_ref(old(self).bytes(), old(self).posn() as int) == Some(
                final(self).posn() as int,
            ),
    {
        let ghost all = self.bytes();
        let ghost start = self.posn();
        let w = self.reader.read_unsigned_short()?;
        proof {
            lemma_pow256_values();
            lemma_be_val_of_enc(all, start as int, w as nat, 2);
        }
        if w == 0 {
            return Err(
                DeserializeError {
                    kind: DeserializeErrorKind::Malformed { pos: self.reader.position() },
                    message: String::from_str("reference to the reserved symbol-table slot 0"),
                },
            );
        }
        Ok(w - 1)
    }

    /// Read a nullable reference: the sentinel 0 is kept, every other wire
    /// value is normalized to its 0-based model form. The wire value 1 would
    /// collapse onto the sentinel, so it is rejected.
    fn read_nullable_ref(&mut self) -> (r: DeserializeResult<u16>)
        requires
            old(self).posn() <= old(self).bytes().len(),
        ensures
            final(self).bytes() == old(self).bytes(),
            old(self).posn() <= final(self).posn() <= final(self).bytes().len(),
            r matches Ok(v) ==> v <= MAX_NORMALIZED_REF && final(self).posn() == old(self).posn()
                + 2 && old(self).bytes().subrange(old(self).posn() as int, final(self).posn() as int)
                == enc_nullable_ref(v),
            r is Err <==> parse_nullable_ref(old(self).bytes(), old(self).posn() as int) is None,
            r matches Ok(v) ==> parse_nullable_ref(old(self).bytes(), old(self).posn() as int)
                == Some(final(self).posn() as int),
    {
        let ghost all = self.bytes();
        let ghost start = self.posn();
        let w = self.reader.read_unsigned_short()?;
        proof {
            lemma_pow256_values();
            lemma_be_val_of_enc(all, start as int, w as nat, 2);
        }
        if w == 1 {
            return Err(
                DeserializeError {
                    kind: DeserializeErrorKind::Malformed { pos: self.reader.position() },
                    message: String::from_str(
                        "nullable reference to symbol-table slot 1 has no normalized form",
                    ),
                },
            );
        }
        if w == 0 {
            Ok(0)
        } else {
            Ok(w - 1)
        }
    }

    /// Read `n` raw bytes.
    #[verifier::loop_isolation(false)]
    fn read_blob(&mut self, n: usize) -> (r: DeserializeResult<Vec<u8>>)
        requires
            old(self).posn() <= old(self).bytes().len(),
        ensures
            final(self).bytes() == old(self).bytes(),
            old(self).posn() <= final(self).posn() <= final(self).bytes().len(),
            r matches Ok(v) ==> v@.len() == n && final(self).posn() == old(self).posn() + n && old(
                self,
            ).bytes().subrange(old(self).posn() as int, final(self).posn() as int) == v@,
            r is Err <==> old(self).posn() + n > old(self).bytes().len(),
    {
        let ghost all = self.bytes();
        let ghost start = self.posn();
        let mut out: Vec<u8> = Vec::new();
        let mut i: usize = 0;
        proof {
            assert(start <= all.len());
            assert(all.subrange(start as int, start as int) =~= out@);
        }
        while i < n
            invariant
                0 <= i <= n,
                out@.len() == i,
                self.bytes() == all,
                self.posn() == start + i,
                self.posn() <= all.len(),
                all.subrange(start as int, self.posn() as int) == out@,
            decreases n - i,
        {
            let b = self.reader.read_unsigned_byte()?;
            proof {
                lemma_enc_u8_single(b);
                lemma_subrange_split(all, start as int, start as int + i, start as int + i + 1);
                assert(out@.push(b) =~= all.subrange(start as int, start as int + i + 1));
            }
            out.push(b);
            i = i + 1;
        }
        Ok(out)
    }

    /// Decode the payload of one symbol-table entry whose tag byte (already
    /// consumed) is `tag`; a tag byte this decoder does not know is an
    /// `UnrecognizedTag` error naming the tag and its stream position
    /// `tag_pos`, never a crash.
    fn read_cp_entry(&mut self, tag: u8, tag_pos: usize) -> (r: DeserializeResult<CpInfo>)
        requires
            old(self).posn() <= old(self).bytes().len(),
            old(self).posn() == tag_pos + 1,
            old(self).bytes()[tag_pos as int] == tag,
        ensures
            final(self).bytes() == old(self).bytes(),
            old(self).posn() <= final(self).posn() <= final(self).bytes().len(),
            r matches Ok(e) ==> e.well_formed() && (e.is_double_width() <==> (tag == CONSTANT_LONG
                || tag == CONSTANT_DOUBLE)) && enc_cp_entry(e) == enc_u8(tag) + old(
                self,
            ).bytes().subrange(old(self).posn() as int, final(self).posn() as int),
            r matches Ok(e) ==> parse_cp_entry(old(self).bytes(), tag_pos as int) == Some(
                final(self).posn() as int,
            ),
            r is Err ==> parse_cp_entry(old(self).bytes(), tag_pos as int) is None,
            r matches Ok(e) ==> slot_utf8(Some(e)) == (if tag == CONSTANT_UTF8 {
                Some(old(self).bytes().subrange(tag_pos as int + 3, final(self).posn() as int))
            } else {
                Option::<Seq<u8>>::None
            }),
            !known_cp_tag(tag) ==> (r matches Err(e) && e.kind
                == DeserializeErrorKind::UnrecognizedTag { tag, pos: tag_pos }),
    {
        let ghost all = self.bytes();
        let ghost ps = self.posn();
        match tag {
            CONSTANT_METHODREF => {
                let class_index = self.read_ref()?;
                let name_and_type_index = self.read_ref()?;
                let entry = CpInfo::ConstantMethodrefInfo { tag, class_index, name_and_type_index };
                proof {
                    lemma_subrange_split(all, ps as int, ps as int + 2, self.posn() as int);
                    assert(enc_cp_entry(entry) =~= enc_u8(tag) + all.subrange(
                        ps as int,
                        self.posn() as int,
                    ));
                }
                Ok(entry)
            },
            CONSTANT_CLASS => {
                let name_index = self.read_ref()?;
                let entry = CpInfo::ConstantClassInfo { tag, name_index };
                proof {
                    assert(enc_cp_entry(entry) =~= enc_u8(tag) + all.subrange(
                        ps as int,
                        self.posn() as int,
                    ));
                }
                Ok(entry)
            },
            CONSTANT_FIELDREF => {
                let class_index = self.read_ref()?;
                let name_and_type_index = self.read_ref()?;
                let entry = CpInfo::ConstantFieldrefInfo { tag, class_index, name_and_type_index };
                proof {
                    lemma_subrange_split(all, ps as int, ps as int + 2, self.posn() as int);
                    assert(enc_cp_entry(entry) =~= enc_u8(tag) + all.subrange(
                        ps as int,
                        self.posn() as int,
                    ));
                }
                Ok(entry)
            },
            CONSTANT_INTERFACEMETHODREF => {
                let class_index = self.read_ref()?;
                let name_and_type_index = self.read_ref()?;
                let entry = CpInfo::ConstantInterfaceMethodrefInfo {
                    tag,
                    class_index,
                    name_and_type_index,
                };
                proof {
                    lemma_subrange_split(all, ps as int, ps as int + 2, self.posn() as int);
                    assert(enc_cp_entry(entry) =~= enc_u8(tag) + all.subrange(
                        ps as int,
                        self.posn() as int,
                    ));
                }
                Ok(entry)
            },
            CONSTANT_STRING => {
                let string_index = self.read_ref()?;
                let entry = CpInfo::ConstantStringInfo { tag, string_index };
                proof {
                    assert(enc_cp_entry(entry) =~= enc_u8(tag) + all.subrange(
                        ps as int,
                        self.posn() as int,
                    ));
                }
                Ok(entry)
            },
            CONSTANT_INTEGER => {
                let bytes = self.reader.read_unsigned_int()?;
                let entry = CpInfo::ConstantIntegerInfo { tag, bytes };
                proof {
                    assert(enc_cp_entry(entry) =~= enc_u8(tag) + all.subrange(
                        ps as int,
                        self.posn() as int,
                    ));
                }
                Ok(entry)
            },
            CONSTANT_FLOAT => {
                let bytes = self.reader.read_unsigned_int()?;
                let entry = CpInfo::ConstantFloatInfo { tag, bytes };
                proof {
                    assert(enc_cp_entry(entry) =~= enc_u8(tag) + all.subrange(
                        ps as int,
                        self.posn() as int,
                    ));
                }
                Ok(entry)
            },
            CONSTANT_LONG => {
                let high_bytes = self.reader.read_unsigned_int()?;
                let low_bytes = self.reader.read_unsigned_int()?;
                let entry = CpInfo::ConstantLongInfo { tag, high_bytes, low_bytes };
                proof {
                    lemma_subrange_split(all, ps as int, ps as int + 4, self.posn() as int);
                    assert(enc_cp_entry(entry) =~= enc_u8(tag) + all.subrange(
                        ps as int,
                        self.posn() as int,
                    ));
                }
                Ok(entry)
            },
            CONSTANT_DOUBLE => {
                let high_bytes = self.reader.read_unsigned_int()?;
                let low_bytes = self.reader.read_unsigned_int()?;
                let entry = CpInfo::ConstantDoubleInfo { tag, high_bytes, low_bytes };
                proof {
                    lemma_subrange_split(all, ps as int, ps as int + 4, self.posn() as int);
                    assert(enc_cp_entry(entry) =~= enc_u8(tag) + all.subrange(
                        ps as int,
                        self.posn() as int,
                    ));
                }
                Ok(entry)
            },
            CONSTANT_NAMEANDTYPE => {
                let name_index = self.read_ref()?;
                let descriptor_index = self.read_ref()?;
                let entry = CpInfo::ConstantNameAndTypeInfo { tag, name_index, descriptor_index };
                proof {
                    lemma_subrange_split(all, ps as int, ps as int + 2, self.posn() as int);
                    assert(enc_cp_entry(entry) =~= enc_u8(tag) + all.subrange(
                        ps as int,
                        self.posn() as int,
                    ));
                }
                Ok(entry)
            },
            CONSTANT_UTF8 => {
                let length = self.reader.read_unsigned_short()?;
                proof {
                    lemma_pow256_values();
                    lemma_be_val_of_enc(all, ps as int, length as nat, 2);
                }
                let bytes = self.read_blob(length as usize)?;
                let entry = CpInfo::ConstantUtf8Info { tag, length, bytes };
                proof {
                    lemma_subrange_split(all, ps as int, ps as int + 2, self.posn() as int);
                    assert(enc_cp_entry(entry) =~= enc_u8(tag) + all.subrange(
                        ps as int,
                        self.posn() as int,
                    ));
                }
                Ok(entry)
            },
            CONSTANT_METHODHANDLE => {
                let reference_kind = self.reader.read_unsigned_byte()?;
                let reference_index = self.read_ref()?;
                let entry = CpInfo::ConstantMethodHandleInfo {
                    tag,
                    reference_kind,
                    reference_index,
                };
                proof {
                    lemma_subrange_split(all, ps as int, ps as int + 1, self.posn() as int);
                    assert(enc_cp_entry(entry) =~= enc_u8(tag) + all.subrange(
                        ps as int,
                        self.posn() as int,
                    ));
                }
                Ok(entry)
            },
            CONSTANT_METHODTYPE => {
                let descriptor_index = self.read_ref()?;
                let entry = CpInfo::ConstantMethodTypeInfo { tag, descriptor_index };
                proof {
                    assert(enc_cp_entry(entry) =~= enc_u8(tag) + all.subrange(
                        ps as int,
                        self.posn() as int,
                    ));
                }
                Ok(entry)
            },
            CONSTANT_DYNAMIC => {
                let bootstrap_method_attr_index = self.reader.read_unsigned_short()?;
                let name_and_type_index = self.read_ref()?;
                let entry = CpInfo::ConstantDynamicInfo {
                    tag,
                    bootstrap_method_attr_index,
                    name_and_type_index,
                };
                proof {
                    lemma_subrange_split(all, ps as int, ps as int + 2, self.posn() as int);
                    assert(enc_cp_entry(entry) =~= enc_u8(tag) + all.subrange(
                        ps as int,
                        self.posn() as int,
                    ));
                }
                Ok(entry)
            },
            CONSTANT_INVOKEDYNAMIC => {
                let bootstrap_method_attr_index = self.reader.read_unsigned_short()?;
                let name_and_type_index = self.read_ref()?;
                let entry = CpInfo::ConstantInvokeDynamicInfo {
                    tag,
                    bootstrap_method_attr_index,
                    name_and_type_index,
                };
                proof {
                    lemma_subrange_split(all, ps as int, ps as int + 2, self.posn() as int);
                    assert(enc_cp_entry(entry) =~= enc_u8(tag) + all.subrange(
                        ps as int,
                        self.posn() as int,
                    ));
                }
                Ok(entry)
            },
            CONSTANT_MODULE => {
                let name_index = self.read_ref()?;
                let entry = CpInfo::ConstantModuleInfo { tag, name_index };
                proof {
                    assert(enc_cp_entry(entry) =~= enc_u8(tag) + all.subrange(
                        ps as int,
                        self.posn() as int,
                    ));
                }
                Ok(entry)
            },
            CONSTANT_PACKAGE => {
                let name_index = self.read_ref()?;
                let entry = CpInfo::ConstantPackageInfo { tag, name_index };
                proof {
                    assert(enc_cp_entry(entry) =~= enc_u8(tag) + all.subrange(
                        ps as int,
                        self.posn() as int,
                    ));
                }
                Ok(entry)
            },
            _ => Err(
                DeserializeError {
                    kind: DeserializeErrorKind::UnrecognizedTag { tag, pos: tag_pos },
                    message: String::from_str("unrecognized symbol-table tag"),
                },
            ),
        }
    }

    /// Decode the symbol table: `constant_pool_count` slots in all, slot 0
    /// reserved and empty, tag-dispatched entries from slot 1 on, a long or
    /// double entry also reserving the slot after it.
    #[verifier::loop_isolation(false)]
    #[verifier::rlimit(60)]
    fn deserialize_constant_pool(&mut self, constant_pool_count: u16) -> (r: DeserializeResult<
        Vec<Option<CpInfo>>,
    >)
        requires
            old(self).posn() <= old(self).bytes().len(),
            constant_pool_count >= 1,
        ensures
            final(self).bytes() == old(self).bytes(),
            old(self).posn() <= final(self).posn() <= final(self).bytes().len(),
            r matches Ok(pool) ==> pool@.len() == constant_pool_count as int && cp_wf(pool@) && old(
                self,
            ).bytes().subrange(old(self).posn() as int, final(self).posn() as int) == enc_cp_pool(
                pool@,
            ),
            r matches Ok(pool) ==> parse_constant_pool(
                old(self).bytes(),
                old(self).posn() as int,
                constant_pool_count as int,
            ) == Some((utf8_slots(pool@), final(self).posn() as int)),
            r is Err ==> parse_constant_pool(
                old(self).bytes(),
                old(self).posn() as int,
                constant_pool_count as int,
            ) is None,
    {
        let ghost all = self.bytes();
        let ghost start = self.posn();
        let mut constant_pool: Vec<Option<CpInfo>> = Vec::new();
        constant_pool.push(None);
        proof {
            assert(cp_wf(constant_pool@));
            assert(constant_pool@ =~= Seq::<Option<CpInfo>>::empty().push(None));
            lemma_enc_cp_pool_push(Seq::<Option<CpInfo>>::empty(), None);
            assert(enc_cp_pool(constant_pool@) =~= Seq::<u8>::empty());
            assert(all.subrange(start as int, start as int) =~= Seq::<u8>::empty());
            assert(utf8_slots(constant_pool@) =~= seq![Option::<Seq<u8>>::None]);
        }
        while constant_pool.len() < constant_pool_count as usize
            invariant
                1 <= constant_pool@.len() <= constant_pool_count,
                cp_wf(constant_pool@),
                self.bytes() == all,
                start <= self.posn() <= all.len(),
                all.subrange(start as int, self.posn() as int) == enc_cp_pool(constant_pool@),
                parse_cp_items(
                    all,
                    start as int,
                    constant_pool_count as int - 1,
                    seq![Option::<Seq<u8>>::None],
                ) == parse_cp_items(
                    all,
                    self.posn() as int,
                    constant_pool_count as int - constant_pool@.len(),
                    utf8_slots(constant_pool@),
                ),
            decreases constant_pool_count - constant_pool@.len(),
        {
            let ghost pool_prev = constant_pool@;
            let ghost names_prev = utf8_slots(constant_pool@);
            let ghost entry_start = self.posn();
            let tag_pos = self.reader.position();
            let tag = self.reader.read_unsigned_byte()?;
            proof {
                lemma_enc_u8_single(tag);
                assert(all[entry_start as int] == all.subrange(
                    entry_start as int,
                    entry_start as int + 1,
                )[0]);
            }
            let entry = self.read_cp_entry(tag, tag_pos)?;
            let wide = tag == CONSTANT_LONG || tag == CONSTANT_DOUBLE;
            let ghost e = entry;
            proof {
                lemma_subrange_split(all, entry_start as int, entry_start as int + 1, self.posn() as int);
                assert(all.subrange(entry_start as int, self.posn() as int) =~= enc_cp_entry(e));
            }
            constant_pool.push(Some(entry));
            if wide {
                if constant_pool.len() < constant_pool_count as usize {
                    constant_pool.push(None);
                    proof {
                        lemma_cp_wf_push_wide(pool_prev, e);
                        lemma_enc_cp_pool_push(pool_prev, Some(e));
                        lemma_enc_cp_pool_push(pool_prev.push(Some(e)), None);
                        lemma_utf8_slots_push(pool_prev, Some(e));
                        lemma_utf8_slots_push(pool_prev.push(Some(e)), None);
                    }
                } else {
                    proof {
                        assert(parse_cp_items(
                            all,
                            entry_start as int,
                            constant_pool_count as int - pool_prev.len(),
                            names_prev,
                        ) is None);
                    }
                    return Err(
                        DeserializeError {
                            kind: DeserializeErrorKind::Malformed { pos: self.reader.position() },
                            message: String::from_str(
                                "double-width entry leaves no room for its reserved slot",
                            ),
                        },
                    );
                }
            } else {
                proof {
                    lemma_cp_wf_push_entry(pool_prev, e);
                    lemma_enc_cp_pool_push(pool_prev, Some(e));
                    lemma_utf8_slots_push(pool_prev, Some(e));
                }
            }
            proof {
                lemma_subrange_split(all, start as int, entry_start as int, self.posn() as int);
                assert(all.subrange(start as int, self.posn() as int) =~= enc_cp_pool(
                    constant_pool@,
                ));
                assert(parse_cp_items(
                    all,
                    entry_start as int,
                    constant_pool_count as int - pool_prev.len(),
                    names_prev,
                ) == parse_cp_items(
                    all,
                    self.posn() as int,
                    constant_pool_count as int - constant_pool@.len(),
                    utf8_slots(constant_pool@),
                ));
            }
        }
        proof {
            assert(parse_cp_items(
                all,
                self.posn() as int,
                0,
                utf8_slots(constant_pool@),
            ) == Some((utf8_slots(constant_pool@), self.posn() as int)));
        }
        Ok(constant_pool)
    }

    /// Read the rows of a `Code` attribute's exception table.
    #[verifier::loop_isolation(false)]
    fn read_exception_table(&mut self, exception_table_length: u16) -> (r: DeserializeResult<
        Vec<ExceptionHandler>,
    >)
        requires
            old(self).posn() <= old(self).bytes().len(),
        ensures
            final(self).bytes() == old(self).bytes(),
            old(self).posn() <= final(self).posn() <= final(self).bytes().len(),
            r matches Ok(t) ==> t@.len() == exception_table_length as int && (forall|k: int|
                0 <= k < t@.len() ==> (#[trigger] t@[k]).catch_type <= MAX_NORMALIZED_REF) && old(
                self,
            ).bytes().subrange(old(self).posn() as int, final(self).posn() as int)
                == enc_exception_table(t@),
            r matches Ok(t) ==> parse_exception_handler_rows(
                old(self).bytes(),
                old(self).posn() as int,
                exception_table_length as int,
            ) == Some(final(self).posn() as int),
            r is Err ==> parse_exception_handler_rows(
                old(self).bytes(),
                old(self).posn() as int,
                exception_table_length as int,
            ) is None,
    {
        let ghost all = self.bytes();
        let ghost start = self.posn();
        let mut exception_table: Vec<ExceptionHandler> = Vec::new();
        let mut i: u16 = 0;
        proof {
            assert(all.subrange(start as int, start as int) =~= enc_exception_table(
                exception_table@,
            ));
        }
        while i < exception_table_length
            invariant
                i <= exception_table_length,
                exception_table@.len() == i as int,
                forall|k: int|
                    0 <= k < exception_table@.len() ==> (#[trigger] exception_table@[k]).catch_type
                        <= MAX_NORMALIZED_REF,
                self.bytes() == all,
                start <= self.posn() <= all.len(),
                all.subrange(start as int, self.posn() as int) == enc_exception_table(
                    exception_table@,
                ),
                parse_exception_handler_rows(all, start as int, exception_table_length as int)
                    == parse_exception_handler_rows(
                    all,
                    self.posn() as int,
                    exception_table_length as int - i as int,
                ),
            decreases exception_table_length - i,
        {
            let ghost table_prev = exception_table@;
            let ghost row_start = self.posn();
            let start_pc = self.reader.read_unsigned_short()?;
            let ghost r1 = self.posn();
            let end_pc = self.reader.read_unsigned_short()?;
            let ghost r2 = self.posn();
            let handler_pc = self.reader.read_unsigned_short()?;
            let ghost r3 = self.posn();
            let catch_type = self.read_nullable_ref()?;
            let handler = ExceptionHandler { start_pc, end_pc, handler_pc, catch_type };
            let ghost h = handler;
            exception_table.push(handler);
            proof {
                lemma_subrange_split(all, row_start as int, r1 as int, r2 as int);
                lemma_subrange_split(all, row_start as int, r2 as int, r3 as int);
                lemma_subrange_split(all, row_start as int, r3 as int, self.posn() as int);
                assert(all.subrange(row_start as int, self.posn() as int)
                    =~= enc_exception_handler(h));
                lemma_enc_exception_table_push(table_prev, h);
                lemma_subrange_split(all, start as int, row_start as int, self.posn() as int);
                assert(all.subrange(start as int, self.posn() as int) =~= enc_exception_table(
                    exception_table@,
                ));
                assert(parse_exception_handler_rows(
                    all,
                    row_start as int,
                    exception_table_length as int - i as int,
                ) == parse_exception_handler_rows(
                    all,
                    self.posn() as int,
                    exception_table_length as int - i as int - 1,
                ));
            }
            i = i + 1;
        }
        proof {
            assert(parse_exception_handler_rows(all, self.posn() as int, 0) == Some(
                self.posn() as int,
            ));
        }
        Ok(exception_table)
    }

    /// Read the entries of a declared-exceptions list.
    #[verifier::loop_isolation(false)]
    fn read_exception_index_table(&mut self, number_of_exceptions: u16) -> (r: DeserializeResult<
        Vec<u16>,
    >)
        requires
            old(self).posn() <= old(self).bytes().len(),
        ensures
            final(self).bytes() == old(self).bytes(),
            old(self).posn() <= final(self).posn() <= final(self).bytes().len(),
            r matches Ok(t) ==> t@.len() == number_of_exceptions as int && (forall|k: int|
                0 <= k < t@.len() ==> #[trigger] t@[k] <= MAX_NORMALIZED_REF) && old(
                self,
            ).bytes().subrange(old(self).posn() as int, final(self).posn() as int)
                == enc_exception_indices(t@),
            r matches Ok(t) ==> parse_exception_index_rows(
                old(self).bytes(),
                old(self).posn() as int,
                number_of_exceptions as int,
            ) == Some(final(self).posn() as int),
            r is Err ==> parse_exception_index_rows(
                old(self).bytes(),
                old(self).posn() as int,
                number_of_exceptions as int,
            ) is None,
    {
        let ghost all = self.bytes();
        let ghost start = self.posn();
        let mut exception_index_table: Vec<u16> = Vec::new();
        let mut i: u16 = 0;
        proof {
            assert(all.subrange(start as int, start as int) =~= enc_exception_indices(
                exception_index_table@,
            ));
        }
        while i < number_of_exceptions
            invariant
                i <= number_of_exceptions,
                exception_index_table@.len() == i as int,
                forall|k: int|
                    0 <= k < exception_index_table@.len() ==> #[trigger] exception_index_table@[k]
                        <= MAX_NORMALIZED_REF,
                self.bytes() == all,
                start <= self.posn() <= all.len(),
                all.subrange(start as int, self.posn() as int) == enc_exception_indices(
                    exception_index_table@,
                ),
                parse_exception_index_rows(all, start as int, number_of_exceptions as int)
                    == parse_exception_index_rows(
                    all,
                    self.posn() as int,
                    number_of_exceptions as int - i as int,
                ),
            decreases number_of_exceptions - i,
        {
            let ghost table_prev = exception_index_table@;
            let ghost row_start = self.posn();
            let idx = self.read_nullable_ref()?;
            exception_index_table.push(idx);
            proof {
                lemma_enc_exception_indices_push(table_prev, idx);
                lemma_subrange_split(all, start as int, row_start as int, self.posn() as int);
                assert(all.subrange(start as int, self.posn() as int) =~= enc_exception_indices(
                    exception_index_table@,
                ));
                assert(parse_exception_index_rows(
                    all,
                    row_start as int,
                    number_of_exceptions as int - i as int,
                ) == parse_exception_index_rows(
                    all,
                    self.posn() as int,
                    number_of_exceptions as int - i as int - 1,
                ));
            }
            i = i + 1;
        }
        proof {
            assert(parse_exception_index_rows(all, self.posn() as int, 0) == Some(
                self.posn() as int,
            ));
        }
        Ok(exception_index_table)
    }

    /// Read the rows of a line-number table.
    #[verifier::loop_isolation(false)]
    fn read_line_number_table(&mut self, line_number_table_length: u16) -> (r: DeserializeResult<
        Vec<LineNumber>,
    >)
        requires
            old(self).posn() <= old(self).bytes().len(),
        ensures
            final(self).bytes() == old(self).bytes(),
            old(self).posn() <= final(self).posn() <= final(self).bytes().len(),
            r matches Ok(t) ==> t@.len() == line_number_table_length as int && old(
                self,
            ).bytes().subrange(old(self).posn() as int, final(self).posn() as int)
                == enc_line_number_table(t@),
            r matches Ok(t) ==> parse_line_number_rows(
                old(self).bytes(),
                old(self).posn() as int,
                line_number_table_length as int,
            ) == Some(final(self).posn() as int),
            r is Err ==> parse_line_number_rows(
                old(self).bytes(),
                old(self).posn() as int,
                line_number_table_length as int,
            ) is None,
    {
        let ghost all = self.bytes();
        let ghost start = self.posn();
        let mut line_number_table: Vec<LineNumber> = Vec::new();
        let mut i: u16 = 0;
        proof {
            assert(all.subrange(start as int, start as int) =~= enc_line_number_table(
                line_number_table@,
            ));
        }
        while i < line_number_table_length
            invariant
                i <= line_number_table_length,
                line_number_table@.len() == i as int,
                self.bytes() == all,
                start <= self.posn() <= all.len(),
                all.subrange(start as int, self.posn() as int) == enc_line_number_table(
                    line_number_table@,
                ),
                parse_line_number_rows(all, start as int, line_number_table_length as int)
                    == parse_line_number_rows(
                    all,
                    self.posn() as int,
                    line_number_table_length as int - i as int,
                ),
            decreases line_number_table_length - i,
        {
            let ghost table_prev = line_number_table@;
            let ghost row_start = self.posn();
            let start_pc = self.reader.read_unsigned_short()?;
            let ghost r1 = self.posn();
            let line_number = self.reader.read_unsigned_short()?;
            let line = LineNumber { start_pc, line_number };
            let ghost l = line;
            line_number_table.push(line);
            proof {
                lemma_subrange_split(all, row_start as int, r1 as int, self.posn() as int);
                assert(all.subrange(row_start as int, self.posn() as int) =~= enc_line_number(l));
                lemma_enc_line_number_table_push(table_prev, l);
                lemma_subrange_split(all, start as int, row_start as int, self.posn() as int);
                assert(all.subrange(start as int, self.posn() as int) =~= enc_line_number_table(
                    line_number_table@,
                ));
                assert(parse_line_number_rows(
                    all,
                    row_start as int,
                    line_number_table_length as int - i as int,
                ) == parse_line_number_rows(
                    all,
                    self.posn() as int,
                    line_number_table_length as int - i as int - 1,
                ));
            }
            i = i + 1;
        }
        proof {
            assert(parse_line_number_rows(all, self.posn() as int, 0) == Some(self.posn() as int));
        }
        Ok(line_number_table)
    }

    /// Read the rows of a local-variable table.
    #[verifier::loop_isolation(false)]
    fn read_local_variable_table(&mut self, local_variable_table_length: u16) -> (r:
        DeserializeResult<Vec<LocalVariable>>)
        requires
            old(self).posn() <= old(self).bytes().len(),
        ensures
            final(self).bytes() == old(self).bytes(),
            old(self).posn() <= final(self).posn() <= final(self).bytes().len(),
            r matches Ok(t) ==> t@.len() == local_variable_table_length as int && (forall|k: int|
                0 <= k < t@.len() ==> (#[trigger] t@[k]).name_index <= MAX_NORMALIZED_REF
                    && t@[k].descriptor_index <= MAX_NORMALIZED_REF) && old(
                self,
            ).bytes().subrange(old(self).posn() as int, final(self).posn() as int)
                == enc_local_variable_table(t@),
            r matches Ok(t) ==> parse_local_variable_rows(
                old(self).bytes(),
                old(self).posn() as int,
                local_variable_table_length as int,
            ) == Some(final(self).posn() as int),
            r is Err ==> parse_local_variable_rows(
                old(self).bytes(),
                old(self).posn() as int,
                local_variable_table_length as int,
            ) is None,
    {
        let ghost all = self.bytes();
        let ghost start = self.posn();
        let mut local_variable_table: Vec<LocalVariable> = Vec::new();
        let mut i: u16 = 0;
        proof {
            assert(all.subrange(start as int, start as int) =~= enc_local_variable_table(
                local_variable_table@,
            ));
        }
        while i < local_variable_table_length
            invariant
                i <= local_variable_table_length,
                local_variable_table@.len() == i as int,
                forall|k: int|
                    0 <= k < local_variable_table@.len() ==> (
                    #[trigger] local_variable_table@[k]).name_index <= MAX_NORMALIZED_REF
                        && local_variable_table@[k].descriptor_index <= MAX_NORMALIZED_REF,
                self.bytes() == all,
                start <= self.posn() <= all.len(),
                all.subrange(start as int, self.posn() as int) == enc_local_variable_table(
                    local_variable_table@,
                ),
                parse_local_variable_rows(all, start as int, local_variable_table_length as int)
                    == parse_local_variable_rows(
                    all,
                    self.posn() as int,
                    local_variable_table_length as int - i as int,
                ),
            decreases local_variable_table_length - i,
        {
            let ghost table_prev = local_variable_table@;
            let ghost row_start = self.posn();
            let start_pc = self.reader.read_unsigned_short()?;
            let ghost r1 = self.posn();
            let length = self.reader.read_unsigned_short()?;
            let ghost r2 = self.posn();
            let name_index = self.read_ref()?;
            let ghost r3 = self.posn();
            let descriptor_index = self.read_ref()?;
            let ghost r4 = self.posn();
            let index = self.reader.read_unsigned_short()?;
            let local_var = LocalVariable { start_pc, length, name_index, descriptor_index, index };
            let ghost v = local_var;
            local_variable_table.push(local_var);
            proof {
                lemma_subrange_split(all, row_start as int, r1 as int, r2 as int);
                lemma_subrange_split(all, row_start as int, r2 as int, r3 as int);
                lemma_subrange_split(all, row_start as int, r3 as int, r4 as int);
                lemma_subrange_split(all, row_start as int, r4 as int, self.posn() as int);
                assert(all.subrange(row_start as int, self.posn() as int) =~= enc_local_variable(
                    v,
                ));
                lemma_enc_local_variable_table_push(table_prev, v);
                lemma_subrange_split(all, start as int, row_start as int, self.posn() as int);
                assert(all.subrange(start as int, self.posn() as int)
                    =~= enc_local_variable_table(local_variable_table@));
                assert(parse_local_variable_rows(
                    all,
                    row_start as int,
                    local_variable_table_length as int - i as int,
                ) == parse_local_variable_rows(
                    all,
                    self.posn() as int,
                    local_variable_table_length as int - i as int - 1,
                ));
            }
            i = i + 1;
        }
        proof {
            assert(parse_local_variable_rows(all, self.posn() as int, 0) == Some(
                self.posn() as int,
            ));
        }
        Ok(local_variable_table)
    }

    /// Decode one attribute record: its name reference picks the variant by
    /// the string value of the symbol-table entry it points to; a name this
    /// decoder does not recognize keeps its payload as an opaque byte blob.
    #[verifier::rlimit(100)]
    fn deserialize_attribute(&mut self, constant_pool: &Vec<Option<CpInfo>>) -> (r:
        DeserializeResult<AttributeInfo>)
        requires
            old(self).posn() <= old(self).bytes().len(),
        ensures
            final(self).bytes() == old(self).bytes(),
            old(self).posn() <= final(self).posn() <= final(self).bytes().len(),
            r matches Ok(a) ==> a.well_formed() && old(self).bytes().subrange(
                old(self).posn() as int,
                final(self).posn() as int,
            ) == enc_attr(a),
            r matches Ok(a) ==> final(self).posn() >= old(self).posn() + 6,
            r matches Ok(a) ==> parse_attr(
                old(self).bytes(),
                old(self).posn() as int,
                utf8_slots(constant_pool@),
            ) == Some(final(self).posn() as int),
            r is Err ==> parse_attr(
                old(self).bytes(),
                old(self).posn() as int,
                utf8_slots(constant_pool@),
            ) is None,
            r matches Ok(a) ==> attr_dispatch_consistent(a, utf8_slots(constant_pool@)),
        decreases self.bytes().len() - self.posn(), 0int,
    {
        let ghost all = self.bytes();
        let ghost es = self.posn();
        let ghost names = utf8_slots(constant_pool@);
        let attribute_name_index = self.read_ref()?;
        let ghost p_name = self.posn();
        let attribute_length = self.reader.read_unsigned_int()?;
        let ghost p_len = self.posn();
        proof {
            lemma_pow256_values();
            lemma_be_val_of_enc(all, es as int, (attribute_name_index + 1) as nat, 2);
            lemma_be_val_of_enc(all, p_name as int, attribute_length as nat, 4);
            assert(names.len() == constant_pool@.len());
        }
        let name_slot = attribute_name_index as usize + 1;
        if name_slot >= constant_pool.len() {
            proof {
                assert(parse_attr_name(all, es as int, names) is None);
            }
            return Err(
                DeserializeError {
                    kind: DeserializeErrorKind::Malformed { pos: self.reader.position() },
                    message: String::from_str("attribute name reference outside the symbol table"),
                },
            );
        }
        proof {
            assert(names[name_slot as int] == slot_utf8(constant_pool@[name_slot as int]));
        }
        let kind = match &constant_pool[name_slot] {
            Some(CpInfo::ConstantUtf8Info { bytes, .. }) => {
                proof {
                    assert(parse_attr_name(all, es as int, names) == Some(bytes@));
                }
                classify_attr_name(bytes)
            },
            _ => {
                proof {
                    assert(parse_attr_name(all, es as int, names) is None);
                }
                return Err(
                    DeserializeError {
                        kind: DeserializeErrorKind::Malformed { pos: self.reader.position() },
                        message: String::from_str(
                            "attribute name does not resolve to a UTF-8 entry",
                        ),
                    },
                );
            },
        };
        match kind {
            AttributeNameKind::SourceFile => {
                let sourcefile_index = self.reader.read_unsigned_short()?;
                let attr = AttributeInfo::SourceFile {
                    attribute_name_index,
                    attribute_length,
                    sourcefile_index,
                };
                proof {
                    lemma_subrange_split(all, es as int, p_name as int, p_len as int);
                    lemma_subrange_split(all, es as int, p_len as int, self.posn() as int);
                    assert(all.subrange(es as int, self.posn() as int) =~= enc_attr(attr));
                    assert(parse_attr(all, es as int, names) == Some(self.posn() as int));
                    assert(attr_dispatch_consistent(attr, names));
                }
                Ok(attr)
            },
            AttributeNameKind::ConstantValue => {
                let constantvalue_index = self.read_ref()?;
                let attr = AttributeInfo::ConstantValue {
                    attribute_name_index,
                    attribute_length,
                    constantvalue_index,
                };
                proof {
                    lemma_subrange_split(all, es as int, p_name as int, p_len as int);
                    lemma_subrange_split(all, es as int, p_len as int, self.posn() as int);
                    assert(all.subrange(es as int, self.posn() as int) =~= enc_attr(attr));
                    assert(parse_attr(all, es as int, names) == Some(self.posn() as int));
                    assert(attr_dispatch_consistent(attr, names));
                }
                Ok(attr)
            },
            AttributeNameKind::Code => {
                let max_stack = self.reader.read_unsigned_short()?;
                let ghost p_ms = self.posn();
                let max_locals = self.reader.read_unsigned_short()?;
                let ghost p_ml = self.posn();
                let code_length = self.reader.read_unsigned_int()?;
                let ghost p_cl = self.posn();
                proof {
                    lemma_be_val_of_enc(all, p_ml as int, code_length as nat, 4);
                }
                if code_length == 0 {
                    return Err(
                        DeserializeError {
                            kind: DeserializeErrorKind::Malformed { pos: self.reader.position() },
                            message: String::from_str("a Code attribute with no instruction bytes"),
                        },
                    );
                }
                let code = self.read_blob(code_length as usize)?;
                let ghost p_code = self.posn();
                let exception_table_length = self.reader.read_unsigned_short()?;
                let ghost p_etl = self.posn();
                proof {
                    lemma_be_val_of_enc(all, p_code as int, exception_table_length as nat, 2);
                }
                let exception_table = self.read_exception_table(exception_table_length)?;
                let ghost p_ht = self.posn();
                let code_attributes_count = self.reader.read_unsigned_short()?;
                let ghost p_cac = self.posn();
                proof {
                    lemma_be_val_of_enc(all, p_ht as int, code_attributes_count as nat, 2);
                }
                let code_attributes = self.deserialize_attributes(
                    code_attributes_count,
                    constant_pool,
                )?;
                let attr = AttributeInfo::Code {
                    attribute_name_index,
                    attribute_length,
                    max_stack,
                    max_locals,
                    code_length,
                    code,
                    exception_table_length,
                    exception_table,
                    code_attributes_count,
                    code_attributes,
                };
                proof {
                    lemma_subrange_split(all, es as int, p_name as int, p_len as int);
                    lemma_subrange_split(all, es as int, p_len as int, p_ms as int);
                    lemma_subrange_split(all, es as int, p_ms as int, p_ml as int);
                    lemma_subrange_split(all, es as int, p_ml as int, p_cl as int);
                    lemma_subrange_split(all, es as int, p_cl as int, p_code as int);
                    lemma_subrange_split(all, es as int, p_code as int, p_etl as int);
                    lemma_subrange_split(all, es as int, p_etl as int, p_ht as int);
                    lemma_subrange_split(all, es as int, p_ht as int, p_cac as int);
                    lemma_subrange_split(all, es as int, p_cac as int, self.posn() as int);
                    assert(all.subrange(es as int, self.posn() as int) =~= enc_attr(attr));
                    assert(attr.well_formed());
                    assert(parse_attr(all, es as int, names) == Some(self.posn() as int));
                    assert(attr_dispatch_consistent(attr, names));
                }
                Ok(attr)
            },
            AttributeNameKind::Exceptions => {
                let number_of_exceptions = self.reader.read_unsigned_short()?;
                let ghost p_cnt = self.posn();
                proof {
                    lemma_be_val_of_enc(all, p_len as int, number_of_exceptions as nat, 2);
                }
                let exception_index_table = self.read_exception_index_table(number_of_exceptions)?;
                let attr = AttributeInfo::Exceptions {
                    attribute_name_index,
                    attribute_length,
                    number_of_exceptions,
                    exception_index_table,
                };
                proof {
                    lemma_subrange_split(all, es as int, p_name as int, p_len as int);
                    lemma_subrange_split(all, es as int, p_len as int, p_cnt as int);
                    lemma_subrange_split(all, es as int, p_cnt as int, self.posn() as int);
                    assert(all.subrange(es as int, self.posn() as int) =~= enc_attr(attr));
                    assert(attr.well_formed());
                    assert(parse_attr(all, es as int, names) == Some(self.posn() as int));
                    assert(attr_dispatch_consistent(attr, names));
                }
                Ok(attr)
            },
            AttributeNameKind::LineNumberTable => {
                let line_number_table_length = self.reader.read_unsigned_short()?;
                let ghost p_cnt = self.posn();
                proof {
                    lemma_be_val_of_enc(all, p_len as int, line_number_table_length as nat, 2);
                }
                let line_number_table = self.read_line_number_table(line_number_table_length)?;
                let attr = AttributeInfo::LineNumberTable {
                    attribute_name_index,
                    attribute_length,
                    line_number_table_length,
                    line_number_table,
                };
                proof {
                    lemma_subrange_split(all, es as int, p_name as int, p_len as int);
                    lemma_subrange_split(all, es as int, p_len as int, p_cnt as int);
                    lemma_subrange_split(all, es as int, p_cnt as int, self.posn() as int);
                    assert(all.subrange(es as int, self.posn() as int) =~= enc_attr(attr));
                    assert(attr.well_formed());
                    assert(parse_attr(all, es as int, names) == Some(self.posn() as int));
                    assert(attr_dispatch_consistent(attr, names));
                }
                Ok(attr)
            },
            AttributeNameKind::LocalVariableTable => {
                let local_variable_table_length = self.reader.read_unsigned_short()?;
                let ghost p_cnt = self.posn();
                proof {
                    lemma_be_val_of_enc(all, p_len as int, local_variable_table_length as nat, 2);
                }
                let local_variable_table = self.read_local_variable_table(
                    local_variable_table_length,
                )?;
                let attr = AttributeInfo::LocalVariableTable {
                    attribute_name_index,
                    attribute_length,
                    local_variable_table_length,
                    local_variable_table,
                };
                proof {
                    lemma_subrange_split(all, es as int, p_name as int, p_len as int);
                    lemma_subrange_split(all, es as int, p_len as int, p_cnt as int);
                    lemma_subrange_split(all, es as int, p_cnt as int, self.posn() as int);
                    assert(all.subrange(es as int, self.posn() as int) =~= enc_attr(attr));
                    assert(attr.well_formed());
                    assert(parse_attr(all, es as int, names) == Some(self.posn() as int));
                    assert(attr_dispatch_consistent(attr, names));
                }
                Ok(attr)
            },
            AttributeNameKind::Unrecognized => {
                let info = self.read_blob(attribute_length as usize)?;
                let attr = AttributeInfo::Unrecognized {
                    attribute_name_index,
                    attribute_length,
                    info,
                };
                proof {
                    lemma_subrange_split(all, es as int, p_name as int, p_len as int);
                    lemma_subrange_split(all, es as int, p_len as int, self.posn() as int);
                    assert(all.subrange(es as int, self.posn() as int) =~= enc_attr(attr));
                    assert(parse_attr(all, es as int, names) == Some(self.posn() as int));
                    assert(attr_dispatch_consistent(attr, names));
                }
                Ok(attr)
            },
        }
    }

    /// Decode `attributes_count` attribute records in file order. The symbol
    /// table is consulted to resolve each attribute's name string; a `Code`
    /// attribute recursively decodes its own attribute list.
    #[verifier::loop_isolation(false)]
    fn deserialize_attributes(
        &mut self,
        attributes_count: u16,
        constant_pool: &Vec<Option<CpInfo>>,
    ) -> (r: DeserializeResult<Vec<AttributeInfo>>)
        requires
            old(self).posn() <= old(self).bytes().len(),
        ensures
            final(self).bytes() == old(self).bytes(),
            old(self).posn() <= final(self).posn() <= final(self).bytes().len(),
            r matches Ok(attrs) ==> attrs@.len() == attributes_count as int && attrs_wf(attrs@)
                && old(self).bytes().subrange(old(self).posn() as int, final(self).posn() as int)
                == enc_attrs(attrs@),
            r matches Ok(attrs) ==> attrs_dispatch_consistent(attrs@, utf8_slots(constant_pool@)),
            r matches Ok(attrs) ==> parse_attrs(
                old(self).bytes(),
                old(self).posn() as int,
                attributes_count as int,
                utf8_slots(constant_pool@),
            ) == Some(final(self).posn() as int),
            r is Err ==> parse_attrs(
                old(self).bytes(),
                old(self).posn() as int,
                attributes_count as int,
                utf8_slots(constant_pool@),
            ) is None,
        decreases self.bytes().len() - self.posn(), 1int,
    {
        let ghost all = self.bytes();
        let ghost start = self.posn();
        let ghost names = utf8_slots(constant_pool@);
        let mut attributes: Vec<AttributeInfo> = Vec::new();
        let mut i: u16 = 0;
        proof {
            assert(all.subrange(start as int, start as int) =~= enc_attrs(attributes@));
        }
        while i < attributes_count
            invariant
                i <= attributes_count,
                attributes@.len() == i as int,
                attrs_wf(attributes@),
                attrs_dispatch_consistent(attributes@, names),
                self.bytes() == all,
                start <= self.posn() <= all.len(),
                all.subrange(start as int, self.posn() as int) == enc_attrs(attributes@),
                parse_attrs(all, start as int, attributes_count as int, names) == parse_attrs(
                    all,
                    self.posn() as int,
                    attributes_count as int - i as int,
                    names,
                ),
            decreases attributes_count - i,
        {
            let ghost attrs_prev = attributes@;
            let ghost row_start = self.posn();
            let attribute = self.deserialize_attribute(constant_pool)?;
            let ghost a = attribute;
            attributes.push(attribute);
            proof {
                lemma_attrs_wf_push(attrs_prev, a);
                lemma_attrs_dispatch_consistent_push(attrs_prev, a, names);
                lemma_enc_attrs_push(attrs_prev, a);
                lemma_subrange_split(all, start as int, row_start as int, self.posn() as int);
                assert(all.subrange(start as int, self.posn() as int) =~= enc_attrs(attributes@));
                assert(parse_attrs(
                    all,
                    row_start as int,
                    attributes_count as int - i as int,
                    names,
                ) == parse_attrs(
                    all,
                    self.posn() as int,
                    attributes_count as int - i as int - 1,
                    names,
                ));
            }
            i = i + 1;
        }
        proof {
            assert(parse_attrs(all, self.posn() as int, 0, names) == Some(self.posn() as int));
        }
        Ok(attributes)
    }

    /// Decode `fields_count` field records in file order.
    #[verifier::loop_isolation(false)]
    fn deserialize_fields(&mut self, fields_count: u16, constant_pool: &Vec<Option<CpInfo>>) -> (r:
        DeserializeResult<Vec<FieldInfo>>)
        requires
            old(self).posn() <= old(self).bytes().len(),
        ensures
            final(self).bytes() == old(self).bytes(),
            old(self).posn() <= final(self).posn() <= final(self).bytes().len(),
            r matches Ok(fields) ==> fields@.len() == fields_count as int && (forall|k: int|
                0 <= k < fields@.len() ==> (#[trigger] fields@[k]).well_formed()) && old(
                self,
            ).bytes().subrange(old(self).posn() as int, final(self).posn() as int) == enc_fields(
                fields@,
            ),
            r matches Ok(fields) ==> (forall|k: int|
                0 <= k < fields@.len() ==> attrs_dispatch_consistent(
                    (#[trigger] fields@[k]).attributes@,
                    utf8_slots(constant_pool@),
                )),
            r matches Ok(fields) ==> parse_member_records(
                old(self).bytes(),
                old(self).posn() as int,
                fields_count as int,
                utf8_slots(constant_pool@),
            ) == Some(final(self).posn() as int),
            r is Err ==> parse_member_records(
                old(self).bytes(),
                old(self).posn() as int,
                fields_count as int,
                utf8_slots(constant_pool@),
            ) is None,
    {
        let ghost all = self.bytes();
        let ghost start = self.posn();
        let ghost names = utf8_slots(constant_pool@);
        let mut fields: Vec<FieldInfo> = Vec::new();
        let mut i: u16 = 0;
        proof {
            assert(all.subrange(start as int, start as int) =~= enc_fields(fields@));
        }
        while i < fields_count
            invariant
                i <= fields_count,
                fields@.len() == i as int,
                forall|k: int| 0 <= k < fields@.len() ==> (#[trigger] fields@[k]).well_formed(),
                forall|k: int|
                    0 <= k < fields@.len() ==> attrs_dispatch_consistent(
                        (#[trigger] fields@[k]).attributes@,
                        names,
                    ),
                self.bytes() == all,
                start <= self.posn() <= all.len(),
                all.subrange(start as int, self.posn() as int) == enc_fields(fields@),
                parse_member_records(all, start as int, fields_count as int, names)
                    == parse_member_records(
                    all,
                    self.posn() as int,
                    fields_count as int - i as int,
                    names,
                ),
            decreases fields_count - i,
        {
            let ghost fields_prev = fields@;
            let ghost row_start = self.posn();
            let access_flags = self.reader.read_unsigned_short()?;
            let ghost r1 = self.posn();
            let name_index = self.read_ref()?;
            let ghost r2 = self.posn();
            let descriptor_index = self.read_ref()?;
            let ghost r3 = self.posn();
            let attributes_count = self.reader.read_unsigned_short()?;
            let ghost r4 = self.posn();
            proof {
                lemma_pow256_values();
                lemma_be_val_of_enc(all, r3 as int, attributes_count as nat, 2);
            }
            let attributes = self.deserialize_attributes(attributes_count, constant_pool)?;
            let field = FieldInfo {
                access_flags,
                name_index,
                descriptor_index,
                attributes_count,
                attributes,
            };
            let ghost f = field;
            fields.push(field);
            proof {
                lemma_subrange_split(all, row_start as int, r1 as int, r2 as int);
                lemma_subrange_split(all, row_start as int, r2 as int, r3 as int);
                lemma_subrange_split(all, row_start as int, r3 as int, r4 as int);
                lemma_subrange_split(all, row_start as int, r4 as int, self.posn() as int);
                assert(all.subrange(row_start as int, self.posn() as int) =~= enc_field(f));
                lemma_enc_fields_push(fields_prev, f);
                lemma_subrange_split(all, start as int, row_start as int, self.posn() as int);
                assert(all.subrange(start as int, self.posn() as int) =~= enc_fields(fields@));
            }
            i = i + 1;
        }
        Ok(fields)
    }

    /// Decode `methods_count` method records in file order.
    #[verifier::loop_isolation(false)]
    fn deserialize_methods(
        &mut self,
        methods_count: u16,
        constant_pool: &Vec<Option<CpInfo>>,
    ) -> (r: DeserializeResult<Vec<MethodInfo>>)
        requires
            old(self).posn() <= old(self).bytes().len(),
        ensures
            final(self).bytes() == old(self).bytes(),
            old(self).posn() <= final(self).posn() <= final(self).bytes().len(),
            r matches Ok(methods) ==> methods@.len() == methods_count as int && (forall|k: int|
                0 <= k < methods@.len() ==> (#[trigger] methods@[k]).well_formed()) && old(
                self,
            ).bytes().subrange(old(self).posn() as int, final(self).posn() as int) == enc_methods(
                methods@,
            ),
            r matches Ok(methods) ==> (forall|k: int|
                0 <= k < methods@.len() ==> attrs_dispatch_consistent(
                    (#[trigger] methods@[k]).attributes@,
                    utf8_slots(constant_pool@),
                )),
            r matches Ok(methods) ==> parse_member_records(
                old(self).bytes(),
                old(self).posn() as int,
                methods_count as int,
                utf8_slots(constant_pool@),
            ) == Some(final(self).posn() as int),
            r is Err ==> parse_member_records(
                old(self).bytes(),
                old(self).posn() as int,
                methods_count as int,
                utf8_slots(constant_pool@),
            ) is None,
    {
        let ghost all = self.bytes();
        let ghost start = self.posn();
        let ghost names = utf8_slots(constant_pool@);
        let mut methods: Vec<MethodInfo> = Vec::new();
        let mut i: u16 = 0;
        proof {
            assert(all.subrange(start as int, start as int) =~= enc_methods(methods@));
        }
        while i < methods_count
            invariant
                i <= methods_count,
                methods@.len() == i as int,
                forall|k: int| 0 <= k < methods@.len() ==> (#[trigger] methods@[k]).well_formed(),
                forall|k: int|
                    0 <= k < methods@.len() ==> attrs_dispatch_consistent(
                        (#[trigger] methods@[k]).attributes@,
                        names,
                    ),
                self.bytes() == all,
                start <= self.posn() <= all.len(),
                all.subrange(start as int, self.posn() as int) == enc_methods(methods@),
                parse_member_records(all, start as int, methods_count as int, names)
                    == parse_member_records(
                    all,
                    self.posn() as int,
                    methods_count as int - i as int,
                    names,
                ),
            decreases methods_count - i,
        {
            let ghost methods_prev = methods@;
            let ghost row_start = self.posn();
            let access_flags = self.reader.read_unsigned_short()?;
            let ghost r1 = self.posn();
            let name_index = self.read_ref()?;
            let ghost r2 = self.posn();
            let descriptor_index = self.read_ref()?;
            let ghost r3 = self.posn();
            let attributes_count = self.reader.read_unsigned_short()?;
            let ghost r4 = self.posn();
            proof {
                lemma_pow256_values();
                lemma_be_val_of_enc(all, r3 as int, attributes_count as nat, 2);
            }
            let attributes = self.deserialize_attributes(attributes_count, constant_pool)?;
            let method = MethodInfo {
                access_flags,
                name_index,
                descriptor_index,
                attributes_count,
                attributes,
            };
            let ghost m = method;
            methods.push(method);
            proof {
                lemma_subrange_split(all, row_start as int, r1 as int, r2 as int);
                lemma_subrange_split(all, row_start as int, r2 as int, r3 as int);
                lemma_subrange_split(all, row_start as int, r3 as int, r4 as int);
                lemma_subrange_split(all, row_start as int, r4 as int, self.posn() as int);
                assert(all.subrange(row_start as int, self.posn() as int) =~= enc_method(m));
                lemma_enc_methods_push(methods_prev, m);
                lemma_subrange_split(all, start as int, row_start as int, self.posn() as int);
                assert(all.subrange(start as int, self.posn() as int) =~= enc_methods(methods@));
            }
            i = i + 1;
        }
        Ok(methods)
    }

    /// Read the interface references, kept exactly as they appear on the
    /// wire.
    #[verifier::loop_isolation(false)]
    fn read_interfaces(&mut self, interfaces_count: u16) -> (r: DeserializeResult<Vec<u16>>)
        requires
            old(self).posn() <= old(self).bytes().len(),
        ensures
            final(self).bytes() == old(self).bytes(),
            old(self).posn() <= final(self).posn() <= final(self).bytes().len(),
            r matches Ok(t) ==> t@.len() == interfaces_count as int && old(self).bytes().subrange(
                old(self).posn() as int,
                final(self).posn() as int,
            ) == enc_interfaces(t@),
            r matches Ok(t) ==> parse_interface_rows(
                old(self).bytes(),
                old(self).posn() as int,
                interfaces_count as int,
            ) == Some(final(self).posn() as int),
            r is Err ==> parse_interface_rows(
                old(self).bytes(),
                old(self).posn() as int,
                interfaces_count as int,
            ) is None,
    {
        let ghost all = self.bytes();
        let ghost start = self.posn();
        let mut interfaces: Vec<u16> = Vec::new();
        let mut i: u16 = 0;
        proof {
            assert(all.subrange(start as int, start as int) =~= enc_interfaces(interfaces@));
        }
        while i < interfaces_count
            invariant
                i <= interfaces_count,
                interfaces@.len() == i as int,
                self.bytes() == all,
                start <= self.posn() <= all.len(),
                all.subrange(start as int, self.posn() as int) == enc_interfaces(interfaces@),
                parse_interface_rows(all, start as int, interfaces_count as int)
                    == parse_interface_rows(
                    all,
                    self.posn() as int,
                    interfaces_count as int - i as int,
                ),
            decreases interfaces_count - i,
        {
            let ghost table_prev = interfaces@;
            let ghost row_start = self.posn();
            let iface = self.reader.read_unsigned_short()?;
            interfaces.push(iface);
            proof {
                lemma_enc_interfaces_push(table_prev, iface);
                lemma_subrange_split(all, start as int, row_start as int, self.posn() as int);
                assert(all.subrange(start as int, self.posn() as int) =~= enc_interfaces(
                    interfaces@,
                ));
                assert(parse_interface_rows(all, row_start as int, interfaces_count as int
                    - i as int) == parse_interface_rows(
                    all,
                    self.posn() as int,
                    interfaces_count as int - i as int - 1,
                ));
            }
            i = i + 1;
        }
        proof {
            assert(parse_interface_rows(all, self.posn() as int, 0) == Some(self.posn() as int));
        }
        Ok(interfaces)
    }

    /// Decode a whole class file, in file order. On success the model is
    /// well-formed and the bytes consumed are exactly its wire encoding, so
    /// re-encoding it reproduces the input.
    pub fn deserialize(&mut self) -> (r: DeserializeResult<ClassFile>)
        ensures
            final(self).bytes() == old(self).bytes(),
            old(self).posn() <= final(self).posn(),
            r matches Ok(cf) ==> cf.well_formed() && final(self).posn() <= final(self).bytes().len()
                && old(self).bytes().subrange(
                old(self).posn() as int,
                final(self).posn() as int,
            ) == enc_class_file(cf),
            r matches Ok(cf) ==> attrs_dispatch_consistent(
                cf.attributes@,
                utf8_slots(cf.constant_pool@),
            ) && (forall|k: int|
                0 <= k < cf.fields@.len() ==> attrs_dispatch_consistent(
                    (#[trigger] cf.fields@[k]).attributes@,
                    utf8_slots(cf.constant_pool@),
                )) && (forall|k: int|
                0 <= k < cf.methods@.len() ==> attrs_dispatch_consistent(
                    (#[trigger] cf.methods@[k]).attributes@,
                    utf8_slots(cf.constant_pool@),
                )),
            r matches Ok(cf) ==> parse_class_file(old(self).bytes(), old(self).posn() as int)
                == Some(final(self).posn() as int),
            r is Err <==> parse_class_file(old(self).bytes(), old(self).posn() as int) is None,
    {
        let ghost all = self.bytes();
        let ghost start = self.posn();
        let magic = self.reader.read_unsigned_int()?;
        let ghost p1 = self.posn();
        let minor_version = self.reader.read_unsigned_short()?;
        let ghost p2 = self.posn();
        let major_version = self.reader.read_unsigned_short()?;
        let ghost p3 = self.posn();
        let constant_pool_count = self.reader.read_unsigned_short()?;
        let ghost p4 = self.posn();
        proof {
            lemma_pow256_values();
            lemma_be_val_of_enc(all, p3 as int, constant_pool_count as nat, 2);
        }
        if constant_pool_count == 0 {
            return Err(
                DeserializeError {
                    kind: DeserializeErrorKind::Malformed { pos: self.reader.position() },
                    message: String::from_str("a symbol table with no slots at all"),
                },
            );
        }
        let constant_pool = self.deserialize_constant_pool(constant_pool_count)?;
        let ghost p5 = self.posn();
        let access_flags = self.reader.read_unsigned_short()?;
        let ghost p6 = self.posn();
        let this_class = self.read_ref()?;
        let ghost p7 = self.posn();
        let super_class = self.read_nullable_ref()?;
        let ghost p8 = self.posn();
        let interfaces_count = self.reader.read_unsigned_short()?;
        let ghost p9 = self.posn();
        proof {
            lemma_be_val_of_enc(all, p8 as int, interfaces_count as nat, 2);
        }
        let interfaces = self.read_interfaces(interfaces_count)?;
        let ghost p10 = self.posn();
        let fields_count = self.reader.read_unsigned_short()?;
        let ghost p11 = self.posn();
        proof {
            lemma_be_val_of_enc(all, p10 as int, fields_count as nat, 2);
        }
        let fields = self.deserialize_fields(fields_count, &constant_pool)?;
        let ghost p12 = self.posn();
        let methods_count = self.reader.read_unsigned_short()?;
        let ghost p13 = self.posn();
        proof {
            lemma_be_val_of_enc(all, p12 as int, methods_count as nat, 2);
        }
        let methods = self.deserialize_methods(methods_count, &constant_pool)?;
        let ghost p14 = self.posn();
        let attributes_count = self.reader.read_unsigned_short()?;
        let ghost p15 = self.posn();
        proof {
            lemma_be_val_of_enc(all, p14 as int, attributes_count as nat, 2);
        }
        let attributes = self.deserialize_attributes(attributes_count, &constant_pool)?;
        let classfile = ClassFile {
            magic,
            minor_version,
            major_version,
            constant_pool_count,
            constant_pool,
            access_flags,
            this_class,
            super_class,
            interfaces_count,
            interfaces,
            fields_count,
            fields,
            methods_count,
            methods,
            attributes_count,
            attributes,
        };
        let ghost cf = classfile;
        proof {
            lemma_subrange_split(all, start as int, p1 as int, p2 as int);
            lemma_subrange_split(all, start as int, p2 as int, p3 as int);
            lemma_subrange_split(all, start as int, p3 as int, p4 as int);
            lemma_subrange_split(all, start as int, p4 as int, p5 as int);
            lemma_subrange_split(all, start as int, p5 as int, p6 as int);
            lemma_subrange_split(all, start as int, p6 as int, p7 as int);
            lemma_subrange_split(all, start as int, p7 as int, p8 as int);
            lemma_subrange_split(all, start as int, p8 as int, p9 as int);
            lemma_subrange_split(all, start as int, p9 as int, p10 as int);
            lemma_subrange_split(all, start as int, p10 as int, p11 as int);
            lemma_subrange_split(all, start as int, p11 as int, p12 as int);
            lemma_subrange_split(all, start as int, p12 as int, p13 as int);
            lemma_subrange_split(all, start as int, p13 as int, p14 as int);
            lemma_subrange_split(all, start as int, p14 as int, p15 as int);
            lemma_subrange_split(all, start as int, p15 as int, self.posn() as int);
            assert(cf.well_formed());
            assert(all.subrange(start as int, self.posn() as int) =~= enc_class_file(cf));
            assert(parse_class_file(all, start as int) == Some(self.posn() as int));
        }
        Ok(classfile)
    }
}

/// Which recognized attribute name, if any, a symbol-table string carries.
enum AttributeNameKind {
    SourceFile,
    ConstantValue,
    Code,
    Exceptions,
    LineNumberTable,
    LocalVariableTable,
    Unrecognized,
}

/// Whether two byte strings hold the same bytes.
#[verifier::loop_isolation(false)]
fn bytes_eq(a: &Vec<u8>, b: &Vec<u8>) -> (r: bool)
    ensures
        r <==> a@ == b@,
{
    if a.len() != b.len() {
        return false;
    }
    let mut i: usize = 0;
    while i < a.len()
        invariant
            0 <= i <= a@.len(),
            a@.len() == b@.len(),
            forall|k: int| 0 <= k < i ==> a@[k] == b@[k],
        decreases a@.len() - i,
    {
        if a[i] != b[i] {
            return false;
        }
        i = i + 1;
    }
    proof {
        assert(a@ =~= b@);
    }
    true
}

/// Classify an attribute name string into the variant its payload is parsed
/// as; anything not recognized keeps its payload as an opaque blob.
fn classify_attr_name(name: &Vec<u8>) -> (k: AttributeNameKind)
    ensures
        k is SourceFile <==> name@ == source_file_name(),
        k is ConstantValue <==> name@ == constant_value_name(),
        k is Code <==> name@ == code_name(),
        k is Exceptions <==> name@ == exceptions_name(),
        k is LineNumberTable <==> name@ == line_number_table_name(),
        k is LocalVariableTable <==> name@ == local_variable_table_name(),
{
    let source_file: Vec<u8> = vec![83u8, 111, 117, 114, 99, 101, 70, 105, 108, 101];
    proof {
        assert(source_file@ =~= source_file_name());
    }
    if bytes_eq(name, &source_file) {
        return AttributeNameKind::SourceFile;
    }
    let constant_value: Vec<u8> = vec![67u8, 111, 110, 115, 116, 97, 110, 116, 86, 97, 108, 117,
        101];
    proof {
        assert(constant_value@ =~= constant_value_name());
    }
    if bytes_eq(name, &constant_value) {
        return AttributeNameKind::ConstantValue;
    }
    let code: Vec<u8> = vec![67u8, 111, 100, 101];
    proof {
        assert(code@ =~= code_name());
    }
    if bytes_eq(name, &code) {
        return AttributeNameKind::Code;
    }
    let exceptions: Vec<u8> = vec![69u8, 120, 99, 101, 112, 116, 105, 111, 110, 115];
    proof {
        assert(exceptions@ =~= exceptions_name());
    }
    if bytes_eq(name, &exceptions) {
        return AttributeNameKind::Exceptions;
    }
    let line_number_table: Vec<u8> = vec![76u8, 105, 110, 101, 78, 117, 109, 98, 101, 114, 84, 97,
        98, 108, 101];
    proof {
        assert(line_number_table@ =~= line_number_table_name());
    }
    if bytes_eq(name, &line_number_table) {
        return AttributeNameKind::LineNumberTable;
    }
    let local_variable_table: Vec<u8> = vec![76u8, 111, 99, 97, 108, 86, 97, 114, 105, 97, 98, 108,
        101, 84, 97, 98, 108, 101];
    proof {
        assert(local_variable_table@ =~= local_variable_table_name());
    }
    if bytes_eq(name, &local_variable_table) {
        return AttributeNameKind::LocalVariableTable;
    }
    AttributeNameKind::Unrecognized
}

} // verus!
