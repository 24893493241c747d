use phoron_core::deserializer::Deserializer;
use phoron_core::error::DeserializeErrorKind;
use phoron_core::model::AttributeInfo::{
    Code, ConstantValue, Exceptions, LineNumberTable, LocalVariableTable, SourceFile, Unrecognized,
};
use phoron_core::model::CpInfo::{
    ConstantClassInfo, ConstantDoubleInfo, ConstantDynamicInfo, ConstantFieldrefInfo,
    ConstantFloatInfo, ConstantIntegerInfo, ConstantInterfaceMethodrefInfo,
    ConstantInvokeDynamicInfo, ConstantLongInfo, ConstantMethodHandleInfo, ConstantMethodTypeInfo,
    ConstantMethodrefInfo, ConstantModuleInfo, ConstantNameAndTypeInfo, ConstantPackageInfo,
    ConstantStringInfo, ConstantUtf8Info,
};
use phoron_core::model::{
    ClassFile, CpInfo, ExceptionHandler, FieldInfo, LineNumber, LocalVariable, MethodInfo,
};
use phoron_core::rw::{Reader, Writer};
use phoron_core::serializer::Serializer;

fn decode(bytes: &[u8]) -> Result<ClassFile, phoron_core::error::DeserializeError> {
    let mut deserializer = Deserializer::new(Reader::new(bytes.to_vec()));
    deserializer.deserialize()
}

fn encode(classfile: &ClassFile) -> Vec<u8> {
    let mut serializer = Serializer::new(Writer::new(Vec::new()));
    serializer.serialize(classfile).unwrap();
    serializer.into_inner()
}

fn minimal_bytes() -> Vec<u8> {
    vec![
        0xca, 0xfe, 0xba, 0xbe, 0x00, 0x03, 0x00, 0x2d, 0x00, 0x0e, 0x0a, 0x00, 0x0d, 0x00, 0x07,
        0x01, 0x00, 0x10, 0x6a, 0x61, 0x76, 0x61, 0x2f, 0x6c, 0x61, 0x6e, 0x67, 0x2f, 0x4f, 0x62,
        0x6a, 0x65, 0x63, 0x74, 0x01, 0x00, 0x0a, 0x53, 0x6f, 0x75, 0x72, 0x63, 0x65, 0x46, 0x69,
        0x6c, 0x65, 0x01, 0x00, 0x06, 0x3c, 0x69, 0x6e, 0x69, 0x74, 0x3e, 0x01, 0x00, 0x04, 0x6d,
        0x61, 0x69, 0x6e, 0x01, 0x00, 0x07, 0x4d, 0x69, 0x6e, 0x69, 0x6d, 0x61, 0x6c, 0x0c, 0x00,
        0x04, 0x00, 0x0b, 0x01, 0x00, 0x04, 0x43, 0x6f, 0x64, 0x65, 0x01, 0x00, 0x0c, 0x4d, 0x69,
        0x6e, 0x69, 0x6d, 0x61, 0x6c, 0x2e, 0x6a, 0x61, 0x76, 0x61, 0x01, 0x00, 0x16, 0x28, 0x5b,
        0x4c, 0x6a, 0x61, 0x76, 0x61, 0x2f, 0x6c, 0x61, 0x6e, 0x67, 0x2f, 0x53, 0x74, 0x72, 0x69,
        0x6e, 0x67, 0x3b, 0x29, 0x56, 0x01, 0x00, 0x03, 0x28, 0x29, 0x56, 0x07, 0x00, 0x06, 0x07,
        0x00, 0x02, 0x00, 0x21, 0x00, 0x0c, 0x00, 0x0d, 0x00, 0x00, 0x00, 0x00, 0x00, 0x02, 0x00,
        0x01, 0x00, 0x04, 0x00, 0x0b, 0x00, 0x01, 0x00, 0x08, 0x00, 0x00, 0x00, 0x11, 0x00, 0x01,
        0x00, 0x01, 0x00, 0x00, 0x00, 0x05, 0x2a, 0xb7, 0x00, 0x01, 0xb1, 0x00, 0x00, 0x00, 0x00,
        0x00, 0x09, 0x00, 0x05, 0x00, 0x0a, 0x00, 0x01, 0x00, 0x08, 0x00, 0x00, 0x00, 0x0d, 0x00,
        0x01, 0x00, 0x01, 0x00, 0x00, 0x00, 0x01, 0xb1, 0x00, 0x00, 0x00, 0x00, 0x00, 0x01, 0x00,
        0x03, 0x00, 0x00, 0x00, 0x02, 0x00, 0x09,
    ]
}

fn utf8_of(classfile: &ClassFile, slot: u16) -> Vec<u8> {
    match &classfile.constant_pool[slot as usize] {
        Some(ConstantUtf8Info { bytes, .. }) => bytes.clone(),
        other => panic!("slot {} is not a UTF-8 entry: {:?}", slot, other),
    }
}

fn class_name_slot(classfile: &ClassFile, reference: u16) -> u16 {
    match &classfile.constant_pool[reference as usize + 1] {
        Some(ConstantClassInfo { name_index, .. }) => *name_index + 1,
        other => panic!("reference {} is not a class entry: {:?}", reference, other),
    }
}

#[test]
// Round trip: re-encoding a decoded class file reproduces its bytes exactly.
fn round_trip_minimal() {
    let bytes = minimal_bytes();
    let classfile = decode(&bytes).unwrap();
    assert_eq!(encode(&classfile), bytes);
}

#[test]
// A class file may hold nothing but its header and an empty symbol table;
// it still round-trips byte for byte.
fn round_trip_empty_symbol_table() {
    let bytes = vec![
        0xca, 0xfe, 0xba, 0xbe, 0x00, 0x00, 0x00, 0x34, 0x00, 0x01, 0x00, 0x21, 0x00, 0x01, 0x00,
        0x00, 0x00, 0x00, 0x00, 0x00, 0x00, 0x00, 0x00, 0x00,
    ];
    let classfile = decode(&bytes).unwrap();
    assert_eq!(classfile.constant_pool_count, 1);
    assert_eq!(classfile.this_class, 0);
    assert_eq!(classfile.super_class, 0);
    assert_eq!(encode(&classfile), bytes);
}

#[test]
// Index normalization symmetry, observed end to end: non-sentinel references
// come back as the 1-based wire value minus one, the 0 sentinel survives
// unchanged, and re-encoding restores every wire value.
fn normalization_is_symmetric() {
    let bytes = minimal_bytes();
    let classfile = decode(&bytes).unwrap();
    // this_class is #12 on the wire, 11 in the model
    assert_eq!(classfile.this_class, 11);
    // super_class is #13 on the wire, 12 in the model (0 would mean "none")
    assert_eq!(classfile.super_class, 12);
    match &classfile.constant_pool[1] {
        Some(ConstantMethodrefInfo { class_index, name_and_type_index, .. }) => {
            assert_eq!(*class_index, 12);
            assert_eq!(*name_and_type_index, 6);
        }
        other => panic!("slot 1 should be a method reference: {:?}", other),
    }
    assert_eq!(encode(&classfile), bytes);
}

#[test]
// Double-width slot skipping: a long entry at logical slot 1 reserves slot 2,
// which decodes as an empty slot, never as an entry of its own.
fn double_width_slot_is_reserved() {
    let bytes = vec![
        0xca, 0xfe, 0xba, 0xbe, 0x00, 0x00, 0x00, 0x34, 0x00, 0x04, 0x05, 0x00, 0x00, 0x00, 0x00,
        0x00, 0x00, 0x00, 0x2a, 0x01, 0x00, 0x01, 0x78, 0x00, 0x21, 0x00, 0x03, 0x00, 0x00, 0x00,
        0x00, 0x00, 0x00, 0x00, 0x00, 0x00, 0x00,
    ];
    let classfile = decode(&bytes).unwrap();
    assert_eq!(classfile.constant_pool.len(), 4);
    assert!(matches!(
        classfile.constant_pool[1],
        Some(ConstantLongInfo { tag: 5, high_bytes: 0, low_bytes: 42 })
    ));
    assert!(classfile.constant_pool[2].is_none());
    assert!(matches!(classfile.constant_pool[3], Some(ConstantUtf8Info { .. })));
    assert_eq!(encode(&classfile), bytes);
}

#[test]
// A long entry in the table's last slot leaves no room for its reserved
// successor slot and is rejected as malformed.
fn double_width_without_room_is_rejected() {
    let bytes = vec![
        0xca, 0xfe, 0xba, 0xbe, 0x00, 0x00, 0x00, 0x34, 0x00, 0x02, 0x05, 0x00, 0x00, 0x00, 0x00,
        0x00, 0x00, 0x00, 0x2a,
    ];
    let err = decode(&bytes).unwrap_err();
    assert!(matches!(err.kind, DeserializeErrorKind::Malformed { .. }));
}

#[test]
// Unrecognized tag rejection: a symbol-table entry with tag byte 0xFF fails
// decode with an unrecognized-tag error naming the tag and its position.
fn unrecognized_tag_is_rejected() {
    let bytes = vec![
        0xca, 0xfe, 0xba, 0xbe, 0x00, 0x00, 0x00, 0x34, 0x00, 0x02, 0xff, 0x00, 0x00,
    ];
    let err = decode(&bytes).unwrap_err();
    assert!(matches!(
        err.kind,
        DeserializeErrorKind::UnrecognizedTag { tag: 0xff, pos: 10 }
    ));
}

#[test]
// A stream that ends before a field is satisfied fails with an
// end-of-input error, not a crash.
fn truncated_stream_is_rejected() {
    let bytes = vec![0xca, 0xfe];
    let err = decode(&bytes).unwrap_err();
    assert!(matches!(err.kind, DeserializeErrorKind::UnexpectedEof));
}

#[test]
// A symbol-table slot count of zero cannot hold even the reserved slot 0.
fn empty_slot_count_is_rejected() {
    let bytes = vec![0xca, 0xfe, 0xba, 0xbe, 0x00, 0x00, 0x00, 0x34, 0x00, 0x00];
    let err = decode(&bytes).unwrap_err();
    assert!(matches!(err.kind, DeserializeErrorKind::Malformed { .. }));
}

#[test]
// A non-nullable reference with wire value 0 names the reserved slot and is
// rejected.
fn zero_reference_is_rejected() {
    let bytes = vec![
        0xca, 0xfe, 0xba, 0xbe, 0x00, 0x00, 0x00, 0x34, 0x00, 0x01, 0x00, 0x21, 0x00, 0x00,
    ];
    let err = decode(&bytes).unwrap_err();
    assert!(matches!(err.kind, DeserializeErrorKind::Malformed { .. }));
}

#[test]
// A nullable reference with wire value 1 would collapse onto the 0 sentinel
// when normalized, so the decoder rejects it rather than lose the
// distinction.
fn nullable_slot_one_is_rejected() {
    let bytes = vec![
        0xca, 0xfe, 0xba, 0xbe, 0x00, 0x00, 0x00, 0x34, 0x00, 0x01, 0x00, 0x21, 0x00, 0x01, 0x00,
        0x01,
    ];
    let err = decode(&bytes).unwrap_err();
    assert!(matches!(err.kind, DeserializeErrorKind::Malformed { .. }));
}

#[test]
// A Code attribute whose instruction sequence is empty is structurally
// invalid and rejected as malformed.
fn zero_code_length_is_rejected() {
    let bytes = vec![
        0xca, 0xfe, 0xba, 0xbe, 0x00, 0x00, 0x00, 0x34, // header
        0x00, 0x02, // two slots
        0x01, 0x00, 0x04, 0x43, 0x6f, 0x64, 0x65, // slot 1: Utf8 "Code"
        0x00, 0x21, 0x00, 0x01, 0x00, 0x00, // flags, this #1, super 0
        0x00, 0x00, 0x00, 0x00, // no interfaces, no fields
        0x00, 0x01, // one method
        0x00, 0x01, 0x00, 0x01, 0x00, 0x01, 0x00, 0x01, // flags, name #1, desc #1, one attribute
        0x00, 0x01, 0x00, 0x00, 0x00, 0x0c, // attribute name #1 ("Code"), length 12
        0x00, 0x01, 0x00, 0x01, 0x00, 0x00, 0x00, 0x00, // max stack, max locals, code length 0
    ];
    let err = decode(&bytes).unwrap_err();
    assert!(matches!(err.kind, DeserializeErrorKind::Malformed { .. }));
}

#[test]
// An attribute name that does not resolve to a UTF-8 symbol-table entry is
// rejected as malformed.
fn attribute_name_must_be_utf8() {
    let bytes = vec![
        0xca, 0xfe, 0xba, 0xbe, 0x00, 0x00, 0x00, 0x34, // header
        0x00, 0x02, // two slots
        0x07, 0x00, 0x01, // slot 1: a class entry, not UTF-8
        0x00, 0x21, 0x00, 0x01, 0x00, 0x00, // flags, this #1, super 0
        0x00, 0x00, 0x00, 0x00, 0x00, 0x00, // no interfaces, fields, methods
        0x00, 0x01, // one class attribute
        0x00, 0x01, 0x00, 0x00, 0x00, 0x00, // attribute name #1, length 0
    ];
    let err = decode(&bytes).unwrap_err();
    assert!(matches!(err.kind, DeserializeErrorKind::Malformed { .. }));
}

#[test]
// Recursive attributes: a Code attribute with a nested LineNumberTable
// decodes both levels and re-encodes with matching byte lengths.
fn nested_code_attributes_round_trip() {
    let classfile = ClassFile {
        magic: 0xcafebabe,
        minor_version: 0,
        major_version: 52,
        constant_pool_count: 5,
        constant_pool: vec![
            None,
            Some(ConstantUtf8Info { tag: 1, length: 4, bytes: b"Code".to_vec() }),
            Some(ConstantUtf8Info { tag: 1, length: 15, bytes: b"LineNumberTable".to_vec() }),
            Some(ConstantUtf8Info { tag: 1, length: 1, bytes: b"a".to_vec() }),
            Some(ConstantUtf8Info { tag: 1, length: 3, bytes: b"()V".to_vec() }),
        ],
        access_flags: 0x0021,
        this_class: 0,
        super_class: 0,
        interfaces_count: 0,
        interfaces: vec![],
        fields_count: 0,
        fields: vec![],
        methods_count: 1,
        methods: vec![MethodInfo {
            access_flags: 1,
            name_index: 2,
            descriptor_index: 3,
            attributes_count: 1,
            attributes: vec![Code {
                attribute_name_index: 0,
                attribute_length: 25,
                max_stack: 1,
                max_locals: 1,
                code_length: 1,
                code: vec![0xb1],
                exception_table_length: 0,
                exception_table: vec![],
                code_attributes_count: 1,
                code_attributes: vec![LineNumberTable {
                    attribute_name_index: 1,
                    attribute_length: 6,
                    line_number_table_length: 1,
                    line_number_table: vec![LineNumber { start_pc: 0, line_number: 7 }],
                }],
            }],
        }],
        attributes_count: 0,
        attributes: vec![],
    };
    let bytes = encode(&classfile);
    let decoded = decode(&bytes).unwrap();
    assert_eq!(decoded, classfile);
    assert_eq!(encode(&decoded), bytes);
}

#[test]
// Every symbol-table entry kind survives an encode-decode round trip.
fn every_entry_kind_round_trips() {
    let classfile = ClassFile {
        magic: 0xcafebabe,
        minor_version: 0,
        major_version: 52,
        constant_pool_count: 20,
        constant_pool: vec![
            None,
            Some(ConstantUtf8Info { tag: 1, length: 1, bytes: b"A".to_vec() }),
            Some(ConstantIntegerInfo { tag: 3, bytes: 7 }),
            Some(ConstantFloatInfo { tag: 4, bytes: 0x4049_0fdb }),
            Some(ConstantLongInfo { tag: 5, high_bytes: 1, low_bytes: 2 }),
            None,
            Some(ConstantDoubleInfo { tag: 6, high_bytes: 3, low_bytes: 4 }),
            None,
            Some(ConstantClassInfo { tag: 7, name_index: 0 }),
            Some(ConstantStringInfo { tag: 8, string_index: 0 }),
            Some(ConstantFieldrefInfo { tag: 9, class_index: 7, name_and_type_index: 12 }),
            Some(ConstantMethodrefInfo { tag: 10, class_index: 7, name_and_type_index: 12 }),
            Some(ConstantInterfaceMethodrefInfo { tag: 11, class_index: 7, name_and_type_index: 12 }),
            Some(ConstantNameAndTypeInfo { tag: 12, name_index: 0, descriptor_index: 0 }),
            Some(ConstantMethodHandleInfo { tag: 15, reference_kind: 5, reference_index: 10 }),
            Some(ConstantMethodTypeInfo { tag: 16, descriptor_index: 0 }),
            Some(ConstantDynamicInfo { tag: 17, bootstrap_method_attr_index: 0, name_and_type_index: 12 }),
            Some(ConstantInvokeDynamicInfo { tag: 18, bootstrap_method_attr_index: 1, name_and_type_index: 12 }),
            Some(ConstantModuleInfo { tag: 19, name_index: 0 }),
            Some(ConstantPackageInfo { tag: 20, name_index: 0 }),
        ],
        access_flags: 0x0021,
        this_class: 7,
        super_class: 0,
        interfaces_count: 2,
        interfaces: vec![8, 9],
        fields_count: 0,
        fields: vec![],
        methods_count: 0,
        methods: vec![],
        attributes_count: 0,
        attributes: vec![],
    };
    let bytes = encode(&classfile);
    let decoded = decode(&bytes).unwrap();
    assert_eq!(decoded, classfile);
    assert_eq!(encode(&decoded), bytes);
}

#[test]
// Every attribute kind — including the opaque blob kept for an unrecognized
// name and the 0 sentinel of a catch-all handler — survives an
// encode-decode round trip.
fn every_attribute_kind_round_trips() {
    let pool: Vec<Option<CpInfo>> = vec![
        None,
        Some(ConstantUtf8Info { tag: 1, length: 4, bytes: b"Code".to_vec() }),
        Some(ConstantUtf8Info { tag: 1, length: 15, bytes: b"LineNumberTable".to_vec() }),
        Some(ConstantUtf8Info { tag: 1, length: 18, bytes: b"LocalVariableTable".to_vec() }),
        Some(ConstantUtf8Info { tag: 1, length: 10, bytes: b"Exceptions".to_vec() }),
        Some(ConstantUtf8Info { tag: 1, length: 13, bytes: b"ConstantValue".to_vec() }),
        Some(ConstantUtf8Info { tag: 1, length: 10, bytes: b"SourceFile".to_vec() }),
        Some(ConstantUtf8Info { tag: 1, length: 6, bytes: b"Custom".to_vec() }),
        Some(ConstantUtf8Info { tag: 1, length: 1, bytes: b"f".to_vec() }),
        Some(ConstantUtf8Info { tag: 1, length: 1, bytes: b"I".to_vec() }),
        Some(ConstantUtf8Info { tag: 1, length: 1, bytes: b"m".to_vec() }),
        Some(ConstantUtf8Info { tag: 1, length: 3, bytes: b"()V".to_vec() }),
        Some(ConstantUtf8Info { tag: 1, length: 6, bytes: b"f.java".to_vec() }),
    ];
    let classfile = ClassFile {
        magic: 0xcafebabe,
        minor_version: 0,
        major_version: 52,
        constant_pool_count: 13,
        constant_pool: pool,
        access_flags: 0x0021,
        this_class: 7,
        super_class: 0,
        interfaces_count: 0,
        interfaces: vec![],
        fields_count: 1,
        fields: vec![FieldInfo {
            access_flags: 2,
            name_index: 7,
            descriptor_index: 8,
            attributes_count: 1,
            attributes: vec![ConstantValue {
                attribute_name_index: 4,
                attribute_length: 2,
                constantvalue_index: 1,
            }],
        }],
        methods_count: 1,
        methods: vec![MethodInfo {
            access_flags: 1,
            name_index: 9,
            descriptor_index: 10,
            attributes_count: 2,
            attributes: vec![
                Code {
                    attribute_name_index: 0,
                    attribute_length: 51,
                    max_stack: 2,
                    max_locals: 3,
                    code_length: 3,
                    code: vec![1, 2, 3],
                    exception_table_length: 2,
                    exception_table: vec![
                        ExceptionHandler { start_pc: 0, end_pc: 1, handler_pc: 2, catch_type: 0 },
                        ExceptionHandler { start_pc: 3, end_pc: 4, handler_pc: 5, catch_type: 7 },
                    ],
                    code_attributes_count: 2,
                    code_attributes: vec![
                        LineNumberTable {
                            attribute_name_index: 1,
                            attribute_length: 10,
                            line_number_table_length: 2,
                            line_number_table: vec![
                                LineNumber { start_pc: 0, line_number: 3 },
                                LineNumber { start_pc: 1, line_number: 4 },
                            ],
                        },
                        LocalVariableTable {
                            attribute_name_index: 2,
                            attribute_length: 12,
                            local_variable_table_length: 1,
                            local_variable_table: vec![LocalVariable {
                                start_pc: 0,
                                length: 3,
                                name_index: 7,
                                descriptor_index: 8,
                                index: 0,
                            }],
                        },
                    ],
                },
                Exceptions {
                    attribute_name_index: 3,
                    attribute_length: 6,
                    number_of_exceptions: 2,
                    exception_index_table: vec![0, 7],
                },
            ],
        }],
        attributes_count: 2,
        attributes: vec![
            SourceFile { attribute_name_index: 5, attribute_length: 2, sourcefile_index: 12 },
            Unrecognized { attribute_name_index: 6, attribute_length: 3, info: vec![9, 8, 7] },
        ],
    };
    let bytes = encode(&classfile);
    let decoded = decode(&bytes).unwrap();
    assert_eq!(decoded, classfile);
    assert_eq!(encode(&decoded), bytes);
}

#[test]
// The concrete scenario: a minimal class with magic CAFEBABE, minor version
// 0, major version 65, a 15-slot symbol table, flags 0x0021, this_class
// resolving to Minimal, super_class resolving to java/lang/Object, two
// methods with their Code attributes, and a SourceFile class attribute.
// Decoding reproduces every field value, and re-encoding the decoded model
// reproduces the bytes exactly.
fn minimal_class_scenario() {
    let bytes = vec![
        0xca, 0xfe, 0xba, 0xbe, 0x00, 0x00, 0x00, 0x41, 0x00, 0x0f, 0x0a, 0x00, 0x0d, 0x00, 0x07,
        0x01, 0x00, 0x10, 0x6a, 0x61, 0x76, 0x61, 0x2f, 0x6c, 0x61, 0x6e, 0x67, 0x2f, 0x4f, 0x62,
        0x6a, 0x65, 0x63, 0x74, 0x01, 0x00, 0x0a, 0x53, 0x6f, 0x75, 0x72, 0x63, 0x65, 0x46, 0x69,
        0x6c, 0x65, 0x01, 0x00, 0x06, 0x3c, 0x69, 0x6e, 0x69, 0x74, 0x3e, 0x01, 0x00, 0x04, 0x6d,
        0x61, 0x69, 0x6e, 0x01, 0x00, 0x07, 0x4d, 0x69, 0x6e, 0x69, 0x6d, 0x61, 0x6c, 0x0c, 0x00,
        0x04, 0x00, 0x0b, 0x01, 0x00, 0x04, 0x43, 0x6f, 0x64, 0x65, 0x01, 0x00, 0x0c, 0x4d, 0x69,
        0x6e, 0x69, 0x6d, 0x61, 0x6c, 0x2e, 0x6a, 0x61, 0x76, 0x61, 0x01, 0x00, 0x16, 0x28, 0x5b,
        0x4c, 0x6a, 0x61, 0x76, 0x61, 0x2f, 0x6c, 0x61, 0x6e, 0x67, 0x2f, 0x53, 0x74, 0x72, 0x69,
        0x6e, 0x67, 0x3b, 0x29, 0x56, 0x01, 0x00, 0x03, 0x28, 0x29, 0x56, 0x07, 0x00, 0x06, 0x07,
        0x00, 0x02, 0x01, 0x00, 0x05, 0x45, 0x78, 0x74, 0x72, 0x61, 0x00, 0x21, 0x00, 0x0c, 0x00,
        0x0d, 0x00, 0x00, 0x00, 0x00, 0x00, 0x02, 0x00, 0x01, 0x00, 0x04, 0x00, 0x0b, 0x00, 0x01,
        0x00, 0x08, 0x00, 0x00, 0x00, 0x11, 0x00, 0x01, 0x00, 0x01, 0x00, 0x00, 0x00, 0x05, 0x2a,
        0xb7, 0x00, 0x01, 0xb1, 0x00, 0x00, 0x00, 0x00, 0x00, 0x09, 0x00, 0x05, 0x00, 0x0a, 0x00,
        0x01, 0x00, 0x08, 0x00, 0x00, 0x00, 0x0d, 0x00, 0x01, 0x00, 0x01, 0x00, 0x00, 0x00, 0x01,
        0xb1, 0x00, 0x00, 0x00, 0x00, 0x00, 0x01, 0x00, 0x03, 0x00, 0x00, 0x00, 0x02, 0x00, 0x09,
    ];
    let classfile = decode(&bytes).unwrap();

    assert_eq!(classfile.magic, 0xcafebabe);
    assert_eq!(classfile.minor_version, 0);
    assert_eq!(classfile.major_version, 65);
    assert_eq!(classfile.constant_pool_count, 15);
    assert_eq!(classfile.access_flags, 0x0021);

    assert_eq!(classfile.this_class, 11);
    let this_name = class_name_slot(&classfile, classfile.this_class);
    assert_eq!(utf8_of(&classfile, this_name), b"Minimal".to_vec());

    assert_eq!(classfile.super_class, 12);
    let super_name = class_name_slot(&classfile, classfile.super_class);
    assert_eq!(utf8_of(&classfile, super_name), b"java/lang/Object".to_vec());

    assert_eq!(classfile.methods.len(), 2);
    assert_eq!(utf8_of(&classfile, classfile.methods[0].name_index + 1), b"<init>".to_vec());
    match &classfile.methods[0].attributes[0] {
        Code { max_stack, max_locals, code, .. } => {
            assert_eq!(*max_stack, 1);
            assert_eq!(*max_locals, 1);
            assert_eq!(code, &vec![0x2a, 0xb7, 0x00, 0x01, 0xb1]);
        }
        other => panic!("expected a Code attribute: {:?}", other),
    }
    assert_eq!(utf8_of(&classfile, classfile.methods[1].name_index + 1), b"main".to_vec());
    match &classfile.methods[1].attributes[0] {
        Code { code, .. } => assert_eq!(code, &vec![0xb1]),
        other => panic!("expected a Code attribute: {:?}", other),
    }

    assert_eq!(classfile.attributes.len(), 1);
    match &classfile.attributes[0] {
        SourceFile { sourcefile_index, .. } => {
            assert_eq!(utf8_of(&classfile, *sourcefile_index), b"Minimal.java".to_vec());
        }
        other => panic!("expected a SourceFile attribute: {:?}", other),
    }

    assert_eq!(encode(&classfile), bytes);
}

#[test]
// Reading past the end of the stream is an error, not a crash, and a failed
// read consumes nothing.
fn reading_past_the_end_fails() {
    let mut reader = Reader::new(vec![0x01, 0x02, 0x03]);
    assert!(reader.read_unsigned_int().is_err());
    assert!(reader.read_unsigned_long().is_err());
    assert_eq!(reader.read_unsigned_short().unwrap(), 0x0102);
    assert!(reader.read_unsigned_short().is_err());
    assert_eq!(reader.read_unsigned_byte().unwrap(), 0x03);
    assert!(reader.read_unsigned_byte().is_err());
}

#[test]
// The writer appends to whatever the sink already holds.
fn writing_appends_to_the_sink() {
    let mut writer = Writer::new(vec![0xaa]);
    writer.write_unsigned_short(0x0102).unwrap();
    assert_eq!(writer.into_inner(), vec![0xaa, 0x01, 0x02]);
}
