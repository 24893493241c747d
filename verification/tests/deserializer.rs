use phoron_core::deserializer::Deserializer;
use phoron_core::rw::Reader;

#[test]
// The byte buffer corresponds to this disassembled class file:
//public class Minimal
//  minor version: 3
//  major version: 45
//  flags: (0x0021) ACC_PUBLIC, ACC_SUPER
//  this_class: #12                         // Minimal
//  super_class: #13                        // java/lang/Object
//  interfaces: 0, fields: 0, methods: 2, attributes: 1
//Constant pool:
//   #1 = Methodref          #13.#7         // java/lang/Object."<init>":()V
//   #2 = Utf8               java/lang/Object
//   #3 = Utf8               SourceFile
//   #4 = Utf8               <init>
//   #5 = Utf8               main
//   #6 = Utf8               Minimal
//   #7 = NameAndType        #4:#11         // "<init>":()V
//   #8 = Utf8               Code
//   #9 = Utf8               Minimal.java
//  #10 = Utf8               ([Ljava/lang/String;)V
//  #11 = Utf8               ()V
//  #12 = Class              #6             // Minimal
//  #13 = Class              #2             // java/lang/Object
//{
//  public Minimal();
//    descriptor: ()V
//    flags: (0x0001) ACC_PUBLIC
//    Code:
//      stack=1, locals=1, args_size=1
//         0: aload_0
//         1: invokespecial #1                  // Method java/lang/Object."<init>":()V
//         4: return
//
//  public static void main(java.lang.String[]);
//    descriptor: ([Ljava/lang/String;)V
//    flags: (0x0009) ACC_PUBLIC, ACC_STATIC
//    Code:
//      stack=1, locals=1, args_size=1
//         0: return
//}
//SourceFile: "Minimal.java"
fn test_deserialize_minimal() {
    let bytes = [
        0xca, 0xfe, 0xba, 0xbe, 0x00, 0x03, 0x00, 0x2d, 0x00, 0x0e, 0x0a, 0x00, 0x0d, 0x00, 0x07,
        0x01, 0x00, 0x10, 0x6a, 0x61, 0x76, 0x61, 0x2f, 0x6c, 0x61, 0x6e, 0x67, 0x2f, 0x4f, 0x62,
        0x6a, 0x65, 0x63, 0x74, 0x01, 0x00, 0x0a, 0x53, 0x6f, 0x75, 0x72, 0x63, 0x65, 0x46, 0x69,
        0x6c, 0x65, 0x01, 0x00, 0x06, 0x3c, 0x69, 0x6e, 0x69, 0x74, 0x3e, 0x01, 0x00, 0x04, 0x6d,
        0x61, 0x69, 0x6e, 0x01, 0x00, 0x07, 0x4d, 0x69, 0x6e, 0x69, 0x6d, 0x61, 0x6c, 0x0c, 0x00,
        0x04, 0x00, 0x0b, 0x01, 0x00, 0x04, 0x43, 0x6f, 0x64, 0x65, 0x01, 0x00, 0x0c, 0x4d, 0x69,
        0x6e, 0x69, 0x6d, 0x61, 0x6c, 0x2e, 0x6a, 0x61, 0x76, 0x61, 0x01, 0x00, 0x16, 0x28, 0x5b,
        0x4c, 0x6a, 0x61, 0x76, 0x61, 0x2f, 0x6c, 0x61, 0x6e, 0x67, 0x2f, 0x53, 0x74, 0x72, 0x69,
        0x6e, 0x67, 0x3b, 0x29, 0x56, 0x01, 0x00, 0x03, 0x28, 0x29, 0x56, 0x07, 0x00, 0x06, 0x07,
        0x00, 0x02, 0x00, 0x21, 0x00, 0x0c, 0x00, 0x0d, 0x00, 0x00, 0x00, 0x00, 0x00, 0x02, 0x00,
        0x01, 0x00, 0x04, 0x00, 0x0b, 0x00, 0x01, 0x00, 0x08, 0x00, 0x00, 0x00, 0x11, 0x00, 0x01,
        0x00, 0x01, 0x00, 0x00, 0x00, 0x05, 0x2a, 0xb7, 0x00, 0x01, 0xb1, 0x00, 0x00, 0x00, 0x00,
        0x00, 0x09, 0x00, 0x05, 0x00, 0x0a, 0x00, 0x01, 0x00, 0x08, 0x00, 0x00, 0x00, 0x0d, 0x00,
        0x01, 0x00, 0x01, 0x00, 0x00, 0x00, 0x01, 0xb1, 0x00, 0x00, 0x00, 0x00, 0x00, 0x01, 0x00,
        0x03, 0x00, 0x00, 0x00, 0x02, 0x00, 0x09,
    ];

    let mut deserializer = Deserializer::new(Reader::new(bytes.to_vec()));
    let classfile = deserializer.deserialize().unwrap();
    println!("{:#?}", classfile);
}
