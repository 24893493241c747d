//! The parsing dual of the encoding: one acceptance function per record,
//! stating exactly which byte streams the decoder accepts and where each
//! accepted record ends. `None` means the decoder owes an error there;
//! `Some(end)` means it owes success with exactly the bytes up to `end`
//! consumed. Attribute dispatch needs the symbol table's strings, so the
//! symbol-table parser also yields the name table: for each slot, the byte
//! string of its UTF-8 entry, if that is what the slot holds.

use vstd::prelude::*;

use crate::model::{
    code_name, constant_value_name, exceptions_name, line_number_table_name,
    local_variable_table_name, source_file_name, AttributeInfo, CpInfo, CONSTANT_CLASS,
    CONSTANT_DOUBLE,
    CONSTANT_DYNAMIC, CONSTANT_FIELDREF, CONSTANT_FLOAT, CONSTANT_INTEGER,
    CONSTANT_INTERFACEMETHODREF, CONSTANT_INVOKEDYNAMIC, CONSTANT_LONG, CONSTANT_METHODHANDLE,
    CONSTANT_METHODREF, CONSTANT_METHODTYPE, CONSTANT_MODULE, CONSTANT_NAMEANDTYPE,
    CONSTANT_PACKAGE, CONSTANT_STRING, CONSTANT_UTF8,
};
use crate::wire::be_val;

verus! {

/// The byte string of a symbol-table slot's UTF-8 entry, if the slot holds
/// one.
pub open spec fn slot_utf8(slot: Option<CpInfo>) -> Option<Seq<u8>> {
    match slot {
        Some(CpInfo::ConstantUtf8Info { bytes, .. }) => Some(bytes@),
        _ => None,
    }
}

/// The name table of a symbol table: slot by slot, the UTF-8 byte string if
/// the slot holds one. This is all that attribute dispatch reads of the
/// table.
pub open spec fn utf8_slots(pool: Seq<Option<CpInfo>>) -> Seq<Option<Seq<u8>>> {
    Seq::new(pool.len(), |i: int| slot_utf8(pool[i]))
}

/// Appending a slot to a symbol table appends its name-table entry.
pub proof fn lemma_utf8_slots_push(pool: Seq<Option<CpInfo>>, slot: Option<CpInfo>)
    ensures
        utf8_slots(pool.push(slot)) == utf8_slots(pool).push(slot_utf8(slot)),
{
    assert(utf8_slots(pool.push(slot)) =~= utf8_slots(pool).push(slot_utf8(slot)));
}

/// The tag bytes this decoder knows: every entry kind of the symbol table's
/// enumeration.
pub open spec fn known_cp_tag(tag: u8) -> bool {
    ||| tag == CONSTANT_UTF8
    ||| tag == CONSTANT_INTEGER
    ||| tag == CONSTANT_FLOAT
    ||| tag == CONSTANT_LONG
    ||| tag == CONSTANT_DOUBLE
    ||| tag == CONSTANT_CLASS
    ||| tag == CONSTANT_STRING
    ||| tag == CONSTANT_FIELDREF
    ||| tag == CONSTANT_METHODREF
    ||| tag == CONSTANT_INTERFACEMETHODREF
    ||| tag == CONSTANT_NAMEANDTYPE
    ||| tag == CONSTANT_METHODHANDLE
    ||| tag == CONSTANT_METHODTYPE
    ||| tag == CONSTANT_DYNAMIC
    ||| tag == CONSTANT_INVOKEDYNAMIC
    ||| tag == CONSTANT_MODULE
    ||| tag == CONSTANT_PACKAGE
}

/// Where a non-nullable reference is accepted: two bytes are present and the
/// wire value is not 0 (the reserved slot).
pub open spec fn parse_ref(s: Seq<u8>, p: int) -> Option<int> {
    if p + 2 <= s.len() && be_val(s, p, 2) != 0 {
        Some(p + 2)
    } else {
        None
    }
}

/// Where a nullable reference is accepted: two bytes are present and the
/// wire value is not 1, which normalization cannot tell from the sentinel.
pub open spec fn parse_nullable_ref(s: Seq<u8>, p: int) -> Option<int> {
    if p + 2 <= s.len() && be_val(s, p, 2) != 1 {
        Some(p + 2)
    } else {
        None
    }
}

/// Where one symbol-table entry is accepted, `p` at its tag byte: the tag
/// must be a known one and the variant's payload present, with every
/// non-nullable reference in it nonzero.
pub open spec fn parse_cp_entry(s: Seq<u8>, p: int) -> Option<int> {
    if p + 1 > s.len() {
        None
    } else {
        let tag = s[p];
        if tag == CONSTANT_UTF8 {
            if p + 3 <= s.len() && p + 3 + be_val(s, p + 1, 2) <= s.len() {
                Some(p + 3 + be_val(s, p + 1, 2))
            } else {
                None
            }
        } else if tag == CONSTANT_INTEGER || tag == CONSTANT_FLOAT {
            if p + 5 <= s.len() {
                Some(p + 5)
            } else {
                None
            }
        } else if tag == CONSTANT_LONG || tag == CONSTANT_DOUBLE {
            if p + 9 <= s.len() {
                Some(p + 9)
            } else {
                None
            }
        } else if tag == CONSTANT_CLASS || tag == CONSTANT_STRING || tag == CONSTANT_METHODTYPE
            || tag == CONSTANT_MODULE || tag == CONSTANT_PACKAGE {
            parse_ref(s, p + 1)
        } else if tag == CONSTANT_FIELDREF || tag == CONSTANT_METHODREF
            || tag == CONSTANT_INTERFACEMETHODREF || tag == CONSTANT_NAMEANDTYPE {
            match parse_ref(s, p + 1) {
                None => None,
                Some(q) => parse_ref(s, q),
            }
        } else if tag == CONSTANT_METHODHANDLE {
            if p + 2 <= s.len() {
                parse_ref(s, p + 2)
            } else {
                None
            }
        } else if tag == CONSTANT_DYNAMIC || tag == CONSTANT_INVOKEDYNAMIC {
            if p + 3 <= s.len() {
                parse_ref(s, p + 3)
            } else {
                None
            }
        } else {
            None
        }
    }
}

/// Where `slots` more symbol-table slots are accepted, collecting the name
/// table as it goes: a long or double entry takes its own slot and the
/// reserved empty one after it, and must leave room for both.
pub open spec fn parse_cp_items(
    s: Seq<u8>,
    p: int,
    slots: int,
    names: Seq<Option<Seq<u8>>>,
) -> Option<(Seq<Option<Seq<u8>>>, int)>
    decreases slots,
{
    if slots <= 0 {
        Some((names, p))
    } else if p + 1 > s.len() {
        None
    } else {
        let tag = s[p];
        match parse_cp_entry(s, p) {
            None => None,
            Some(q) => {
                let entry_name: Option<Seq<u8>> = if tag == CONSTANT_UTF8 {
                    Some(s.subrange(p + 3, q))
                } else {
                    None
                };
                if tag == CONSTANT_LONG || tag == CONSTANT_DOUBLE {
                    if slots >= 2 {
                        parse_cp_items(s, q, slots - 2, names.push(entry_name).push(None))
                    } else {
                        None
                    }
                } else {
                    parse_cp_items(s, q, slots - 1, names.push(entry_name))
                }
            },
        }
    }
}

/// Where a whole symbol table of `count` slots is accepted: slot 0 is the
/// reserved empty slot, then `count - 1` slots of entries.
pub open spec fn parse_constant_pool(s: Seq<u8>, p: int, count: int) -> Option<
    (Seq<Option<Seq<u8>>>, int),
> {
    if count < 1 {
        None
    } else {
        parse_cp_items(s, p, count - 1, seq![Option::<Seq<u8>>::None])
    }
}

/// The attribute name string the two bytes at `p` point to, if they name a
/// UTF-8 slot of the table.
pub open spec fn parse_attr_name(s: Seq<u8>, p: int, names: Seq<Option<Seq<u8>>>) -> Option<
    Seq<u8>,
> {
    if p + 2 <= s.len() {
        let w = be_val(s, p, 2) as int;
        if 1 <= w < names.len() {
            names[w]
        } else {
            None
        }
    } else {
        None
    }
}

/// Where `n` exception-handler rows are accepted: three program counters and
/// a nullable catch-type reference each.
pub open spec fn parse_exception_handler_rows(s: Seq<u8>, p: int, n: int) -> Option<int>
    decreases n,
{
    if n <= 0 {
        Some(p)
    } else if p + 8 <= s.len() && be_val(s, p + 6, 2) != 1 {
        parse_exception_handler_rows(s, p + 8, n - 1)
    } else {
        None
    }
}

/// Where `n` declared-exception entries are accepted: one nullable reference
/// each.
pub open spec fn parse_exception_index_rows(s: Seq<u8>, p: int, n: int) -> Option<int>
    decreases n,
{
    if n <= 0 {
        Some(p)
    } else if p + 2 <= s.len() && be_val(s, p, 2) != 1 {
        parse_exception_index_rows(s, p + 2, n - 1)
    } else {
        None
    }
}

/// Where `n` line-number rows are accepted: two plain numbers each.
pub open spec fn parse_line_number_rows(s: Seq<u8>, p: int, n: int) -> Option<int>
    decreases n,
{
    if n <= 0 {
        Some(p)
    } else if p + 4 <= s.len() {
        parse_line_number_rows(s, p + 4, n - 1)
    } else {
        None
    }
}

/// Where `n` local-variable rows are accepted: a program-counter range, two
/// non-nullable references, and a local slot each.
pub open spec fn parse_local_variable_rows(s: Seq<u8>, p: int, n: int) -> Option<int>
    decreases n,
{
    if n <= 0 {
        Some(p)
    } else if p + 10 <= s.len() && be_val(s, p + 4, 2) != 0 && be_val(s, p + 6, 2) != 0 {
        parse_local_variable_rows(s, p + 10, n - 1)
    } else {
        None
    }
}

/// Where `n` interface references are accepted: one raw wire value each.
pub open spec fn parse_interface_rows(s: Seq<u8>, p: int, n: int) -> Option<int>
    decreases n,
{
    if n <= 0 {
        Some(p)
    } else if p + 2 <= s.len() {
        parse_interface_rows(s, p + 2, n - 1)
    } else {
        None
    }
}

/// Where one attribute record is accepted, `p` at its name reference: the
/// name must point into the table at a UTF-8 slot; the six recognized name
/// strings demand their variant's payload — a `Code` payload recursively
/// contains a whole attribute list — and any other name demands exactly the
/// declared number of payload bytes. A successful parse always moves
/// forward, so the guards on the recursive positions never fail; they make
/// the descent structural.
pub open spec fn parse_attr(s: Seq<u8>, p: int, names: Seq<Option<Seq<u8>>>) -> Option<int>
    decreases s.len() - p, 0int, 0int,
{
    if p + 6 <= s.len() {
        let attribute_length = be_val(s, p + 2, 4) as int;
        let q = p + 6;
        match parse_attr_name(s, p, names) {
            None => None,
            Some(name) => {
                if name == source_file_name() {
                    if q + 2 <= s.len() {
                        Some(q + 2)
                    } else {
                        None
                    }
                } else if name == constant_value_name() {
                    parse_ref(s, q)
                } else if name == code_name() {
                    if q + 8 <= s.len() && 1 <= be_val(s, q + 4, 4) && q + 8 + be_val(s, q + 4, 4)
                        + 2 <= s.len() {
                        let r0 = q + 8 + be_val(s, q + 4, 4);
                        match parse_exception_handler_rows(s, r0 + 2, be_val(s, r0, 2) as int) {
                            None => None,
                            Some(r1) => {
                                if r1 + 2 <= s.len() && p < r1 + 2 {
                                    parse_attrs(s, r1 + 2, be_val(s, r1, 2) as int, names)
                                } else {
                                    None
                                }
                            },
                        }
                    } else {
                        None
                    }
                } else if name == exceptions_name() {
                    if q + 2 <= s.len() {
                        parse_exception_index_rows(s, q + 2, be_val(s, q, 2) as int)
                    } else {
                        None
                    }
                } else if name == line_number_table_name() {
                    if q + 2 <= s.len() {
                        parse_line_number_rows(s, q + 2, be_val(s, q, 2) as int)
                    } else {
                        None
                    }
                } else if name == local_variable_table_name() {
                    if q + 2 <= s.len() {
                        parse_local_variable_rows(s, q + 2, be_val(s, q, 2) as int)
                    } else {
                        None
                    }
                } else {
                    if q + attribute_length <= s.len() {
                        Some(q + attribute_length)
                    } else {
                        None
                    }
                }
            },
        }
    } else {
        None
    }
}

/// Where `n` attribute records are accepted, one after the other.
pub open spec fn parse_attrs(s: Seq<u8>, p: int, n: int, names: Seq<Option<Seq<u8>>>) -> Option<
    int,
>
    decreases s.len() - p, 1int, n,
{
    if n <= 0 {
        Some(p)
    } else {
        match parse_attr(s, p, names) {
            None => None,
            Some(q) => {
                if p < q <= s.len() {
                    parse_attrs(s, q, n - 1, names)
                } else {
                    None
                }
            },
        }
    }
}

/// Where one field or method record is accepted: flags, two non-nullable
/// references, and its attribute list.
pub open spec fn parse_member_record(s: Seq<u8>, p: int, names: Seq<Option<Seq<u8>>>) -> Option<
    int,
> {
    if p + 8 <= s.len() && be_val(s, p + 2, 2) != 0 && be_val(s, p + 4, 2) != 0 {
        parse_attrs(s, p + 8, be_val(s, p + 6, 2) as int, names)
    } else {
        None
    }
}

/// Where `n` field or method records are accepted, one after the other.
pub open spec fn parse_member_records(
    s: Seq<u8>,
    p: int,
    n: int,
    names: Seq<Option<Seq<u8>>>,
) -> Option<int>
    decreases n,
{
    if n <= 0 {
        Some(p)
    } else {
        match parse_member_record(s, p, names) {
            None => None,
            Some(q) => parse_member_records(s, q, n - 1, names),
        }
    }
}

/// Where a whole class file is accepted, `p` at its magic bytes: exactly the
/// streams `Deserializer::deserialize` decodes, ending where it stops
/// reading.
pub open spec fn parse_class_file(s: Seq<u8>, p: int) -> Option<int> {
    if p + 10 <= s.len() && be_val(s, p + 8, 2) >= 1 {
        match parse_constant_pool(s, p + 10, be_val(s, p + 8, 2) as int) {
            None => None,
            Some((names, q0)) => {
                if q0 + 8 <= s.len() && be_val(s, q0 + 2, 2) != 0 && be_val(s, q0 + 4, 2) != 1 {
                    match parse_interface_rows(s, q0 + 8, be_val(s, q0 + 6, 2) as int) {
                        None => None,
                        Some(q1) => {
                            if q1 + 2 <= s.len() {
                                match parse_member_records(
                                    s,
                                    q1 + 2,
                                    be_val(s, q1, 2) as int,
                                    names,
                                ) {
                                    None => None,
                                    Some(q2) => {
                                        if q2 + 2 <= s.len() {
                                            match parse_member_records(
                                                s,
                                                q2 + 2,
                                                be_val(s, q2, 2) as int,
                                                names,
                                            ) {
                                                None => None,
                                                Some(q3) => {
                                                    if q3 + 2 <= s.len() {
                                                        parse_attrs(
                                                            s,
                                                            q3 + 2,
                                                            be_val(s, q3, 2) as int,
                                                            names,
                                                        )
                                                    } else {
                                                        None
                                                    }
                                                },
                                            }
                                        } else {
                                            None
                                        }
                                    },
                                }
                            } else {
                                None
                            }
                        },
                    }
                } else {
                    None
                }
            },
        }
    } else {
        None
    }
}

/// The name reference every attribute variant stores.
pub open spec fn attr_name_index_of(a: AttributeInfo) -> u16 {
    match a {
        AttributeInfo::SourceFile { attribute_name_index, .. } => attribute_name_index,
        AttributeInfo::ConstantValue { attribute_name_index, .. } => attribute_name_index,
        AttributeInfo::Code { attribute_name_index, .. } => attribute_name_index,
        AttributeInfo::Exceptions { attribute_name_index, .. } => attribute_name_index,
        AttributeInfo::LineNumberTable { attribute_name_index, .. } => attribute_name_index,
        AttributeInfo::LocalVariableTable { attribute_name_index, .. } => attribute_name_index,
        AttributeInfo::Unrecognized { attribute_name_index, .. } => attribute_name_index,
    }
}

/// The dispatch rule of the format, stated of a decoded attribute: its
/// variant is the one selected by the string value of the symbol-table
/// entry its name reference points to — never by a wire-level numeric tag —
/// with the opaque blob for any string outside the recognized six, and a
/// `Code` attribute's nested attributes selected the same way in turn.
pub open spec fn attr_dispatch_consistent(a: AttributeInfo, names: Seq<Option<Seq<u8>>>) -> bool
    decreases a,
{
    let w = attr_name_index_of(a) as int + 1;
    &&& 1 <= w < names.len()
    &&& names[w] is Some
    &&& match a {
        AttributeInfo::SourceFile { .. } => names[w]->0 == source_file_name(),
        AttributeInfo::ConstantValue { .. } => names[w]->0 == constant_value_name(),
        AttributeInfo::Code { code_attributes, .. } => names[w]->0 == code_name()
            && attrs_dispatch_consistent(code_attributes@, names),
        AttributeInfo::Exceptions { .. } => names[w]->0 == exceptions_name(),
        AttributeInfo::LineNumberTable { .. } => names[w]->0 == line_number_table_name(),
        AttributeInfo::LocalVariableTable { .. } => names[w]->0 == local_variable_table_name(),
        AttributeInfo::Unrecognized { .. } => !(names[w]->0 == source_file_name() || names[w]->0
            == constant_value_name() || names[w]->0 == code_name() || names[w]->0
            == exceptions_name() || names[w]->0 == line_number_table_name() || names[w]->0
            == local_variable_table_name()),
    }
}

/// Every attribute of a sequence follows the dispatch rule.
pub open spec fn attrs_dispatch_consistent(
    attrs: Seq<AttributeInfo>,
    names: Seq<Option<Seq<u8>>>,
) -> bool
    decreases attrs,
{
    forall|i: int|
        0 <= i < attrs.len() ==> attr_dispatch_consistent(#[trigger] attrs[i], names)
}

/// Appending an attribute that follows the dispatch rule keeps a list
/// following it.
pub proof fn lemma_attrs_dispatch_consistent_push(
    attrs: Seq<AttributeInfo>,
    a: AttributeInfo,
    names: Seq<Option<Seq<u8>>>,
)
    requires
        attrs_dispatch_consistent(attrs, names),
        attr_dispatch_consistent(a, names),
    ensures
        attrs_dispatch_consistent(attrs.push(a), names),
{
    let p2 = attrs.push(a);
    assert forall|i: int| 0 <= i < p2.len() implies attr_dispatch_consistent(
        #[trigger] p2[i],
        names,
    ) by {
        if i < attrs.len() {
            assert(p2[i] == attrs[i]);
        } else {
            assert(p2[i] == a);
        }
    }
}

} // verus!
