//! The codec's global guarantees, stated once over the specification
//! functions that the decoder's and encoder's contracts share.

use vstd::prelude::*;

use crate::encoding::enc_class_file;
use crate::model::{cp_wf, ClassFile, CpInfo};
use crate::wire::{decode_nullable_ref, decode_ref, encode_nullable_ref, encode_ref};

verus! {

/// Round trip: when the decoder accepts a byte stream and consumes all of
/// it, re-encoding the model it produced reproduces the stream exactly.
/// `Deserializer::deserialize` guarantees the hypotheses on success — the
/// consumed prefix of the stream is `enc_class_file` of the model — and
/// `Serializer::serialize` emits exactly `enc_class_file` of the model, so
/// what it emits equals the input bytes. A stream with trailing bytes
/// after the class file decodes to the same model but is not reproduced:
/// only the consumed prefix is.
pub proof fn lemma_round_trip(bytes: Seq<u8>, consumed: int, classfile: ClassFile)
    requires
        0 <= consumed <= bytes.len(),
        bytes.subrange(0, consumed) == enc_class_file(classfile),
        consumed == bytes.len(),
    ensures
        enc_class_file(classfile) == bytes,
{
    assert(bytes.subrange(0, bytes.len() as int) =~= bytes);
}

/// Double-width slot skipping: in a symbol table obeying its invariant — as
/// every decoded table does — the slot after a long or double entry lies
/// inside the table and is empty, so it can never hold an entry of its own.
pub proof fn lemma_double_width_reserves_next_slot(pool: Seq<Option<CpInfo>>, k: int)
    requires
        cp_wf(pool),
        0 <= k < pool.len(),
        pool[k] matches Some(e) && e.is_double_width(),
    ensures
        k + 1 < pool.len(),
        pool[k + 1] is None,
{
}

/// Index normalization symmetry for a non-nullable reference: re-encoding a
/// decoded wire value reproduces it.
pub proof fn lemma_ref_normalization_symmetry(w: u16)
    requires
        w >= 1,
    ensures
        encode_ref(decode_ref(w)) == w,
{
}

/// Index normalization symmetry for a nullable reference: the sentinel 0
/// round-trips unchanged, and every wire value from 2 up re-encodes to
/// itself. The wire value 1 is the one value the normalized model cannot
/// carry — decoding it would collapse onto the sentinel — so the decoder
/// rejects it and it is left out here.
pub proof fn lemma_nullable_ref_normalization_symmetry(w: u16)
    requires
        w != 1,
    ensures
        encode_nullable_ref(decode_nullable_ref(w)) == w,
{
}

} // verus!
