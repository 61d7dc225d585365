//! What must hold of the bytes and the settings before a font is loaded.
//!
//! The loader decodes the font's full name from UTF-16 without looking at its
//! length or at how surrogates pair up, and it subdivides curves without end
//! where the scale it is given is negative. Both are tested here first: the
//! name records are read with `ttf-parser`, as the loader itself reads them,
//! and the sign of the scale is read from its bits.

use vstd::prelude::*;

verus! {

/// One record of a font's name table: what it names, whether its encoding is
/// a Unicode one, and its bytes as they stand in the file.
#[derive(Clone, Debug, PartialEq, Eq)]
pub struct NameRecord {
    pub name_id: u16,
    pub unicode: bool,
    pub bytes: Vec<u8>,
}

/// The identifier of the record that holds a font's full name.
pub const FULL_NAME: u16 = 4;

/// The bit that holds the sign of a scale.
pub const SIGN_BIT: u32 = 0x8000_0000;

/// The records of the name table of the font in `bytes`, in the order of the
/// table, each as its identifier, whether it is Unicode, and its bytes; none
/// where the bytes are not a font.
pub uninterp spec fn font_names(bytes: Seq<u8>, settings: fontdue::FontSettings) -> Seq<
    (u16, bool, Seq<u8>),
>;

/// The bits of the scale that `settings` hold.
pub uninterp spec fn scale_bits(settings: fontdue::FontSettings) -> u32;

/// The records of `records`, each as its identifier, whether it is Unicode,
/// and its bytes.
pub open spec fn records_of(records: Seq<NameRecord>) -> Seq<(u16, bool, Seq<u8>)> {
    Seq::new(records.len(), |i: int| (records[i].name_id, records[i].unicode, records[i].bytes@))
}

/// The 16-bit unit that starts at byte `i`, high byte first.
pub open spec fn unit_at(bytes: Seq<u8>, i: int) -> int {
    bytes[i] as int * 256 + bytes[i + 1] as int
}

/// `unit` is the first half of a surrogate pair.
pub open spec fn is_high_surrogate(unit: int) -> bool {
    0xD800 <= unit <= 0xDBFF
}

/// `unit` is the second half of a surrogate pair.
pub open spec fn is_low_surrogate(unit: int) -> bool {
    0xDC00 <= unit <= 0xDFFF
}

/// From byte `i` on, `bytes` are whole 16-bit units, in which every first
/// half of a surrogate pair is followed by a second half and no second half
/// stands alone.
pub open spec fn decodes_from(bytes: Seq<u8>, i: int) -> bool
    decreases bytes.len() - i,
{
    if i >= bytes.len() {
        true
    } else if i + 1 >= bytes.len() {
        false
    } else if !is_high_surrogate(unit_at(bytes, i)) && !is_low_surrogate(unit_at(bytes, i)) {
        decodes_from(bytes, i + 2)
    } else if is_high_surrogate(unit_at(bytes, i)) && i + 3 < bytes.len() && is_low_surrogate(
        unit_at(bytes, i + 2),
    ) {
        decodes_from(bytes, i + 4)
    } else {
        false
    }
}

/// `bytes` are well-formed UTF-16, high byte first.
pub open spec fn decodes(bytes: Seq<u8>) -> bool {
    decodes_from(bytes, 0)
}

/// The record holds a full name in a Unicode encoding.
pub open spec fn is_full_name(record: (u16, bool, Seq<u8>)) -> bool {
    record.0 == FULL_NAME && record.1
}

/// Record `i` is the first of `names` that holds a full name in a Unicode
/// encoding.
pub open spec fn is_first_full_name(names: Seq<(u16, bool, Seq<u8>)>, i: int) -> bool {
    &&& 0 <= i < names.len()
    &&& is_full_name(names[i])
    &&& forall|j: int| 0 <= j < i ==> !is_full_name(#[trigger] names[j])
}

/// The full name that the loader would decode, where there is one, is
/// well-formed.
pub open spec fn names_decode(names: Seq<(u16, bool, Seq<u8>)>) -> bool {
    forall|i: int| is_first_full_name(names, i) ==> decodes((#[trigger] names[i]).2)
}

/// The scale that `settings` hold is not negative.
pub open spec fn scale_admitted(settings: fontdue::FontSettings) -> bool {
    scale_bits(settings) < SIGN_BIT
}

/// The loader can be given `bytes` and `settings`.
pub open spec fn loadable(bytes: Seq<u8>, settings: fontdue::FontSettings) -> bool {
    scale_admitted(settings) && names_decode(font_names(bytes, settings))
}

/// Whether `bytes` are well-formed UTF-16, high byte first.
pub fn utf16_decodes(bytes: &Vec<u8>) -> (ok: bool)
    ensures
        ok == decodes(bytes@),
{
    let n: usize = bytes.len();
    let mut i: usize = 0;
    while i < n
        invariant
            n == bytes@.len(),
            0 <= i <= n,
            decodes(bytes@) == decodes_from(bytes@, i as int),
        decreases n - i,
    {
        if n - i < 2 {
            return false;
        }
        let unit: u16 = bytes[i] as u16 * 256 + bytes[i + 1] as u16;
        if unit < 0xD800 || unit > 0xDFFF {
            i += 2;
        } else {
            if unit > 0xDBFF || n - i < 4 {
                return false;
            }
            let next: u16 = bytes[i + 2] as u16 * 256 + bytes[i + 3] as u16;
            if next < 0xDC00 || next > 0xDFFF {
                return false;
            }
            i += 4;
        }
    }
    true
}

/// Whether the first record of `records` that holds a full name in a Unicode
/// encoding, where there is one, is well-formed UTF-16.
pub fn full_name_decodes(records: &Vec<NameRecord>) -> (ok: bool)
    ensures
        ok == names_decode(records_of(records@)),
{
    let ghost names = records_of(records@);
    let mut i: usize = 0;
    while i < records.len()
        invariant
            names == records_of(records@),
            0 <= i <= records@.len(),
            forall|j: int| 0 <= j < i ==> !is_full_name(#[trigger] names[j]),
        decreases records@.len() - i,
    {
        if records[i].name_id == FULL_NAME && records[i].unicode {
            let ok = utf16_decodes(&records[i].bytes);
            proof {
                assert(is_first_full_name(names, i as int));
                assert forall|k: int| is_first_full_name(names, k) implies k == i by {
                    if k < i {
                        assert(!is_full_name(names[k]));
                    } else if i < k {
                        assert(!is_full_name(names[i as int]));
                    }
                }
            }
            return ok;
        }
        i += 1;
    }
    true
}

/// Whether the loader can be given `bytes` and `settings`: `Ok`, or which of
/// the two conditions fails, the scale being tested first.
pub fn check_loadable(bytes: &[u8], settings: &fontdue::FontSettings) -> (out: Result<(), Refusal>)
    ensures
        out is Ok <==> loadable(bytes@, *settings),
        out == Err::<(), Refusal>(Refusal::NegativeScale) <==> !scale_admitted(*settings),
{
    if read_scale_bits(settings) >= SIGN_BIT {
        return Err(Refusal::NegativeScale);
    }
    let records = read_names(bytes, settings);
    if full_name_decodes(&records) {
        Ok(())
    } else {
        Err(Refusal::MalformedName)
    }
}

/// Why the loader cannot be given some bytes and settings.
#[derive(Clone, Copy, Debug, PartialEq, Eq, Structural)]
pub enum Refusal {
    /// The scale in the settings is negative.
    NegativeScale,
    /// The font's full name is not well-formed UTF-16.
    MalformedName,
}

/// `ttf_parser::Face::parse` with the settings' collection index, then
/// `Face::names`: the records of the name table as the iteration gives them,
/// each with its `name_id`, what `is_unicode` says of it, and a copy of its
/// bytes; none where the bytes do not parse. The loader makes the same call
/// and the same iteration.
#[verifier::external_body]
pub(crate) fn read_names(bytes: &[u8], settings: &fontdue::FontSettings) -> (out: Vec<NameRecord>)
    ensures
        records_of(out@) == font_names(bytes@, *settings),
{
    match ttf_parser::Face::parse(bytes, settings.collection_index) {
        Ok(face) => face.names().into_iter().map(|name| NameRecord {
            name_id: name.name_id,
            unicode: name.is_unicode(),
            bytes: name.name.to_vec(),
        }).collect(),
        Err(_) => Vec::new(),
    }
}

/// The `scale` of `fontdue::FontSettings`, by its bits (`to_bits` of std):
/// the highest bit is the sign.
#[verifier::external_body]
pub(crate) fn read_scale_bits(settings: &fontdue::FontSettings) -> (out: u32)
    ensures
        out == scale_bits(*settings),
{
    settings.scale.to_bits()
}

} // verus!
