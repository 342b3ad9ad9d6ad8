//! Text decoding: UTF-16LE (the header's encoding) and the WHATWG-labelled
//! encodings that headwords and definitions are stored in.

use vstd::prelude::*;

verus! {

/// The 16-bit code units stored little-endian in `bytes`, two bytes each.
pub open spec fn utf16_units_spec(bytes: Seq<u8>) -> Seq<u16> {
    Seq::new(bytes.len() / 2, |i: int| (bytes[2 * i] + bytes[2 * i + 1] * 0x100) as u16)
}

/// Reassembles little-endian byte pairs into UTF-16 code units; `None` on an
/// odd byte count.
pub fn utf16_units_le(bytes: &[u8]) -> (r: Option<Vec<u16>>)
    ensures
        match r {
            Some(units) => bytes@.len() % 2 == 0 && units@ == utf16_units_spec(bytes@),
            None => bytes@.len() % 2 != 0,
        },
{
    let n = bytes.len();
    if n % 2 != 0 {
        return None;
    }
    let mut units: Vec<u16> = Vec::new();
    let mut i: usize = 0;
    while i < n / 2
        invariant
            0 <= i <= n / 2,
            n == bytes@.len(),
            n % 2 == 0,
            units@.len() == i,
            forall|j: int| 0 <= j < i ==> units@[j] == utf16_units_spec(bytes@)[j],
        decreases n / 2 - i,
    {
        let lo = bytes[2 * i] as u16;
        let hi = bytes[2 * i + 1] as u16;
        units.push(lo + hi * 0x100);
        i = i + 1;
    }
    proof {
        assert(units@ =~= utf16_units_spec(bytes@));
    }
    Some(units)
}

/// True when no unit lies in the surrogate range, so each unit is itself a
/// scalar value.
pub open spec fn no_surrogates(units: Seq<u16>) -> bool {
    forall|i: int| 0 <= i < units.len() ==> !(0xD800 <= #[trigger] units[i] < 0xE000)
}

/// A unit that opens a surrogate pair.
pub open spec fn is_high_surrogate(u: u16) -> bool {
    0xD800 <= u < 0xDC00
}

/// A unit that closes a surrogate pair.
pub open spec fn is_low_surrogate(u: u16) -> bool {
    0xDC00 <= u < 0xE000
}

/// Well-formed UTF-16: every high surrogate is followed by a low one, and
/// every low surrogate is preceded by a high one.
pub open spec fn valid_utf16_units(units: Seq<u16>) -> bool {
    forall|i: int|
        #![trigger units[i]]
        0 <= i < units.len() ==> {
            &&& (is_high_surrogate(units[i]) ==> i + 1 < units.len() && is_low_surrogate(
                units[i + 1],
            ))
            &&& (is_low_surrogate(units[i]) ==> i > 0 && is_high_surrogate(units[i - 1]))
        }
}

/// What decoding a UTF-16 code-unit sequence yields, or nothing when the
/// sequence is ill-formed. A fixed function of the units.
pub uninterp spec fn utf16_str_of(units: Seq<u16>) -> Option<Seq<char>>;

/// Relies on `String::from_utf16`: decoding is a fixed function of the code
/// units; it succeeds exactly on well-formed UTF-16 (every surrogate
/// properly paired), and a sequence free of surrogates decodes each unit to
/// the character with that code point.
#[verifier::external_body]
pub(crate) fn utf16_to_string(units: &[u16]) -> (r: Option<String>)
    ensures
        match r {
            Some(s) => utf16_str_of(units@) == Some(s@),
            None => utf16_str_of(units@) is None,
        },
        (r is Some) == valid_utf16_units(units@),
        no_surrogates(units@) ==> {
            &&& r is Some
            &&& r.unwrap()@.len() == units@.len()
            &&& forall|i: int|
                0 <= i < units@.len() ==> r.unwrap()@[i] as u32 == #[trigger] units@[i] as u32
        },
{
    match String::from_utf16(units) {
        Ok(s) => Some(s),
        Err(_) => None,
    }
}

/// Decodes UTF-16LE bytes into a string: `None` exactly on an odd byte count
/// or ill-formed code units (an unpaired surrogate).
pub fn string_from_utf16_le(slice: &[u8]) -> (r: Option<String>)
    ensures
        match r {
            Some(s) => {
                &&& slice@.len() % 2 == 0
                &&& utf16_str_of(utf16_units_spec(slice@)) == Some(s@)
            },
            None => slice@.len() % 2 != 0 || utf16_str_of(utf16_units_spec(slice@)) is None,
        },
        slice@.len() % 2 == 0 ==> (r is Some) == valid_utf16_units(utf16_units_spec(slice@)),
{
    match utf16_units_le(slice) {
        Some(units) => utf16_to_string(units.as_slice()),
        None => None,
    }
}

/// What decoding `bytes` under the WHATWG encoding named `label` yields
/// (malformed sequences dropped), or nothing when the registry does not know
/// the label. A fixed function of label and bytes.
pub uninterp spec fn whatwg_decoded(label: Seq<char>, bytes: Seq<u8>) -> Option<Seq<char>>;

/// Relies on `encoding::label::encoding_from_whatwg_label` and
/// `encoding::types::Encoding::decode` with `DecoderTrap::Ignore`: the
/// registry is fixed, and decoding with malformed input dropped depends on
/// the label and the bytes alone.
#[verifier::external_body]
pub(crate) fn decode_with_label(label: &str, bytes: &[u8]) -> (r: Option<String>)
    ensures
        match r {
            Some(s) => whatwg_decoded(label@, bytes@) == Some(s@),
            None => whatwg_decoded(label@, bytes@) is None,
        },
{
    let decoder = match encoding::label::encoding_from_whatwg_label(label) {
        Some(d) => d,
        None => return None,
    };
    match decoder.decode(bytes, encoding::DecoderTrap::Ignore) {
        Ok(s) => Some(s),
        Err(_) => None,
    }
}

} // verus!
