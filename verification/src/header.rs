//! The MDX header: a length-prefixed UTF-16LE attribute text, checked by a
//! little-endian Adler-32, carrying `name="value"` pairs. Three attributes
//! steer the rest of the parse: the engine version (field widths), the
//! encryption flags, and the record encoding.

use vstd::prelude::*;
use vstd::string::StringSliceAdditionalSpecFns;

use crate::MdxError;
use crate::checksum::{adler32_checksum, adler32_spec};
use crate::text::{utf16_str_of, utf16_to_string, utf16_units_le, utf16_units_spec};
use crate::unpack::{be_val, le_val_first, lemma_be_val_bound, pow256, read_be_at,
    read_le_u32_at};

verus! {

/// Width scheme of the file: V1 stores 32-bit fields with 1-byte text-length
/// prefixes, V2 stores 64-bit fields with 2-byte prefixes and extra
/// checksums.
#[derive(Clone, Copy, Debug, PartialEq, Eq, Structural)]
pub enum Version {
    V1,
    V2,
}

/// The parsed header attributes that the decoder consumes.
#[derive(Debug)]
pub struct Header {
    /// Width scheme selected by `GeneratedByEngineVersion`.
    pub version: Version,
    /// The `Encrypted` digit flags, validated to one of "0" (none), "1"
    /// (record blocks), "2" (key-block info) or "3" (both), so that testing
    /// for "2"/"3" coincides with testing flag bit 0x02.
    pub encrypted: String,
    /// WHATWG label of the record encoding, e.g. "UTF-8".
    pub encoding: String,
}

/// Mathematical image of a [`Header`].
pub struct HeaderModel {
    pub version: Version,
    pub encrypted: Seq<char>,
    pub encoding: Seq<char>,
}

impl View for Header {
    type V = HeaderModel;

    open spec fn view(&self) -> HeaderModel {
        HeaderModel { version: self.version, encrypted: self.encrypted@, encoding: self.encoding@ }
    }
}

/// True when the header's flags mark the key-block info as encrypted (flag
/// bit 0x02, i.e. the digit string "2" or "3").
pub open spec fn key_info_encrypted_model(h: HeaderModel) -> bool {
    h.encrypted == "2"@ || h.encrypted == "3"@
}

impl Header {
    /// True when the key-block info table is stored encrypted.
    pub open spec fn key_info_encrypted_spec(self) -> bool {
        key_info_encrypted_model(self@)
    }

    /// Decides [`Self::key_info_encrypted_spec`] executably.
    pub fn key_info_encrypted(&self) -> (r: bool)
        ensures
            r == self.key_info_encrypted_spec(),
    {
        let two: String = "2".to_owned();
        let three: String = "3".to_owned();
        self.encrypted == two || self.encrypted == three
    }
}

/// The code-unit pattern that opens an attribute: the ASCII name, `=`, `"`.
pub open spec fn attr_pat(name: Seq<u8>) -> Seq<u16> {
    name.map_values(|b: u8| b as u16) + seq![0x3Du16, 0x22u16]
}

/// ASCII letters, digits and underscore: the characters an attribute name is
/// made of, used to anchor a match at a name boundary.
pub open spec fn is_word_unit(u: u16) -> bool {
    (0x30 <= u <= 0x39) || (0x41 <= u <= 0x5A) || (0x61 <= u <= 0x7A) || u == 0x5F
}

/// The pattern occurs at `i`, not preceded by a word character.
pub open spec fn pat_at(units: Seq<u16>, pat: Seq<u16>, i: int) -> bool {
    &&& 0 <= i
    &&& i + pat.len() <= units.len()
    &&& units.subrange(i, i + pat.len()) == pat
    &&& (i == 0 || !is_word_unit(units[i - 1]))
}

/// Index of the first anchored occurrence of `pat` at or after `i`.
pub open spec fn find_pat_from(units: Seq<u16>, pat: Seq<u16>, i: int) -> Option<int>
    recommends
        0 <= i,
    decreases units.len() + pat.len() + 1 - i when 0 <= i
{
    if i < 0 || i + pat.len() > units.len() {
        None
    } else if pat_at(units, pat, i) {
        Some(i)
    } else {
        find_pat_from(units, pat, i + 1)
    }
}

/// Index of the first `"` at or after `i`.
pub open spec fn find_quote_from(units: Seq<u16>, i: int) -> Option<int>
    recommends
        0 <= i,
    decreases units.len() + 1 - i when 0 <= i
{
    if i < 0 || i >= units.len() {
        None
    } else if units[i] == 0x22 {
        Some(i)
    } else {
        find_quote_from(units, i + 1)
    }
}

/// The code units of the first `name="value"` attribute, or nothing when the
/// name does not occur or its value is unterminated.
pub open spec fn attr_value(units: Seq<u16>, name: Seq<u8>) -> Option<Seq<u16>> {
    match find_pat_from(units, attr_pat(name), 0) {
        None => None,
        Some(i) => {
            let j = i + attr_pat(name).len();
            match find_quote_from(units, j) {
                None => None,
                Some(q) => Some(units.subrange(j, q)),
            }
        },
    }
}

/// A found pattern index really carries an anchored occurrence.
proof fn lemma_find_pat_at(units: Seq<u16>, pat: Seq<u16>, s: int, i: int)
    requires
        0 <= s,
        find_pat_from(units, pat, s) == Some(i),
    ensures
        pat_at(units, pat, i),
        s <= i,
    decreases units.len() + pat.len() + 1 - s,
{
    if s + pat.len() > units.len() {
    } else if pat_at(units, pat, s) {
    } else {
        lemma_find_pat_at(units, pat, s + 1, i);
    }
}

/// Compares `pat` against the units at `i`.
fn units_match_at(units: &Vec<u16>, i: usize, pat: &Vec<u16>) -> (r: bool)
    requires
        i + pat@.len() <= units@.len(),
    ensures
        r == (units@.subrange(i as int, i + pat@.len()) == pat@),
{
    let plen = pat.len();
    let n = units.len();
    let mut j: usize = 0;
    while j < plen
        invariant
            0 <= j <= plen,
            plen == pat@.len(),
            n == units@.len(),
            i + plen <= n,
            forall|k: int| 0 <= k < j ==> units@[i + k] == pat@[k],
        decreases plen - j,
    {
        if units[i + j] != pat[j] {
            proof {
                assert(units@.subrange(i as int, i + pat@.len())[j as int] != pat@[j as int]);
            }
            return false;
        }
        j = j + 1;
    }
    proof {
        assert(units@.subrange(i as int, i + pat@.len()) =~= pat@);
    }
    true
}

/// Finds the first anchored occurrence of `pat`.
fn find_pattern(units: &Vec<u16>, pat: &Vec<u16>) -> (r: Option<usize>)
    ensures
        match r {
            Some(i) => find_pat_from(units@, pat@, 0) == Some(i as int),
            None => find_pat_from(units@, pat@, 0) is None,
        },
{
    let n = units.len();
    let plen = pat.len();
    if plen > n {
        return None;
    }
    if plen == 0 {
        proof {
            assert(units@.subrange(0, 0) =~= pat@);
            assert(pat_at(units@, pat@, 0));
        }
        return Some(0);
    }
    let mut i: usize = 0;
    while i <= n - plen
        invariant
            0 <= i,
            1 <= plen <= n,
            i + plen <= n + 1,
            n == units@.len(),
            plen == pat@.len(),
            find_pat_from(units@, pat@, 0) == find_pat_from(units@, pat@, i as int),
        decreases n - i,
    {
        let boundary_ok = if i == 0 {
            true
        } else {
            let prev = units[i - 1];
            !((0x30 <= prev && prev <= 0x39) || (0x41 <= prev && prev <= 0x5A) || (0x61 <= prev
                && prev <= 0x7A) || prev == 0x5F)
        };
        if boundary_ok {
            if units_match_at(units, i, pat) {
                return Some(i);
            }
        }
        proof {
            assert(!pat_at(units@, pat@, i as int));
        }
        i = i + 1;
    }
    None
}

/// Extracts the value units of the first `name="value"` attribute.
fn find_attr(units: &Vec<u16>, name: &str) -> (r: Option<Vec<u16>>)
    ensures
        match r {
            Some(v) => attr_value(units@, name.spec_bytes()) == Some(v@),
            None => attr_value(units@, name.spec_bytes()) is None,
        },
{
    let name_bytes = name.as_bytes();
    let mut pat: Vec<u16> = Vec::new();
    let blen = name_bytes.len();
    let mut k: usize = 0;
    while k < blen
        invariant
            0 <= k <= blen,
            blen == name_bytes@.len(),
            pat@ =~= name_bytes@.subrange(0, k as int).map_values(|b: u8| b as u16),
        decreases blen - k,
    {
        pat.push(name_bytes[k] as u16);
        k = k + 1;
    }
    pat.push(0x3D);
    pat.push(0x22);
    proof {
        assert(name_bytes@.subrange(0, blen as int) =~= name_bytes@);
        assert(pat@ =~= attr_pat(name.spec_bytes()));
    }
    let i = match find_pattern(units, &pat) {
        Some(i) => i,
        None => {
            return None;
        },
    };
    proof {
        lemma_find_pat_at(units@, pat@, 0, i as int);
    }
    let n = units.len();
    proof {
        assert(i + pat@.len() <= n);
    }
    let j = i + pat.len();
    let q = match find_quote(units, j) {
        Some(q) => q,
        None => {
            return None;
        },
    };
    let mut value: Vec<u16> = Vec::new();
    let mut t: usize = j;
    while t < q
        invariant
            j <= t <= q < units@.len(),
            value@ =~= units@.subrange(j as int, t as int),
        decreases q - t,
    {
        value.push(units[t]);
        t = t + 1;
    }
    Some(value)
}

/// Finds the first `"` at or after `from`.
fn find_quote(units: &Vec<u16>, from: usize) -> (r: Option<usize>)
    ensures
        match r {
            Some(q) => {
                &&& find_quote_from(units@, from as int) == Some(q as int)
                &&& from <= q < units@.len()
            },
            None => find_quote_from(units@, from as int) is None,
        },
{
    let n = units.len();
    if from >= n {
        return None;
    }
    let mut q: usize = from;
    while q < n
        invariant
            from <= q <= n,
            n == units@.len(),
            find_quote_from(units@, from as int) == find_quote_from(units@, q as int),
        decreases n - q,
    {
        if units[q] == 0x22 {
            return Some(q);
        }
        q = q + 1;
    }
    None
}

/// Version selected by the first character of `GeneratedByEngineVersion`:
/// `'1'` or `'2'`; anything else is unsupported.
pub open spec fn version_of_units(vu: Seq<u16>) -> Option<Version> {
    if vu.len() == 0 {
        None
    } else if vu[0] == 0x31 {
        Some(Version::V1)
    } else if vu[0] == 0x32 {
        Some(Version::V2)
    } else {
        None
    }
}

/// What parsing the header region yields: the bytes consumed and the header,
/// or the error that stops the parse.
pub open spec fn parse_header_spec(data: Seq<u8>) -> Result<(int, HeaderModel), MdxError> {
    if data.len() < 4 {
        Err(MdxError::Malformed)
    } else {
        let hlen = be_val(data.subrange(0, 4)) as int;
        if 4 + hlen + 4 > data.len() {
            Err(MdxError::Malformed)
        } else {
            let text = data.subrange(4, 4 + hlen);
            let stored = le_val_first(data.subrange(4 + hlen, 8 + hlen)) as u32;
            if adler32_spec(text) != stored {
                Err(MdxError::ChecksumMismatch)
            } else if hlen % 2 != 0 {
                Err(MdxError::Malformed)
            } else {
                let units = utf16_units_spec(text);
                match attr_value(units, "GeneratedByEngineVersion".spec_bytes()) {
                    None => Err(MdxError::Malformed),
                    Some(vu) => match version_of_units(vu) {
                        None => Err(MdxError::Unsupported),
                        Some(version) => match attr_value(units, "Encrypted".spec_bytes()) {
                            None => Err(MdxError::Malformed),
                            Some(eu) => if !(eu.len() == 1 && 0x30 <= eu[0] <= 0x33) {
                                Err(MdxError::Malformed)
                            } else {
                                match utf16_str_of(eu) {
                                None => Err(MdxError::Malformed),
                                Some(encrypted) => match attr_value(
                                    units,
                                    "Encoding".spec_bytes(),
                                ) {
                                    None => Err(MdxError::Malformed),
                                    Some(cu) => match utf16_str_of(cu) {
                                        None => Err(MdxError::Malformed),
                                        Some(encoding) => Ok(
                                            (
                                                4 + hlen + 4,
                                                HeaderModel { version, encrypted, encoding },
                                            ),
                                        ),
                                    },
                                },
                            }
                            },
                        },
                    },
                }
            }
        }
    }
}

/// Parses the header region at the start of `data`: big-endian length,
/// UTF-16LE attribute text, little-endian Adler-32 over the text. The
/// checksum is verified before the text is interpreted, so a disagreement
/// reports `ChecksumMismatch` even when the text is also malformed. Returns
/// the bytes consumed and the three attributes the decoder needs.
pub fn parse_header(data: &[u8]) -> (r: Result<(usize, Header), MdxError>)
    ensures
        match r {
            Ok((consumed, h)) => parse_header_spec(data@) == Ok::<(int, HeaderModel), MdxError>(
                (consumed as int, h@),
            ),
            Err(e) => parse_header_spec(data@) == Err::<(int, HeaderModel), MdxError>(e),
        },
{
    let n = data.len();
    if n < 4 {
        return Err(MdxError::Malformed);
    }
    let hlen64 = read_be_at(data, 0, 4);
    proof {
        lemma_be_val_bound(data@.subrange(0, 4));
        reveal_with_fuel(pow256, 5);
    }
    if n < 8 || hlen64 > (n - 8) as u64 {
        return Err(MdxError::Malformed);
    }
    let hlen = hlen64 as usize;
    let text = vstd::slice::slice_subrange(data, 4, 4 + hlen);
    let stored = read_le_u32_at(data, 4 + hlen);
    if !adler32_checksum(text, stored) {
        return Err(MdxError::ChecksumMismatch);
    }
    if hlen % 2 != 0 {
        return Err(MdxError::Malformed);
    }
    let units = match utf16_units_le(text) {
        Some(u) => u,
        None => {
            proof {
                assert(false);
            }
            return Err(MdxError::Malformed);
        },
    };
    let vu = match find_attr(&units, "GeneratedByEngineVersion") {
        Some(v) => v,
        None => {
            return Err(MdxError::Malformed);
        },
    };
    let version = if vu.len() == 0 {
        return Err(MdxError::Unsupported);
    } else if vu[0] == 0x31 {
        Version::V1
    } else if vu[0] == 0x32 {
        Version::V2
    } else {
        return Err(MdxError::Unsupported);
    };
    let eu = match find_attr(&units, "Encrypted") {
        Some(v) => v,
        None => {
            return Err(MdxError::Malformed);
        },
    };
    if !(eu.len() == 1 && 0x30 <= eu[0] && eu[0] <= 0x33) {
        return Err(MdxError::Malformed);
    }
    let encrypted = match utf16_to_string(eu.as_slice()) {
        Some(s) => s,
        None => {
            return Err(MdxError::Malformed);
        },
    };
    let cu = match find_attr(&units, "Encoding") {
        Some(v) => v,
        None => {
            return Err(MdxError::Malformed);
        },
    };
    let encoding = match utf16_to_string(cu.as_slice()) {
        Some(s) => s,
        None => {
            return Err(MdxError::Malformed);
        },
    };
    Ok((4 + hlen + 4, Header { version, encrypted, encoding }))
}

} // verus!
