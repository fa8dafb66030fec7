//! Loading and serializing the save file: the current layout is tried
//! first, then the legacy layout; bytes that are not readable text are
//! reported as "appears encrypted" so the caller can ask for a passphrase.
use vstd::prelude::*;

use crate::error_states::HappyChartError;
use crate::improved_daystat::ImprovedDayStat;
use crate::legacy::{decode_legacy_entries, spec_parse_legacy_save};
use crate::save_codec::{decode_entries, encode_entries, spec_enc_save, spec_parse_save};
use vstd::string::StrSliceExecFns;
use vstd::utf8::{decode_utf8, encode_utf8, valid_utf8};

verus! {

/// Which historical layout a successful load matched.
#[derive(Debug, Clone, Copy, PartialEq, Eq, Structural)]
pub enum SaveFormat {
    /// The self-describing current layout.
    Current,
    /// The historical primitive-record layout.
    Legacy,
}

/// Relies on String::from_utf8: it succeeds exactly on valid UTF-8 input
/// and returns the string whose UTF-8 form the input is.
#[verifier::external_body]
pub(crate) fn utf8_to_string(v: &Vec<u8>) -> (r: Option<String>)
    ensures
        r is Some <==> valid_utf8(v@),
        r matches Some(s) ==> encode_utf8(s@) == v@,
{
    String::from_utf8(v.clone()).ok()
}

/// Serializes the entries in the current layout, as the bytes to write to
/// the save file.
pub fn save_entries_bytes(days: &Vec<ImprovedDayStat>) -> (r: Vec<u8>)
    ensures
        r@ == encode_utf8(spec_enc_save(days@.map_values(|d: ImprovedDayStat| d@))),
{
    let text = encode_entries(days);
    text.as_str().as_bytes_vec()
}

/// Loads a save file image.
///
/// The current layout is tried first; on failure the legacy layout, whose
/// records carry a bare instant and are migrated under the given fixed zone
/// offset. Readable text that matches neither layout is a deserialization
/// error; bytes that are not readable text are reported as "appears
/// encrypted", with the bytes carried forward for a decryption attempt.
pub fn load_save_bytes(data: Vec<u8>, legacy_offset: i64) -> (r: Result<
    (Vec<ImprovedDayStat>, SaveFormat),
    HappyChartError,
>)
    ensures
        valid_utf8(data@) ==> ({
            let text = decode_utf8(data@);
            if spec_parse_save(text) is Some {
                r matches Ok(p) && p.1 == SaveFormat::Current && Some(
                    p.0@.map_values(|d: ImprovedDayStat| d@),
                ) == spec_parse_save(text)
            } else if spec_parse_legacy_save(text, legacy_offset as int) is Some {
                r matches Ok(p) && p.1 == SaveFormat::Legacy && Some(
                    p.0@.map_values(|d: ImprovedDayStat| d@),
                ) == spec_parse_legacy_save(text, legacy_offset as int)
            } else {
                r == Err::<(Vec<ImprovedDayStat>, SaveFormat), HappyChartError>(
                    HappyChartError::Deserialization,
                )
            }
        }),
        !valid_utf8(data@) ==> (r matches Err(e) && e matches HappyChartError::EncryptedSaveFile(b)
            && b@ == data@),
{
    match utf8_to_string(&data) {
        None => Err(HappyChartError::EncryptedSaveFile(data)),
        Some(text) => {
            proof {
                vstd::utf8::encode_utf8_decode_utf8(text@);
            }
            match decode_entries(text.as_str()) {
                Some(v) => Ok((v, SaveFormat::Current)),
                None => {
                    match decode_legacy_entries(text.as_str(), legacy_offset) {
                        Some(v) => Ok((v, SaveFormat::Legacy)),
                        None => Err(HappyChartError::Deserialization),
                    }
                },
            }
        },
    }
}

} // verus!
