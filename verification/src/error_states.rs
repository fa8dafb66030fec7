//! The closed error taxonomy of the persisted-state subsystem. Failures are
//! returned as values, never raised; the "appears encrypted" kind is the one
//! signal that routes to a passphrase prompt instead of the error list.
use vstd::prelude::*;

use crate::encryption::CryptoErrorKind;

verus! {

/// Everything that can go wrong while loading, saving, backing up or
/// exporting the journal.
#[derive(Debug, PartialEq, Eq, Clone)]
pub enum HappyChartError {
    /// The in-memory entries could not be encoded.
    Serialization,
    /// Neither the current nor the legacy layout parsed the (readable) save
    /// text.
    Deserialization,
    /// A read of the save file failed; carries the path.
    ReadSaveFileIO(String),
    /// A write of the save file failed; carries the path.
    WriteSaveFileIO(String),
    /// The release list for the update check could not be fetched.
    UpdateReleaseList(String),
    /// Writing the backup archive failed.
    SaveBackupIO(String),
    /// Writing the spreadsheet export failed.
    ExportIO(String),
    /// The save file is not readable text, so it is likely ciphertext; the
    /// raw bytes ride along for a later decryption attempt.
    EncryptedSaveFile(Vec<u8>),
    /// The passphrase and its confirmation copy differ.
    EncryptionKeysDontMatch,
    /// The cipher failed while encrypting.
    EncryptionError(CryptoErrorKind),
    /// The cipher failed while decrypting: wrong passphrase or corrupted
    /// container.
    DecryptionError(CryptoErrorKind),
    /// A passphrase is shorter than allowed; the flags name the field at
    /// fault.
    EncryptKeyTooShort { primary_key_problem: bool, secondary_key_problem: bool },
    /// A passphrase is longer than allowed; the flags name the field at
    /// fault.
    EncryptKeyTooLong { primary_key_problem: bool, secondary_key_problem: bool },
}

impl HappyChartError {
    /// Short display name of the error kind.
    pub fn kind_text(&self) -> (r: &'static str)
        ensures
            r@ == spec_error_kind_text(*self),
    {
        match self {
            HappyChartError::Serialization => "serialization error",
            HappyChartError::Deserialization => "deserialization error",
            HappyChartError::ReadSaveFileIO(_) => "save file read error",
            HappyChartError::WriteSaveFileIO(_) => "save file write error",
            HappyChartError::UpdateReleaseList(_) => "update release list error",
            HappyChartError::SaveBackupIO(_) => "backup write error",
            HappyChartError::ExportIO(_) => "export write error",
            HappyChartError::EncryptedSaveFile(_) => "save file appears encrypted",
            HappyChartError::EncryptionKeysDontMatch => "encryption keys do not match",
            HappyChartError::EncryptionError(_) => "encryption error",
            HappyChartError::DecryptionError(_) => "decryption error",
            HappyChartError::EncryptKeyTooShort { .. } => "encryption key too short",
            HappyChartError::EncryptKeyTooLong { .. } => "encryption key too long",
        }
    }

    /// The one error kind that never joins the visible error list: it routes
    /// to the decryption prompt instead.
    pub fn routes_to_decryption_prompt(&self) -> (r: bool)
        ensures
            r == (self matches HappyChartError::EncryptedSaveFile(_)),
    {
        match self {
            HappyChartError::EncryptedSaveFile(_) => true,
            _ => false,
        }
    }
}

/// Short display name of each error kind.
pub open spec fn spec_error_kind_text(e: HappyChartError) -> Seq<char> {
    match e {
        HappyChartError::Serialization => "serialization error"@,
        HappyChartError::Deserialization => "deserialization error"@,
        HappyChartError::ReadSaveFileIO(_) => "save file read error"@,
        HappyChartError::WriteSaveFileIO(_) => "save file write error"@,
        HappyChartError::UpdateReleaseList(_) => "update release list error"@,
        HappyChartError::SaveBackupIO(_) => "backup write error"@,
        HappyChartError::ExportIO(_) => "export write error"@,
        HappyChartError::EncryptedSaveFile(_) => "save file appears encrypted"@,
        HappyChartError::EncryptionKeysDontMatch => "encryption keys do not match"@,
        HappyChartError::EncryptionError(_) => "encryption error"@,
        HappyChartError::DecryptionError(_) => "decryption error"@,
        HappyChartError::EncryptKeyTooShort { .. } => "encryption key too short"@,
        HappyChartError::EncryptKeyTooLong { .. } => "encryption key too long"@,
    }
}

} // verus!
