//! Errors of the update path and their names, as the HTTP replies show them.

use vstd::prelude::*;
use vstd::string::*;
use crate::image::{bar_free, lemma_bar_free_concat, lemma_decimal_bar_free, lemma_name_bar_free};
use crate::text::{CompactFormat, decimal, is_ascii_bytes, lemma_ascii_str, lemma_decimal_ascii, push_all, push_decimal, push_str};

verus! {

/// Errors of partition and OTA operations (`esp_bootloader_esp_idf::partitions::Error`).
#[derive(Clone, Copy, Debug, PartialEq, Eq, Structural)]
pub enum OtaError {
    /// The partition table is invalid or lacks a needed partition.
    Invalid,
    /// An access outside the partition.
    OutOfBounds,
    /// The flash driver failed.
    StorageError,
    /// The partition is write protected.
    WriteProtected,
    /// The OTA data partition is not what it has to be. The only such error
    /// raised expects a `Data(Ota)` partition, so only the size is kept.
    InvalidPartition { expected_size: usize },
    /// Invalid state.
    InvalidState,
    /// An invalid argument.
    InvalidArgument,
    /// Not supported for this partition, or nowhere to write.
    NotSupported,
    /// Not a valid application image.
    InvalidImage,
}

/// Why an update or an activation did not happen.
#[derive(Clone, Copy, Debug, PartialEq, Eq, Structural)]
pub enum SystemError {
    /// Another upload is running.
    Uploading,
    /// The image is larger than the target slot, or the stream ran long.
    OutOfMemory,
    /// The stream ended before the announced length.
    Incomplete,
    /// Reading the request body failed.
    WriteFailure,
    /// A partition or OTA operation failed.
    OTA(OtaError),
}

impl SystemError {
    /// The error of a failed partition or OTA operation.
    pub fn from_ota(error: OtaError) -> (r: Self)
        ensures
            r == SystemError::OTA(error),
    {
        SystemError::OTA(error)
    }
}

/// The name of an OTA error.
pub open spec fn ota_error_name(e: OtaError) -> Seq<u8> {
    match e {
        OtaError::Invalid => "Invalid".spec_bytes(),
        OtaError::OutOfBounds => "OutOfBounds".spec_bytes(),
        OtaError::StorageError => "StorageError".spec_bytes(),
        OtaError::WriteProtected => "WriteProtected".spec_bytes(),
        OtaError::InvalidPartition { expected_size } =>
            "InvalidPartition { expected_size: ".spec_bytes() + decimal(expected_size as nat)
                + ", expected_type: Data(Ota) }".spec_bytes(),
        OtaError::InvalidState => "InvalidState".spec_bytes(),
        OtaError::InvalidArgument => "InvalidArgument".spec_bytes(),
        OtaError::NotSupported => "NotSupported".spec_bytes(),
        OtaError::InvalidImage => "InvalidImage".spec_bytes(),
    }
}

/// The name of an error, e.g. `OTA(NotSupported)`.
pub open spec fn system_error_name(e: SystemError) -> Seq<u8> {
    match e {
        SystemError::Uploading => "Uploading".spec_bytes(),
        SystemError::OutOfMemory => "OutOfMemory".spec_bytes(),
        SystemError::Incomplete => "Incomplete".spec_bytes(),
        SystemError::WriteFailure => "WriteFailure".spec_bytes(),
        SystemError::OTA(o) => "OTA(".spec_bytes() + ota_error_name(o) + ")".spec_bytes(),
    }
}

proof fn lemma_ascii_append(a: Seq<u8>, b: Seq<u8>)
    requires
        is_ascii_bytes(a),
        is_ascii_bytes(b),
    ensures
        is_ascii_bytes(a + b),
{
    assert forall|i: int| 0 <= i < (a + b).len() implies #[trigger] (a + b)[i] < 128 by {
        if i < a.len() {
            assert((a + b)[i] == a[i]);
        } else {
            assert((a + b)[i] == b[i - a.len()]);
        }
    }
}

/// Appends an ASCII literal.
fn push_word(out: &mut Vec<u8>, word: &str)
    requires
        is_ascii(word),
        is_ascii_bytes(old(out)@),
    ensures
        final(out)@ == old(out)@ + word.spec_bytes(),
        is_ascii_bytes(final(out)@),
        is_ascii_bytes(word.spec_bytes()),
{
    proof { lemma_ascii_str(word); lemma_ascii_append(old(out)@, word.spec_bytes()); }
    push_str(out, word);
}

fn push_ota_error_name(out: &mut Vec<u8>, e: OtaError)
    requires
        is_ascii_bytes(old(out)@),
    ensures
        final(out)@ == old(out)@ + ota_error_name(e),
        is_ascii_bytes(final(out)@),
{
    match e {
        OtaError::Invalid => {
            proof { reveal_strlit("Invalid"); }
            push_word(out, "Invalid");
        },
        OtaError::OutOfBounds => {
            proof { reveal_strlit("OutOfBounds"); }
            push_word(out, "OutOfBounds");
        },
        OtaError::StorageError => {
            proof { reveal_strlit("StorageError"); }
            push_word(out, "StorageError");
        },
        OtaError::WriteProtected => {
            proof { reveal_strlit("WriteProtected"); }
            push_word(out, "WriteProtected");
        },
        OtaError::InvalidPartition { expected_size } => {
            proof {
                reveal_strlit("InvalidPartition { expected_size: ");
                reveal_strlit(", expected_type: Data(Ota) }");
            }
            push_word(out, "InvalidPartition { expected_size: ");
            let ghost mid = out@;
            push_decimal(out, expected_size as u128);
            proof {
                lemma_decimal_ascii(expected_size as nat);
                lemma_ascii_append(mid, decimal(expected_size as nat));
            }
            push_word(out, ", expected_type: Data(Ota) }");
            assert(out@ =~= old(out)@ + ota_error_name(e));
        },
        OtaError::InvalidState => {
            proof { reveal_strlit("InvalidState"); }
            push_word(out, "InvalidState");
        },
        OtaError::InvalidArgument => {
            proof { reveal_strlit("InvalidArgument"); }
            push_word(out, "InvalidArgument");
        },
        OtaError::NotSupported => {
            proof { reveal_strlit("NotSupported"); }
            push_word(out, "NotSupported");
        },
        OtaError::InvalidImage => {
            proof { reveal_strlit("InvalidImage"); }
            push_word(out, "InvalidImage");
        },
    }
}

impl CompactFormat for SystemError {
    open spec fn compact_text(&self) -> Seq<u8> {
        system_error_name(*self)
    }

    fn compact_format(&self, out: &mut Vec<u8>) {
        let mut text: Vec<u8> = Vec::new();
        match *self {
            SystemError::Uploading => {
                proof { reveal_strlit("Uploading"); }
                push_word(&mut text, "Uploading");
            },
            SystemError::OutOfMemory => {
                proof { reveal_strlit("OutOfMemory"); }
                push_word(&mut text, "OutOfMemory");
            },
            SystemError::Incomplete => {
                proof { reveal_strlit("Incomplete"); }
                push_word(&mut text, "Incomplete");
            },
            SystemError::WriteFailure => {
                proof { reveal_strlit("WriteFailure"); }
                push_word(&mut text, "WriteFailure");
            },
            SystemError::OTA(o) => {
                proof { reveal_strlit("OTA("); reveal_strlit(")"); }
                push_word(&mut text, "OTA(");
                push_ota_error_name(&mut text, o);
                push_word(&mut text, ")");
            },
        }
        assert(text@ =~= system_error_name(*self));
        push_all(out, text.as_slice());
    }
}


/// Error names hold no `|`.
pub proof fn lemma_error_name_bar_free(e: SystemError)
    ensures
        bar_free(system_error_name(e)),
{
    match e {
        SystemError::Uploading => { reveal_strlit("Uploading"); lemma_name_bar_free("Uploading"); },
        SystemError::OutOfMemory => { reveal_strlit("OutOfMemory"); lemma_name_bar_free("OutOfMemory"); },
        SystemError::Incomplete => { reveal_strlit("Incomplete"); lemma_name_bar_free("Incomplete"); },
        SystemError::WriteFailure => { reveal_strlit("WriteFailure"); lemma_name_bar_free("WriteFailure"); },
        SystemError::OTA(o) => {
            reveal_strlit("OTA(");
            reveal_strlit(")");
            lemma_name_bar_free("OTA(");
            lemma_name_bar_free(")");
            let inner = ota_error_name(o);
            match o {
                OtaError::Invalid => { reveal_strlit("Invalid"); lemma_name_bar_free("Invalid"); },
                OtaError::OutOfBounds => { reveal_strlit("OutOfBounds"); lemma_name_bar_free("OutOfBounds"); },
                OtaError::StorageError => { reveal_strlit("StorageError"); lemma_name_bar_free("StorageError"); },
                OtaError::WriteProtected => { reveal_strlit("WriteProtected"); lemma_name_bar_free("WriteProtected"); },
                OtaError::InvalidPartition { expected_size } => {
                    reveal_strlit("InvalidPartition { expected_size: ");
                    reveal_strlit(", expected_type: Data(Ota) }");
                    lemma_name_bar_free("InvalidPartition { expected_size: ");
                    lemma_name_bar_free(", expected_type: Data(Ota) }");
                    lemma_decimal_bar_free(expected_size as nat);
                    lemma_bar_free_concat("InvalidPartition { expected_size: ".spec_bytes(), decimal(expected_size as nat));
                    lemma_bar_free_concat(
                        "InvalidPartition { expected_size: ".spec_bytes() + decimal(expected_size as nat),
                        ", expected_type: Data(Ota) }".spec_bytes(),
                    );
                },
                OtaError::InvalidState => { reveal_strlit("InvalidState"); lemma_name_bar_free("InvalidState"); },
                OtaError::InvalidArgument => { reveal_strlit("InvalidArgument"); lemma_name_bar_free("InvalidArgument"); },
                OtaError::NotSupported => { reveal_strlit("NotSupported"); lemma_name_bar_free("NotSupported"); },
                OtaError::InvalidImage => { reveal_strlit("InvalidImage"); lemma_name_bar_free("InvalidImage"); },
            }
            lemma_bar_free_concat("OTA(".spec_bytes(), inner);
            lemma_bar_free_concat("OTA(".spec_bytes() + inner, ")".spec_bytes());
        },
    }
}
} // verus!
