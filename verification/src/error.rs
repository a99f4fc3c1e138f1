//! The errors of the codec and of the splitter.

use vstd::prelude::*;

verus! {

/// Mathematical model of a [`CodecError`].
pub enum Failure {
    UnsupportedCodec(Seq<char>),
    InvalidHeader,
    TruncatedInput,
    MalformedMetadata,
    DecompressionFailure,
    CompressionFailure,
    StructuralAssumptionViolated(Seq<char>),
}

/// What can go wrong while a file is read, written or split.
#[derive(Debug, PartialEq, Eq)]
pub enum CodecError {
    /// The version byte names a codec generation that is not implemented. The
    /// field holds the version in decimal.
    UnsupportedCodec(String),
    /// The file does not start with the signature.
    InvalidHeader,
    /// The input ends while more bytes or more nodes are expected.
    TruncatedInput,
    /// A `size` entry of the information block is not an unsigned number.
    MalformedMetadata,
    /// The compressor rejected the value block on reading.
    DecompressionFailure,
    /// The compressor failed on writing.
    CompressionFailure,
    /// The value tree lacks an entry that splitting relies on. The field
    /// holds the key of the entry that is missing or is no table: `Entities`,
    /// `HeadEnt` or `Index`.
    StructuralAssumptionViolated(String),
}

impl View for CodecError {
    type V = Failure;

    open spec fn view(&self) -> Failure {
        match self {
            CodecError::UnsupportedCodec(version) => Failure::UnsupportedCodec(version@),
            CodecError::InvalidHeader => Failure::InvalidHeader,
            CodecError::TruncatedInput => Failure::TruncatedInput,
            CodecError::MalformedMetadata => Failure::MalformedMetadata,
            CodecError::DecompressionFailure => Failure::DecompressionFailure,
            CodecError::CompressionFailure => Failure::CompressionFailure,
            CodecError::StructuralAssumptionViolated(key) => Failure::StructuralAssumptionViolated(
                key@,
            ),
        }
    }
}

impl Clone for CodecError {
    /// The clone has the same model as the error it was made from.
    fn clone(&self) -> (r: CodecError)
        ensures
            r@ == self@,
    {
        match self {
            CodecError::UnsupportedCodec(version) => CodecError::UnsupportedCodec(version.clone()),
            CodecError::InvalidHeader => CodecError::InvalidHeader,
            CodecError::TruncatedInput => CodecError::TruncatedInput,
            CodecError::MalformedMetadata => CodecError::MalformedMetadata,
            CodecError::DecompressionFailure => CodecError::DecompressionFailure,
            CodecError::CompressionFailure => CodecError::CompressionFailure,
            CodecError::StructuralAssumptionViolated(key) => {
                CodecError::StructuralAssumptionViolated(key.clone())
            },
        }
    }
}

/// The one line description of each error.
pub open spec fn message_text(failure: Failure) -> Seq<char> {
    match failure {
        Failure::UnsupportedCodec(_) => "Unsupported Codec was passed"@,
        Failure::InvalidHeader => "The file does not start with the AD2F signature"@,
        Failure::TruncatedInput => "The input ends before the data does"@,
        Failure::MalformedMetadata => "The size in the information block is not a number"@,
        Failure::DecompressionFailure => "Unable to decompress LZMA data"@,
        Failure::CompressionFailure => "Unable to compress data"@,
        Failure::StructuralAssumptionViolated(_) => "Unable to split the table"@,
    }
}

impl CodecError {
    /// A one line description of the error.
    pub fn message(&self) -> (r: &'static str)
        ensures
            r@ == message_text(self@),
    {
        match self {
            CodecError::UnsupportedCodec(_) => "Unsupported Codec was passed",
            CodecError::InvalidHeader => "The file does not start with the AD2F signature",
            CodecError::TruncatedInput => "The input ends before the data does",
            CodecError::MalformedMetadata => "The size in the information block is not a number",
            CodecError::DecompressionFailure => "Unable to decompress LZMA data",
            CodecError::CompressionFailure => "Unable to compress data",
            CodecError::StructuralAssumptionViolated(_) => "Unable to split the table",
        }
    }

    /// The whole line that reports the error: its description, and behind a
    /// colon the version or the key that it holds, if any.
    pub fn describe(&self) -> (r: String)
        ensures
            r@ == describe_text(self@),
    {
        proof {
            reveal_strlit(": ");
            assert(": "@ =~= seq![':', ' ']);
        }
        let mut line = self.message().to_owned();
        match self {
            CodecError::UnsupportedCodec(version) => {
                line.append(": ");
                line.append(version.as_str());
            },
            CodecError::StructuralAssumptionViolated(key) => {
                line.append(": ");
                line.append(key.as_str());
            },
            _ => {},
        }
        line
    }
}

/// The line that reports each error: the description, followed by a colon,
/// a blank and the version or the key where the error holds one.
pub open spec fn describe_text(failure: Failure) -> Seq<char> {
    match failure {
        Failure::UnsupportedCodec(version) => message_text(failure) + seq![':', ' '] + version,
        Failure::StructuralAssumptionViolated(key) => message_text(failure) + seq![':', ' '] + key,
        _ => message_text(failure),
    }
}

} // verus!
