//! The text of the spreadsheet, decoded from the bytes of its file.
//!
//! The bytes are decoded under the encoding that a label names. Where no
//! label is asked for, or the label asked for names no encoding, the bytes are
//! decoded as `windows-1252`. Bytes that the encoding cannot decode are
//! replaced by the replacement character.

use vstd::prelude::*;
use encoding::label::encoding_from_whatwg_label;
use encoding::DecoderTrap;

verus! {

/// The label of the encoding that is used where no other is.
pub const DEFAULT_ENCODING: &'static str = "windows-1252";

/// What decoding `bytes` gives under the encoding that `label` names, with
/// every undecodable run replaced: the text, or the decoder's complaint; `None`
/// where the label names no encoding.
pub uninterp spec fn decoded(label: Seq<char>, bytes: Seq<u8>) -> Option<
    Result<Seq<char>, Seq<char>>,
>;

/// An outcome of decoding as plain values.
pub open spec fn outcome_view(outcome: Option<Result<String, String>>) -> Option<
    Result<Seq<char>, Seq<char>>,
> {
    match outcome {
        Some(Ok(text)) => Some(Ok(text@)),
        Some(Err(complaint)) => Some(Err(complaint@)),
        None => None,
    }
}

/// Looks the label up with `encoding_from_whatwg_label` and decodes the bytes
/// with `Encoding::decode` under the trap `DecoderTrap::Replace`. `None` is
/// returned where the lookup finds no encoding; an error of the decoder is
/// handed on as its text. The contract claims that the outcome is the one that
/// `decoded` names for this label and these bytes, and that the decoder does
/// not give up: under this trap it writes the replacement character for what
/// it cannot decode and goes on.
#[verifier::external_body]
fn decode_labelled(label: &str, bytes: &[u8]) -> (outcome: Option<Result<String, String>>)
    ensures
        outcome_view(outcome) == decoded(label@, bytes@),
        outcome matches Some(decoding) ==> decoding is Ok,
{
    let encoding = encoding_from_whatwg_label(label)?;
    Some(encoding.decode(bytes, DecoderTrap::Replace).map_err(|complaint| complaint.into_owned()))
}

/// Why bytes could not be decoded.
#[derive(Debug, Clone, PartialEq, Eq)]
pub enum DecodeError {
    /// Neither the label asked for nor the default label names an encoding.
    UnknownEncoding,
    /// The decoder gave up, with this complaint.
    Undecodable(String),
}

/// A decoding failure as plain values.
pub enum DecodeErrorView {
    UnknownEncoding,
    Undecodable(Seq<char>),
}

impl View for DecodeError {
    type V = DecodeErrorView;

    open spec fn view(&self) -> DecodeErrorView {
        match self {
            DecodeError::UnknownEncoding => DecodeErrorView::UnknownEncoding,
            DecodeError::Undecodable(complaint) => DecodeErrorView::Undecodable(complaint@),
        }
    }
}

/// What decoding gives where `requested` is the label asked for: the outcome
/// under that label where it names an encoding, else the outcome under the
/// default label.
pub open spec fn decoding_of(requested: Option<Seq<char>>, bytes: Seq<u8>) -> Option<
    Result<Seq<char>, Seq<char>>,
> {
    match requested {
        Some(label) if decoded(label, bytes) is Some => decoded(label, bytes),
        _ => decoded(DEFAULT_ENCODING@, bytes),
    }
}

/// What `decode_text` returns for an outcome of decoding.
pub open spec fn text_of(outcome: Option<Result<Seq<char>, Seq<char>>>) -> Result<
    Seq<char>,
    DecodeErrorView,
> {
    match outcome {
        Some(Ok(text)) => Ok(text),
        Some(Err(complaint)) => Err(DecodeErrorView::Undecodable(complaint)),
        None => Err(DecodeErrorView::UnknownEncoding),
    }
}

/// A result of `decode_text` as plain values.
pub open spec fn result_view(result: Result<String, DecodeError>) -> Result<
    Seq<char>,
    DecodeErrorView,
> {
    match result {
        Ok(text) => Ok(text@),
        Err(e) => Err(e@),
    }
}

/// Turns an outcome of decoding into the result that callers get.
pub fn decoding_result(outcome: Option<Result<String, String>>) -> (result: Result<
    String,
    DecodeError,
>)
    ensures
        result_view(result) == text_of(outcome_view(outcome)),
{
    match outcome {
        Some(Ok(text)) => Ok(text),
        Some(Err(complaint)) => Err(DecodeError::Undecodable(complaint)),
        None => Err(DecodeError::UnknownEncoding),
    }
}

/// Decodes the bytes of a file under the encoding that `requested` names, or
/// under the default encoding where nothing is asked for or the label names no
/// encoding. Bytes that cannot be decoded never make the decoding fail: it
/// fails only where no encoding is found at all.
pub fn decode_text(bytes: &[u8], requested: Option<&str>) -> (result: Result<String, DecodeError>)
    ensures
        result_view(result) == text_of(
            decoding_of(
                match requested {
                    Some(label) => Some(label@),
                    None => None,
                },
                bytes@,
            ),
        ),
        result matches Err(e) ==> e == DecodeError::UnknownEncoding,
{
    let first = match requested {
        Some(label) => decode_labelled(label, bytes),
        None => None,
    };
    if first.is_some() {
        decoding_result(first)
    } else {
        decoding_result(decode_labelled(DEFAULT_ENCODING, bytes))
    }
}

} // verus!
