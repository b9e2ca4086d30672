//! The statistics of one file and the analysis that produces them.

use crate::count::{count_whitespaces, whitespace_count};
use crate::whitespace::is_whitespace;
use vstd::prelude::*;
use vstd::string::{StrSliceExecFns, StringSliceAdditionalSpecFns};
use vstd::utf8::{decode_utf8, encode_utf8_decode_utf8, valid_utf8};

verus! {

/// The two counts that describe a text: how many characters it has, and how
/// many of them are whitespace.
pub struct Counts {
    pub length: nat,
    pub whitespaces: nat,
}

/// The counts of `text`.
pub open spec fn counts(text: Seq<char>) -> Counts {
    Counts { length: text.len(), whitespaces: whitespace_count(text) }
}

/// The statistics of one file, made in one step from its whole text and
/// never changed afterwards.
///
/// No value of this type counts more whitespace characters than characters.
#[derive(Clone, Copy, Debug, PartialEq, Eq, Structural)]
pub struct FileContent {
    length: usize,
    whitespaces: usize,
}

impl View for FileContent {
    type V = Counts;

    closed spec fn view(&self) -> Counts {
        Counts { length: self.length as nat, whitespaces: self.whitespaces as nat }
    }
}

impl FileContent {
    #[verifier::type_invariant]
    spec fn consistent(&self) -> bool {
        self.whitespaces <= self.length
    }

    /// Two values with the same counts are the same value.
    pub proof fn lemma_same_counts(first: FileContent, second: FileContent)
        requires
            first@ == second@,
        ensures
            first == second,
    {
    }

    /// The statistics with the given counts, where they are consistent.
    pub fn new(length: usize, whitespaces: usize) -> (content: Option<FileContent>)
        ensures
            content is Some <==> whitespaces <= length,
            content matches Some(c) ==> c@ == (Counts {
                length: length as nat,
                whitespaces: whitespaces as nat,
            }),
    {
        if whitespaces <= length {
            Some(FileContent { length, whitespaces })
        } else {
            None
        }
    }

    /// The total number of characters.
    pub fn length(&self) -> (length: usize)
        ensures
            length == self@.length,
            self@.whitespaces <= length,
    {
        proof {
            use_type_invariant(self);
        }
        self.length
    }

    /// The number of whitespace characters.
    pub fn whitespaces(&self) -> (whitespaces: usize)
        ensures
            whitespaces == self@.whitespaces,
            whitespaces <= self@.length,
    {
        proof {
            use_type_invariant(self);
        }
        self.whitespaces
    }
}

/// Why a file has no statistics.
#[derive(Clone, Copy, Debug, PartialEq, Eq, Structural)]
pub enum ReadError {
    /// The file could not be opened or read.
    Unreadable,
    /// The file's bytes are not the encoding of a text.
    InvalidText,
}

/// What the analysis of a file with the given bytes yields: the counts of
/// the text that the bytes encode in UTF-8, or no counts where they encode
/// none.
pub open spec fn analysis(bytes: Seq<u8>) -> Result<Counts, ReadError> {
    if valid_utf8(bytes) {
        Ok(counts(decode_utf8(bytes)))
    } else {
        Err(ReadError::InvalidText)
    }
}

/// Whether `outcome` says what `expected` does: the same error, or
/// statistics with the expected counts.
pub open spec fn reports(
    outcome: Result<FileContent, ReadError>,
    expected: Result<Counts, ReadError>,
) -> bool {
    match outcome {
        Ok(content) => expected == Ok::<Counts, ReadError>(content@),
        Err(error) => expected == Err::<Counts, ReadError>(error),
    }
}

/// No text has more whitespace characters than characters.
pub proof fn lemma_whitespaces_within_length(text: Seq<char>)
    ensures
        0 <= counts(text).whitespaces <= counts(text).length,
{
    text.lemma_filter_len(|c: char| is_whitespace(c));
}

/// Analyzing the same bytes again gives the same outcome: two outcomes that
/// both report the analysis of `bytes` are equal.
pub proof fn lemma_analysis_repeats(
    bytes: Seq<u8>,
    first: Result<FileContent, ReadError>,
    second: Result<FileContent, ReadError>,
)
    requires
        reports(first, analysis(bytes)),
        reports(second, analysis(bytes)),
    ensures
        first == second,
{
    if let Ok(content) = first {
        FileContent::lemma_same_counts(content, second->Ok_0);
    }
}

/// Computes the statistics of a text.
pub fn analyze_text(text: &str) -> (content: FileContent)
    ensures
        content@ == counts(text@),
{
    let length = text.unicode_len();
    let whitespaces = count_whitespaces(text.chars());
    proof {
        lemma_whitespaces_within_length(text@);
    }
    FileContent { length, whitespaces }
}

/// The error of `core::str::from_utf8`, of which nothing is read.
#[verifier::external_type_specification]
#[verifier::external_body]
pub struct ExUtf8Error(core::str::Utf8Error);

/// `core::str::from_utf8` checks that the bytes are valid UTF-8 and, where
/// they are, hands the same bytes back as a string slice. The contract
/// claims that it accepts exactly the byte sequences that are valid UTF-8,
/// and that the slice it returns is encoded by the given bytes.
pub assume_specification[ core::str::from_utf8 ](v: &[u8]) -> (text: Result<
    &str,
    core::str::Utf8Error,
>)
    ensures
        text is Ok <==> valid_utf8(v@),
        text matches Ok(t) ==> t.spec_bytes() == v@,
;

/// Computes the statistics of a file from the bytes read from it.
///
/// The bytes are decoded as UTF-8 and the characters of the decoded text are
/// counted, so a character that takes several bytes counts once. Bytes that
/// are not valid UTF-8 give [`ReadError::InvalidText`] and no statistics.
pub fn analyze_file(bytes: &[u8]) -> (outcome: Result<FileContent, ReadError>)
    ensures
        reports(outcome, analysis(bytes@)),
{
    match core::str::from_utf8(bytes) {
        Ok(text) => {
            proof {
                encode_utf8_decode_utf8(text@);
            }
            Ok(analyze_text(text))
        },
        Err(_) => Err(ReadError::InvalidText),
    }
}

} // verus!
