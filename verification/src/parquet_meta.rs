//! Reading the metadata of a Parquet file.
//!
//! Layout of a Parquet file:
//! ```text
//! +---------------------------+-----+---+
//! |      Rest of file         |  B  | A |
//! +---------------------------+-----+---+
//! ```
//! where A is the footer and B the metadata. The footer, the last [`FOOTER_SIZE`]
//! bytes, tells how long the metadata is. It is read first. Only where these bytes are
//! not enough, by the length that the footer tells, are more bytes read.
use arrow_schema::Schema;
use parquet::file::metadata::ParquetMetaData;
use vstd::prelude::*;

use crate::arrow_conversion::infer_schema_with_extension;
use crate::arrow_conversion::is_inferred;
use crate::error::is_outcome;
use crate::error::map_parquet_error;
use crate::error::ErrorCode;
use crate::metadata_walk::decodable;
use crate::metadata_walk::is_decodable;
use crate::metadata_walk::no_element;
use crate::metadata_walk::walk_fields;
use crate::metadata_walk::Record;
use crate::metadata_walk_laws::law_metadata_is_refused_for_its_schema_only;
use crate::metadata_walk_laws::law_short_metadata_is_never_refused;
use crate::text::decimal;
use crate::text::decimal_text;

verus! {

pub const FOOTER_SIZE: u64 = 8;

/// Whether a footer ends in the bytes `PAR1`.
pub open spec fn footer_has_magic(footer: Seq<u8>) -> bool {
    footer[4] == 0x50 && footer[5] == 0x41 && footer[6] == 0x52 && footer[7] == 0x31
}

/// Whether a footer ends in the bytes `PARE`, which stand before encrypted metadata.
pub open spec fn footer_is_encrypted(footer: Seq<u8>) -> bool {
    footer[4] == 0x50 && footer[5] == 0x41 && footer[6] == 0x52 && footer[7] == 0x45
}

/// The length of the metadata: the first four bytes of the footer, the least
/// significant one first.
pub open spec fn footer_metadata_len(footer: Seq<u8>) -> nat {
    (footer[0] + 0x100 * footer[1] + 0x1_0000 * footer[2] + 0x100_0000 * footer[3]) as nat
}

/// The message for a footer that does not end in the magic bytes.
pub open spec fn corrupt_footer_text() -> Seq<char> {
    "Parquet error: Invalid Parquet file. Corrupt footer"@
}

/// `parquet::file::metadata::FooterTail::try_new`, with `metadata_length` and
/// `is_encrypted_footer` of what it gives, or the `Display` text of its error.
/// Trusted: it gives the length that the footer tells where the footer ends in the
/// magic bytes of plain or of encrypted metadata, and which of the two, and an error
/// that says so where it ends in neither.
#[verifier::external_body]
fn decode_footer(footer: &[u8; 8]) -> (tail: Result<(usize, bool), String>)
    ensures
        match tail {
            Ok((len, encrypted)) => {
                &&& len == footer_metadata_len(footer@)
                &&& encrypted ==> footer_is_encrypted(footer@)
                &&& !encrypted ==> footer_has_magic(footer@)
            },
            Err(text) => !footer_has_magic(footer@) && !footer_is_encrypted(footer@) && text@
                == corrupt_footer_text(),
        },
{
    match parquet::file::metadata::FooterTail::try_new(footer) {
        Ok(tail) => Ok((tail.metadata_length(), tail.is_encrypted_footer())),
        Err(error) => Err(error.to_string()),
    }
}

/// What the bytes of a file's metadata decode to, or the text of the error.
pub uninterp spec fn decoded_metadata(bytes: Seq<u8>) -> Result<ParquetMetaData, Seq<char>>;

/// `parquet::file::metadata::ParquetMetaDataReader::decode_metadata`, with the
/// `Display` text of its error. Trusted: the outcome is a function of the bytes, where no
/// number in them and no nesting of their schema makes the decoder overflow. What it does
/// where memory or stack run out is a matter of the machine.
#[verifier::external_body]
fn decode_metadata(bytes: &[u8]) -> (meta: Result<ParquetMetaData, String>)
    requires
        decodable(bytes@),
    ensures
        match meta {
            Ok(meta) => decoded_metadata(bytes@) == Ok::<ParquetMetaData, Seq<char>>(meta),
            Err(text) => decoded_metadata(bytes@) == Err::<ParquetMetaData, Seq<char>>(text@),
        },
{
    parquet::file::metadata::ParquetMetaDataReader::decode_metadata(bytes).map_err(
        |error| error.to_string(),
    )
}

/// The error of metadata that cannot be handed to the decoder.
pub open spec fn is_not_decodable(error: ErrorCode) -> bool {
    error matches ErrorCode::BadBytes(text) && text@
        == "Invalid Parquet file. Metadata goes beyond what can be decoded."@
}

/// What decoding metadata comes to.
pub open spec fn is_decoded(meta: Result<ParquetMetaData, ErrorCode>, bytes: Seq<u8>) -> bool {
    if decodable(bytes) {
        is_outcome(meta, decoded_metadata(bytes))
    } else {
        meta matches Err(error) && is_not_decodable(error)
    }
}

/// The message for a file whose metadata could not be read.
pub open spec fn schema_error_text(path: Seq<char>, cause: Seq<char>) -> Seq<char> {
    "Read parquet file '"@ + path + "''s meta error: "@ + cause
}

/// The error for a file whose metadata could not be read.
pub fn schema_error(path: &str, cause: &str) -> (error: ErrorCode)
    ensures
        error matches ErrorCode::Internal(text) && text@ == schema_error_text(path@, cause@),
{
    let mut text = String::from_str("Read parquet file '");
    text.append(path);
    text.append("''s meta error: ");
    text.append(cause);
    ErrorCode::Internal(text)
}

/// The Arrow schema of the file at `path`, once reading its metadata has come to an
/// end. A failed read is reported with the path.
pub fn schema_of_read(path: &str, meta: Result<ParquetMetaData, ErrorCode>) -> (schema: Result<
    Schema,
    ErrorCode,
>)
    ensures
        match meta {
            Ok(meta) => is_inferred(schema, meta),
            Err(cause) => schema matches Err(ErrorCode::Internal(text)) && text@
                == schema_error_text(path@, cause.text()) && text@ == "Read parquet file '"@
                + path@ + "''s meta error: "@ + cause.text(),
        },
{
    match meta {
        Ok(meta) => infer_schema_with_extension(&meta),
        Err(cause) => Err(schema_error(path, cause.message().as_str())),
    }
}

/// check file is large enough to hold footer
pub fn check_footer_size(file_size: u64) -> (res: Result<(), ErrorCode>)
    ensures
        match res {
            Ok(()) => file_size >= FOOTER_SIZE,
            Err(error) => file_size < FOOTER_SIZE && is_too_small(error),
        },
        res is Ok <==> file_size >= 8,
        res is Err ==> res->Err_0 is BadBytes,
{
    if file_size < FOOTER_SIZE {
        Err(
            ErrorCode::BadBytes(
                String::from_str("Invalid Parquet file. Size is smaller than footer."),
            ),
        )
    } else {
        Ok(())
    }
}

/// The error of a file that is too small for a footer.
pub open spec fn is_too_small(error: ErrorCode) -> bool {
    error matches ErrorCode::BadBytes(text) && text@
        == "Invalid Parquet file. Size is smaller than footer."@
}

/// The error of a file that is too small for the metadata that its footer tells of.
pub open spec fn is_metadata_too_long(error: ErrorCode, metadata_len: nat, file_size: nat) -> bool {
    error matches ErrorCode::BadBytes(text) && text@
        == "Invalid Parquet file. Reported metadata length of "@ + decimal(metadata_len) + " + "@
        + decimal(FOOTER_SIZE as nat) + " byte footer, but file is only "@ + decimal(file_size)
        + " bytes"@
}

/// check file is large enough to hold metadata
pub fn check_meta_size(file_size: u64, metadata_len: u64) -> (res: Result<(), ErrorCode>)
    ensures
        match res {
            Ok(()) => metadata_len + FOOTER_SIZE <= file_size,
            Err(error) => metadata_len + FOOTER_SIZE > file_size && is_metadata_too_long(
                error,
                metadata_len as nat,
                file_size as nat,
            ),
        },
        res is Ok <==> metadata_len + 8 <= file_size,
        res is Err ==> res->Err_0 is BadBytes,
{
    if file_size < FOOTER_SIZE || metadata_len > file_size - FOOTER_SIZE {
        let mut text = String::from_str("Invalid Parquet file. Reported metadata length of ");
        text.append(decimal_text(metadata_len).as_str());
        text.append(" + ");
        text.append(decimal_text(FOOTER_SIZE).as_str());
        text.append(" byte footer, but file is only ");
        text.append(decimal_text(file_size).as_str());
        text.append(" bytes");
        Err(ErrorCode::BadBytes(text))
    } else {
        Ok(())
    }
}

/// How far reading the metadata of a file has come.
pub enum MetadataRead {
    /// The size of the file is needed.
    NeedSize,
    /// The footer of the file is needed.
    NeedFooter { file_size: u64 },
    /// The metadata is needed, together with the footer behind it.
    NeedMetadata { file_size: u64, metadata_len: u64 },
    /// Nothing more is needed.
    Done(Result<ParquetMetaData, ErrorCode>),
}

/// What the storage answers.
pub enum ReadEvent {
    /// The size of the file.
    Size(u64),
    /// The bytes of the range that was asked for.
    Bytes(Vec<u8>),
    /// The storage failed.
    Failed(ErrorCode),
}

impl MetadataRead {
    /// The ranges that the state stands for lie in the file.
    pub open spec fn wf(self) -> bool {
        match self {
            MetadataRead::NeedSize => true,
            MetadataRead::NeedFooter { file_size } => FOOTER_SIZE <= file_size,
            MetadataRead::NeedMetadata { file_size, metadata_len } => metadata_len + FOOTER_SIZE
                <= file_size,
            MetadataRead::Done(_) => true,
        }
    }

    /// Whether the storage can answer in this way. A footer that was read has all its
    /// bytes.
    pub open spec fn expects(self, event: ReadEvent) -> bool {
        match self {
            MetadataRead::NeedSize => event is Size || event is Failed,
            MetadataRead::NeedFooter { .. } => event is Failed || (event matches ReadEvent::Bytes(
                bytes,
            ) && bytes@.len() >= FOOTER_SIZE),
            MetadataRead::NeedMetadata { .. } => event is Bytes || event is Failed,
            MetadataRead::Done(_) => false,
        }
    }

    /// What follows once the size of the file is known.
    pub open spec fn is_after_size(self, file_size: u64) -> bool {
        if file_size < FOOTER_SIZE {
            self matches MetadataRead::Done(Err(error)) && is_too_small(error)
        } else {
            self == MetadataRead::NeedFooter { file_size }
        }
    }

    /// What follows the footer of a file.
    pub open spec fn is_after_footer(self, file_size: u64, footer: Seq<u8>) -> bool {
        let metadata_len = footer_metadata_len(footer);
        if !footer_has_magic(footer) {
            self matches MetadataRead::Done(Err(ErrorCode::Parquet(text))) && text@
                == corrupt_footer_text()
        } else if metadata_len + FOOTER_SIZE > file_size {
            self matches MetadataRead::Done(Err(error)) && is_metadata_too_long(
                error,
                metadata_len,
                file_size as nat,
            )
        } else if metadata_len == 0 {
            self matches MetadataRead::Done(meta) && is_decoded(meta, footer)
        } else {
            self == MetadataRead::NeedMetadata { file_size, metadata_len: metadata_len as u64 }
        }
    }

    /// What follows an answer of the storage.
    pub open spec fn is_after(self, before: MetadataRead, event: ReadEvent) -> bool {
        match event {
            ReadEvent::Failed(error) => self == MetadataRead::Done(Err(error)),
            ReadEvent::Size(file_size) => self.is_after_size(file_size),
            ReadEvent::Bytes(bytes) => match before {
                MetadataRead::NeedFooter { file_size } => self.is_after_footer(
                    file_size,
                    bytes@.take(FOOTER_SIZE as int),
                ),
                _ => self matches MetadataRead::Done(meta) && is_decoded(meta, bytes@),
            },
        }
    }

    /// The range of the file that is needed next, if any.
    pub open spec fn needed(self) -> Option<(int, int)> {
        match self {
            MetadataRead::NeedFooter { file_size } => Some(
                (file_size - FOOTER_SIZE, file_size as int),
            ),
            MetadataRead::NeedMetadata { file_size, metadata_len } => Some(
                (file_size - FOOTER_SIZE - metadata_len, file_size as int),
            ),
            _ => None,
        }
    }

    /// Starts to read a file, whose size may be known already.
    pub fn start(file_size: Option<u64>) -> (next: MetadataRead)
        ensures
            next.wf(),
            match file_size {
                None => next == MetadataRead::NeedSize,
                Some(file_size) => next.is_after_size(file_size),
            },
            file_size matches Some(n) ==> (n >= 8 ==> next == MetadataRead::NeedFooter {
                file_size: n,
            }),
            file_size matches Some(n) ==> (n < 8 ==> (next matches MetadataRead::Done(Err(error))
                && error is BadBytes)),
    {
        match file_size {
            None => MetadataRead::NeedSize,
            Some(file_size) => match check_footer_size(file_size) {
                Ok(()) => MetadataRead::NeedFooter { file_size },
                Err(error) => MetadataRead::Done(Err(error)),
            },
        }
    }

    /// The range of the file to read next: its start and its end.
    pub fn range(&self) -> (range: Option<(u64, u64)>)
        requires
            self.wf(),
        ensures
            match range {
                Some((start, end)) => start <= end && self.needed() == Some(
                    (start as int, end as int),
                ),
                None => self.needed() is None,
            },
            self matches MetadataRead::NeedFooter { file_size } ==> range == Some(
                ((*file_size - 8) as u64, *file_size),
            ),
            self matches MetadataRead::NeedMetadata { file_size, metadata_len } ==> range == Some(
                ((*file_size - 8 - *metadata_len) as u64, *file_size),
            ),
            self is NeedSize || self is Done ==> range is None,
    {
        match self {
            MetadataRead::NeedFooter { file_size } => Some((*file_size - FOOTER_SIZE, *file_size)),
            MetadataRead::NeedMetadata { file_size, metadata_len } => Some(
                (*file_size - FOOTER_SIZE - *metadata_len, *file_size),
            ),
            _ => None,
        }
    }

    /// Takes in an answer of the storage.
    pub fn next(self, event: ReadEvent) -> (next: MetadataRead)
        requires
            self.wf(),
            self.expects(event),
        ensures
            next.wf(),
            next.is_after(self, event),
            event matches ReadEvent::Failed(error) ==> next == MetadataRead::Done(Err(error)),
            event matches ReadEvent::Size(n) ==> (n >= 8 ==> next == MetadataRead::NeedFooter {
                file_size: n,
            }),
            event matches ReadEvent::Bytes(bytes) ==> (
            self matches MetadataRead::NeedMetadata { file_size, metadata_len } ==> (
            next matches MetadataRead::Done(meta) && (bytes@.len() <= 32767 ==> (
            match decoded_metadata(bytes@) {
                Ok(decoded) => meta == Ok::<ParquetMetaData, ErrorCode>(decoded),
                Err(text) => meta matches Err(ErrorCode::Parquet(message)) && message@ == text,
            })))),
    {
        match event {
            ReadEvent::Failed(error) => MetadataRead::Done(Err(error)),
            ReadEvent::Size(file_size) => MetadataRead::start(Some(file_size)),
            ReadEvent::Bytes(bytes) => match self {
                MetadataRead::NeedFooter { file_size } => after_footer(file_size, &bytes),
                _ => MetadataRead::Done(finish_metadata(bytes.as_slice())),
            },
        }
    }
}

/// Decodes the metadata of a file.
pub fn finish_metadata(bytes: &[u8]) -> (meta: Result<ParquetMetaData, ErrorCode>)
    ensures
        is_decoded(meta, bytes@),
        bytes@.len() <= 32767 ==> (match decoded_metadata(bytes@) {
            Ok(decoded) => meta == Ok::<ParquetMetaData, ErrorCode>(decoded),
            Err(text) => meta matches Err(ErrorCode::Parquet(message)) && message@ == text,
        }),
{
    proof {
        if bytes@.len() <= 32767 {
            law_short_metadata_is_never_refused(bytes@);
        }
    }
    if is_decodable(bytes) {
        map_parquet_error(decode_metadata(bytes))
    } else {
        Err(
            ErrorCode::BadBytes(
                String::from_str(
                    "Invalid Parquet file. Metadata goes beyond what can be decoded.",
                ),
            ),
        )
    }
}

fn after_footer(file_size: u64, footer: &Vec<u8>) -> (next: MetadataRead)
    requires
        FOOTER_SIZE <= file_size,
        footer@.len() >= FOOTER_SIZE,
    ensures
        next.wf(),
        next.is_after_footer(file_size, footer@.take(FOOTER_SIZE as int)),
{
    let bytes: [u8; 8] = [
        footer[0],
        footer[1],
        footer[2],
        footer[3],
        footer[4],
        footer[5],
        footer[6],
        footer[7],
    ];
    assert(bytes@ =~= footer@.take(FOOTER_SIZE as int));
    match decode_footer(&bytes) {
        Err(text) => MetadataRead::Done(Err(ErrorCode::Parquet(text))),
        Ok((len, encrypted)) => {
            if encrypted {
                return MetadataRead::Done(
                    Err(
                        ErrorCode::Parquet(
                            String::from_str("Parquet error: Invalid Parquet file. Corrupt footer"),
                        ),
                    ),
                );
            }
            let metadata_len: u64 = len as u64;
            match check_meta_size(file_size, metadata_len) {
                Err(error) => MetadataRead::Done(Err(error)),
                Ok(()) => if metadata_len == 0 {
                    MetadataRead::Done(finish_metadata(bytes.as_slice()))
                } else {
                    MetadataRead::NeedMetadata { file_size, metadata_len }
                },
            }
        },
    }
}

/// Whether a file holds a footer, and in front of it the metadata that the footer
/// tells of.
pub open spec fn has_metadata(file: Seq<u8>) -> bool {
    &&& file.len() >= FOOTER_SIZE
    &&& footer_has_magic(footer_of(file))
    &&& footer_metadata_len(footer_of(file)) + FOOTER_SIZE <= file.len()
}

/// The last bytes of a file.
pub open spec fn footer_of(file: Seq<u8>) -> Seq<u8> {
    file.skip(file.len() - FOOTER_SIZE)
}

/// The end of a file from the start of its metadata on.
pub open spec fn metadata_of(file: Seq<u8>) -> Seq<u8> {
    file.skip(file.len() - FOOTER_SIZE - footer_metadata_len(footer_of(file)))
}

/// A storage that answers truthfully of the file `file`.
pub open spec fn answers(file: Seq<u8>, state: MetadataRead, event: ReadEvent) -> bool {
    match event {
        ReadEvent::Size(size) => state is NeedSize && size == file.len(),
        ReadEvent::Bytes(bytes) => state.needed() matches Some((start, end)) && bytes@
            == file.subrange(start, end),
        ReadEvent::Failed(_) => false,
    }
}

/// A way of reading a file to the end: the states that it goes through, and the
/// answer of the storage between each state and the next.
pub open spec fn is_run(
    file: Seq<u8>,
    size_known: bool,
    states: Seq<MetadataRead>,
    events: Seq<ReadEvent>,
) -> bool {
    &&& states.len() == events.len() + 1
    &&& if size_known {
        states[0].is_after_size(file.len() as u64)
    } else {
        states[0] == MetadataRead::NeedSize
    }
    &&& forall|i: int|
        0 <= i < events.len() ==> answers(file, #[trigger] states[i], events[i]) && states[i
            + 1].is_after(states[i], events[i])
    &&& states.last() is Done
}

/// Reading a file comes to what the file holds: the decoding of its metadata where it
/// has any, an error that names the fault where it has none. The storage is asked
/// three times at most, and only for bytes of the file. Beyond the footer bytes are
/// asked for only where the footer tells of metadata that is not in the bytes at hand.
pub proof fn law_read_gives_the_metadata_of_the_file(
    file: Seq<u8>,
    size_known: bool,
    states: Seq<MetadataRead>,
    events: Seq<ReadEvent>,
)
    requires
        file.len() <= u64::MAX,
        is_run(file, size_known, states, events),
    ensures
        events.len() <= 3,
        forall|i: int|
            0 <= i < states.len() ==> ((#[trigger] states[i]).needed() matches Some((start, end))
                ==> 0 <= start <= end <= file.len()),
        forall|i: int|
            0 <= i < states.len() && #[trigger] states[i] is NeedMetadata ==> has_metadata(file)
                && footer_metadata_len(footer_of(file)) > 0,
        states.last() matches MetadataRead::Done(outcome) && (if has_metadata(file) {
            is_decoded(outcome, metadata_of(file))
        } else if file.len() < FOOTER_SIZE {
            outcome matches Err(error) && is_too_small(error)
        } else if !footer_has_magic(footer_of(file)) {
            outcome matches Err(ErrorCode::Parquet(text)) && text@ == corrupt_footer_text()
        } else {
            outcome matches Err(error) && is_metadata_too_long(
                error,
                footer_metadata_len(footer_of(file)),
                file.len(),
            )
        }),
{
    let at: int = if size_known {
        0
    } else {
        1
    };
    assert(states[at].is_after_size(file.len() as u64)) by {
        if !size_known {
            assert(answers(file, states[0], events[0]));
        }
    }
    if states[at] is Done {
        if events.len() > at {
            assert(answers(file, states[at], events[at]));
        }
    } else {
        assert(answers(file, states[at], events[at]));
        let bytes = events[at]->Bytes_0@;
        assert(bytes =~= footer_of(file));
        assert(bytes.take(FOOTER_SIZE as int) =~= footer_of(file));
        assert(states[at + 1].is_after_footer(file.len() as u64, footer_of(file)));
        if states[at + 1] is Done {
            if events.len() > at + 1 {
                assert(answers(file, states[at + 1], events[at + 1]));
            }
        } else {
            assert(answers(file, states[at + 1], events[at + 1]));
            assert(events[at + 1]->Bytes_0@ =~= metadata_of(file));
            if events.len() > at + 2 {
                assert(answers(file, states[at + 2], events[at + 2]));
            }
        }
    }
}

/// Metadata that can be decoded comes to what it decodes to, and to nothing else: the
/// metadata where it decodes to some, and else an error with the text of the decoder.
pub proof fn law_metadata_is_decoded(meta: Result<ParquetMetaData, ErrorCode>, bytes: Seq<u8>)
    requires
        is_decoded(meta, bytes),
        decodable(bytes),
    ensures
        decoded_metadata(bytes) is Ok ==> meta is Ok && meta->Ok_0 == decoded_metadata(bytes)->Ok_0,
        decoded_metadata(bytes) is Err ==> (meta matches Err(ErrorCode::Parquet(text)) && text@
            == decoded_metadata(bytes)->Err_0),
{
}

/// The same holds of all metadata of fewer than 613,566,757 bytes whose schema has no more
/// than 32,767 elements, so of all metadata that is short: none of it is refused.
pub proof fn law_metadata_within_bounds_is_decoded(
    meta: Result<ParquetMetaData, ErrorCode>,
    bytes: Seq<u8>,
)
    requires
        is_decoded(meta, bytes),
        bytes.len() < 613_566_757,
        bytes.len() <= 32767 || walk_fields(
            bytes,
            0,
            Record::File,
            0,
            no_element(),
            Seq::empty(),
        ).1.len() <= 32767,
    ensures
        decoded_metadata(bytes) is Ok ==> meta is Ok && meta->Ok_0 == decoded_metadata(bytes)->Ok_0,
        decoded_metadata(bytes) is Err ==> (meta matches Err(ErrorCode::Parquet(text)) && text@
            == decoded_metadata(bytes)->Err_0),
{
    if bytes.len() <= 32767 {
        law_short_metadata_is_never_refused(bytes);
    } else {
        law_metadata_is_refused_for_its_schema_only(bytes);
    }
    law_metadata_is_decoded(meta, bytes);
}

/// Metadata never comes to anything but what it decodes to or an error.
pub proof fn law_metadata_is_not_made_up(
    meta: Result<ParquetMetaData, ErrorCode>,
    bytes: Seq<u8>,
)
    requires
        is_decoded(meta, bytes),
    ensures
        meta is Ok ==> decoded_metadata(bytes) is Ok && meta->Ok_0 == decoded_metadata(
            bytes,
        )->Ok_0,
        meta matches Err(ErrorCode::Parquet(text)) ==> decoded_metadata(bytes) is Err
            && decoded_metadata(bytes)->Err_0 == text@,
        meta is Err ==> meta->Err_0 is Parquet || meta->Err_0 is BadBytes,
{
}

/// Once its size is known, a file of fewer than eight bytes is an error, and of any other
/// file the last eight bytes are read.
pub proof fn law_file_of_eight_bytes_has_a_footer(after: MetadataRead, file_size: u64)
    requires
        after.is_after_size(file_size),
    ensures
        file_size < 8 ==> (after matches MetadataRead::Done(Err(ErrorCode::BadBytes(text)))
            && text@ == "Invalid Parquet file. Size is smaller than footer."@),
        file_size >= 8 ==> after == (MetadataRead::NeedFooter { file_size }),
        after.needed() matches Some((start, end)) ==> start == file_size - 8 && end == file_size,
{
}

/// What a footer of eight bytes leads to. Its last four bytes must be `PAR1`. The first
/// four are the length of the metadata, the least significant one first. Where the file
/// cannot hold so much, there is an error that names the numbers. Where there is none, the
/// footer itself is decoded. Else the metadata is read, from its start to the end of the
/// file.
pub proof fn law_footer_tells_what_to_read(
    after: MetadataRead,
    file_size: u64,
    footer: Seq<u8>,
    len: int,
)
    requires
        footer.len() == 8,
        after.is_after_footer(file_size, footer),
        len == footer[0] + 256 * footer[1] + 65536 * footer[2] + 16777216 * footer[3],
    ensures
        footer[4] != 0x50 || footer[5] != 0x41 || footer[6] != 0x52 || footer[7] != 0x31 ==> (
        after matches MetadataRead::Done(Err(ErrorCode::Parquet(text))) && text@
            == "Parquet error: Invalid Parquet file. Corrupt footer"@),
        footer[4] == 0x50 && footer[5] == 0x41 && footer[6] == 0x52 && footer[7] == 0x31 ==> if len
            + 8 > file_size {
            after matches MetadataRead::Done(Err(ErrorCode::BadBytes(text))) && text@
                == "Invalid Parquet file. Reported metadata length of "@ + decimal(len as nat)
                + " + "@ + decimal(8) + " byte footer, but file is only "@ + decimal(
                file_size as nat,
            ) + " bytes"@
        } else if len == 0 {
            after matches MetadataRead::Done(meta) && is_decoded(meta, footer)
        } else {
            after == (MetadataRead::NeedMetadata { file_size, metadata_len: len as u64 })
                && after.needed() == Some((file_size - 8 - len, file_size as int))
        },
{
}

/// A failure of the storage is the outcome, whatever was asked for.
pub proof fn law_failing_storage_ends_the_read(
    before: MetadataRead,
    after: MetadataRead,
    error: ErrorCode,
)
    requires
        after.is_after(before, ReadEvent::Failed(error)),
    ensures
        after == MetadataRead::Done(Err(error)),
{
}

/// Which answers the storage can give: a size where the size is needed, bytes where bytes
/// are, of a footer all of them, and in either case a failure.
pub proof fn law_storage_answers_what_is_asked(state: MetadataRead, event: ReadEvent)
    ensures
        state is NeedSize ==> (state.expects(event) <==> event is Size || event is Failed),
        state is NeedFooter ==> (state.expects(event) <==> event is Failed || (
        event matches ReadEvent::Bytes(bytes) && bytes@.len() >= 8)),
        state is NeedMetadata ==> (state.expects(event) <==> event is Bytes || event is Failed),
        state is Done ==> !state.expects(event),
        state matches MetadataRead::NeedFooter { file_size } ==> (state.wf() <==> file_size >= 8),
        state matches MetadataRead::NeedMetadata { file_size, metadata_len } ==> (state.wf()
            <==> metadata_len + 8 <= file_size),
        state is NeedSize || state is Done ==> state.wf(),
{
}

/// A file that is read to the end comes to what its last bytes decode to, from the start of
/// its metadata on: the file ends in a length of four bytes and in `PAR1`, and so much
/// metadata stands in front of that. A storage that answers truthfully is asked for nothing
/// but the size and ranges at the end of the file.
pub proof fn law_whole_read_decodes_the_end_of_the_file(
    file: Seq<u8>,
    states: Seq<MetadataRead>,
    events: Seq<ReadEvent>,
    len: int,
)
    requires
        8 <= file.len() <= u64::MAX,
        states.len() == events.len() + 1,
        states[0] is NeedSize || states[0] == (MetadataRead::NeedFooter {
            file_size: file.len() as u64,
        }),
        forall|i: int|
            0 <= i < events.len() ==> states[i + 1].is_after(#[trigger] states[i], events[i])
                && match states[i] {
                MetadataRead::NeedSize => events[i] == ReadEvent::Size(file.len() as u64),
                MetadataRead::NeedFooter { file_size } => events[i] matches ReadEvent::Bytes(bytes)
                    && bytes@ == file.subrange(file_size - 8, file_size as int),
                MetadataRead::NeedMetadata { file_size, metadata_len } => events[i] matches
                    ReadEvent::Bytes(bytes) && bytes@ == file.subrange(
                    file_size - 8 - metadata_len,
                    file_size as int,
                ),
                MetadataRead::Done(_) => false,
            },
        states.last() is Done,
        len == file[file.len() - 8] + 256 * file[file.len() - 7] + 65536 * file[file.len() - 6]
            + 16777216 * file[file.len() - 5],
        len + 8 <= file.len(),
        file[file.len() - 4] == 0x50,
        file[file.len() - 3] == 0x41,
        file[file.len() - 2] == 0x52,
        file[file.len() - 1] == 0x31,
    ensures
        states.last() matches MetadataRead::Done(meta) && is_decoded(
            meta,
            file.subrange(file.len() - 8 - len, file.len() as int),
        ),
        events.len() <= 3,
{
    let size = file.len() as u64;
    let at: int = if states[0] is NeedSize {
        1
    } else {
        0
    };
    if at == 1 {
        assert(states[1].is_after(states[0], events[0]));
    }
    assert(states[at] == MetadataRead::NeedFooter { file_size: size });
    assert(states[at + 1].is_after(states[at], events[at]));
    let footer = file.subrange(size - 8, size as int);
    assert(events[at]->Bytes_0@.take(8) =~= footer);
    law_footer_tells_what_to_read(states[at + 1], size, footer, len);
    if states[at + 1] is Done {
        if events.len() > at + 1 {
            assert(states[at + 2].is_after(states[at + 1], events[at + 1]));
        }
        assert(footer =~= file.subrange(size - 8 - len, size as int));
    } else {
        assert(states[at + 2].is_after(states[at + 1], events[at + 1]));
        if events.len() > at + 2 {
            assert(states[at + 3].is_after(states[at + 2], events[at + 2]));
        }
    }
}

/// The error of a file that could not be read for its schema names the path and the cause.
pub proof fn law_schema_error_names_path_and_cause(path: Seq<char>, cause: Seq<char>)
    ensures
        schema_error_text(path, cause) == "Read parquet file '"@ + path + "''s meta error: "@
            + cause,
{
}

} // verus!
