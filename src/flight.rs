use vstd::prelude::*;

use crate::datatypes::Error;

verus! {

/// The kind of header an inter-process message carries.
#[derive(Clone, Copy, Debug, PartialEq, Eq, Structural)]
pub enum MessageHeader {
    Schema,
    DictionaryBatch,
    RecordBatch,
    Tensor,
    SparseTensor,
}

/// What to do with the body of a message.
#[derive(Clone, Copy, Debug, PartialEq, Eq, Structural)]
pub enum MessageAction {
    /// Read the body as a batch of columns.
    ReadRecordBatch,
    /// Read the body as a dictionary and store it.
    ReadDictionary,
}

/// Decides on a message that must hold a record batch: a missing header is
/// malformed, any other kind is not handled.
pub fn record_batch_header(header: Option<MessageHeader>) -> (r: Result<(), Error>)
    ensures
        r is Ok <==> header == Some(MessageHeader::RecordBatch),
        r matches Err(e) ==> (header is None ==> e is OutOfSpec) && (header is Some ==> e is NotYetImplemented),
{
    match header {
        None => Err(Error::OutOfSpec("Unable to convert flight data header to a record batch".to_string())),
        Some(MessageHeader::RecordBatch) => Ok(()),
        Some(_) => Err(Error::NotYetImplemented("flight currently only supports reading RecordBatch messages".to_string())),
    }
}

/// Decides on a message that may hold a dictionary: `true` when its body is
/// to be read, `false` when there is nothing to read (no header, or a header
/// of another kind), which is an empty result rather than an error.
pub fn dictionary_header(header: Option<MessageHeader>) -> (r: Result<bool, Error>)
    ensures
        r is Ok,
        r matches Ok(read) ==> read == (header == Some(MessageHeader::DictionaryBatch)),
{
    match header {
        Some(MessageHeader::DictionaryBatch) => Ok(true),
        _ => Ok(false),
    }
}

/// Checks that a batch comes with one field description per column.
pub fn check_fields_match_columns(num_fields: usize, num_columns: usize) -> (r: Result<(), Error>)
    ensures
        r is Ok <==> num_fields == num_columns,
        r matches Err(e) ==> e is InvalidArgumentError,
{
    if num_fields != num_columns {
        Err(Error::InvalidArgumentError("The argument `fields` must be consistent with the columns' schema".to_string()))
    } else {
        Ok(())
    }
}

/// Decides on any message: batches and dictionaries are read, a missing
/// header is malformed, and other kinds are not handled.
pub fn message_action(header: Option<MessageHeader>) -> (r: Result<MessageAction, Error>)
    ensures
        header == Some(MessageHeader::RecordBatch) ==> r == Ok::<MessageAction, Error>(MessageAction::ReadRecordBatch),
        header == Some(MessageHeader::DictionaryBatch) ==> r == Ok::<MessageAction, Error>(MessageAction::ReadDictionary),
        header is None ==> (r matches Err(e) && e is OutOfSpec),
        (header matches Some(h) && h != MessageHeader::RecordBatch && h != MessageHeader::DictionaryBatch)
            ==> (r matches Err(e) && e is NotYetImplemented),
{
    match header {
        None => Err(Error::OutOfSpec("IPC Message must contain a header".to_string())),
        Some(MessageHeader::RecordBatch) => Ok(MessageAction::ReadRecordBatch),
        Some(MessageHeader::DictionaryBatch) => Ok(MessageAction::ReadDictionary),
        Some(_) => Err(Error::NotYetImplemented("Reading types other than record batches not yet supported".to_string())),
    }
}

} // verus!
