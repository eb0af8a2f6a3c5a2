use utf8_columns::flight::{check_fields_match_columns, dictionary_header, message_action, record_batch_header, MessageAction, MessageHeader};
use utf8_columns::Error;

#[test]
fn record_batch_header_decisions() {
    assert_eq!(record_batch_header(Some(MessageHeader::RecordBatch)), Ok(()));
    assert!(matches!(record_batch_header(None), Err(Error::OutOfSpec(_))));
    assert!(matches!(record_batch_header(Some(MessageHeader::Schema)), Err(Error::NotYetImplemented(_))));
}

#[test]
fn dictionary_header_decisions() {
    assert_eq!(dictionary_header(Some(MessageHeader::DictionaryBatch)), Ok(true));
    assert_eq!(dictionary_header(Some(MessageHeader::RecordBatch)), Ok(false));
    assert_eq!(dictionary_header(None), Ok(false));
}

#[test]
fn message_action_decisions() {
    assert_eq!(message_action(Some(MessageHeader::RecordBatch)), Ok(MessageAction::ReadRecordBatch));
    assert_eq!(message_action(Some(MessageHeader::DictionaryBatch)), Ok(MessageAction::ReadDictionary));
    assert!(matches!(message_action(None), Err(Error::OutOfSpec(_))));
    assert!(matches!(message_action(Some(MessageHeader::Tensor)), Err(Error::NotYetImplemented(_))));
}

#[test]
fn fields_must_match_columns() {
    assert_eq!(check_fields_match_columns(2, 2), Ok(()));
    assert!(matches!(check_fields_match_columns(1, 2), Err(Error::InvalidArgumentError(_))));
}
