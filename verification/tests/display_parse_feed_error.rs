use feembox::util::{DisplayParseFeedError, ParseErrorKind as ParseFeedErrorKind, ParseFeedError};
use std::io::{ErrorKind as IoErrorKind, Error as IoError};


#[test]
fn parse_error_no_feed_root() {
    assert_eq!(DisplayParseFeedError(ParseFeedError::ParseError(ParseFeedErrorKind::NoFeedRoot)).to_string(),
               "couldn't parse feed: no root element");
}

#[test]
fn parse_error_unknown_mime_type() {
    assert_eq!(DisplayParseFeedError(ParseFeedError::ParseError(ParseFeedErrorKind::UnknownMimeType("text/журнализм".to_string()))).to_string(),
               "couldn't parse feed: unsupported content type text/журнализм");
}

#[test]
fn parse_error_missing_content() {
    assert_eq!(DisplayParseFeedError(ParseFeedError::ParseError(ParseFeedErrorKind::MissingContent("content.type".to_string()))).to_string(),
               "couldn't parse feed: missing content element content.type");
}

#[test]
fn io_error() {
    assert_eq!(DisplayParseFeedError(ParseFeedError::IoError(IoError::new(IoErrorKind::Other, "soz mate, can't do it").to_string())).to_string(),
               "couldn't read feed: soz mate, can't do it");
}

#[test]
fn json_and_xml_errors() {
    assert_eq!(DisplayParseFeedError(ParseFeedError::JsonSerde("expected value at line 1 column 1".to_string())).to_string(),
               "couldn't parse JSON: expected value at line 1 column 1");
    assert_eq!(DisplayParseFeedError(ParseFeedError::XmlReader("ill-formed document".to_string())).to_string(),
               "couldn't parse XML: ill-formed document");
}
