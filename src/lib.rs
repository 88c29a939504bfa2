//! A small HTTP/1.1 request-head parser over byte buffers, with a builder for
//! synthetic requests of a few fixed shapes and a cross-check against httparse.

pub mod builder;
pub mod grammar;
pub mod laws;
pub mod parser;
pub mod reference;
pub mod synthetic;

pub use builder::{SizeClass, build_request, generate_request, size_class};
pub use grammar::{is_token_byte, is_visible_byte};
pub use parser::{
    Header, ParseError, ParseOutcome, ParsedRequest, RequestLine, Span, header_length_total, parse,
    parse_header, parse_request_line,
};
pub use reference::{REFERENCE_HEADER_CAPACITY, ReferenceStatus, lengths_total, reference_parse};
