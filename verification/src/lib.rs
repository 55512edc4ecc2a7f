//! Text-scanning core for email-like byte streams: encoding detection and
//! decoding, email/URL extraction, header parsing, boundary-line counting,
//! batched metadata extraction, and filename sanitizing.

pub mod chars;
pub mod encoding;
pub mod error;
pub mod headers;
pub mod lines;
pub mod metadata;
pub mod patterns;
pub mod sanitize;

pub use encoding::decode_text;
pub use encoding::detect_encoding;
pub use error::MailError;
pub use headers::parse_headers;
pub use lines::count_boundary_lines;
pub use metadata::EmailMetadata;
pub use patterns::find_all;
pub use patterns::replace_all;
pub use patterns::PatternRegistry;
pub use sanitize::sanitize_filename;
