//! Verified core of a point-of-sale printing helper: Base64 decoding of
//! ticket resources, text shaping for thermal printers, ESC/POS ticket
//! assembly, printer-test records and the command lines handed to the
//! system.
pub mod strings;
pub mod base64;
pub mod text;
pub mod escpos;
pub mod report;
pub mod commands;
pub mod outcomes;
