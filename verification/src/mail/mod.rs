//! Email parsing, body sanitization and attachment extraction.
use vstd::prelude::*;
use crate::api::thread::MessageDetail;
use crate::dates;
use crate::error::AppError;

pub mod body;
pub mod html;
pub mod parser;

verus! {

/// Parse the raw bytes of a stored message into a `MessageDetail`, with the
/// date shown as `YYYY-MM-DD HH:MM` in UTC (`unknown` out of range).
/// `None` where the HTML body does not convert to Markdown (see
/// `parser::try_parse_message`).
pub fn extract_message(raw: &[u8], message_id: &str, date: i64, tags: Vec<String>) -> (r: Option<
    Result<MessageDetail, AppError>,
>)
    ensures
        match r {
            Some(x) => parser::markdown_ok(raw@) && exists|s: String|
                s@ == dates::minute_text(date) && parser::parse_result_is(
                    x,
                    raw@,
                    message_id@,
                    date,
                    s,
                    tags,
                ),
            None => !parser::markdown_ok(raw@),
        },
{
    let date_relative = dates::minute_string(date);
    let ghost s = date_relative;
    let r = parser::try_parse_message(raw, message_id, date, date_relative, tags);
    proof {
        if r is Some {
            assert(s@ == dates::minute_text(date));
        }
    }
    r
}

} // verus!
