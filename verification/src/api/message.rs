//! A single message: its detail as the API serves it.
use vstd::prelude::*;
use crate::api::thread::{MessageDetail, ThreadDetail};
use crate::error::AppError;
use crate::text;

verus! {

/// The detail of one message, in a thread of its own that carries no tags.
pub fn single_message_thread(thread_id: String, detail: MessageDetail) -> (r: ThreadDetail)
    ensures
        r.thread_id == thread_id,
        r.tags@.len() == 0,
        r.messages@ == seq![detail],
{
    let mut messages: Vec<MessageDetail> = Vec::new();
    messages.push(detail);
    ThreadDetail { thread_id, tags: Vec::new(), messages }
}

/// The first message of `detail`, or `NotFound("message not found")` where
/// it holds none.
pub fn first_message(detail: ThreadDetail) -> (r: Result<MessageDetail, AppError>)
    ensures
        detail.messages@.len() > 0 ==> r == Ok::<MessageDetail, AppError>(detail.messages@[0]),
        detail.messages@.len() == 0 ==> (r matches Err(AppError::NotFound(m)) && m@
            == "message not found"@),
{
    let mut messages = detail.messages;
    if messages.len() > 0 {
        Ok(messages.swap_remove(0))
    } else {
        Err(AppError::NotFound(text::copy_str("message not found")))
    }
}

} // verus!
