//! The ownership-gated delete control of the simpler notification path: its
//! identifier carries the original invoker, and only that invoker's press
//! deletes the message.

use vstd::prelude::*;

use crate::text::{all_digits, digits_value, parse_u64_digits};

verus! {

/// What a press on the delete control leads to; either way the press is
/// acknowledged.
#[derive(Debug, Clone, Copy, PartialEq, Eq, Structural)]
pub enum DeleteButtonOutcome {
    /// The original invoker pressed: the message goes.
    DeleteMessage,
    /// Someone else pressed: an ephemeral rejection, the message stays.
    RejectOtherUser,
}

/// Decides a press on the delete control: the identifier spells out the
/// original invoker, and only that invoker's press deletes the message. An
/// identifier that carries no owner decodes to nothing.
pub fn delete_button_decision(custom_id: &str, presser: u64) -> (r: Option<DeleteButtonOutcome>)
    ensures
        match r {
            Some(DeleteButtonOutcome::DeleteMessage) => custom_id@.len() > 0 && all_digits(
                custom_id@,
            ) && digits_value(custom_id@) == presser as int,
            Some(DeleteButtonOutcome::RejectOtherUser) => custom_id@.len() > 0 && all_digits(
                custom_id@,
            ) && digits_value(custom_id@) <= u64::MAX as int && digits_value(custom_id@)
                != presser as int,
            None => custom_id@.len() == 0 || !all_digits(custom_id@) || digits_value(custom_id@)
                > u64::MAX as int,
        },
{
    let owner = match parse_u64_digits(custom_id) {
        Some(v) => v,
        None => {
            return None;
        },
    };
    if owner == presser {
        Some(DeleteButtonOutcome::DeleteMessage)
    } else {
        Some(DeleteButtonOutcome::RejectOtherUser)
    }
}

} // verus!
