use midnight::controls::{delete_button_decision, DeleteButtonOutcome};
use midnight::text::parse_u64_digits;

#[test]
fn owner_may_delete() {
    assert_eq!(
        delete_button_decision("123456789", 123456789),
        Some(DeleteButtonOutcome::DeleteMessage)
    );
}

#[test]
fn others_are_rejected() {
    assert_eq!(
        delete_button_decision("123456789", 5),
        Some(DeleteButtonOutcome::RejectOtherUser)
    );
}

#[test]
fn unreadable_owner_decodes_to_nothing() {
    assert_eq!(delete_button_decision("", 5), None);
    assert_eq!(delete_button_decision("12x", 5), None);
    assert_eq!(delete_button_decision("99999999999999999999999", 5), None);
}

#[test]
fn u64_digit_parsing() {
    assert_eq!(parse_u64_digits("0"), Some(0));
    assert_eq!(parse_u64_digits("18446744073709551615"), Some(u64::MAX));
    assert_eq!(parse_u64_digits("18446744073709551616"), None);
    assert_eq!(parse_u64_digits("none"), None);
    assert_eq!(parse_u64_digits(""), None);
}
