use cddns::commit::{confirmed, fixed_ids, remaining_outdated};
use cddns::cloudflare::Record;
use cddns::prompt::{parse_yes_no, prompt, yes_no_answer};

#[test]
fn quit_words_abort() {
    assert!(prompt(Some("  QUIT ".to_string())).is_err());
    assert!(prompt(Some("exit".to_string())).is_err());
}

#[test]
fn answers_are_trimmed() {
    assert_eq!(prompt(Some("  Hello ".to_string())).ok().unwrap(), Some("Hello".to_string()));
    assert_eq!(prompt(None).ok().unwrap(), None);
}

#[test]
fn yes_and_no() {
    assert_eq!(parse_yes_no("YES"), Some(true));
    assert_eq!(parse_yes_no("n"), Some(false));
    assert_eq!(parse_yes_no("maybe"), None);
    assert_eq!(yes_no_answer("y"), Some(true));
    assert_eq!(yes_no_answer("Y"), None);
}

#[test]
fn confirmation_policy() {
    assert!(confirmed(true, Some(false)));
    assert!(confirmed(false, None));
    assert!(!confirmed(false, Some(false)));
}

fn record(id: &str) -> Record {
    Record {
        id: id.to_string(),
        zone_id: "z".to_string(),
        zone_name: "example.com".to_string(),
        name: format!("{}.example.com", id),
        record_type: "A".to_string(),
        content: "0.0.0.0".to_string(),
        locked: false,
    }
}

#[test]
fn failed_updates_remain_outdated() {
    let outdated = vec![record("a"), record("b"), record("c")];
    let fixed = fixed_ids(&outdated, &vec![true, false, true]);
    assert_eq!(fixed.len(), 2);
    let left = remaining_outdated(outdated, &fixed);
    assert_eq!(left.len(), 1);
    assert_eq!(left[0].id, "b");
}

#[test]
fn trimming_follows_unicode_white_space() {
    assert_eq!(prompt(Some("\t hi there \u{3000}\n".to_string())).ok().unwrap(), Some("hi there".to_string()));
    assert_eq!(prompt(Some("   ".to_string())).ok().unwrap(), Some(String::new()));
    assert!(prompt(Some("\u{a0}Quit\u{2003}".to_string())).is_err());
}
