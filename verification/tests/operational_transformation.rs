use rust_playground::operational_transformation::is_valid;
use rust_playground::operational_transformation::validate;

#[test]
fn works_with_deletions() {
    let result = is_valid(
        "Repl.it uses operational transformations to keep everyone in a multiplayer repl in sync.",
        "Repl.it uses operational transformations.",
        "[{\"op\": \"skip\", \"count\": 40}, {\"op\": \"delete\", \"count\": 47}]",
    ); // true

    assert!(result == true);
}

#[test]
fn fails_to_delete_excess() {
    let result = is_valid(
        "Repl.it uses operational transformations to keep everyone in a multiplayer repl in sync.",
        "Repl.it uses operational transformations.",
        "[{\"op\": \"skip\", \"count\": 45}, {\"op\": \"delete\", \"count\": 47}]",
    ); // false, delete past end

    assert!(result == false);
}

#[test]
fn fails_to_skip_excess() {
    let result = is_valid(
      "Repl.it uses operational transformations to keep everyone in a multiplayer repl in sync.",
      "Repl.it uses operational transformations.",
      "[{\"op\": \"skip\", \"count\": 40}, {\"op\": \"delete\", \"count\": 47}, {\"op\": \"skip\", \"count\": 2}]"
    ); // false, skip past end

    assert!(result == false);
}

#[test]
fn succeeds_with_multiple_operations() {
    let result = is_valid(
      "Repl.it uses operational transformations to keep everyone in a multiplayer repl in sync.",
      "We use operational transformations to keep everyone in a multiplayer repl in sync.",
      "[{\"op\": \"delete\", \"count\": 7}, {\"op\": \"insert\", \"chars\": \"We\"}, {\"op\": \"skip\", \"count\": 4}, {\"op\": \"delete\", \"count\": 1}]"
    ); // true

    assert!(result == true);
}

#[test]
fn fails_if_desynced() {
    let result = is_valid(
      "Repl.it uses operational transformations to keep everyone in a multiplayer repl in sync.",
      "We can use operational transformations to keep everyone in a multiplayer repl in sync.",
      "[{\"op\": \"delete\", \"count\": 7}, {\"op\": \"insert\", \"chars\": \"We\"}, {\"op\": \"skip\", \"count\": 4}, {\"op\": \"delete\", \"count\": 1}]"
    ); // false

    assert!(result == false);
}

#[test]
fn works_with_no_operations() {
    let result = is_valid(
        "Repl.it uses operational transformations to keep everyone in a multiplayer repl in sync.",
        "Repl.it uses operational transformations to keep everyone in a multiplayer repl in sync.",
        "[]",
    ); // true

    assert!(result == true);
}

#[test]
fn insert_splices_at_the_cursor() {
    assert_eq!(
        validate("abc", "aXbc", "[{\"op\": \"skip\", \"count\": 1}, {\"op\": \"insert\", \"chars\": \"X\"}]"),
        Some(true)
    );
}

#[test]
fn members_accept_any_order() {
    assert_eq!(
        validate("abc", "c", "[{\"count\": 2, \"op\": \"delete\"}]"),
        Some(true)
    );
}

#[test]
fn insert_understands_escapes() {
    assert_eq!(
        validate("", "a\"\\\nb", "[{\"op\": \"insert\", \"chars\": \"a\\\"\\\\\\nb\"}]"),
        Some(true)
    );
}

#[test]
fn rejects_documents_outside_the_grammar() {
    // Not an array at all.
    assert_eq!(validate("a", "a", "{}"), None);
    // Unknown operation tag.
    assert_eq!(validate("a", "a", "[{\"op\": \"jump\", \"count\": 1}]"), None);
    // Unknown member.
    assert_eq!(
        validate("a", "a", "[{\"op\": \"skip\", \"count\": 0, \"extra\": 1}]"),
        None
    );
    // Duplicate member.
    assert_eq!(
        validate("a", "a", "[{\"op\": \"skip\", \"count\": 0, \"count\": 0}]"),
        None
    );
    // The wrong payload for the variant.
    assert_eq!(validate("a", "a", "[{\"op\": \"skip\", \"chars\": \"x\"}]"), None);
    assert_eq!(validate("ab", "ab", "[{\"op\": \"insert\", \"count\": 1}]"), None);
    // Counts must be whole non-negative numbers without a leading zero.
    assert_eq!(validate("ab", "ab", "[{\"op\": \"skip\", \"count\": 01}]"), None);
    assert_eq!(validate("ab", "ab", "[{\"op\": \"skip\", \"count\": 1.5}]"), None);
    assert_eq!(validate("ab", "ab", "[{\"op\": \"skip\", \"count\": -1}]"), None);
    assert_eq!(validate("ab", "ab", "[{\"op\": \"skip\", \"count\": 1e2}]"), None);
    // Trailing garbage after the array.
    assert_eq!(validate("a", "a", "[] x"), None);
    // Unterminated pieces.
    assert_eq!(validate("a", "a", "[{\"op\": \"skip\", \"count\": 1"), None);
    assert_eq!(validate("a", "a", "[{\"op\": \"insert\", \"chars\": \"x}]"), None);
}

#[test]
fn surrounding_whitespace_is_ignored() {
    assert_eq!(
        validate("ab", "b", " \t\r\n[ { \"op\" : \"delete\" , \"count\" : 1 } ] \n"),
        Some(true)
    );
}

#[test]
fn skip_to_exactly_the_end_is_rejected() {
    // The cursor may never reach the end of the document by skipping.
    assert_eq!(validate("ab", "ab", "[{\"op\": \"skip\", \"count\": 2}]"), Some(false));
    assert_eq!(validate("ab", "ab", "[{\"op\": \"skip\", \"count\": 1}]"), Some(true));
}

#[test]
fn delete_to_exactly_the_end_is_allowed() {
    assert_eq!(validate("ab", "", "[{\"op\": \"delete\", \"count\": 2}]"), Some(true));
    assert_eq!(validate("ab", "", "[{\"op\": \"delete\", \"count\": 3}]"), Some(false));
}
