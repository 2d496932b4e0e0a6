use rrgen::error::Error;

#[test]
fn message_of_an_unpaired_part() {
    assert_eq!(Error::UnpairedPart.message(), "cannot split document to frontmatter and body");
}

#[test]
fn message_of_an_invalid_pattern_names_the_pattern() {
    assert_eq!(Error::InvalidPattern("a(".to_string()).message(), "invalid pattern: a(");
}

#[test]
fn message_of_conflicting_placements_names_the_target() {
    assert_eq!(
        Error::ConflictingPlacements("mod.rs".to_string()).message(),
        "more than one placement for injection into mod.rs"
    );
}

#[test]
fn message_of_a_missing_target_names_the_target() {
    assert_eq!(
        Error::TargetMissing("src/lib.rs".to_string()).message(),
        "cannot inject into src/lib.rs: file does not exist"
    );
}

#[test]
fn message_of_a_storage_failure_is_its_description() {
    assert_eq!(Error::Storage("disk full".to_string()).message(), "disk full");
}

#[test]
fn message_of_an_answer_out_of_turn() {
    assert_eq!(Error::OutOfTurn.message(), "answer out of turn");
}
