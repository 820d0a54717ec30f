use rocknrolla::confirm::{answer_matches, confirm_answer, confirm_begin, ConfirmAction, ConfirmStage, PRODUCTION_DATABASE};

#[test]
fn answers_match_after_trimming_whitespace() {
    assert!(answer_matches("yes", "yes"));
    assert!(answer_matches("  yes\n", "yes"));
    assert!(!answer_matches("y es", "yes"));
    assert!(!answer_matches("YES", "yes"));
    assert!(!answer_matches("", "yes"));
}

#[test]
fn every_import_first_asks_for_yes() {
    assert_eq!(
        confirm_begin(),
        ConfirmAction::Ask {
            stage: ConfirmStage::Yes,
            prompt: "type 'yes' to continue: ".to_string(),
            expected: "yes".to_string(),
        }
    );
}

#[test]
fn a_development_import_proceeds_after_one_yes() {
    assert_eq!(confirm_answer(ConfirmStage::Yes, "rocknrolladb-dev", true), ConfirmAction::Proceed);
    assert_eq!(confirm_answer(ConfirmStage::Yes, "rocknrolladb-dev", false), ConfirmAction::Cancel);
}

#[test]
fn a_production_import_needs_the_database_name_too() {
    assert_eq!(
        confirm_answer(ConfirmStage::Yes, PRODUCTION_DATABASE, true),
        ConfirmAction::Ask {
            stage: ConfirmStage::DatabaseName,
            prompt: "type the database name 'rocknrolladb' to confirm: ".to_string(),
            expected: "rocknrolladb".to_string(),
        }
    );
    assert_eq!(confirm_answer(ConfirmStage::DatabaseName, PRODUCTION_DATABASE, false), ConfirmAction::Cancel);
    assert_eq!(confirm_answer(ConfirmStage::DatabaseName, PRODUCTION_DATABASE, true), ConfirmAction::Proceed);
}
