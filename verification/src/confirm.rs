//! Confirming an import before it writes to a database: a plain "yes",
//! and for the production database its name typed back as well.

use crate::text::{append_str, chars_of, same_text, string_of, trim, trim_chars};
use vstd::prelude::*;

verus! {

/// The production database: imports into it need a second confirmation.
pub const PRODUCTION_DATABASE: &'static str = "rocknrolladb";

/// Which answer an import confirmation waits for.
#[derive(Debug, Clone, Copy, PartialEq, Eq, Structural)]
pub enum ConfirmStage {
    /// A plain "yes".
    Yes,
    /// The production database's name, typed back.
    DatabaseName,
}

/// What confirming an import does next.
#[derive(Debug, PartialEq, Eq)]
pub enum ConfirmAction {
    /// Show `prompt` and wait for an answer matching `expected`.
    Ask { stage: ConfirmStage, prompt: String, expected: String },
    /// Run the import.
    Proceed,
    /// Import nothing.
    Cancel,
}

/// `a` asks, at `stage`, `prompt` and waits for `expected`.
pub open spec fn asks(a: ConfirmAction, stage: ConfirmStage, prompt: Seq<char>, expected: Seq<char>) -> bool {
    a matches ConfirmAction::Ask { stage: s, prompt: p, expected: e } && s == stage && p@ == prompt && e@ == expected
}

/// The question for the production database's name.
pub open spec fn name_prompt() -> Seq<char> {
    "type the database name '"@ + PRODUCTION_DATABASE@ + "' to confirm: "@
}

/// Whether a typed answer, without surrounding whitespace, is `expected`.
pub fn answer_matches(answer: &str, expected: &str) -> (b: bool)
    ensures
        b == (trim(answer@) == expected@),
{
    let chars = chars_of(answer);
    let trimmed = trim_chars(&chars);
    let s = string_of(&trimmed);
    same_text(s.as_str(), expected)
}

/// The first question of every import confirmation: a plain "yes".
pub fn confirm_begin() -> (a: ConfirmAction)
    ensures
        asks(a, ConfirmStage::Yes, "type 'yes' to continue: "@, "yes"@),
{
    let mut prompt = String::new();
    append_str(&mut prompt, "type 'yes' to continue: ");
    let mut expected = String::new();
    append_str(&mut expected, "yes");
    ConfirmAction::Ask { stage: ConfirmStage::Yes, prompt, expected }
}

/// The step after an answer at `stage` to an import into `database`,
/// `matched` telling whether the answer was the expected one: a wrong
/// answer cancels; a "yes" proceeds, but for the production database only
/// once its name has been typed back too.
pub fn confirm_answer(stage: ConfirmStage, database: &str, matched: bool) -> (a: ConfirmAction)
    ensures
        !matched ==> a is Cancel,
        matched && stage == ConfirmStage::Yes && database@ == PRODUCTION_DATABASE@ ==> asks(
            a,
            ConfirmStage::DatabaseName,
            name_prompt(),
            PRODUCTION_DATABASE@,
        ),
        matched && stage == ConfirmStage::Yes && database@ != PRODUCTION_DATABASE@ ==> a is Proceed,
        matched && stage == ConfirmStage::DatabaseName ==> a is Proceed,
{
    if !matched {
        return ConfirmAction::Cancel;
    }
    match stage {
        ConfirmStage::Yes => {
            if same_text(database, PRODUCTION_DATABASE) {
                let mut prompt = String::new();
                append_str(&mut prompt, "type the database name '");
                append_str(&mut prompt, PRODUCTION_DATABASE);
                append_str(&mut prompt, "' to confirm: ");
                let mut expected = String::new();
                append_str(&mut expected, PRODUCTION_DATABASE);
                ConfirmAction::Ask { stage: ConfirmStage::DatabaseName, prompt, expected }
            } else {
                ConfirmAction::Proceed
            }
        },
        ConfirmStage::DatabaseName => ConfirmAction::Proceed,
    }
}

} // verus!
