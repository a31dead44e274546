//! The outcomes that the user sees after each command: a severity and a
//! message.
use vstd::prelude::*;
use crate::amount::NumberIssue;
use crate::store::{InputError, Inventory, listing_text};

verus! {

/// Whether an outcome reports success or a failure.
#[derive(Clone, Copy, Debug, PartialEq, Eq)]
pub enum Severity {
    Info,
    Error,
}

/// What a command reports back.
#[derive(Debug)]
pub struct Outcome {
    pub severity: Severity,
    pub message: String,
}

/// Why an add or a delete failed: an input was refused, or the inventory
/// could not be stored (with the cause as text).
#[derive(Debug)]
pub enum CommandError {
    Invalid(InputError),
    Persist(String),
}

/// The message for a refused input.
pub open spec fn input_message(e: InputError) -> Seq<char> {
    match e {
        InputError::ProductType => "Error: Please enter a product type."@,
        InputError::Quantity(_) => "Error: Please enter a valid quantity."@,
        InputError::Price(_) => "Error: Please enter a valid price."@,
        InputError::Id(NumberIssue::NotANumber) => "Error: Please enter a valid number."@,
        InputError::Id(NumberIssue::OutOfRange) => "Error: Invalid product ID."@,
    }
}

/// The message for a refused input.
pub fn input_error_text(e: InputError) -> (r: String)
    ensures
        r@ == input_message(e),
{
    match e {
        InputError::ProductType => String::from_str("Error: Please enter a product type."),
        InputError::Quantity(_) => String::from_str("Error: Please enter a valid quantity."),
        InputError::Price(_) => String::from_str("Error: Please enter a valid price."),
        InputError::Id(NumberIssue::NotANumber) => String::from_str(
            "Error: Please enter a valid number.",
        ),
        InputError::Id(NumberIssue::OutOfRange) => String::from_str("Error: Invalid product ID."),
    }
}

/// The outcome of an add: saved, a refused input, or a failed store.
pub fn add_outcome(r: &Result<(), CommandError>) -> (o: Outcome)
    ensures
        match r {
            Ok(_) => o.severity == Severity::Info && o.message@ == "Product saved successfully"@,
            Err(CommandError::Invalid(e)) => o.severity == Severity::Error && o.message@
                == input_message(*e),
            Err(CommandError::Persist(cause)) => o.severity == Severity::Error && o.message@
                == "Error saving product: "@ + cause@,
        },
{
    match r {
        Ok(_) => Outcome {
            severity: Severity::Info,
            message: String::from_str("Product saved successfully"),
        },
        Err(CommandError::Invalid(e)) => Outcome {
            severity: Severity::Error,
            message: input_error_text(*e),
        },
        Err(CommandError::Persist(cause)) => {
            let mut m = String::from_str("Error saving product: ");
            m.append(cause.as_str());
            Outcome { severity: Severity::Error, message: m }
        },
    }
}

/// The outcome of a delete: deleted, a refused input, or a failed store.
pub fn delete_outcome(r: &Result<(), CommandError>) -> (o: Outcome)
    ensures
        match r {
            Ok(_) => o.severity == Severity::Info && o.message@ == "Product deleted successfully!"@,
            Err(CommandError::Invalid(e)) => o.severity == Severity::Error && o.message@
                == input_message(*e),
            Err(CommandError::Persist(cause)) => o.severity == Severity::Error && o.message@
                == "Error deleting product: "@ + cause@,
        },
{
    match r {
        Ok(_) => Outcome {
            severity: Severity::Info,
            message: String::from_str("Product deleted successfully!"),
        },
        Err(CommandError::Invalid(e)) => Outcome {
            severity: Severity::Error,
            message: input_error_text(*e),
        },
        Err(CommandError::Persist(cause)) => {
            let mut m = String::from_str("Error deleting product: ");
            m.append(cause.as_str());
            Outcome { severity: Severity::Error, message: m }
        },
    }
}

/// The outcome of a listing: always informative, with the listing text.
pub fn list_outcome(inv: &Inventory) -> (o: Outcome)
    ensures
        o.severity == Severity::Info,
        o.message@ == listing_text(inv@),
{
    Outcome { severity: Severity::Info, message: inv.listing() }
}

} // verus!
