//! Message-text construction. Building interpolated strings goes through
//! std's formatting machinery, which stays behind trusted wrappers; where a
//! message is a plain splice of names, its exact text is stated.
use vstd::prelude::*;

verus! {

/// Relies on std's format!: splices the two names and the damage count into
/// the attack announcement. The number's decimal rendering is not modeled,
/// so nothing more than the fact of a message is promised.
#[verifier::external_body]
pub fn attack_message(attacker: &String, target: &String, damage: i32) -> String {
    format!("{} attacks {} dealing {} damage.", attacker, target, damage)
}

/// Relies on std's format!: splices the two names into the no-effect
/// announcement.
#[verifier::external_body]
pub fn no_effect_message(attacker: &String, target: &String) -> (r: String)
    ensures
        r@ == attacker@ + " attacks "@ + target@ + " but it has no effect!"@,
{
    format!("{} attacks {} but it has no effect!", attacker, target)
}

/// Relies on std's format!: splices the name into the confusion-expiry
/// notification.
#[verifier::external_body]
pub fn confusion_over_message(name: &String) -> (r: String)
    ensures
        r@ == "The "@ + name@ + " is no longer confused!"@,
{
    format!("The {} is no longer confused!", name)
}

/// Relies on std's format!: splices the name into the fear-expiry
/// notification.
#[verifier::external_body]
pub fn fear_over_message(name: &String) -> (r: String)
    ensures
        r@ == "The "@ + name@ + " is no longer scared!"@,
{
    format!("The {} is no longer scared!", name)
}

/// Relies on std's format!: splices the name into the death announcement.
#[verifier::external_body]
pub fn death_message(name: &String) -> (r: String)
    ensures
        r@ == "The "@ + name@ + " dies!"@,
{
    format!("The {} dies!", name)
}

} // verus!
