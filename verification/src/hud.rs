//! The leader badge of the heads-up display.
use vstd::prelude::*;

verus! {

/// The badge text: the crown and the leader's name, or the crown and a dash when nobody
/// leads.
pub fn leader_badge_text(leader: Option<&str>) -> (text: String)
    ensures
        text@ == match leader {
            Some(name) => "👑  "@ + name@,
            None => "👑  —"@,
        },
{
    match leader {
        Some(name) => {
            let mut text = String::from_str("👑  ");
            text.append(name);
            text
        },
        None => String::from_str("👑  —"),
    }
}

} // verus!
