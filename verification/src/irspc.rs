//! Directional focus: deciding what a compass-direction focus change
//! should focus, from the neighbour the manager reports and the nodes of
//! the desktops involved.

use vstd::prelude::*;

use crate::bspwm::{CardinalDirection, FocusTarget, get_node_exists, str_eq};
use crate::tree::SplitDirection;

verus! {

/// Movement inside a stack: toward the previous or the next leaf.
#[derive(Clone, Copy, PartialEq, Eq, Structural, Debug)]
pub enum FocusDirection {
    Next,
    Prev,
}

/// Decides what a directional focus change focuses: the reported
/// neighbour when it lies on the current or the neighbouring desktop,
/// else that desktop as a whole, else nothing. When the neighbour lies
/// on neither desktop, a neighbouring desktop must have been found.
pub fn focus_neighbour(
    neighbour: Option<u64>,
    current_desktop_nodes: Vec<u64>,
    neighbour_desktop_nodes: Vec<u64>,
    neighbour_desktop: Option<u64>,
) -> (r: FocusTarget)
    requires
        neighbour matches Some(n) ==> ((!neighbour_desktop_nodes@.contains(n)
            && !current_desktop_nodes@.contains(n)) ==> neighbour_desktop is Some),
    ensures
        neighbour matches Some(n) ==> ((neighbour_desktop_nodes@.contains(n)
            || current_desktop_nodes@.contains(n)) ==> r == FocusTarget::Node(n)),
        neighbour matches Some(n) ==> ((!neighbour_desktop_nodes@.contains(n)
            && !current_desktop_nodes@.contains(n)) ==> r == FocusTarget::Desktop(
            neighbour_desktop->Some_0,
        )),
        neighbour_desktop matches Some(d) ==> (neighbour is None ==> r == FocusTarget::Desktop(d)),
        (neighbour is None && neighbour_desktop is None) ==> r == FocusTarget::Nothing,
{
    match neighbour {
        Some(neighbour_id) => {
            if get_node_exists(&neighbour_desktop_nodes, neighbour_id) || get_node_exists(
                &current_desktop_nodes,
                neighbour_id,
            ) {
                FocusTarget::Node(neighbour_id)
            } else {
                match neighbour_desktop {
                    Some(d) => FocusTarget::Desktop(d),
                    None => FocusTarget::Nothing,
                }
            }
        },
        None => {
            match neighbour_desktop {
                Some(d) => FocusTarget::Desktop(d),
                None => FocusTarget::Nothing,
            }
        },
    }
}

/// The stack-relative movement that a compass direction means under a
/// split direction: along a horizontal split, north is the previous and
/// south the next leaf; along a vertical one, west and east; across the
/// split, nothing.
pub open spec fn spec_cardinal_to_focus_direction(
    cardinal: CardinalDirection,
    split: SplitDirection,
) -> Option<FocusDirection> {
    match split {
        SplitDirection::Horizontal => match cardinal {
            CardinalDirection::North => Some(FocusDirection::Prev),
            CardinalDirection::South => Some(FocusDirection::Next),
            _ => None,
        },
        SplitDirection::Vertical => match cardinal {
            CardinalDirection::West => Some(FocusDirection::Prev),
            CardinalDirection::East => Some(FocusDirection::Next),
            _ => None,
        },
    }
}

/// Converts a compass direction to a movement inside a stack, given the
/// stack root's split direction.
pub fn cardinal_to_focus_direction(
    cardinal: &CardinalDirection,
    split: &SplitDirection,
) -> (r: Option<FocusDirection>)
    ensures
        r == spec_cardinal_to_focus_direction(*cardinal, *split),
{
    match *split {
        SplitDirection::Horizontal => {
            match *cardinal {
                CardinalDirection::North => Some(FocusDirection::Prev),
                CardinalDirection::South => Some(FocusDirection::Next),
                _ => None,
            }
        },
        SplitDirection::Vertical => {
            match *cardinal {
                CardinalDirection::West => Some(FocusDirection::Prev),
                CardinalDirection::East => Some(FocusDirection::Next),
                _ => None,
            }
        },
    }
}

/// What `str::to_lowercase` returns: a function of the characters
/// alone.
pub uninterp spec fn lower_of(s: Seq<char>) -> Seq<char>;

/// Relies on str::to_lowercase: the lowercased text depends on the
/// characters alone, in every process and on every machine.
#[verifier::external_body]
fn lowercase(s: &str) -> (r: String)
    ensures
        r@ == lower_of(s@),
{
    s.to_lowercase()
}

/// Parses a direction word case-insensitively: a word whose lowercase
/// form is `north`, `south`, `east` or `west` names that direction; any
/// other word comes back lowercased as the error.
pub fn direction_from_string(string: &str) -> (r: Result<CardinalDirection, String>)
    ensures
        ({
            let low = lower_of(string@);
            &&& low == "north"@ ==> r == Ok::<CardinalDirection, String>(CardinalDirection::North)
            &&& low == "south"@ ==> r == Ok::<CardinalDirection, String>(CardinalDirection::South)
            &&& low == "east"@ ==> r == Ok::<CardinalDirection, String>(CardinalDirection::East)
            &&& low == "west"@ ==> r == Ok::<CardinalDirection, String>(CardinalDirection::West)
            &&& (low != "north"@ && low != "south"@ && low != "east"@ && low != "west"@) ==> (
            r matches Err(e) && e@ == low)
        }),
{
    proof {
        reveal_strlit("north");
        reveal_strlit("south");
        reveal_strlit("east");
        reveal_strlit("west");
        assert("north"@.len() == 5 && "south"@.len() == 5);
        assert("east"@.len() == 4 && "west"@.len() == 4);
        assert("north"@[0] == 'n' && "south"@[0] == 's');
        assert("east"@[0] == 'e' && "west"@[0] == 'w');
    }
    let lowered = lowercase(string);
    if str_eq(lowered.as_str(), "north") {
        Ok(CardinalDirection::North)
    } else if str_eq(lowered.as_str(), "south") {
        Ok(CardinalDirection::South)
    } else if str_eq(lowered.as_str(), "east") {
        Ok(CardinalDirection::East)
    } else if str_eq(lowered.as_str(), "west") {
        Ok(CardinalDirection::West)
    } else {
        Err(lowered)
    }
}

} // verus!
