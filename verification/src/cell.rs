use vstd::prelude::*;

verus! {

/// What the player has seen of one cell of the board: still hidden, flagged,
/// an exposed mine (only shown once the game is over), or revealed with the
/// number of orthogonally adjacent mines.
#[derive(Clone, Copy, PartialEq, Eq, Structural, Debug)]
pub enum Cell {
    Hidden,
    Marked,
    Mine,
    Num(u8),
}

/// The digit character that stands for an adjacency count of `i`.
pub open spec fn digit_char(i: int) -> char {
    if i == 0 {
        '0'
    } else if i == 1 {
        '1'
    } else if i == 2 {
        '2'
    } else if i == 3 {
        '3'
    } else {
        '4'
    }
}

impl Cell {
    /// The text drawn for a revealed cell with `i` adjacent mines.
    pub fn get_icon(i: u8) -> (r: &'static str)
        requires
            i <= 4,
        ensures
            r@.len() == 1,
            r@[0] == digit_char(i as int),
    {
        if i == 0 {
            proof {
                reveal_strlit("0");
            }
            "0"
        } else if i == 1 {
            proof {
                reveal_strlit("1");
            }
            "1"
        } else if i == 2 {
            proof {
                reveal_strlit("2");
            }
            "2"
        } else if i == 3 {
            proof {
                reveal_strlit("3");
            }
            "3"
        } else {
            proof {
                reveal_strlit("4");
            }
            "4"
        }
    }
}

} // verus!
