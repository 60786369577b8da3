use vstd::prelude::*;
use crate::space::NodeId;

verus! {

/// A square of the playing field.
#[derive(Clone, Copy, Debug, PartialEq, Eq, Structural)]
pub struct Cell {
    pub x: i32,
    pub y: i32,
}

/// The team that the player controls.
pub const PLAYER_TEAM: u8 = 0;

/// A piece on the field, placed at a node of the world.
#[derive(Debug)]
pub struct Character {
    pub name: String,
    pub team: u8,
    pub cell: Cell,
    pub node: NodeId,
}

/// What a click on a cell does.
#[derive(Clone, Copy, Debug, PartialEq, Eq, Structural)]
pub enum Click {
    /// No character belongs to the player's team.
    NoPlayer,
    /// The cell holds a character of the player's team.
    Aid,
    /// The cell holds a character of another team.
    Attack,
    /// The cell is free: the player's character, at this position in the
    /// list, moves there.
    Move(usize),
}

/// Position of the first character of the player's team, or the length of
/// the list when there is none.
pub open spec fn player_index(chars: Seq<Character>) -> int
    decreases chars.len(),
{
    if chars.len() == 0 {
        0
    } else if chars[0].team == PLAYER_TEAM {
        0
    } else {
        1 + player_index(chars.drop_first())
    }
}

/// Team of the character standing on `cell`; of the last one in the list
/// where several do.
pub open spec fn occupant(chars: Seq<Character>, cell: Cell) -> Option<u8>
    decreases chars.len(),
{
    if chars.len() == 0 {
        None
    } else if chars.last().cell == cell {
        Some(chars.last().team)
    } else {
        occupant(chars.drop_last(), cell)
    }
}

/// What a click on `cell` does, for these characters.
pub open spec fn click_of(chars: Seq<Character>, cell: Cell) -> Click {
    if player_index(chars) >= chars.len() {
        Click::NoPlayer
    } else {
        match occupant(chars, cell) {
            Some(team) => if team == PLAYER_TEAM {
                Click::Aid
            } else {
                Click::Attack
            },
            None => Click::Move(player_index(chars) as usize),
        }
    }
}

proof fn lemma_player_index_bounds(chars: Seq<Character>)
    ensures
        0 <= player_index(chars) <= chars.len(),
        player_index(chars) < chars.len() ==> chars[player_index(chars)].team == PLAYER_TEAM,
        forall|k: int| 0 <= k < player_index(chars) ==> chars[k].team != PLAYER_TEAM,
    decreases chars.len(),
{
    if chars.len() > 0 && chars[0].team != PLAYER_TEAM {
        lemma_player_index_bounds(chars.drop_first());
        assert forall|k: int| 0 <= k < player_index(chars) implies chars[k].team != PLAYER_TEAM by {
            if k > 0 {
                assert(chars[k] == chars.drop_first()[k - 1]);
            }
        }
    }
}

/// Team of the character on `cell`, searching from the end of the list.
fn find_occupant(chars: &Vec<Character>, cell: Cell) -> (r: Option<u8>)
    ensures
        r == occupant(chars@, cell),
{
    let mut k: usize = chars.len();
    assert(chars@.take(k as int) =~= chars@);
    while k > 0
        invariant
            k <= chars@.len(),
            occupant(chars@, cell) == occupant(chars@.take(k as int), cell),
        decreases k,
    {
        let ghost prefix = chars@.take(k as int);
        assert(prefix.drop_last() =~= chars@.take(k - 1));
        if chars[k - 1].cell == cell {
            return Some(chars[k - 1].team);
        }
        k = k - 1;
    }
    None
}

/// Position of the first character of the player's team.
fn find_player(chars: &Vec<Character>) -> (r: usize)
    ensures
        r == player_index(chars@),
{
    proof {
        lemma_player_index_bounds(chars@);
    }
    let mut k: usize = 0;
    while k < chars.len()
        invariant
            k <= chars@.len(),
            k <= player_index(chars@),
            0 <= player_index(chars@) <= chars@.len(),
            player_index(chars@) < chars@.len() ==> chars@[player_index(chars@)].team == PLAYER_TEAM,
            forall|j: int| 0 <= j < player_index(chars@) ==> chars@[j].team != PLAYER_TEAM,
        decreases chars@.len() - k,
    {
        if chars[k].team == PLAYER_TEAM {
            return k;
        }
        k = k + 1;
    }
    k
}

/// Acts on a click on `cell`: helps an ally or attacks an enemy standing
/// there, or moves the player's character to it when it is free.
pub fn mouse_click(characters: &mut Vec<Character>, cell: Cell) -> (r: Click)
    ensures
        r == click_of(old(characters)@, cell),
        r matches Click::Move(p) ==> final(characters)@.len() == old(characters)@.len() && (forall|k: int|
            0 <= k < old(characters)@.len() && k != p ==> final(characters)@[k] == old(characters)@[k])
            && final(characters)@[p as int] == (Character { cell, ..old(characters)@[p as int] }),
        !(r matches Click::Move(_)) ==> final(characters)@ == old(characters)@,
{
    let occupied = find_occupant(characters, cell);
    let p = find_player(characters);
    proof {
        lemma_player_index_bounds(characters@);
    }
    if p >= characters.len() {
        return Click::NoPlayer;
    }
    match occupied {
        Some(team) => if team == PLAYER_TEAM {
            Click::Aid
        } else {
            Click::Attack
        },
        None => {
            characters[p].cell = cell;
            Click::Move(p)
        },
    }
}

} // verus!
