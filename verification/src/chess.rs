//! Piece model: the eight animal kinds, the two roles, and the capture
//! rank that decides which piece may take which.

use vstd::prelude::*;

verus! {

/// The eight animal kinds, strongest first. The position in this list is
/// the capture rank: a piece may normally capture only pieces of equal or
/// lower strength (a larger index means a weaker piece).
#[derive(Copy, Clone, PartialEq, Eq, Structural, Debug, Hash)]
pub enum ChessKind {
    ELEPHANT,
    LION,
    TIGER,
    PANTHER,
    WOLF,
    DOG,
    CAT,
    RAT,
}

/// The two players. The first role moves up the board (towards row 0),
/// the second down (towards the last row).
#[derive(Copy, Clone, PartialEq, Eq, Structural, Debug, Hash)]
pub enum RoleType {
    RED,
    BLACK,
}

/// One piece: who owns it and what kind it is. An empty cell is
/// represented as `Option::<ChessId>::None`, never as a sentinel piece.
#[derive(Copy, Clone, PartialEq, Eq, Structural, Debug, Hash)]
pub struct ChessId {
    pub role: RoleType,
    pub kind: ChessKind,
}

/// Capture rank of a kind: 0 for the strongest, 7 for the weakest.
pub open spec fn spec_kind_idx(k: ChessKind) -> int {
    match k {
        ChessKind::ELEPHANT => 0,
        ChessKind::LION => 1,
        ChessKind::TIGER => 2,
        ChessKind::PANTHER => 3,
        ChessKind::WOLF => 4,
        ChessKind::DOG => 5,
        ChessKind::CAT => 6,
        ChessKind::RAT => 7,
    }
}

/// Index of a piece in the 16-entry (role, kind) table: the first role's
/// kinds take slots 0..8, the second role's kinds slots 8..16.
pub open spec fn spec_chess_idx(c: ChessId) -> int {
    spec_kind_idx(c.kind) + if c.role == RoleType::RED {
        0int
    } else {
        8int
    }
}

/// The role whose turn comes next.
pub open spec fn spec_opp(r: RoleType) -> RoleType {
    match r {
        RoleType::RED => RoleType::BLACK,
        RoleType::BLACK => RoleType::RED,
    }
}

/// All kinds, strongest first, as a spec sequence.
pub open spec fn spec_all_kinds() -> Seq<ChessKind> {
    seq![
        ChessKind::ELEPHANT,
        ChessKind::LION,
        ChessKind::TIGER,
        ChessKind::PANTHER,
        ChessKind::WOLF,
        ChessKind::DOG,
        ChessKind::CAT,
        ChessKind::RAT,
    ]
}

/// Both roles as a spec sequence.
pub open spec fn spec_all_roles() -> Seq<RoleType> {
    seq![RoleType::RED, RoleType::BLACK]
}

impl ChessKind {
    /// Capture rank of this kind, 0 (strongest) to 7 (weakest).
    pub fn get_idx(self) -> (r: usize)
        ensures
            r == spec_kind_idx(self),
            r < 8,
    {
        match self {
            ChessKind::ELEPHANT => 0,
            ChessKind::LION => 1,
            ChessKind::TIGER => 2,
            ChessKind::PANTHER => 3,
            ChessKind::WOLF => 4,
            ChessKind::DOG => 5,
            ChessKind::CAT => 6,
            ChessKind::RAT => 7,
        }
    }

    /// All kinds, strongest first.
    pub fn iter() -> (r: Vec<ChessKind>)
        ensures
            r@ == spec_all_kinds(),
    {
        let mut v: Vec<ChessKind> = Vec::new();
        v.push(ChessKind::ELEPHANT);
        v.push(ChessKind::LION);
        v.push(ChessKind::TIGER);
        v.push(ChessKind::PANTHER);
        v.push(ChessKind::WOLF);
        v.push(ChessKind::DOG);
        v.push(ChessKind::CAT);
        v.push(ChessKind::RAT);
        proof {
            assert(v@ =~= spec_all_kinds());
        }
        v
    }
}

impl RoleType {
    /// Both roles.
    pub fn iter() -> (r: Vec<RoleType>)
        ensures
            r@ == spec_all_roles(),
    {
        let mut v: Vec<RoleType> = Vec::new();
        v.push(RoleType::RED);
        v.push(RoleType::BLACK);
        proof {
            assert(v@ =~= spec_all_roles());
        }
        v
    }

    /// The other role.
    pub fn opposite(self) -> (r: RoleType)
        ensures
            r == spec_opp(self),
    {
        match self {
            RoleType::RED => RoleType::BLACK,
            RoleType::BLACK => RoleType::RED,
        }
    }
}

impl ChessId {
    /// Index of this piece in the 16-entry (role, kind) table.
    pub fn get_chess_idx(self) -> (r: usize)
        ensures
            r == spec_chess_idx(self),
            r < 16,
    {
        let base: usize = match self.role {
            RoleType::RED => 0,
            RoleType::BLACK => 8,
        };
        self.kind.get_idx() + base
    }
}

} // verus!
