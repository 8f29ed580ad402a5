//! The earlier board model: an explicit width x height board that pieces are
//! added to one by one, with a full row/column/diagonal attack check.

use crate::board::abs_int;
use vstd::prelude::*;

verus! {

/// A board of a given size holding the pieces placed so far.
#[derive(Debug, Clone)]
pub struct Board {
    pub width: u32,
    pub height: u32,
    pub pieces: Vec<PiecePlace>,
}

/// A piece's coordinates, `[column, row]`.
#[derive(Debug, Clone)]
pub struct PiecePlace(pub [u32; 2]);

/// Why a piece could not be added to the board.
#[derive(Debug, Clone, Copy, PartialEq, Eq)]
pub enum PlacementError {
    /// The coordinates lie outside the board.
    OutOfBoard,
    /// Another piece already occupies the coordinates.
    AlreadyExists,
}

/// Two places hold the same coordinates.
pub open spec fn same_place(p: PiecePlace, q: PiecePlace) -> bool {
    p.0[0] == q.0[0] && p.0[1] == q.0[1]
}

/// Pieces at distinct coordinates attack each other when they share a
/// column, a row, or a diagonal.
pub open spec fn beats_place(p: PiecePlace, q: PiecePlace) -> bool {
    !same_place(p, q) && (p.0[0] == q.0[0] || p.0[1] == q.0[1] || abs_int(p.0[0] - q.0[0])
        == abs_int(p.0[1] - q.0[1]))
}

impl Board {
    /// An empty board of the given size.
    pub fn new(width: u32, height: u32) -> (r: Self)
        ensures
            r.width == width,
            r.height == height,
            r.pieces@ == Seq::<PiecePlace>::empty(),
    {
        Self { width, height, pieces: Vec::new() }
    }

    /// Adds a piece, unless its coordinates are off the board or already
    /// occupied; the board is unchanged on failure.
    pub fn try_add_piece(&mut self, piece: PiecePlace) -> (r: Result<(), PlacementError>)
        ensures
            final(self).width == old(self).width,
            final(self).height == old(self).height,
            r == Err::<(), PlacementError>(PlacementError::OutOfBoard) <==> (piece.0[0]
                >= old(self).width || piece.0[1] >= old(self).height),
            r == Err::<(), PlacementError>(PlacementError::AlreadyExists) <==> (piece.0[0]
                < old(self).width && piece.0[1] < old(self).height && exists|k: int|
                0 <= k < old(self).pieces@.len() && same_place(old(self).pieces@[k], piece)),
            r is Ok ==> final(self).pieces@ == old(self).pieces@.push(piece),
            r is Err ==> final(self).pieces@ == old(self).pieces@,
    {
        let x = piece.0[0];
        let y = piece.0[1];
        if x >= self.width || y >= self.height {
            return Err(PlacementError::OutOfBoard);
        }
        let n = self.pieces.len();
        for k in 0..n
            invariant
                *self == *old(self),
                n == self.pieces@.len(),
                x == piece.0[0],
                y == piece.0[1],
                x < self.width,
                y < self.height,
                forall|m: int| 0 <= m < k ==> !same_place(self.pieces@[m], piece),
        {
            if self.pieces[k].0[0] == x && self.pieces[k].0[1] == y {
                assert(same_place(self.pieces@[k as int], piece));
                return Err(PlacementError::AlreadyExists);
            }
        }
        self.pieces.push(piece);
        Ok(())
    }

    /// Whether any two pieces on the board attack each other.
    pub fn has_beaten(&self) -> (r: bool)
        ensures
            r == exists|i: int, j: int|
                0 <= i < self.pieces@.len() && 0 <= j < self.pieces@.len() && beats_place(
                    self.pieces@[i],
                    self.pieces@[j],
                ),
    {
        let n = self.pieces.len();
        let mut found = false;
        for i in 0..n
            invariant
                n == self.pieces@.len(),
                found == exists|a: int, b: int|
                    0 <= a < n && 0 <= b < n && a < i && beats_place(
                        self.pieces@[a],
                        self.pieces@[b],
                    ),
        {
            for j in 0..n
                invariant
                    n == self.pieces@.len(),
                    i < n,
                    found == exists|a: int, b: int|
                        0 <= a < n && 0 <= b < n && (a < i || (a == i && b < j)) && beats_place(
                            self.pieces@[a],
                            self.pieces@[b],
                        ),
            {
                let p = &self.pieces[i];
                let q = &self.pieces[j];
                let px = p.0[0];
                let py = p.0[1];
                let qx = q.0[0];
                let qy = q.0[1];
                let same = px == qx && py == qy;
                let dx: u32 = if px >= qx {
                    px - qx
                } else {
                    qx - px
                };
                let dy: u32 = if py >= qy {
                    py - qy
                } else {
                    qy - py
                };
                if !same && (px == qx || py == qy || dx == dy) {
                    assert(beats_place(self.pieces@[i as int], self.pieces@[j as int]));
                    found = true;
                }
            }
        }
        found
    }
}

impl From<[u32; 2]> for PiecePlace {
    fn from(val: [u32; 2]) -> (r: Self) {
        Self(val)
    }
}

impl vstd::std_specs::convert::FromSpecImpl<[u32; 2]> for PiecePlace {
    open spec fn obeys_from_spec() -> bool {
        true
    }

    open spec fn from_spec(val: [u32; 2]) -> Self {
        PiecePlace(val)
    }
}

impl From<(u32, u32)> for PiecePlace {
    fn from(val: (u32, u32)) -> (r: Self)
        ensures
            r.0[0] == val.0,
            r.0[1] == val.1,
    {
        Self([val.0, val.1])
    }
}

impl vstd::std_specs::convert::FromSpecImpl<(u32, u32)> for PiecePlace {
    open spec fn obeys_from_spec() -> bool {
        false
    }

    open spec fn from_spec(val: (u32, u32)) -> Self {
        PiecePlace(choose|a: [u32; 2]| a[0] == val.0 && a[1] == val.1)
    }
}

} // verus!
