//! Squares as pairs of file and rank, and steps from one square to another.

use vstd::prelude::*;

verus! {

/// A square given by its file `x` and its rank `y`, both from 0 to 7 on the
/// board.
#[derive(Copy, Clone, Debug, PartialEq, Eq, Structural)]
pub struct Position {
    pub x: i8,
    pub y: i8,
}

impl Position {
    /// Whether the square lies on the board.
    pub open spec fn on_board(self) -> bool {
        0 <= self.x <= 7 && 0 <= self.y <= 7
    }

    /// The square `(dx, dy)` away, if the coordinates fit.
    pub open spec fn offset(self, dx: int, dy: int) -> Position {
        Position { x: (self.x + dx) as i8, y: (self.y + dy) as i8 }
    }

    pub fn new(x: i8, y: i8) -> (r: Position)
        ensures
            r == (Position { x, y }),
    {
        Position { x, y }
    }

    /// The square `n` ranks up, unless that is beyond the eighth rank.
    pub fn up(&self, n: i8) -> (r: Option<Position>)
        requires
            -119 <= n,
            -128 <= self.y + n,
        ensures
            r == if self.y + n <= 7 {
                Some(self.offset(0, n as int))
            } else {
                None
            },
    {
        if self.y < 7 - n + 1 {
            Some(Position::new(self.x, self.y + n))
        } else {
            None
        }
    }

    /// The square `n` ranks down, unless that is below the first rank.
    pub fn down(&self, n: i8) -> (r: Option<Position>)
        requires
            self.y - n <= 127,
        ensures
            r == if self.y - n >= 0 {
                Some(self.offset(0, -n))
            } else {
                None
            },
    {
        if self.y >= n {
            Some(Position::new(self.x, self.y - n))
        } else {
            None
        }
    }

    /// The square `n` files to the left, unless that is beyond the a-file.
    pub fn left(&self, n: i8) -> (r: Option<Position>)
        requires
            self.x - n <= 127,
        ensures
            r == if self.x - n >= 0 {
                Some(self.offset(-n, 0))
            } else {
                None
            },
    {
        if self.x >= n {
            Some(Position::new(self.x - n, self.y))
        } else {
            None
        }
    }

    /// The square `n` files to the right, unless that is beyond the h-file.
    pub fn right(&self, n: i8) -> (r: Option<Position>)
        requires
            -119 <= n,
            -128 <= self.x + n,
        ensures
            r == if self.x + n <= 7 {
                Some(self.offset(n as int, 0))
            } else {
                None
            },
    {
        if self.x < 7 - n + 1 {
            Some(Position::new(self.x + n, self.y))
        } else {
            None
        }
    }

    /// The square `n` steps up and to the left, unless that leaves the board.
    pub fn up_left(&self, n: i8) -> (r: Option<Position>)
        requires
            -119 <= n,
            -128 <= self.y + n,
            self.x - n <= 127,
        ensures
            r == if self.y + n <= 7 && self.x - n >= 0 {
                Some(self.offset(-n, n as int))
            } else {
                None
            },
    {
        if self.y < 7 - n + 1 && self.x >= n {
            Some(Position::new(self.x - n, self.y + n))
        } else {
            None
        }
    }

    /// The square `n` steps down and to the left, unless that leaves the board.
    pub fn down_left(&self, n: i8) -> (r: Option<Position>)
        requires
            self.y - n <= 127,
            self.x - n <= 127,
        ensures
            r == if self.y - n >= 0 && self.x - n >= 0 {
                Some(self.offset(-n, -n))
            } else {
                None
            },
    {
        if self.y >= n && self.x >= n {
            Some(Position::new(self.x - n, self.y - n))
        } else {
            None
        }
    }

    /// The square `n` steps up and to the right, unless that leaves the board.
    pub fn up_right(&self, n: i8) -> (r: Option<Position>)
        requires
            -119 <= n,
            -128 <= self.y + n,
            -128 <= self.x + n,
        ensures
            r == if self.y + n <= 7 && self.x + n <= 7 {
                Some(self.offset(n as int, n as int))
            } else {
                None
            },
    {
        if self.y < 7 - n + 1 && self.x < 7 - n + 1 {
            Some(Position::new(self.x + n, self.y + n))
        } else {
            None
        }
    }

    /// The square `n` steps down and to the right, unless that leaves the
    /// board.
    pub fn down_right(&self, n: i8) -> (r: Option<Position>)
        requires
            -119 <= n,
            self.y - n <= 127,
            -128 <= self.x + n,
        ensures
            r == if self.y - n >= 0 && self.x + n <= 7 {
                Some(self.offset(n as int, -n))
            } else {
                None
            },
    {
        if self.y >= n && self.x < 7 - n + 1 {
            Some(Position::new(self.x + n, self.y - n))
        } else {
            None
        }
    }
}

} // verus!
