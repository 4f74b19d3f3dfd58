//! The cursor: a 1-based column and row, and the screen area it is drawn in.

use vstd::prelude::*;
use vstd::string::*;

verus! {

/// A rectangle of the screen, in cells.
#[derive(Debug, Clone, Copy, PartialEq, Eq)]
pub struct Area {
    pub x: u16,
    pub y: u16,
    pub width: u16,
    pub height: u16,
}

/// A column and a row.
#[derive(Debug, Clone, Copy, PartialEq, Eq)]
pub struct Position {
    pub x: u16,
    pub y: u16,
}

#[derive(Debug)]
pub struct Cursor {
    pub container: Option<Area>,
    pub x: u16,
    pub y: u16,
}

/// `a + b`, cut off at the largest `u16`.
pub open spec fn capped_sum(a: u16, b: u16) -> u16 {
    if a + b > u16::MAX {
        u16::MAX
    } else {
        (a + b) as u16
    }
}

/// The column that a word motion to `new_x` ends on in a line of `len`
/// characters: no further than the last character, and never before column 1.
pub open spec fn word_column(new_x: int, len: int) -> u16 {
    let x = if new_x > len {
        len
    } else {
        new_x
    };
    if x < 1 {
        1u16
    } else if x > u16::MAX {
        u16::MAX
    } else {
        x as u16
    }
}

impl Default for Cursor {
    fn default() -> (r: Self)
        ensures
            r.container is None,
            r.x == 1,
            r.y == 1,
    {
        Self { container: None, x: 1, y: 1 }
    }
}

impl Cursor {
    /// A cursor at column 1 of row 1, drawn in `container`.
    pub fn new(container: Area) -> (r: Self)
        ensures
            r.container == Some(container),
            r.x == 1,
            r.y == 1,
    {
        Self { container: Some(container), x: 1, y: 1 }
    }

    pub fn move_to(&mut self, x: u16, y: u16)
        ensures
            final(self).x == x,
            final(self).y == y,
            final(self).container == old(self).container,
    {
        self.x = x;
        self.y = y;
    }

    pub fn set_x(&mut self, x: u16)
        ensures
            final(self).x == x,
            final(self).y == old(self).y,
            final(self).container == old(self).container,
    {
        self.x = x;
    }

    pub fn set_y(&mut self, y: u16)
        ensures
            final(self).x == old(self).x,
            final(self).y == y,
            final(self).container == old(self).container,
    {
        self.y = y;
    }

    pub fn set_position(&mut self, pos: Position)
        ensures
            final(self).x == pos.x,
            final(self).y == pos.y,
            final(self).container == old(self).container,
    {
        self.x = pos.x;
        self.y = pos.y;
    }

    /// One row up; stays where it is on row 1.
    pub fn up(&mut self)
        ensures
            final(self).y == if old(self).y > 1 {
                (old(self).y - 1) as u16
            } else {
                old(self).y
            },
            final(self).x == old(self).x,
            final(self).container == old(self).container,
    {
        if self.y > 1 {
            self.y -= 1;
        }
    }

    /// One row down; stays where it is on the largest row.
    pub fn down(&mut self)
        ensures
            final(self).y == capped_sum(old(self).y, 1),
            final(self).x == old(self).x,
            final(self).container == old(self).container,
    {
        if self.y < u16::MAX {
            self.y += 1;
        }
    }

    /// One column left; stays where it is on column 1.
    pub fn left(&mut self)
        ensures
            final(self).x == if old(self).x > 1 {
                (old(self).x - 1) as u16
            } else {
                old(self).x
            },
            final(self).y == old(self).y,
            final(self).container == old(self).container,
    {
        if self.x > 1 {
            self.x -= 1;
        }
    }

    /// One column right, but not past column `constraint`. A `constraint` of 0
    /// sets no bound.
    pub fn right(&mut self, constraint: u16)
        ensures
            final(self).x == if constraint > 0 && old(self).x + 1 > constraint {
                old(self).x
            } else {
                capped_sum(old(self).x, 1)
            },
            final(self).y == old(self).y,
            final(self).container == old(self).container,
    {
        if constraint > 0 && self.x >= constraint {
            return ;
        }
        if self.x < u16::MAX {
            self.x += 1;
        }
    }

    pub fn reset_x(&mut self)
        ensures
            final(self).x == 1,
            final(self).y == old(self).y,
            final(self).container == old(self).container,
    {
        self.x = 1;
    }

    pub fn reset_y(&mut self)
        ensures
            final(self).x == old(self).x,
            final(self).y == 1,
            final(self).container == old(self).container,
    {
        self.y = 1;
    }

    /// Where on the screen the cursor is drawn: its position within its
    /// container. `None` where no container is set.
    pub fn frame_position(&self) -> (r: Option<Position>)
        ensures
            r == match self.container {
                Some(area) => Some(
                    (Position { x: capped_sum(area.x, self.x), y: capped_sum(area.y, self.y) }),
                ),
                None => None,
            },
    {
        match self.container {
            Some(area) => {
                let x: u16 = if area.x > u16::MAX - self.x {
                    u16::MAX
                } else {
                    area.x + self.x
                };
                let y: u16 = if area.y > u16::MAX - self.y {
                    u16::MAX
                } else {
                    area.y + self.y
                };
                Some(Position { x, y })
            },
            None => None,
        }
    }

    /// Moves to column `new_x` of `line`, but no further than its last
    /// character and never before column 1.
    pub fn move_word(&mut self, line: &str, new_x: usize)
        ensures
            final(self).x == word_column(new_x as int, line@.len() as int),
            final(self).y == old(self).y,
            final(self).container == old(self).container,
    {
        let len: usize = line.unicode_len();
        let x: usize = if new_x > len {
            len
        } else {
            new_x
        };
        if x < 1 {
            self.x = 1;
        } else if x > 65535 {
            self.x = u16::MAX;
        } else {
            self.x = x as u16;
        }
    }
}

} // verus!
