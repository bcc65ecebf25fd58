//! Errors of running nodes, of the attribute store and of loading node text.

use vstd::prelude::*;

verus! {

/// A place in a text: the line and column, both counted from one.
#[derive(PartialEq, Eq, Structural, Clone, Copy, Debug)]
pub struct Position {
    pub line: usize,
    pub col: usize,
}

/// Why reading an attribute failed.
#[derive(PartialEq, Eq, Structural, Clone, Copy, Debug)]
pub enum StateError {
    /// Nothing is stored under the key.
    NotFound,
    /// A value of another kind is stored under the key.
    WrongType,
}

/// Why a node could not run; it ends the entity's walk for this tick.
#[derive(PartialEq, Eq, Structural, Clone, Copy, Debug)]
pub enum RunError {
    StateError(StateError),
    /// A frame list is empty.
    NoFrames,
    /// A script ran out without a `return` and has no fallback.
    NoReturn,
    /// A script statement that cannot be run.
    BadScript,
    /// A reference node holds no nodes.
    EmptyReference,
}

/// What was wrong in a piece of node text.
#[derive(PartialEq, Eq, Structural, Clone, Copy, Debug)]
pub enum ParseIssue {
    /// Another character was expected here.
    Expected(char),
    /// No value of the field's kind starts here.
    BadValue,
    /// A field that the node needs is not given.
    MissingField,
    /// A field that the node does not have.
    UnknownField,
}

/// Why loading node text failed.
#[derive(PartialEq, Eq, Clone, Debug)]
pub enum LoadError {
    /// A bracket is never closed.
    NoClosing { ch: char, pos: Position },
    /// The file name has no extension.
    NoExtension,
    /// The extension is neither `node` nor `nodetree`.
    WrongExtension,
    /// A character is missing.
    MissingChar { ch: char, pos: Position },
    /// A tree file goes on after its closing `]`.
    NotTree { pos: Position },
    /// A node's fields could not be read.
    Parse { issue: ParseIssue, pos: Position },
    /// No loader is registered for the type name.
    NotRegistered(String),
}

/// Any error of the library.
#[derive(PartialEq, Eq, Clone, Debug)]
pub enum BevySpriteAnimationError {
    RunError(RunError),
    StateError(StateError),
    LoadError(LoadError),
}

/// Where the place `p` of a piece of text stands in the text that holds
/// the piece, where `offset` counts the lines and the columns before the
/// piece's first character: the lines move down by the lines before it, and
/// only the piece's first line moves right by the columns before it.
pub open spec fn shifted(p: Position, offset: Position) -> Position {
    Position {
        line: (p.line + offset.line) as usize,
        col: if p.line <= 1 { (p.col + offset.col) as usize } else { p.col },
    }
}

pub open spec fn fits(p: Position, offset: Position) -> bool {
    p.line + offset.line <= usize::MAX && p.col + offset.col <= usize::MAX
}

pub fn shift(p: Position, offset: Position) -> (r: Position)
    requires
        fits(p, offset),
    ensures
        r == shifted(p, offset),
{
    Position {
        line: p.line + offset.line,
        col: if p.line <= 1 { p.col + offset.col } else { p.col },
    }
}

impl LoadError {
    /// The position that the error carries, if any.
    pub open spec fn position(self) -> Option<Position> {
        match self {
            LoadError::NoClosing { pos, .. } => Some(pos),
            LoadError::MissingChar { pos, .. } => Some(pos),
            LoadError::Parse { pos, .. } => Some(pos),
            LoadError::NotTree { pos } => Some(pos),
            _ => None,
        }
    }

    /// The error moved to where its text stands in an enclosing text whose
    /// lines and columns before the piece are `offset`: a position is moved
    /// as `shifted` says, and an error without one is unchanged.
    pub fn add_offset(self, offset: Position) -> (r: LoadError)
        requires
            self.position() matches Some(p) ==> fits(p, offset),
        ensures
            r.position() == (match self.position() {
                Some(p) => Some(shifted(p, offset)),
                None => None,
            }),
            match (self, r) {
                (LoadError::NoClosing { ch: a, .. }, LoadError::NoClosing { ch: b, .. }) => a == b,
                (LoadError::MissingChar { ch: a, .. }, LoadError::MissingChar { ch: b, .. }) => a == b,
                (LoadError::Parse { issue: a, .. }, LoadError::Parse { issue: b, .. }) => a == b,
                (LoadError::NotTree { .. }, LoadError::NotTree { .. }) => true,
                (LoadError::NoClosing { .. }, _) | (LoadError::MissingChar { .. }, _)
                | (LoadError::Parse { .. }, _) | (LoadError::NotTree { .. }, _) => false,
                _ => r == self,
            },
    {
        match self {
            LoadError::NoClosing { ch, pos } => LoadError::NoClosing {
                ch,
                pos: shift(pos, offset),
            },
            LoadError::MissingChar { ch, pos } => LoadError::MissingChar {
                ch,
                pos: shift(pos, offset),
            },
            LoadError::Parse { issue, pos } => LoadError::Parse {
                issue,
                pos: shift(pos, offset),
            },
            LoadError::NotTree { pos } => LoadError::NotTree { pos: shift(pos, offset) },
            e => e,
        }
    }
}

} // verus!
