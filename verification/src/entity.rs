//! Input events, log entries, and the entities hidden in a column buffer.

use vstd::prelude::*;
use vstd::string::StrSliceExecFns;

use crate::consts::{BRACKET_LENGTH, CHARACTERS_PER_COLUMN};

verus! {

/// One input event consumed by the game state machine.  Relative moves
/// translate the cursor by one cell; `SetCursor` is the absolute override
/// used by pointer-driven input.
pub enum InputEvent {
    Up,
    Down,
    Left,
    Right,
    Action,
    Quit,
    SetCursor(i32, i32),
}

/// One immutable record of the append-only entry log.
pub enum Entry {
    Correct { word: String },
    Incorrect { word: String, num_correct: i32 },
    DudRemoval,
    AllowanceReplenish,
}

impl Entry {
    /// Rows this entry occupies in the console transcript.
    pub open spec fn spec_display_rows(&self) -> usize {
        match *self {
            Entry::Correct { .. } => 5,
            Entry::Incorrect { .. } => 3,
            Entry::DudRemoval => 2,
            Entry::AllowanceReplenish => 3,
        }
    }

    #[verifier::when_used_as_spec(spec_display_rows)]
    pub fn display_rows(&self) -> (r: usize)
        ensures
            r == self.spec_display_rows(),
    {
        match *self {
            Entry::Correct { .. } => 5,
            Entry::Incorrect { .. } => 3,
            Entry::DudRemoval => 2,
            Entry::AllowanceReplenish => 3,
        }
    }
}

/// How a game ended.  Once set it is never cleared.
#[derive(Clone, Copy, PartialEq, Eq, Structural, Debug)]
pub enum GameEnding {
    Won,
    Lost,
}

/// Construction-time failures.  Runtime lookups that can miss are modelled
/// as `None`, never as an error.
#[derive(Clone, Copy, PartialEq, Eq, Structural, Debug)]
pub enum GameError {
    /// The word source cannot supply enough distinct words of the
    /// requested length.
    InsufficientWords,
    /// The placement geometry cannot fit all words or all brackets.
    InsufficientSpace,
}

/// An entity occupying a span of a column buffer: a hidden word, or a
/// bracket pair whose only activating ("hot") index is its start.
#[derive(Debug)]
pub enum CursorEntity {
    Word { word: String, guessed: bool, index: usize, removed: bool },
    Brackets { pair: (char, char), consumed: bool, index: usize },
}

impl Clone for CursorEntity {
    fn clone(&self) -> (res: Self)
        ensures
            res == *self,
    {
        match self {
            CursorEntity::Word { word, guessed, index, removed } => CursorEntity::Word {
                word: word.clone(),
                guessed: *guessed,
                index: *index,
                removed: *removed,
            },
            CursorEntity::Brackets { pair, consumed, index } => CursorEntity::Brackets {
                pair: (pair.0, pair.1),
                consumed: *consumed,
                index: *index,
            },
        }
    }
}

impl CursorEntity {
    /// First buffer index of the entity's span.
    pub open spec fn start(self) -> int {
        match self {
            CursorEntity::Word { index, .. } => index as int,
            CursorEntity::Brackets { index, .. } => index as int,
        }
    }

    /// One past the last buffer index of the entity's span.
    pub open spec fn end(self) -> int {
        match self {
            CursorEntity::Word { word, index, .. } => index + word@.len(),
            CursorEntity::Brackets { index, .. } => index + BRACKET_LENGTH,
        }
    }

    /// The span lies inside a column buffer.
    pub open spec fn in_column(self) -> bool {
        self.end() <= CHARACTERS_PER_COLUMN
    }

    /// The cursor index `idx` activates this entity: any index of a word's
    /// span, but only the hot start index of a bracket pair.
    pub open spec fn resolves_at(self, idx: int) -> bool {
        match self {
            CursorEntity::Word { .. } => self.start() <= idx < self.end(),
            CursorEntity::Brackets { .. } => idx == self.start(),
        }
    }

    /// A removed word and a consumed bracket pair are inert: the cursor
    /// resolver treats their indices as empty space.
    pub open spec fn active(self) -> bool {
        match self {
            CursorEntity::Word { removed, .. } => !removed,
            CursorEntity::Brackets { consumed, .. } => !consumed,
        }
    }

    /// Freshly placed: no flag set yet.
    pub open spec fn fresh(self) -> bool {
        match self {
            CursorEntity::Word { guessed, removed, .. } => !guessed && !removed,
            CursorEntity::Brackets { consumed, .. } => !consumed,
        }
    }

    /// Same variant and same span: the footprint a column invariant
    /// depends on.
    pub open spec fn same_footprint(self, other: Self) -> bool {
        &&& self is Word <==> other is Word
        &&& self.start() == other.start()
        &&& self.end() == other.end()
    }

    /// The half-open span `[start, end)` of buffer indices the entity
    /// occupies.
    pub fn indices(&self) -> (r: (usize, usize))
        requires
            self.in_column(),
        ensures
            r.0 == self.start(),
            r.1 == self.end(),
    {
        match self {
            CursorEntity::Word { word, index, .. } => (*index, *index + word.as_str().unicode_len()),
            CursorEntity::Brackets { index, .. } => (*index, *index + BRACKET_LENGTH),
        }
    }

    /// Presentation hint: an entity is highlighted until it is resolved.
    pub open spec fn spec_highlighted(&self) -> bool {
        match *self {
            CursorEntity::Word { guessed, .. } => !guessed,
            CursorEntity::Brackets { consumed, .. } => !consumed,
        }
    }

    #[verifier::when_used_as_spec(spec_highlighted)]
    pub fn highlighted(&self) -> (r: bool)
        ensures
            r == self.spec_highlighted(),
    {
        match *self {
            CursorEntity::Word { guessed, .. } => !guessed,
            CursorEntity::Brackets { consumed, .. } => !consumed,
        }
    }
}

/// Two entities may share buffer indices only if both are bracket pairs,
/// and then never their hot start index.
pub open spec fn compatible(a: CursorEntity, b: CursorEntity) -> bool {
    if a is Brackets && b is Brackets {
        a.start() != b.start()
    } else {
        a.end() <= b.start() || b.end() <= a.start()
    }
}

} // verus!
