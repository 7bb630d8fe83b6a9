//! The game state machine: cursor, attempts, entry log, and outcome.

use vstd::prelude::*;
use vstd::string::StrSliceExecFns;

use crate::column::{lemma_unique_resolver, slot_size, string_views, Column};
use crate::consts::{
    ADDRESS_BASE, ADDRESS_RANGE, ADDRESS_STRIDE, CHARACTERS_PER_COLUMN, COLUMNS, COLUMN_END_ROW,
    COLUMN_START_ROW, LEFT_COLUMN_START, RIGHT_COLUMN_START, ROWS, STARTING_ATTEMPTS,
    WORD_COLUMN_WIDTH,
};
use crate::entity::{compatible, CursorEntity, Entry, GameEnding, GameError, InputEvent};
use crate::rng::{one_in_three, rand_below};

verus! {

/// The whole state of one game session.
pub struct GameState {
    /// Guesses left before the terminal locks.
    pub attempts: i32,
    /// The two columns of the board.
    pub columns: Vec<Column>,
    /// Screen coordinate of the cursor; unbounded, clamping is a
    /// rendering concern.
    pub cursor_position: (i32, i32),
    /// Cleared by the quit event; independent of the outcome.
    pub is_playing: bool,
    /// The designated password, chosen once at construction.
    pub correct_word: String,
    /// Append-only chronological log, newest last.
    pub entries: Vec<Entry>,
    /// Terminal outcome; `None` while still playing, sticky once set.
    pub status: Option<GameEnding>,
}

/// Which column, if any, the screen coordinate `(x, y)` lies in: each
/// column is a fixed horizontal band crossed with the fixed row band.
pub open spec fn cursor_column(x: int, y: int) -> Option<usize> {
    if y < COLUMN_START_ROW || y > COLUMN_END_ROW {
        None
    } else if LEFT_COLUMN_START <= x < LEFT_COLUMN_START + WORD_COLUMN_WIDTH {
        Some(0usize)
    } else if RIGHT_COLUMN_START <= x < RIGHT_COLUMN_START + WORD_COLUMN_WIDTH {
        Some(1usize)
    } else {
        None
    }
}

/// The column and linear buffer index an in-band coordinate points at:
/// `row * row_width + column_offset`.
pub open spec fn cursor_index(x: int, y: int) -> Option<(usize, usize)> {
    match cursor_column(x, y) {
        None => None,
        Some(c) => {
            let base = if c == 0 {
                LEFT_COLUMN_START
            } else {
                RIGHT_COLUMN_START
            };
            Some((c, (((y - COLUMN_START_ROW) * WORD_COLUMN_WIDTH) + (x - base)) as usize))
        },
    }
}

impl GameState {
    /// Game invariant: both columns well formed, and the attempt budget
    /// positive for as long as the game is undecided.
    pub open spec fn wf(self) -> bool {
        &&& self.columns@.len() == COLUMNS
        &&& forall|c: int| 0 <= c < self.columns@.len() ==> (#[trigger] self.columns@[c]).wf()
        &&& self.attempts >= 0
        &&& self.status is None ==> self.attempts >= 1
    }

    /// Which column the cursor is inside, if any.
    pub fn get_cursor_column_index(&self) -> (r: Option<usize>)
        ensures
            r == cursor_column(self.cursor_position.0 as int, self.cursor_position.1 as int),
    {
        let (x, y) = self.cursor_position;
        if y < COLUMN_START_ROW || y > COLUMN_END_ROW {
            return None;
        }
        if LEFT_COLUMN_START <= x && x < LEFT_COLUMN_START + WORD_COLUMN_WIDTH {
            Some(0)
        } else if RIGHT_COLUMN_START <= x && x < RIGHT_COLUMN_START + WORD_COLUMN_WIDTH {
            Some(1)
        } else {
            None
        }
    }

    /// The column and linear buffer index under the cursor, if the cursor
    /// is inside a column.  The returned index is always inside the
    /// buffer.
    pub fn column_coordinates(&self) -> (r: Option<(usize, usize)>)
        ensures
            r == cursor_index(self.cursor_position.0 as int, self.cursor_position.1 as int),
            r matches Some((c, idx)) ==> c < COLUMNS && idx < CHARACTERS_PER_COLUMN,
    {
        let (x, y) = self.cursor_position;
        match self.get_cursor_column_index() {
            None => None,
            Some(column_index) => {
                let base = if column_index == 0 {
                    LEFT_COLUMN_START
                } else {
                    RIGHT_COLUMN_START
                };
                let col_x = x - base;
                let col_y = y - COLUMN_START_ROW;
                let index: usize = (col_y as usize) * (WORD_COLUMN_WIDTH as usize) + (
                col_x as usize);
                Some((column_index, index))
            },
        }
    }
}

impl GameState {
    /// Column and entity-list position of the active entity under the
    /// cursor, if any.  This is the index-returning form of
    /// [`GameState::get_entity_at_cursor`], used wherever the entity must
    /// be updated afterwards.
    pub fn cursor_entity_slot(&self) -> (r: Option<(usize, usize)>)
        requires
            self.wf(),
        ensures
            ({
                let ci = cursor_index(
                    self.cursor_position.0 as int,
                    self.cursor_position.1 as int,
                );
                match r {
                    Some((c, j)) => {
                        &&& ci matches Some((cc, idx)) && c == cc && j
                            < self.columns@[c as int].entities@.len()
                            && self.columns@[c as int].entities@[j as int].resolves_at(idx as int)
                            && self.columns@[c as int].entities@[j as int].active()
                    },
                    None => (ci matches Some((cc, idx)) ==> forall|j2: int|
                        0 <= j2 < self.columns@[cc as int].entities@.len() && (
                        #[trigger] self.columns@[cc as int].entities@[j2]).resolves_at(idx as int)
                            ==> !self.columns@[cc as int].entities@[j2].active()),
                }
            }),
    {
        match self.column_coordinates() {
            None => None,
            Some((c, idx)) => {
                let n = self.columns[c].entities.len();
                let mut j: usize = 0;
                while j < n
                    invariant
                        self.wf(),
                        c < COLUMNS,
                        cursor_index(self.cursor_position.0 as int, self.cursor_position.1 as int)
                            == Some((c, idx)),
                        n == self.columns@[c as int].entities@.len(),
                        j <= n,
                        forall|j2: int|
                            0 <= j2 < j as int ==> !(
                            #[trigger] self.columns@[c as int].entities@[j2]).resolves_at(
                                idx as int,
                            ),
                    decreases n - j,
                {
                    let ent = &self.columns[c].entities[j];
                    let (s, e) = ent.indices();
                    match ent {
                        CursorEntity::Word { removed, .. } => {
                            if s <= idx && idx < e {
                                if !*removed {
                                    return Some((c, j));
                                } else {
                                    proof {
                                        assert forall|j2: int|
                                            0 <= j2 < self.columns@[c as int].entities@.len() && (
                                            #[trigger] self.columns@[c as int].entities@[j2]).resolves_at(
                                                idx as int,
                                            ) implies !self.columns@[c as int].entities@[j2].active() by {
                                            lemma_unique_resolver(
                                                self.columns@[c as int],
                                                idx as int,
                                                j as int,
                                                j2,
                                            );
                                        }
                                    }
                                    return None;
                                }
                            }
                        },
                        CursorEntity::Brackets { consumed, .. } => {
                            if s == idx {
                                if !*consumed {
                                    return Some((c, j));
                                } else {
                                    proof {
                                        assert forall|j2: int|
                                            0 <= j2 < self.columns@[c as int].entities@.len() && (
                                            #[trigger] self.columns@[c as int].entities@[j2]).resolves_at(
                                                idx as int,
                                            ) implies !self.columns@[c as int].entities@[j2].active() by {
                                            lemma_unique_resolver(
                                                self.columns@[c as int],
                                                idx as int,
                                                j as int,
                                                j2,
                                            );
                                        }
                                    }
                                    return None;
                                }
                            }
                        },
                    }
                    j = j + 1;
                }
                None
            },
        }
    }

    /// The active entity under the cursor, if any: the unique entity
    /// whose span (word) or hot index (bracket pair) the cursor resolves
    /// to, unless that entity is already removed or consumed.
    pub fn get_entity_at_cursor(&self) -> (r: Option<&CursorEntity>)
        requires
            self.wf(),
        ensures
            ({
                let ci = cursor_index(
                    self.cursor_position.0 as int,
                    self.cursor_position.1 as int,
                );
                match r {
                    Some(e) => {
                        &&& ci matches Some((c, idx)) && exists|j: int|
                            0 <= j < self.columns@[c as int].entities@.len() && (
                            #[trigger] self.columns@[c as int].entities@[j]) == *e
                                && e.resolves_at(idx as int) && e.active()
                    },
                    None => (ci matches Some((c, idx)) ==> forall|j: int|
                        0 <= j < self.columns@[c as int].entities@.len() && (
                        #[trigger] self.columns@[c as int].entities@[j]).resolves_at(idx as int)
                            ==> !self.columns@[c as int].entities@[j].active()),
                }
            }),
    {
        match self.cursor_entity_slot() {
            None => None,
            Some((c, j)) => Some(&self.columns[c].entities[j]),
        }
    }
}

/// The same word entity with its `guessed` flag set.
pub open spec fn with_guessed(e: CursorEntity) -> CursorEntity {
    match e {
        CursorEntity::Word { word, guessed, index, removed } => CursorEntity::Word {
            word,
            guessed: true,
            index,
            removed,
        },
        CursorEntity::Brackets { .. } => e,
    }
}

/// The same word entity with its `removed` flag set.
pub open spec fn with_removed(e: CursorEntity) -> CursorEntity {
    match e {
        CursorEntity::Word { word, guessed, index, removed } => CursorEntity::Word {
            word,
            guessed,
            index,
            removed: true,
        },
        CursorEntity::Brackets { .. } => e,
    }
}

/// The same bracket pair with its `consumed` flag set.
pub open spec fn with_consumed(e: CursorEntity) -> CursorEntity {
    match e {
        CursorEntity::Word { .. } => e,
        CursorEntity::Brackets { pair, consumed, index } => CursorEntity::Brackets {
            pair,
            consumed: true,
            index,
        },
    }
}

/// Same buffer and address labels.
pub open spec fn col_shell_eq(a: Column, b: Column) -> bool {
    &&& a.addresses@ == b.addresses@
    &&& a.word_data@ == b.word_data@
}

/// `post` is `pre` with the single entity at column `c`, position `j`
/// replaced by `e`; everything else is untouched.
pub open spec fn cols_updated(
    pre: Seq<Column>,
    post: Seq<Column>,
    c: int,
    j: int,
    e: CursorEntity,
) -> bool {
    &&& 0 <= c < pre.len()
    &&& 0 <= j < pre[c].entities@.len()
    &&& post.len() == pre.len()
    &&& post[c].entities@ == pre[c].entities@.update(j, e)
    &&& col_shell_eq(pre[c], post[c])
    &&& forall|d: int| 0 <= d < pre.len() && d != c ==> post[d] == pre[d]
}

/// `post` is `pre` with the two entities at `(c1, j1)` and `(c2, j2)`
/// replaced by `e1` and `e2`, in that order; everything else untouched.
pub open spec fn cols_updated2(
    pre: Seq<Column>,
    post: Seq<Column>,
    c1: int,
    j1: int,
    e1: CursorEntity,
    c2: int,
    j2: int,
    e2: CursorEntity,
) -> bool {
    &&& 0 <= c1 < pre.len()
    &&& 0 <= j1 < pre[c1].entities@.len()
    &&& 0 <= c2 < pre.len()
    &&& 0 <= j2 < pre[c2].entities@.len()
    &&& post.len() == pre.len()
    &&& if c1 == c2 {
        &&& post[c1].entities@ == pre[c1].entities@.update(j1, e1).update(j2, e2)
        &&& col_shell_eq(pre[c1], post[c1])
        &&& forall|d: int| 0 <= d < pre.len() && d != c1 ==> post[d] == pre[d]
    } else {
        &&& post[c1].entities@ == pre[c1].entities@.update(j1, e1)
        &&& post[c2].entities@ == pre[c2].entities@.update(j2, e2)
        &&& col_shell_eq(pre[c1], post[c1])
        &&& col_shell_eq(pre[c2], post[c2])
        &&& forall|d: int| 0 <= d < pre.len() && d != c1 && d != c2 ==> post[d] == pre[d]
    }
}

/// Cursor, quit flag, and password are untouched.
pub open spec fn same_control(pre: GameState, post: GameState) -> bool {
    &&& post.cursor_position == pre.cursor_position
    &&& post.is_playing == pre.is_playing
    &&& post.correct_word == pre.correct_word
}

/// An unrevealed word other than the password: what a dud removal may
/// take out.
pub open spec fn dud_eligible(e: CursorEntity, correct: Seq<char>) -> bool {
    &&& e matches CursorEntity::Word { word, guessed, removed, .. }
    &&& !guessed
    &&& !removed
    &&& word@ != correct
}

/// No dud is left anywhere on the board.
pub open spec fn no_dud(cols: Seq<Column>, correct: Seq<char>) -> bool {
    forall|c: int, j: int|
        0 <= c < cols.len() && 0 <= j < cols[c].entities@.len() ==> !(#[trigger] dud_eligible(
            cols[c].entities@[j],
            correct,
        ))
}

/// `(c, j)` is the first dud in the fixed scan order: column by column,
/// each entity list front to back.
pub open spec fn first_dud_at(cols: Seq<Column>, correct: Seq<char>, c: int, j: int) -> bool {
    &&& 0 <= c < cols.len()
    &&& 0 <= j < cols[c].entities@.len()
    &&& dud_eligible(cols[c].entities@[j], correct)
    &&& forall|j2: int| 0 <= j2 < j ==> !(#[trigger] dud_eligible(cols[c].entities@[j2], correct))
    &&& forall|c2: int, j2: int|
        0 <= c2 < c && 0 <= j2 < cols[c2].entities@.len() ==> !(#[trigger] dud_eligible(
            cols[c2].entities@[j2],
            correct,
        ))
}

/// Effect of one dud removal on the board: the first dud in scan order
/// is marked removed, or nothing changes when no dud is left.
pub open spec fn dud_removed(pre: Seq<Column>, post: Seq<Column>, correct: Seq<char>) -> bool {
    if no_dud(pre, correct) {
        post == pre
    } else {
        exists|c: int, j: int|
            #[trigger] first_dud_at(pre, correct, c, j) && cols_updated(
                pre,
                post,
                c,
                j,
                with_removed(pre[c].entities@[j]),
            )
    }
}

/// Updating one entity for another with the same footprint keeps a
/// column well formed.
pub proof fn lemma_wf_update(pre: Column, post: Column, j: int, e: CursorEntity)
    requires
        pre.wf(),
        0 <= j < pre.entities@.len(),
        pre.entities@[j].same_footprint(e),
        post.entities@ == pre.entities@.update(j, e),
        post.word_data@ == pre.word_data@,
    ensures
        post.wf(),
{
    assert forall|i: int| 0 <= i < post.entities@.len() implies (
    #[trigger] post.entities@[i]).in_column() by {
        assert(pre.entities@[i].in_column());
    }
    assert forall|a: int, b: int| 0 <= a < b < post.entities@.len() implies compatible(
        post.entities@[a],
        post.entities@[b],
    ) by {
        assert(compatible(pre.entities@[a], pre.entities@[b]));
    }
}

impl GameState {
    /// Mark the first unrevealed, non-password word in scan order as
    /// removed; a silent no-op when no such word remains.
    pub fn remove_dud(&mut self)
        requires
            old(self).wf(),
        ensures
            final(self).wf(),
            final(self).attempts == old(self).attempts,
            final(self).entries == old(self).entries,
            final(self).status == old(self).status,
            same_control(*old(self), *final(self)),
            dud_removed(old(self).columns@, final(self).columns@, old(self).correct_word@),
    {
        let ghost pre = *old(self);
        let mut c: usize = 0;
        while c < COLUMNS
            invariant
                pre == *old(self),
                *self == pre,
                pre.wf(),
                c <= COLUMNS,
                forall|c2: int, j2: int|
                    0 <= c2 < c as int && 0 <= j2 < pre.columns@[c2].entities@.len() ==> !(
                    #[trigger] dud_eligible(pre.columns@[c2].entities@[j2], pre.correct_word@)),
            decreases COLUMNS - c,
        {
            let n = self.columns[c].entities.len();
            let mut j: usize = 0;
            while j < n
                invariant
                    pre == *old(self),
                    *self == pre,
                    pre.wf(),
                    c < COLUMNS,
                    n == pre.columns@[c as int].entities@.len(),
                    j <= n,
                    forall|c2: int, j2: int|
                        0 <= c2 < c as int && 0 <= j2 < pre.columns@[c2].entities@.len() ==> !(
                        #[trigger] dud_eligible(pre.columns@[c2].entities@[j2], pre.correct_word@)),
                    forall|j2: int|
                        0 <= j2 < j as int ==> !(#[trigger] dud_eligible(
                            pre.columns@[c as int].entities@[j2],
                            pre.correct_word@,
                        )),
                decreases n - j,
            {
                let hit: (bool, String, usize) = match &self.columns[c].entities[j] {
                    CursorEntity::Word { word, guessed, index, removed } => {
                        if !*guessed && !*removed && !str_eq(
                            word.as_str(),
                            self.correct_word.as_str(),
                        ) {
                            (true, word.clone(), *index)
                        } else {
                            (false, String::new(), 0)
                        }
                    },
                    CursorEntity::Brackets { .. } => (false, String::new(), 0),
                };
                if hit.0 {
                    let ghost e = pre.columns@[c as int].entities@[j as int];
                    self.columns[c].entities[j] = CursorEntity::Word {
                        word: hit.1,
                        guessed: false,
                        index: hit.2,
                        removed: true,
                    };
                    proof {
                        assert(self.columns@[c as int].entities@[j as int] == with_removed(e));
                        assert(first_dud_at(pre.columns@, pre.correct_word@, c as int, j as int));
                        assert(cols_updated(
                            pre.columns@,
                            self.columns@,
                            c as int,
                            j as int,
                            with_removed(e),
                        ));
                        lemma_wf_update(
                            pre.columns@[c as int],
                            self.columns@[c as int],
                            j as int,
                            with_removed(e),
                        );
                        assert(!no_dud(pre.columns@, pre.correct_word@));
                    }
                    return ;
                }
                j = j + 1;
            }
            c = c + 1;
        }
        proof {
            assert(no_dud(pre.columns@, pre.correct_word@));
        }
    }
}

/// The entity at `(c, j)` is an unrevealed word the cursor index `idx`
/// resolves to: a guess sequence would fire on it.
pub open spec fn guess_target_at(g: GameState, c: int, j: int, idx: int) -> bool {
    &&& 0 <= c < g.columns@.len()
    &&& 0 <= j < g.columns@[c].entities@.len()
    &&& g.columns@[c].entities@[j] matches CursorEntity::Word { guessed, removed, .. } && !guessed
        && !removed
    &&& g.columns@[c].entities@[j].resolves_at(idx)
}

/// A guess target whose hidden word reads `w`.
pub open spec fn guess_target_with(g: GameState, c: int, j: int, idx: int, w: Seq<char>) -> bool {
    &&& guess_target_at(g, c, j, idx)
    &&& (g.columns@[c].entities@[j]->Word_word)@ == w
}

/// The entity at `(c, j)` is an unconsumed bracket pair whose hot index
/// the cursor resolves to: a bonus sequence would fire on it.
pub open spec fn brackets_target_at(g: GameState, c: int, j: int, idx: int) -> bool {
    &&& 0 <= c < g.columns@.len()
    &&& 0 <= j < g.columns@[c].entities@.len()
    &&& g.columns@[c].entities@[j] matches CursorEntity::Brackets { consumed, .. } && !consumed
    &&& g.columns@[c].entities@[j].resolves_at(idx)
}

/// The guess sequence applied to the word at `(c, j)`: one attempt is
/// spent, the word is marked guessed, and exactly one entry is logged.
/// The correct word wins the game; any other word logs its positionwise
/// match count against the password and loses the game when the budget
/// runs out.
pub open spec fn guess_step(pre: GameState, post: GameState, c: int, j: int) -> bool {
    let e = pre.columns@[c].entities@[j];
    let w = e->Word_word;
    &&& cols_updated(pre.columns@, post.columns@, c, j, with_guessed(e))
    &&& same_control(pre, post)
    &&& post.attempts == pre.attempts - 1
    &&& if w@ == pre.correct_word@ {
        &&& post.entries@ == pre.entries@.push(Entry::Correct { word: w })
        &&& post.status == Some(GameEnding::Won)
    } else {
        &&& post.entries@ == pre.entries@.push(
            Entry::Incorrect { word: w, num_correct: match_count(w@, pre.correct_word@) as i32 },
        )
        &&& post.status == (if pre.attempts == 1 {
            Some(GameEnding::Lost)
        } else {
            Option::<GameEnding>::None
        })
    }
}

/// The bonus sequence applied to the bracket pair at `(c, j)`: the pair
/// is consumed and exactly one entry is logged — either the allowance is
/// replenished, or one dud removal runs.
pub open spec fn brackets_step(pre: GameState, post: GameState, c: int, j: int) -> bool {
    let e = pre.columns@[c].entities@[j];
    &&& same_control(pre, post)
    &&& post.status == pre.status
    &&& ({
        ||| {
            &&& post.entries@ == pre.entries@.push(Entry::AllowanceReplenish)
            &&& post.attempts == STARTING_ATTEMPTS
            &&& cols_updated(pre.columns@, post.columns@, c, j, with_consumed(e))
        }
        ||| {
            &&& post.entries@ == pre.entries@.push(Entry::DudRemoval)
            &&& post.attempts == pre.attempts
            &&& if no_dud(pre.columns@, pre.correct_word@) {
                cols_updated(pre.columns@, post.columns@, c, j, with_consumed(e))
            } else {
                exists|c2: int, j2: int|
                    #[trigger] first_dud_at(pre.columns@, pre.correct_word@, c2, j2)
                        && cols_updated2(
                        pre.columns@,
                        post.columns@,
                        c,
                        j,
                        with_consumed(e),
                        c2,
                        j2,
                        with_removed(pre.columns@[c2].entities@[j2]),
                    )
            }
        }
    })
}

/// What one guess call does for the word text `w`: nothing once the game
/// is over, nothing when the cursor resolves no unrevealed word reading
/// `w`, and the guess sequence otherwise.
pub open spec fn guess_result(pre: GameState, post: GameState, w: Seq<char>) -> bool {
    if pre.status is Some {
        post == pre
    } else {
        match cursor_index(pre.cursor_position.0 as int, pre.cursor_position.1 as int) {
            None => post == pre,
            Some((c, idx)) => if exists|j: int|
                #[trigger] guess_target_with(pre, c as int, j, idx as int, w) {
                exists|j: int|
                    #[trigger] guess_target_with(pre, c as int, j, idx as int, w) && guess_step(
                        pre,
                        post,
                        c as int,
                        j,
                    )
            } else {
                post == pre
            },
        }
    }
}

/// What one bonus trigger does: nothing once the game is over, nothing
/// when the cursor resolves no unconsumed bracket pair, and the bonus
/// sequence otherwise.
pub open spec fn trigger_result(pre: GameState, post: GameState) -> bool {
    if pre.status is Some {
        post == pre
    } else {
        match cursor_index(pre.cursor_position.0 as int, pre.cursor_position.1 as int) {
            None => post == pre,
            Some((c, idx)) => if exists|j: int|
                #[trigger] brackets_target_at(pre, c as int, j, idx as int) {
                exists|j: int|
                    #[trigger] brackets_target_at(pre, c as int, j, idx as int) && brackets_step(
                        pre,
                        post,
                        c as int,
                        j,
                    )
            } else {
                post == pre
            },
        }
    }
}

/// What one action event does: nothing once the game is over or over
/// empty space, the guess sequence on an unrevealed word, the bonus
/// sequence on an unconsumed bracket pair.
pub open spec fn action_taken(pre: GameState, post: GameState) -> bool {
    if pre.status is Some {
        post == pre
    } else {
        match cursor_index(pre.cursor_position.0 as int, pre.cursor_position.1 as int) {
            None => post == pre,
            Some((c, idx)) => if exists|j: int|
                #[trigger] guess_target_at(pre, c as int, j, idx as int) {
                exists|j: int|
                    #[trigger] guess_target_at(pre, c as int, j, idx as int) && guess_step(
                        pre,
                        post,
                        c as int,
                        j,
                    )
            } else if exists|j: int| #[trigger] brackets_target_at(pre, c as int, j, idx as int) {
                exists|j: int|
                    #[trigger] brackets_target_at(pre, c as int, j, idx as int) && brackets_step(
                        pre,
                        post,
                        c as int,
                        j,
                    )
            } else {
                post == pre
            },
        }
    }
}

/// Character-wise string equality; two `&str` compare equal exactly when
/// their character sequences do.
pub fn str_eq(a: &str, b: &str) -> (r: bool)
    ensures
        r == (a@ == b@),
{
    let la = a.unicode_len();
    let lb = b.unicode_len();
    if la != lb {
        proof {
            if a@ == b@ {
                assert(a@.len() == b@.len());
            }
        }
        return false;
    }
    let mut i: usize = 0;
    while i < la
        invariant
            la == a@.len(),
            lb == b@.len(),
            la == lb,
            i <= la,
            forall|k: int| 0 <= k < i as int ==> a@[k] == b@[k],
        decreases la - i,
    {
        if a.get_char(i) != b.get_char(i) {
            proof {
                if a@ == b@ {
                    assert(a@[i as int] == b@[i as int]);
                }
            }
            return false;
        }
        i = i + 1;
    }
    proof {
        assert(a@ =~= b@);
    }
    true
}

/// Positions below `n` where `a` and `b` hold the same character.
pub open spec fn match_count_up_to(a: Seq<char>, b: Seq<char>, n: int) -> int
    decreases n,
{
    if n <= 0 {
        0
    } else {
        match_count_up_to(a, b, n - 1) + if a[n - 1] == b[n - 1] {
            1int
        } else {
            0int
        }
    }
}

/// Positions over the shared length where `a` and `b` hold the same
/// character.
pub open spec fn match_count(a: Seq<char>, b: Seq<char>) -> int {
    match_count_up_to(
        a,
        b,
        if a.len() <= b.len() {
            a.len() as int
        } else {
            b.len() as int
        },
    )
}

/// Count the character positions where the two strings agree, over their
/// shared length.
pub fn count_matching(a: &str, b: &str) -> (r: usize)
    ensures
        r == match_count(a@, b@),
        r <= a@.len(),
{
    let la = a.unicode_len();
    let lb = b.unicode_len();
    let n = if la <= lb {
        la
    } else {
        lb
    };
    let mut r: usize = 0;
    let mut i: usize = 0;
    while i < n
        invariant
            la == a@.len(),
            lb == b@.len(),
            n == (if la <= lb { la } else { lb }),
            i <= n,
            r <= i,
            r == match_count_up_to(a@, b@, i as int),
        decreases n - i,
    {
        if a.get_char(i) == b.get_char(i) {
            r = r + 1;
        }
        i = i + 1;
    }
    r
}

/// Consuming the bracket pair at `(c, j)` changes no word entity, so the
/// dud scan sees the same board before and after.
proof fn lemma_dud_transfer(
    pre: Seq<Column>,
    mid: Seq<Column>,
    correct: Seq<char>,
    c: int,
    j: int,
    e: CursorEntity,
)
    requires
        cols_updated(pre, mid, c, j, e),
        !dud_eligible(pre[c].entities@[j], correct),
        !dud_eligible(e, correct),
    ensures
        no_dud(mid, correct) == no_dud(pre, correct),
        forall|c2: int, j2: int|
            #[trigger] first_dud_at(mid, correct, c2, j2) == first_dud_at(pre, correct, c2, j2),
        forall|c2: int, j2: int|
            first_dud_at(pre, correct, c2, j2) ==> mid[c2].entities@[j2] == pre[c2].entities@[j2],
{
    assert forall|c2: int, j2: int|
        0 <= c2 < pre.len() && 0 <= j2 < pre[c2].entities@.len() implies #[trigger] dud_eligible(
        mid[c2].entities@[j2],
        correct,
    ) == dud_eligible(pre[c2].entities@[j2], correct) by {
        if c2 != c {
            assert(mid[c2] == pre[c2]);
        }
    }
    assert forall|c2: int| 0 <= c2 < pre.len() implies (#[trigger] mid[c2]).entities@.len()
        == pre[c2].entities@.len() by {
        if c2 != c {
            assert(mid[c2] == pre[c2]);
        }
    }
    if no_dud(pre, correct) {
        assert forall|c2: int, j2: int|
            0 <= c2 < mid.len() && 0 <= j2 < mid[c2].entities@.len() implies !(
        #[trigger] dud_eligible(mid[c2].entities@[j2], correct)) by {
            assert(!dud_eligible(pre[c2].entities@[j2], correct));
        }
    }
    if no_dud(mid, correct) {
        assert forall|c2: int, j2: int|
            0 <= c2 < pre.len() && 0 <= j2 < pre[c2].entities@.len() implies !(
        #[trigger] dud_eligible(pre[c2].entities@[j2], correct)) by {
            assert(!dud_eligible(mid[c2].entities@[j2], correct));
        }
    }
    assert forall|c2: int, j2: int|
        #[trigger] first_dud_at(mid, correct, c2, j2) == first_dud_at(
        pre,
        correct,
        c2,
        j2,
    ) by {
        if first_dud_at(mid, correct, c2, j2) {
            assert forall|j3: int| 0 <= j3 < j2 implies !(#[trigger] dud_eligible(
                pre[c2].entities@[j3],
                correct,
            )) by {
                assert(!dud_eligible(mid[c2].entities@[j3], correct));
            }
            assert forall|c3: int, j3: int|
                0 <= c3 < c2 && 0 <= j3 < pre[c3].entities@.len() implies !(
            #[trigger] dud_eligible(pre[c3].entities@[j3], correct)) by {
                assert(!dud_eligible(mid[c3].entities@[j3], correct));
            }
            assert(first_dud_at(pre, correct, c2, j2));
        }
        if first_dud_at(pre, correct, c2, j2) {
            assert forall|j3: int| 0 <= j3 < j2 implies !(#[trigger] dud_eligible(
                mid[c2].entities@[j3],
                correct,
            )) by {
                assert(!dud_eligible(pre[c2].entities@[j3], correct));
            }
            assert forall|c3: int, j3: int|
                0 <= c3 < c2 && 0 <= j3 < mid[c3].entities@.len() implies !(
            #[trigger] dud_eligible(mid[c3].entities@[j3], correct)) by {
                assert(!dud_eligible(pre[c3].entities@[j3], correct));
            }
            assert(first_dud_at(mid, correct, c2, j2));
        }
    }
    assert forall|c2: int, j2: int| first_dud_at(pre, correct, c2, j2) implies mid[c2].entities@[j2]
        == pre[c2].entities@[j2] by {
        if c2 != c {
            assert(mid[c2] == pre[c2]);
        } else if j2 != j {
        } else {
            assert(dud_eligible(pre[c].entities@[j], correct));
        }
    }
}

impl GameState {
    /// Log the bonus granted by a consumed bracket pair: replenish the
    /// attempt allowance, or run one dud removal.
    pub fn apply_bonus(&mut self, replenish: bool)
        requires
            old(self).wf(),
            old(self).status is None,
        ensures
            final(self).wf(),
            same_control(*old(self), *final(self)),
            final(self).status == old(self).status,
            (if replenish {
                &&& final(self).entries@ == old(self).entries@.push(Entry::AllowanceReplenish)
                &&& final(self).attempts == STARTING_ATTEMPTS
                &&& final(self).columns == old(self).columns
            } else {
                &&& final(self).entries@ == old(self).entries@.push(Entry::DudRemoval)
                &&& final(self).attempts == old(self).attempts
                &&& dud_removed(old(self).columns@, final(self).columns@, old(self).correct_word@)
            }),
    {
        if replenish {
            self.entries.push(Entry::AllowanceReplenish);
            self.attempts = STARTING_ATTEMPTS;
        } else {
            self.entries.push(Entry::DudRemoval);
            self.remove_dud();
        }
    }

    /// Process a guess of `word`: when the game is still running and the
    /// cursor rests on an unguessed, unremoved word entity reading
    /// `word`, run the guess sequence; in every other situation change
    /// nothing.
    pub fn guess_word(&mut self, word: &str)
        requires
            old(self).wf(),
        ensures
            final(self).wf(),
            guess_result(*old(self), *final(self), word@),
    {
        let ghost pre = *old(self);
        let ghost ci = cursor_index(pre.cursor_position.0 as int, pre.cursor_position.1 as int);
        if self.status.is_some() {
            return ;
        }
        match self.cursor_entity_slot() {
            None => {
                proof {
                    if ci is Some {
                        let (cc, idx) = ci->0;
                        assert forall|j2: int| !(#[trigger] guess_target_with(
                            pre,
                            cc as int,
                            j2,
                            idx as int,
                            word@,
                        )) by {
                            if guess_target_with(pre, cc as int, j2, idx as int, word@) {
                                assert(pre.columns@[cc as int].entities@[j2].active());
                            }
                        }
                    }
                }
            },
            Some((c, j)) => {
                let ghost (cc, idx) = ci->0;
                let decision: (bool, String, usize) = match &self.columns[c].entities[j] {
                    CursorEntity::Word { word: text, guessed, index, .. } => {
                        if !*guessed && str_eq(text.as_str(), word) {
                            (true, text.clone(), *index)
                        } else {
                            (false, String::new(), 0)
                        }
                    },
                    CursorEntity::Brackets { .. } => (false, String::new(), 0),
                };
                if decision.0 {
                    let ghost e = pre.columns@[c as int].entities@[j as int];
                    let w = decision.1;
                    self.attempts = self.attempts - 1;
                    self.columns[c].entities[j] = CursorEntity::Word {
                        word: w.clone(),
                        guessed: true,
                        index: decision.2,
                        removed: false,
                    };
                    proof {
                        assert(self.columns@[c as int].entities@[j as int] == with_guessed(e));
                        lemma_wf_update(
                            pre.columns@[c as int],
                            self.columns@[c as int],
                            j as int,
                            with_guessed(e),
                        );
                        assert(e.in_column());
                    }
                    if str_eq(w.as_str(), self.correct_word.as_str()) {
                        self.entries.push(Entry::Correct { word: w });
                        self.status = Some(GameEnding::Won);
                    } else {
                        let nc = count_matching(w.as_str(), self.correct_word.as_str());
                        self.entries.push(Entry::Incorrect { word: w, num_correct: nc as i32 });
                        if self.attempts == 0 {
                            self.status = Some(GameEnding::Lost);
                        }
                    }
                    proof {
                        assert(guess_target_with(pre, c as int, j as int, idx as int, word@));
                        assert(guess_step(pre, *self, c as int, j as int));
                    }
                } else {
                    proof {
                        assert forall|j2: int| !(#[trigger] guess_target_with(
                            pre,
                            c as int,
                            j2,
                            idx as int,
                            word@,
                        )) by {
                            if guess_target_with(pre, c as int, j2, idx as int, word@) {
                                lemma_unique_resolver(
                                    pre.columns@[c as int],
                                    idx as int,
                                    j as int,
                                    j2,
                                );
                            }
                        }
                    }
                }
            },
        }
    }

    /// Process a bonus trigger: when the game is still running and the
    /// cursor rests on the hot index of an unconsumed bracket pair, mark
    /// it consumed and grant one bonus; in every other situation change
    /// nothing.
    pub fn trigger_brackets(&mut self)
        requires
            old(self).wf(),
        ensures
            final(self).wf(),
            trigger_result(*old(self), *final(self)),
    {
        let ghost pre = *old(self);
        let ghost ci = cursor_index(pre.cursor_position.0 as int, pre.cursor_position.1 as int);
        if self.status.is_some() {
            return ;
        }
        match self.cursor_entity_slot() {
            None => {
                proof {
                    if ci is Some {
                        let (cc, idx) = ci->0;
                        assert forall|j2: int| !(#[trigger] brackets_target_at(
                            pre,
                            cc as int,
                            j2,
                            idx as int,
                        )) by {
                            if brackets_target_at(pre, cc as int, j2, idx as int) {
                                assert(pre.columns@[cc as int].entities@[j2].active());
                            }
                        }
                    }
                }
            },
            Some((c, j)) => {
                let ghost (cc, idx) = ci->0;
                let decision: (bool, (char, char), usize) = match &self.columns[c].entities[j] {
                    CursorEntity::Brackets { pair, consumed, index } => {
                        if !*consumed {
                            (true, (pair.0, pair.1), *index)
                        } else {
                            (false, ('<', '>'), 0)
                        }
                    },
                    CursorEntity::Word { .. } => (false, ('<', '>'), 0),
                };
                if decision.0 {
                    let ghost e = pre.columns@[c as int].entities@[j as int];
                    self.columns[c].entities[j] = CursorEntity::Brackets {
                        pair: decision.1,
                        consumed: true,
                        index: decision.2,
                    };
                    let ghost mid = *self;
                    proof {
                        assert(mid.columns@[c as int].entities@[j as int] == with_consumed(e));
                        assert(cols_updated(
                            pre.columns@,
                            mid.columns@,
                            c as int,
                            j as int,
                            with_consumed(e),
                        ));
                        lemma_wf_update(
                            pre.columns@[c as int],
                            mid.columns@[c as int],
                            j as int,
                            with_consumed(e),
                        );
                        lemma_dud_transfer(
                            pre.columns@,
                            mid.columns@,
                            pre.correct_word@,
                            c as int,
                            j as int,
                            with_consumed(e),
                        );
                    }
                    let replenish = one_in_three();
                    self.apply_bonus(replenish);
                    proof {
                        assert(brackets_target_at(pre, c as int, j as int, idx as int));
                        if replenish {
                            assert(self.columns@ == mid.columns@);
                            assert(brackets_step(pre, *self, c as int, j as int));
                        } else {
                            if no_dud(pre.columns@, pre.correct_word@) {
                                assert(self.columns@ == mid.columns@);
                                assert(cols_updated(
                                    pre.columns@,
                                    self.columns@,
                                    c as int,
                                    j as int,
                                    with_consumed(e),
                                ));
                            } else {
                                assert(!no_dud(mid.columns@, pre.correct_word@));
                                let (c2, j2) = choose|c2: int, j2: int|
                                    #[trigger] first_dud_at(mid.columns@, pre.correct_word@, c2, j2)
                                        && cols_updated(
                                        mid.columns@,
                                        self.columns@,
                                        c2,
                                        j2,
                                        with_removed(mid.columns@[c2].entities@[j2]),
                                    );
                                assert(first_dud_at(pre.columns@, pre.correct_word@, c2, j2));
                                assert(mid.columns@[c2].entities@[j2]
                                    == pre.columns@[c2].entities@[j2]);
                                if c2 == c as int {
                                    assert(self.columns@[c2].entities@
                                        == pre.columns@[c2].entities@.update(
                                        j as int,
                                        with_consumed(e),
                                    ).update(j2, with_removed(pre.columns@[c2].entities@[j2])));
                                } else {
                                    assert(self.columns@[c as int] == mid.columns@[c as int]);
                                }
                                assert(cols_updated2(
                                    pre.columns@,
                                    self.columns@,
                                    c as int,
                                    j as int,
                                    with_consumed(e),
                                    c2,
                                    j2,
                                    with_removed(pre.columns@[c2].entities@[j2]),
                                ));
                            }
                            assert(brackets_step(pre, *self, c as int, j as int));
                        }
                    }
                } else {
                    proof {
                        assert forall|j2: int| !(#[trigger] brackets_target_at(
                            pre,
                            c as int,
                            j2,
                            idx as int,
                        )) by {
                            if brackets_target_at(pre, c as int, j2, idx as int) {
                                lemma_unique_resolver(
                                    pre.columns@[c as int],
                                    idx as int,
                                    j as int,
                                    j2,
                                );
                            }
                        }
                    }
                }
            },
        }
    }

    /// Resolve the entity under the cursor and fire the matching
    /// sequence: a guess on a word, a bonus on a bracket pair, a no-op
    /// over empty space or once the game is over.
    pub fn select_entity(&mut self)
        requires
            old(self).wf(),
        ensures
            final(self).wf(),
            action_taken(*old(self), *final(self)),
    {
        let ghost pre = *old(self);
        let ghost ci = cursor_index(pre.cursor_position.0 as int, pre.cursor_position.1 as int);
        if self.status.is_some() {
            return ;
        }
        match self.cursor_entity_slot() {
            None => {
                proof {
                    if ci is Some {
                        let (cc, idx) = ci->0;
                        assert forall|j2: int| !(#[trigger] guess_target_at(
                            pre,
                            cc as int,
                            j2,
                            idx as int,
                        )) by {
                            if guess_target_at(pre, cc as int, j2, idx as int) {
                                assert(pre.columns@[cc as int].entities@[j2].active());
                            }
                        }
                        assert forall|j2: int| !(#[trigger] brackets_target_at(
                            pre,
                            cc as int,
                            j2,
                            idx as int,
                        )) by {
                            if brackets_target_at(pre, cc as int, j2, idx as int) {
                                assert(pre.columns@[cc as int].entities@[j2].active());
                            }
                        }
                    }
                }
            },
            Some((c, j)) => {
                let ghost (cc, idx) = ci->0;
                let choice: Option<String> = match &self.columns[c].entities[j] {
                    CursorEntity::Word { word, .. } => Some(word.clone()),
                    CursorEntity::Brackets { .. } => None,
                };
                match choice {
                    Some(w) => {
                        self.guess_word(w.as_str());
                        proof {
                            if guess_target_at(pre, c as int, j as int, idx as int) {
                                assert(guess_target_with(pre, c as int, j as int, idx as int, w@));
                            } else {
                                assert forall|j2: int| !(#[trigger] guess_target_at(
                                    pre,
                                    c as int,
                                    j2,
                                    idx as int,
                                )) by {
                                    if guess_target_at(pre, c as int, j2, idx as int) {
                                        lemma_unique_resolver(
                                            pre.columns@[c as int],
                                            idx as int,
                                            j as int,
                                            j2,
                                        );
                                    }
                                }
                                assert forall|j2: int| !(#[trigger] guess_target_with(
                                    pre,
                                    c as int,
                                    j2,
                                    idx as int,
                                    w@,
                                )) by {
                                    if guess_target_with(pre, c as int, j2, idx as int, w@) {
                                        assert(guess_target_at(pre, c as int, j2, idx as int));
                                    }
                                }
                                assert forall|j2: int| !(#[trigger] brackets_target_at(
                                    pre,
                                    c as int,
                                    j2,
                                    idx as int,
                                )) by {
                                    if brackets_target_at(pre, c as int, j2, idx as int) {
                                        lemma_unique_resolver(
                                            pre.columns@[c as int],
                                            idx as int,
                                            j as int,
                                            j2,
                                        );
                                    }
                                }
                            }
                        }
                    },
                    None => {
                        self.trigger_brackets();
                        proof {
                            assert(brackets_target_at(pre, c as int, j as int, idx as int));
                            assert forall|j2: int| !(#[trigger] guess_target_at(
                                pre,
                                c as int,
                                j2,
                                idx as int,
                            )) by {
                                if guess_target_at(pre, c as int, j2, idx as int) {
                                    lemma_unique_resolver(
                                        pre.columns@[c as int],
                                        idx as int,
                                        j as int,
                                        j2,
                                    );
                                }
                            }
                        }
                    },
                }
            },
        }
    }

    /// Advance the state machine by one input event: translate or set the
    /// cursor, stop the play loop, or act on the entity under the cursor.
    pub fn update(&mut self, event: Option<InputEvent>)
        requires
            old(self).wf(),
            (match event {
                Some(InputEvent::Left) => old(self).cursor_position.0 > i32::MIN,
                Some(InputEvent::Right) => old(self).cursor_position.0 < i32::MAX,
                Some(InputEvent::Up) => old(self).cursor_position.1 > i32::MIN,
                Some(InputEvent::Down) => old(self).cursor_position.1 < i32::MAX,
                _ => true,
            }),
        ensures
            final(self).wf(),
            (match event {
                None => *final(self) == *old(self),
                Some(InputEvent::Left) => moved_to(
                    *old(self),
                    *final(self),
                    old(self).cursor_position.0 - 1,
                    old(self).cursor_position.1 as int,
                ),
                Some(InputEvent::Right) => moved_to(
                    *old(self),
                    *final(self),
                    old(self).cursor_position.0 + 1,
                    old(self).cursor_position.1 as int,
                ),
                Some(InputEvent::Up) => moved_to(
                    *old(self),
                    *final(self),
                    old(self).cursor_position.0 as int,
                    old(self).cursor_position.1 - 1,
                ),
                Some(InputEvent::Down) => moved_to(
                    *old(self),
                    *final(self),
                    old(self).cursor_position.0 as int,
                    old(self).cursor_position.1 + 1,
                ),
                Some(InputEvent::SetCursor(x, y)) => moved_to(
                    *old(self),
                    *final(self),
                    x as int,
                    y as int,
                ),
                Some(InputEvent::Quit) => quit_applied(*old(self), *final(self)),
                Some(InputEvent::Action) => action_taken(*old(self), *final(self)),
            }),
    {
        match event {
            None => {},
            Some(InputEvent::Left) => {
                let (x, y) = self.cursor_position;
                self.cursor_position = (x - 1, y);
            },
            Some(InputEvent::Right) => {
                let (x, y) = self.cursor_position;
                self.cursor_position = (x + 1, y);
            },
            Some(InputEvent::Up) => {
                let (x, y) = self.cursor_position;
                self.cursor_position = (x, y - 1);
            },
            Some(InputEvent::Down) => {
                let (x, y) = self.cursor_position;
                self.cursor_position = (x, y + 1);
            },
            Some(InputEvent::SetCursor(x, y)) => {
                self.cursor_position = (x, y);
            },
            Some(InputEvent::Quit) => {
                self.is_playing = false;
            },
            Some(InputEvent::Action) => {
                self.select_entity();
            },
        }
    }
}

impl GameState {
    /// Build one game session: two columns seeded from the given words
    /// (first half left, second half right), a random cosmetic address
    /// ladder, and one of the words chosen uniformly as the password.
    ///
    /// The word source must supply at least two words, all of length
    /// `difficulty`.  Fails with `InsufficientSpace` when the placement
    /// geometry cannot fit the words or the bracket pairs.
    pub fn new(difficulty: i32, words: Vec<String>) -> (r: Result<GameState, GameError>)
        requires
            difficulty >= 1,
            words@.len() >= 2,
            forall|i: int| 0 <= i < words@.len() ==> (#[trigger] words@[i])@.len() == difficulty as int,
        ensures
            (match r {
                Ok(g) => {
                    &&& g.wf()
                    &&& g.attempts == STARTING_ATTEMPTS
                    &&& g.cursor_position == (0i32, 0i32)
                    &&& g.is_playing
                    &&& g.entries@.len() == 0
                    &&& g.status is None
                    &&& g.columns@.len() == 2
                    &&& Column::words_of(g.columns@[0].entities@) == string_views(
                        words@.subrange(0, words@.len() as int / 2),
                    )
                    &&& Column::words_of(g.columns@[1].entities@) == string_views(
                        words@.subrange(words@.len() as int / 2, words@.len() as int),
                    )
                    &&& exists|i: int|
                        0 <= i < words@.len() && g.correct_word@ == (#[trigger] words@[i])@
                    &&& forall|c: int, j: int|
                        0 <= c < g.columns@.len() && 0 <= j < g.columns@[c].entities@.len() ==> (
                        #[trigger] g.columns@[c].entities@[j]).fresh()
                    &&& g.columns@[0].addresses@.len() == ROWS
                    &&& g.columns@[1].addresses@.len() == ROWS
                    &&& ADDRESS_BASE <= g.columns@[0].addresses@[0] < ADDRESS_BASE + ADDRESS_RANGE
                    &&& forall|row: int|
                        0 <= row < ROWS ==> #[trigger] g.columns@[0].addresses@[row]
                            == g.columns@[0].addresses@[0] + row * ADDRESS_STRIDE
                    &&& forall|row: int|
                        0 <= row < ROWS ==> #[trigger] g.columns@[1].addresses@[row]
                            == g.columns@[0].addresses@[0] + (ROWS + row) * ADDRESS_STRIDE
                },
                Err(e) => e == GameError::InsufficientSpace,
            }),
            slot_size(words@.len() as int / 2) <= difficulty ==> r is Err,
            slot_size(words@.len() as int - words@.len() as int / 2) <= difficulty ==> r is Err,
    {
        let word_length = difficulty as usize;
        let half = words.len() / 2;
        // cosmetic address ladder, one window of hex addresses per column
        let start_addr: u16 = ADDRESS_BASE + (rand_below(ADDRESS_RANGE as usize) as u16);
        let mut left_addresses: Vec<u16> = Vec::new();
        let mut right_addresses: Vec<u16> = Vec::new();
        let mut i: usize = 0;
        while i < ROWS
            invariant
                ADDRESS_BASE <= start_addr < 0xF900,
                i <= ROWS,
                left_addresses@.len() == i,
                right_addresses@.len() == i,
                forall|row: int|
                    0 <= row < i as int ==> #[trigger] left_addresses@[row] == start_addr + row
                        * ADDRESS_STRIDE,
                forall|row: int|
                    0 <= row < i as int ==> #[trigger] right_addresses@[row] == start_addr + (ROWS
                        + row) * ADDRESS_STRIDE,
            decreases ROWS - i,
        {
            left_addresses.push(start_addr + (i as u16) * ADDRESS_STRIDE);
            right_addresses.push(start_addr + ((ROWS + i) as u16) * ADDRESS_STRIDE);
            i = i + 1;
        }
        // split the words between the two columns
        let mut left_words: Vec<String> = Vec::new();
        let mut k: usize = 0;
        while k < half
            invariant
                half <= words@.len(),
                k <= half,
                left_words@.len() == k,
                forall|t: int| 0 <= t < k as int ==> #[trigger] left_words@[t] == words@[t],
            decreases half - k,
        {
            left_words.push(words[k].clone());
            k = k + 1;
        }
        let mut right_words: Vec<String> = Vec::new();
        while k < words.len()
            invariant
                half <= k <= words@.len(),
                right_words@.len() == k - half,
                forall|t: int|
                    0 <= t < k - half ==> #[trigger] right_words@[t] == words@[t + half],
            decreases words@.len() - k,
        {
            right_words.push(words[k].clone());
            k = k + 1;
        }
        proof {
            assert(left_words@ =~= words@.subrange(0, half as int));
            assert(right_words@ =~= words@.subrange(half as int, words@.len() as int));
        }
        let left = match Column::new(left_addresses, &left_words, word_length) {
            Ok(c) => c,
            Err(e) => {
                return Err(e);
            },
        };
        let right = match Column::new(right_addresses, &right_words, word_length) {
            Ok(c) => c,
            Err(e) => {
                return Err(e);
            },
        };
        // collect the placed words and choose the password among them
        let mut all = left.words();
        let mut right_placed = right.words();
        let ghost left_texts = all@;
        let ghost right_texts = right_placed@;
        all.append(&mut right_placed);
        proof {
            assert(all@.map_values(|s: String| s@) =~= left_texts.map_values(|s: String| s@)
                + right_texts.map_values(|s: String| s@));
            assert(all@.map_values(|s: String| s@) =~= string_views(words@));
            assert(all@.len() == words@.len());
        }
        let pick = rand_below(all.len());
        let correct_word = all[pick].clone();
        let mut columns: Vec<Column> = Vec::new();
        columns.push(left);
        columns.push(right);
        let g = GameState {
            attempts: STARTING_ATTEMPTS,
            columns,
            cursor_position: (0, 0),
            is_playing: true,
            correct_word,
            entries: Vec::new(),
            status: None,
        };
        proof {
            assert(string_views(words@) =~= string_views(words@.subrange(0, half as int))
                + string_views(words@.subrange(half as int, words@.len() as int)));
            assert(all@.map_values(|s: String| s@)[pick as int] == all@[pick as int]@);
            assert(string_views(words@)[pick as int] == words@[pick as int]@);
            assert(g.correct_word@ == words@[pick as int]@);
        }
        Ok(g)
    }
}

/// Law: a guess spends exactly one attempt and appends exactly one
/// entry.  Guessing the password wins the game and logs `Correct`; any
/// other word logs `Incorrect` carrying the positionwise match count
/// against the password.
pub proof fn lemma_guess_outcome(pre: GameState, post: GameState, c: int, j: int)
    requires
        guess_step(pre, post, c, j),
    ensures
        post.entries@.len() == pre.entries@.len() + 1,
        post.attempts == pre.attempts - 1,
        (pre.columns@[c].entities@[j]->Word_word)@ == pre.correct_word@ ==> {
            &&& post.status == Some(GameEnding::Won)
            &&& post.entries@.last() == (Entry::Correct {
                word: pre.columns@[c].entities@[j]->Word_word,
            })
        },
        (pre.columns@[c].entities@[j]->Word_word)@ != pre.correct_word@ ==> {
            &&& post.entries@.last() == (Entry::Incorrect {
                word: pre.columns@[c].entities@[j]->Word_word,
                num_correct: match_count(
                    (pre.columns@[c].entities@[j]->Word_word)@,
                    pre.correct_word@,
                ) as i32,
            })
            &&& post.status == (if pre.attempts == 1 {
                Some(GameEnding::Lost)
            } else {
                Option::<GameEnding>::None
            })
        },
{
}

/// Law: an incorrect guess that exhausts the attempt budget loses the
/// game.
pub proof fn lemma_attempts_exhausted(pre: GameState, post: GameState, c: int, j: int)
    requires
        guess_step(pre, post, c, j),
        (pre.columns@[c].entities@[j]->Word_word)@ != pre.correct_word@,
        pre.attempts == 1,
    ensures
        post.attempts == 0,
        post.status == Some(GameEnding::Lost),
{
}

/// Law: once a terminal outcome is set, an action event changes no state
/// and logs no entry — the state machine is absorbing.
pub proof fn lemma_terminal_absorbing(pre: GameState, post: GameState)
    requires
        pre.status is Some,
        action_taken(pre, post),
    ensures
        post == pre,
{
}

/// Law: a triggered bracket pair is always consumed, and exactly one
/// entry is appended — `AllowanceReplenish` or `DudRemoval`, never both.
/// A replenishment resets the attempt budget to the starting constant; a
/// dud removal keeps the budget and marks exactly one unrevealed,
/// non-password word removed if one remains, else changes nothing beyond
/// the log.
pub proof fn lemma_bonus_outcome(pre: GameState, post: GameState, c: int, j: int)
    requires
        brackets_step(pre, post, c, j),
        pre.columns@[c].entities@[j] is Brackets,
    ensures
        post.entries@.len() == pre.entries@.len() + 1,
        post.entries@.last() == Entry::AllowanceReplenish || post.entries@.last()
            == Entry::DudRemoval,
        post.columns@[c].entities@[j] == with_consumed(pre.columns@[c].entities@[j]),
        post.status == pre.status,
        post.entries@.last() == Entry::AllowanceReplenish ==> post.attempts == STARTING_ATTEMPTS
            && cols_updated(
            pre.columns@,
            post.columns@,
            c,
            j,
            with_consumed(pre.columns@[c].entities@[j]),
        ),
        post.entries@.last() == Entry::DudRemoval ==> post.attempts == pre.attempts && (if no_dud(
            pre.columns@,
            pre.correct_word@,
        ) {
            cols_updated(pre.columns@, post.columns@, c, j, with_consumed(pre.columns@[c].entities@[j]))
        } else {
            exists|c2: int, j2: int|
                #[trigger] first_dud_at(pre.columns@, pre.correct_word@, c2, j2) && cols_updated2(
                    pre.columns@,
                    post.columns@,
                    c,
                    j,
                    with_consumed(pre.columns@[c].entities@[j]),
                    c2,
                    j2,
                    with_removed(pre.columns@[c2].entities@[j2]),
                )
        }),
{
    let e = pre.columns@[c].entities@[j];
    if post.entries@ == pre.entries@.push(Entry::AllowanceReplenish) {
        assert(post.entries@.last() == Entry::AllowanceReplenish);
        assert(post.columns@[c].entities@[j] == with_consumed(e));
    } else {
        assert(post.entries@ == pre.entries@.push(Entry::DudRemoval));
        assert(post.entries@.last() == Entry::DudRemoval);
        if no_dud(pre.columns@, pre.correct_word@) {
            assert(post.columns@[c].entities@[j] == with_consumed(e));
        } else {
            let (c2, j2) = choose|c2: int, j2: int|
                #[trigger] first_dud_at(pre.columns@, pre.correct_word@, c2, j2) && cols_updated2(
                    pre.columns@,
                    post.columns@,
                    c,
                    j,
                    with_consumed(e),
                    c2,
                    j2,
                    with_removed(pre.columns@[c2].entities@[j2]),
                );
            assert(dud_eligible(pre.columns@[c2].entities@[j2], pre.correct_word@));
            assert(!(c2 == c && j2 == j));
            assert(post.columns@[c].entities@[j] == with_consumed(e));
        }
    }
}

/// Law: the entry log is append-only — an action event only ever adds to
/// its end, in chronological order.
pub proof fn lemma_log_append_only(pre: GameState, post: GameState)
    requires
        action_taken(pre, post),
    ensures
        pre.entries@.is_prefix_of(post.entries@),
{
    if post.entries@ != pre.entries@ {
        assert(pre.entries@.is_prefix_of(post.entries@)) by {
            if pre.status is None {
                match cursor_index(pre.cursor_position.0 as int, pre.cursor_position.1 as int) {
                    None => {},
                    Some((c, idx)) => {
                        if exists|j: int| #[trigger] guess_target_at(pre, c as int, j, idx as int) {
                            let j = choose|j: int|
                                #[trigger] guess_target_at(pre, c as int, j, idx as int)
                                    && guess_step(pre, post, c as int, j);
                            assert(pre.entries@.is_prefix_of(post.entries@));
                        } else if exists|j: int|
                            #[trigger] brackets_target_at(pre, c as int, j, idx as int) {
                            let j = choose|j: int|
                                #[trigger] brackets_target_at(pre, c as int, j, idx as int)
                                    && brackets_step(pre, post, c as int, j);
                            assert(pre.entries@.is_prefix_of(post.entries@));
                        }
                    },
                }
            }
        }
    }
}

/// Only the cursor moved, to `(x, y)`.
pub open spec fn moved_to(pre: GameState, post: GameState, x: int, y: int) -> bool {
    &&& post.cursor_position.0 == x
    &&& post.cursor_position.1 == y
    &&& post.attempts == pre.attempts
    &&& post.columns == pre.columns
    &&& post.is_playing == pre.is_playing
    &&& post.correct_word == pre.correct_word
    &&& post.entries == pre.entries
    &&& post.status == pre.status
}

/// Only the play-loop flag was cleared; the outcome is untouched.
pub open spec fn quit_applied(pre: GameState, post: GameState) -> bool {
    &&& !post.is_playing
    &&& post.attempts == pre.attempts
    &&& post.columns == pre.columns
    &&& post.cursor_position == pre.cursor_position
    &&& post.correct_word == pre.correct_word
    &&& post.entries == pre.entries
    &&& post.status == pre.status
}

} // verus!
