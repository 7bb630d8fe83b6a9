//! One half of the puzzle board: a fixed-size character buffer, its
//! cosmetic address labels, and the entities hidden in it.

use vstd::prelude::*;
use vstd::arithmetic::div_mod::lemma_fundamental_div_mod;
use vstd::arithmetic::mul::lemma_mul_inequality;

use crate::consts::{BRACKETS_PER_COLUMN, BRACKET_LENGTH, CHARACTERS_PER_COLUMN};
use crate::entity::{compatible, CursorEntity, GameError};
use crate::rng::{rand_below, sample_distinct};

verus! {

/// The views of a sequence of strings.
pub open spec fn string_views(ws: Seq<String>) -> Seq<Seq<char>> {
    ws.map_values(|s: String| s@)
}

/// Size of the equal contiguous slot reserved for each of `n` words in a
/// column buffer.
pub open spec fn slot_size(n: int) -> int {
    CHARACTERS_PER_COLUMN as int / n
}

/// `e` is a freshly placed copy of the word `w` starting at buffer index
/// `pos`.
pub open spec fn fresh_word_at(e: CursorEntity, w: String, pos: int) -> bool {
    &&& e matches CursorEntity::Word { word, guessed, index, removed }
    &&& word == w
    &&& !guessed
    &&& !removed
    &&& index == pos
}

/// A column buffer with its placed entities.  Created once at game start;
/// only entity flags change afterwards.
pub struct Column {
    /// Cosmetic hexadecimal addresses, one per displayed row.
    pub addresses: Vec<u16>,
    /// The garbage fill the entities are overlaid on.
    pub word_data: Vec<char>,
    /// The entities placed in this buffer.
    pub entities: Vec<CursorEntity>,
}

impl Column {
    /// Column invariant: full buffer, every entity inside it, and no two
    /// entities in conflict (word spans disjoint from every other span;
    /// bracket hot indices pairwise distinct).
    pub open spec fn wf(self) -> bool {
        &&& self.word_data@.len() == CHARACTERS_PER_COLUMN
        &&& forall|i: int|
            0 <= i < self.entities@.len() ==> (#[trigger] self.entities@[i]).in_column()
        &&& forall|i: int, j: int|
            0 <= i < j < self.entities@.len() ==> compatible(
                self.entities@[i],
                self.entities@[j],
            )
    }

    /// The words hidden in a sequence of entities, in placement order.
    pub open spec fn words_of(es: Seq<CursorEntity>) -> Seq<Seq<char>>
        decreases es.len(),
    {
        if es.len() == 0 {
            Seq::empty()
        } else {
            let rest = Self::words_of(es.drop_last());
            match es.last() {
                CursorEntity::Word { word, .. } => rest.push(word@),
                CursorEntity::Brackets { .. } => rest,
            }
        }
    }

    /// The words hidden in this column, in placement order.
    pub fn words(&self) -> (r: Vec<String>)
        ensures
            r@.map_values(|s: String| s@) == Self::words_of(self.entities@),
    {
        let mut r: Vec<String> = Vec::new();
        let mut i: usize = 0;
        while i < self.entities.len()
            invariant
                i <= self.entities@.len(),
                r@.map_values(|s: String| s@) == Self::words_of(self.entities@.take(i as int)),
            decreases self.entities@.len() - i,
        {
            proof {
                assert(self.entities@.take(i + 1).drop_last() =~= self.entities@.take(i as int));
                assert(self.entities@.take(i + 1).last() == self.entities@[i as int]);
            }
            match &self.entities[i] {
                CursorEntity::Word { word, .. } => {
                    let ghost prev = r@;
                    r.push(word.clone());
                    proof {
                        assert(r@.map_values(|s: String| s@) =~= prev.map_values(
                            |s: String| s@,
                        ).push(word@));
                    }
                },
                CursorEntity::Brackets { .. } => {},
            }
            i = i + 1;
        }
        proof {
            assert(self.entities@.take(self.entities@.len() as int) =~= self.entities@);
        }
        r
    }
}

/// Place one word per slot: word `i` starts at `i * slot + offsets[i]`,
/// so that each word lies inside its own slot and the spans of distinct
/// words can never overlap.
pub fn place_words(words: &Vec<String>, word_length: usize, offsets: &Vec<usize>) -> (r: Vec<
    CursorEntity,
>)
    requires
        words@.len() >= 1,
        word_length >= 1,
        offsets@.len() == words@.len(),
        forall|i: int| 0 <= i < words@.len() ==> (#[trigger] words@[i])@.len() == word_length,
        slot_size(words@.len() as int) > word_length,
        forall|i: int|
            0 <= i < offsets@.len() ==> (#[trigger] offsets@[i]) + word_length < slot_size(
                words@.len() as int,
            ),
    ensures
        r@.len() == words@.len(),
        forall|i: int|
            0 <= i < r@.len() ==> fresh_word_at(
                #[trigger] r@[i],
                words@[i],
                i * slot_size(words@.len() as int) + offsets@[i],
            ),
{
    let n = words.len();
    let slot = CHARACTERS_PER_COLUMN / n;
    proof {
        lemma_fundamental_div_mod(CHARACTERS_PER_COLUMN as int, n as int);
    }
    let mut r: Vec<CursorEntity> = Vec::new();
    let mut i: usize = 0;
    while i < n
        invariant
            n == words@.len(),
            n >= 1,
            slot == slot_size(n as int),
            slot * n <= CHARACTERS_PER_COLUMN,
            word_length < slot,
            offsets@.len() == n,
            forall|k: int| 0 <= k < n ==> (#[trigger] offsets@[k]) + word_length < slot,
            i <= n,
            r@.len() == i,
            forall|k: int|
                0 <= k < i as int ==> fresh_word_at(
                    #[trigger] r@[k],
                    words@[k],
                    k * slot as int + offsets@[k],
                ),
        decreases n - i,
    {
        proof {
            lemma_mul_inequality(i as int + 1, n as int, slot as int);
            assert((i as int + 1) * slot as int == i as int * slot as int + slot as int)
                by (nonlinear_arith);
            assert(i as int * slot as int >= 0) by (nonlinear_arith)
                requires i as int >= 0 && slot as int >= 0;
        }
        let start = i * slot + offsets[i];
        r.push(CursorEntity::Word { word: words[i].clone(), guessed: false, index: start, removed: false });
        i = i + 1;
    }
    r
}

/// Every word placed by [`place_words`] stays inside its own slot, so the
/// resulting entities are pairwise compatible and inside the buffer.
pub proof fn lemma_placed_words_wf(
    es: Seq<CursorEntity>,
    ws: Seq<String>,
    word_length: int,
    offs: Seq<usize>,
)
    requires
        ws.len() >= 1,
        word_length >= 1,
        es.len() == ws.len(),
        offs.len() == es.len(),
        forall|i: int| 0 <= i < ws.len() ==> (#[trigger] ws[i])@.len() == word_length,
        slot_size(ws.len() as int) > word_length,
        forall|i: int| 0 <= i < offs.len() ==> (#[trigger] offs[i]) + word_length < slot_size(ws.len() as int),
        forall|i: int|
            0 <= i < es.len() ==> fresh_word_at(
                #[trigger] es[i],
                ws[i],
                i * slot_size(ws.len() as int) + offs[i],
            ),
    ensures
        forall|i: int| 0 <= i < es.len() ==> (#[trigger] es[i]).in_column(),
        forall|i: int, j: int| 0 <= i < j < es.len() ==> compatible(es[i], es[j]),
        forall|i: int|
            0 <= i < es.len() ==> i * slot_size(ws.len() as int) <= (#[trigger] es[i]).start()
                && es[i].end() <= (i + 1) * slot_size(ws.len() as int),
{
    let n = ws.len() as int;
    let slot = slot_size(n);
    lemma_fundamental_div_mod(CHARACTERS_PER_COLUMN as int, n);
    assert forall|i: int| 0 <= i < es.len() implies i * slot <= (#[trigger] es[i]).start()
        && es[i].end() <= (i + 1) * slot by {
        assert(es[i].start() == i * slot + offs[i]);
        assert(es[i].end() == i * slot + offs[i] + word_length);
        assert((i + 1) * slot == i * slot + slot) by (nonlinear_arith);
    }
    assert forall|i: int| 0 <= i < es.len() implies (#[trigger] es[i]).in_column() by {
        lemma_mul_inequality(i + 1, n, slot);
        assert(n * slot == slot * n) by (nonlinear_arith);
    }
    assert forall|i: int, j: int| 0 <= i < j < es.len() implies compatible(es[i], es[j]) by {
        lemma_mul_inequality(i + 1, j, slot);
    }
}

/// Buffer index `idx` may start a bracket pair: the whole span fits in
/// the buffer and keeps clear of every word span.
pub open spec fn bracket_fits(idx: int, words: Seq<CursorEntity>) -> bool {
    &&& idx + BRACKET_LENGTH <= CHARACTERS_PER_COLUMN
    &&& forall|k: int|
        0 <= k < words.len() ==> idx + BRACKET_LENGTH < (#[trigger] words[k]).start() || idx
            > words[k].end()
}

/// Eligibility test for one candidate bracket start.
fn bracket_start_fits(idx: usize, words: &Vec<CursorEntity>) -> (r: bool)
    requires
        idx <= CHARACTERS_PER_COLUMN,
        forall|k: int| 0 <= k < words@.len() ==> (#[trigger] words@[k]).in_column(),
    ensures
        r == bracket_fits(idx as int, words@),
{
    if CHARACTERS_PER_COLUMN - idx < BRACKET_LENGTH {
        return false;
    }
    let mut k: usize = 0;
    while k < words.len()
        invariant
            idx + BRACKET_LENGTH <= CHARACTERS_PER_COLUMN,
            forall|k2: int| 0 <= k2 < words@.len() ==> (#[trigger] words@[k2]).in_column(),
            k <= words@.len(),
            forall|k2: int|
                0 <= k2 < k as int ==> idx + BRACKET_LENGTH < (#[trigger] words@[k2]).start()
                    || idx > words@[k2].end(),
        decreases words@.len() - k,
    {
        let (s, e) = words[k].indices();
        if !(idx + BRACKET_LENGTH < s || idx > e) {
            return false;
        }
        k = k + 1;
    }
    true
}

/// All buffer indices eligible to start a bracket pair, in increasing
/// order: exactly those below `CHARACTERS_PER_COLUMN` that satisfy
/// [`bracket_fits`].
pub fn eligible_starts(words: &Vec<CursorEntity>) -> (r: Vec<usize>)
    requires
        forall|k: int| 0 <= k < words@.len() ==> (#[trigger] words@[k]).in_column(),
    ensures
        forall|a: int, b: int| 0 <= a < b < r@.len() ==> r@[a] < r@[b],
        forall|a: int| 0 <= a < r@.len() ==> bracket_fits((#[trigger] r@[a]) as int, words@),
        forall|i: int|
            0 <= i < CHARACTERS_PER_COLUMN && #[trigger] bracket_fits(i, words@) ==> r@.contains(
                i as usize,
            ),
{
    let mut r: Vec<usize> = Vec::new();
    let mut idx: usize = 0;
    while idx < CHARACTERS_PER_COLUMN
        invariant
            forall|k: int| 0 <= k < words@.len() ==> (#[trigger] words@[k]).in_column(),
            idx <= CHARACTERS_PER_COLUMN,
            forall|a: int, b: int| 0 <= a < b < r@.len() ==> r@[a] < r@[b],
            forall|a: int| 0 <= a < r@.len() ==> (#[trigger] r@[a]) < idx,
            forall|a: int| 0 <= a < r@.len() ==> bracket_fits((#[trigger] r@[a]) as int, words@),
            forall|i: int|
                0 <= i < idx as int && #[trigger] bracket_fits(i, words@) ==> r@.contains(
                    i as usize,
                ),
        decreases CHARACTERS_PER_COLUMN - idx,
    {
        if bracket_start_fits(idx, words) {
            let ghost prev = r@;
            r.push(idx);
            proof {
                assert(r@[r@.len() - 1] == idx);
                assert forall|i: int|
                    0 <= i < idx as int + 1 && #[trigger] bracket_fits(i, words@) implies r@.contains(
                    i as usize,
                ) by {
                    if i < idx as int {
                        assert(prev.contains(i as usize));
                        let a = choose|a: int| 0 <= a < prev.len() && prev[a] == i as usize;
                        assert(r@[a] == i as usize);
                    } else {
                        assert(r@[r@.len() - 1] == i as usize);
                    }
                }
            }
        }
        idx = idx + 1;
    }
    r
}

/// The fixed palette of bracket-character pairs.
pub open spec fn bracket_pair_of(k: int) -> (char, char) {
    if k == 0 {
        ('<', '>')
    } else if k == 1 {
        ('[', ']')
    } else if k == 2 {
        ('{', '}')
    } else {
        ('(', ')')
    }
}

/// Pick one of the four bracket-character pairs.
fn bracket_pair(k: usize) -> (r: (char, char))
    requires
        k < 4,
    ensures
        r == bracket_pair_of(k as int),
{
    if k == 0 {
        ('<', '>')
    } else if k == 1 {
        ('[', ']')
    } else if k == 2 {
        ('{', '}')
    } else {
        ('(', ')')
    }
}

/// `e` is a fresh bracket pair with characters `pr` starting at `pos`.
pub open spec fn fresh_brackets_at(e: CursorEntity, pr: (char, char), pos: int) -> bool {
    &&& e matches CursorEntity::Brackets { pair, consumed, index }
    &&& pair == pr
    &&& !consumed
    &&& index == pos
}

/// Build one fresh bracket-pair entity per start index, with the chosen
/// palette entry.
pub fn make_brackets(starts: &Vec<usize>, kinds: &Vec<usize>) -> (r: Vec<CursorEntity>)
    requires
        starts@.len() == kinds@.len(),
        forall|k: int| 0 <= k < kinds@.len() ==> (#[trigger] kinds@[k]) < 4,
    ensures
        r@.len() == starts@.len(),
        forall|k: int|
            0 <= k < r@.len() ==> fresh_brackets_at(
                #[trigger] r@[k],
                bracket_pair_of(kinds@[k] as int),
                starts@[k] as int,
            ),
{
    let mut r: Vec<CursorEntity> = Vec::new();
    let mut k: usize = 0;
    while k < starts.len()
        invariant
            starts@.len() == kinds@.len(),
            forall|k2: int| 0 <= k2 < kinds@.len() ==> (#[trigger] kinds@[k2]) < 4,
            k <= starts@.len(),
            r@.len() == k,
            forall|k2: int|
                0 <= k2 < k as int ==> fresh_brackets_at(
                    #[trigger] r@[k2],
                    bracket_pair_of(kinds@[k2] as int),
                    starts@[k2] as int,
                ),
        decreases starts@.len() - k,
    {
        let pair = bracket_pair(kinds[k]);
        r.push(CursorEntity::Brackets { pair, consumed: false, index: starts[k] });
        k = k + 1;
    }
    r
}

/// The fixed punctuation palette the garbage fill is drawn from.
pub open spec fn garbage_char_of(k: int) -> char {
    if k == 0 { ',' } else if k == 1 { '|' } else if k == 2 { '\\' } else if k == 3 { '!' }
    else if k == 4 { '@' } else if k == 5 { '#' } else if k == 6 { '$' } else if k == 7 { '%' }
    else if k == 8 { '^' } else if k == 9 { '&' } else if k == 10 { '*' } else if k == 11 { '-' }
    else if k == 12 { '_' } else if k == 13 { '+' } else if k == 14 { '=' } else if k == 15 { '.' }
    else if k == 16 { ':' } else if k == 17 { ';' } else if k == 18 { '?' } else { '/' }
}

/// `c` comes from the garbage palette.
pub open spec fn is_garbage(c: char) -> bool {
    exists|k: int| 0 <= k < 20 && c == #[trigger] garbage_char_of(k)
}

/// One character of the garbage palette.
fn garbage_char(k: usize) -> (c: char)
    requires
        k < 20,
    ensures
        c == garbage_char_of(k as int),
{
    if k == 0 { ',' } else if k == 1 { '|' } else if k == 2 { '\\' } else if k == 3 { '!' }
    else if k == 4 { '@' } else if k == 5 { '#' } else if k == 6 { '$' } else if k == 7 { '%' }
    else if k == 8 { '^' } else if k == 9 { '&' } else if k == 10 { '*' } else if k == 11 { '-' }
    else if k == 12 { '_' } else if k == 13 { '+' } else if k == 14 { '=' } else if k == 15 { '.' }
    else if k == 16 { ':' } else if k == 17 { ';' } else if k == 18 { '?' } else { '/' }
}

/// A full buffer of random punctuation: the garbage every index holds
/// before the entities are overlaid on it.
pub fn generate_characters() -> (r: Vec<char>)
    ensures
        r@.len() == CHARACTERS_PER_COLUMN,
        forall|i: int| 0 <= i < r@.len() ==> is_garbage(#[trigger] r@[i]),
{
    let mut r: Vec<char> = Vec::new();
    let mut i: usize = 0;
    while i < CHARACTERS_PER_COLUMN
        invariant
            i <= CHARACTERS_PER_COLUMN,
            r@.len() == i,
            forall|k: int| 0 <= k < r@.len() ==> is_garbage(#[trigger] r@[k]),
        decreases CHARACTERS_PER_COLUMN - i,
    {
        let pick = rand_below(20);
        let c = garbage_char(pick);
        proof {
            assert(c == garbage_char_of(pick as int));
        }
        r.push(c);
        i = i + 1;
    }
    r
}

/// [`Column::words_of`] distributes over concatenation.
proof fn lemma_words_of_concat(a: Seq<CursorEntity>, b: Seq<CursorEntity>)
    ensures
        Column::words_of(a + b) == Column::words_of(a) + Column::words_of(b),
    decreases b.len(),
{
    if b.len() == 0 {
        assert(a + b =~= a);
        assert(Column::words_of(a) + Column::words_of(b) =~= Column::words_of(a));
    } else {
        lemma_words_of_concat(a, b.drop_last());
        assert((a + b).drop_last() =~= a + b.drop_last());
        assert((a + b).last() == b.last());
        match b.last() {
            CursorEntity::Word { word, .. } => {
                assert(Column::words_of(a) + Column::words_of(b) =~= (Column::words_of(a)
                    + Column::words_of(b.drop_last())).push(word@));
            },
            CursorEntity::Brackets { .. } => {},
        }
    }
}

/// A sequence of bracket pairs hides no words.
proof fn lemma_words_of_all_brackets(bs: Seq<CursorEntity>)
    requires
        forall|j: int| 0 <= j < bs.len() ==> (#[trigger] bs[j]) is Brackets,
    ensures
        Column::words_of(bs) == Seq::<Seq<char>>::empty(),
    decreases bs.len(),
{
    if bs.len() > 0 {
        lemma_words_of_all_brackets(bs.drop_last());
    }
}

/// A sequence of word entities hides exactly its words, in order.
proof fn lemma_words_of_all_words(es: Seq<CursorEntity>, ws: Seq<String>)
    requires
        es.len() == ws.len(),
        forall|i: int|
            0 <= i < es.len() ==> (#[trigger] es[i]) is Word && es[i]->Word_word == ws[i],
    ensures
        Column::words_of(es) == string_views(ws),
    decreases es.len(),
{
    if es.len() == 0 {
        assert(string_views(ws) =~= Seq::<Seq<char>>::empty());
    } else {
        lemma_words_of_all_words(es.drop_last(), ws.drop_last());
        assert(string_views(ws.drop_last()) =~= string_views(ws).drop_last());
        assert(es.last()->Word_word == ws.last());
        assert(string_views(ws) =~= string_views(ws).drop_last().push(ws.last()@));
    }
}

impl Column {
    /// Build one column: place one word per slot at a random offset, fill
    /// the buffer with random garbage, and hide `BRACKETS_PER_COLUMN`
    /// bracket pairs at distinct eligible indices.
    ///
    /// Fails with `InsufficientSpace` when a word cannot fit in its slot,
    /// or when fewer eligible bracket starts than bracket pairs remain
    /// after the words were placed.
    pub fn new(addresses: Vec<u16>, words: &Vec<String>, word_length: usize) -> (r: Result<
        Column,
        GameError,
    >)
        requires
            words@.len() >= 1,
            word_length >= 1,
            forall|i: int| 0 <= i < words@.len() ==> (#[trigger] words@[i])@.len() == word_length,
        ensures
            (match r {
                Ok(c) => {
                    &&& c.wf()
                    &&& c.addresses == addresses
                    &&& forall|i: int|
                        0 <= i < c.word_data@.len() ==> is_garbage(#[trigger] c.word_data@[i])
                    &&& Self::words_of(c.entities@) == string_views(words@)
                    &&& c.entities@.len() == BRACKETS_PER_COLUMN + words@.len()
                    &&& forall|j: int|
                        0 <= j < c.entities@.len() ==> (#[trigger] c.entities@[j]).fresh()
                    &&& forall|j: int|
                        0 <= j < BRACKETS_PER_COLUMN ==> (#[trigger] c.entities@[j]) is Brackets
                    &&& forall|i: int|
                        0 <= i < words@.len() ==> (#[trigger] c.entities@[BRACKETS_PER_COLUMN + i])
                            is Word && c.entities@[BRACKETS_PER_COLUMN + i]->Word_word == words@[i]
                            && i * slot_size(words@.len() as int) <= c.entities@[BRACKETS_PER_COLUMN
                            + i].start() && c.entities@[BRACKETS_PER_COLUMN + i].end() <= (i + 1)
                            * slot_size(words@.len() as int)
                },
                Err(e) => e == GameError::InsufficientSpace,
            }),
            slot_size(words@.len() as int) <= word_length ==> r is Err,
    {
        let n = words.len();
        let slot = CHARACTERS_PER_COLUMN / n;
        if slot <= word_length {
            return Err(GameError::InsufficientSpace);
        }
        let mut offsets: Vec<usize> = Vec::new();
        let mut i: usize = 0;
        while i < n
            invariant
                word_length < slot,
                i <= n,
                offsets@.len() == i,
                forall|k: int| 0 <= k < i as int ==> (#[trigger] offsets@[k]) + word_length < slot,
            decreases n - i,
        {
            offsets.push(rand_below(slot - word_length));
            i = i + 1;
        }
        let word_entities = place_words(words, word_length, &offsets);
        proof {
            lemma_placed_words_wf(word_entities@, words@, word_length as int, offsets@);
        }
        let eligible = eligible_starts(&word_entities);
        if eligible.len() < BRACKETS_PER_COLUMN {
            return Err(GameError::InsufficientSpace);
        }
        let picks = sample_distinct(eligible.len(), BRACKETS_PER_COLUMN);
        let mut starts: Vec<usize> = Vec::new();
        let mut kinds: Vec<usize> = Vec::new();
        let mut k: usize = 0;
        while k < BRACKETS_PER_COLUMN
            invariant
                picks@.len() == BRACKETS_PER_COLUMN,
                forall|a: int| 0 <= a < picks@.len() ==> (#[trigger] picks@[a]) < eligible@.len(),
                forall|a: int, b: int| 0 <= a < b < picks@.len() ==> picks@[a] != picks@[b],
                forall|a: int, b: int| 0 <= a < b < eligible@.len() ==> eligible@[a] < eligible@[b],
                forall|a: int|
                    0 <= a < eligible@.len() ==> bracket_fits(
                        (#[trigger] eligible@[a]) as int,
                        word_entities@,
                    ),
                k <= BRACKETS_PER_COLUMN,
                starts@.len() == k,
                kinds@.len() == k,
                forall|a: int|
                    0 <= a < k as int ==> (#[trigger] starts@[a]) == eligible@[picks@[a] as int],
                forall|a: int| 0 <= a < k as int ==> (#[trigger] kinds@[a]) < 4,
            decreases BRACKETS_PER_COLUMN - k,
        {
            starts.push(eligible[picks[k]]);
            kinds.push(rand_below(4));
            k = k + 1;
        }
        proof {
            assert forall|a: int, b: int| 0 <= a < b < starts@.len() implies starts@[a]
                != starts@[b] by {
                if picks@[a] < picks@[b] {
                    assert(eligible@[picks@[a] as int] < eligible@[picks@[b] as int]);
                } else {
                    assert(picks@[b] < picks@[a]);
                    assert(eligible@[picks@[b] as int] < eligible@[picks@[a] as int]);
                }
            }
        }
        let brackets = make_brackets(&starts, &kinds);
        let mut entities = brackets;
        let ghost bs = entities@;
        let mut word_part = word_entities;
        let ghost wes = word_part@;
        entities.append(&mut word_part);
        let data = generate_characters();
        let col = Column { addresses, word_data: data, entities };
        proof {
            let es = col.entities@;
            assert(es == bs + wes);
            assert(bs.len() == BRACKETS_PER_COLUMN);
            // every entity stays inside the buffer
            assert forall|j: int| 0 <= j < es.len() implies (#[trigger] es[j]).in_column() by {
                if j < bs.len() {
                    assert(fresh_brackets_at(bs[j], bracket_pair_of(kinds@[j] as int), starts@[j] as int));
                    assert(bracket_fits(starts@[j] as int, wes));
                } else {
                    assert(wes[j - bs.len()].in_column());
                }
            }
            // entities are pairwise compatible
            assert forall|a: int, b: int| 0 <= a < b < es.len() implies compatible(
                es[a],
                es[b],
            ) by {
                if b < bs.len() {
                    assert(es[a].start() == starts@[a] as int);
                    assert(es[b].start() == starts@[b] as int);
                } else if a < bs.len() {
                    let w = wes[b - bs.len()];
                    assert(bracket_fits(starts@[a] as int, wes));
                    assert(starts@[a] + BRACKET_LENGTH < w.start() || starts@[a] > w.end());
                } else {
                    assert(compatible(wes[a - bs.len()], wes[b - bs.len()]));
                }
            }
            // the hidden words are exactly the input words, in order
            assert forall|i2: int| 0 <= i2 < wes.len() implies (#[trigger] wes[i2]) is Word
                && wes[i2]->Word_word == words@[i2] by {
                assert(fresh_word_at(
                    wes[i2],
                    words@[i2],
                    i2 * slot_size(words@.len() as int) + offsets@[i2],
                ));
            }
            lemma_words_of_concat(bs, wes);
            lemma_words_of_all_brackets(bs);
            lemma_words_of_all_words(wes, words@);
            assert(Self::words_of(es) =~= string_views(words@));
        }
        Ok(col)
    }
}

/// In a well-formed column at most one entity resolves at any buffer
/// index: word spans are disjoint from every other span, and two bracket
/// pairs never share their hot index.
pub proof fn lemma_unique_resolver(c: Column, idx: int, i: int, j: int)
    requires
        c.wf(),
        0 <= i < c.entities@.len(),
        0 <= j < c.entities@.len(),
        c.entities@[i].resolves_at(idx),
        c.entities@[j].resolves_at(idx),
    ensures
        i == j,
{
    if i != j {
        let a = c.entities@[i];
        let b = c.entities@[j];
        assert(compatible(a, b) || compatible(b, a));
        assert(a.start() <= idx < a.end() || idx == a.start());
        assert(b.start() <= idx < b.end() || idx == b.start());
    }
}

/// Two distinct entities of a well-formed column have disjoint spans
/// whenever at least one of them is a word.
pub proof fn lemma_word_spans_disjoint(c: Column, i: int, j: int)
    requires
        c.wf(),
        0 <= i < c.entities@.len(),
        0 <= j < c.entities@.len(),
        i != j,
        c.entities@[i] is Word || c.entities@[j] is Word,
    ensures
        c.entities@[i].end() <= c.entities@[j].start() || c.entities@[j].end()
            <= c.entities@[i].start(),
{
    if i < j {
        assert(compatible(c.entities@[i], c.entities@[j]));
    } else {
        assert(compatible(c.entities@[j], c.entities@[i]));
    }
}


/// Uppercase form of a lowercase ASCII letter; any other character is
/// returned unchanged.
pub open spec fn upper_char(c: char) -> char {
    if c == 'a' { 'A' } else if c == 'b' { 'B' } else if c == 'c' { 'C' } else if c == 'd' { 'D' } else if c == 'e' { 'E' } else if c == 'f' { 'F' } else if c == 'g' { 'G' } else if c == 'h' { 'H' } else if c == 'i' { 'I' } else if c == 'j' { 'J' } else if c == 'k' { 'K' } else if c == 'l' { 'L' } else if c == 'm' { 'M' } else if c == 'n' { 'N' } else if c == 'o' { 'O' } else if c == 'p' { 'P' } else if c == 'q' { 'Q' } else if c == 'r' { 'R' } else if c == 's' { 'S' } else if c == 't' { 'T' } else if c == 'u' { 'U' } else if c == 'v' { 'V' } else if c == 'w' { 'W' } else if c == 'x' { 'X' } else if c == 'y' { 'Y' } else if c == 'z' { 'Z' } else { c }
}

/// Uppercase a single character, as the display overlay does for words.
fn to_upper(c: char) -> (r: char)
    ensures
        r == upper_char(c),
{
    if c == 'a' { 'A' } else if c == 'b' { 'B' } else if c == 'c' { 'C' } else if c == 'd' { 'D' } else if c == 'e' { 'E' } else if c == 'f' { 'F' } else if c == 'g' { 'G' } else if c == 'h' { 'H' } else if c == 'i' { 'I' } else if c == 'j' { 'J' } else if c == 'k' { 'K' } else if c == 'l' { 'L' } else if c == 'm' { 'M' } else if c == 'n' { 'N' } else if c == 'o' { 'O' } else if c == 'p' { 'P' } else if c == 'q' { 'Q' } else if c == 'r' { 'R' } else if c == 's' { 'S' } else if c == 't' { 'T' } else if c == 'u' { 'U' } else if c == 'v' { 'V' } else if c == 'w' { 'W' } else if c == 'x' { 'X' } else if c == 'y' { 'Y' } else if c == 'z' { 'Z' } else { c }
}

/// One entity overlaid on display data: an unrevealed word shows its
/// uppercase characters, a revealed one dots; an unconsumed bracket pair
/// shows its two characters at the ends of its span, a consumed one dots
/// the whole span.
pub open spec fn apply_entity(data: Seq<char>, e: CursorEntity) -> Seq<char> {
    match e {
        CursorEntity::Word { word, guessed, index, removed } => Seq::new(
            data.len(),
            |i: int|
                if index <= i < index + word@.len() {
                    if !guessed && !removed {
                        upper_char(word@[i - index])
                    } else {
                        '.'
                    }
                } else {
                    data[i]
                },
        ),
        CursorEntity::Brackets { pair, consumed, index } => Seq::new(
            data.len(),
            |i: int|
                if !consumed {
                    if i == index {
                        pair.0
                    } else if i == index + BRACKET_LENGTH - 1 {
                        pair.1
                    } else {
                        data[i]
                    }
                } else {
                    if index <= i < index + BRACKET_LENGTH {
                        '.'
                    } else {
                        data[i]
                    }
                },
        ),
    }
}

/// All entities overlaid on the garbage fill, front to back.
pub open spec fn overlay(data: Seq<char>, es: Seq<CursorEntity>) -> Seq<char>
    decreases es.len(),
{
    if es.len() == 0 {
        data
    } else {
        apply_entity(overlay(data, es.drop_last()), es.last())
    }
}

/// Relies on std's FromIterator for String: collecting characters yields
/// the string of exactly those characters, in order.
#[verifier::external_body]
fn chars_to_string(v: &Vec<char>) -> (s: String)
    ensures
        s@ == v@,
{
    v.iter().collect()
}

impl Column {
    /// The text this column displays: the garbage fill with every entity
    /// overlaid on it.
    pub fn render_word_data(&self) -> (r: String)
        requires
            self.wf(),
        ensures
            r@ == overlay(self.word_data@, self.entities@),
    {
        let ghost base = self.word_data@;
        let mut data: Vec<char> = Vec::new();
        let mut i: usize = 0;
        while i < self.word_data.len()
            invariant
                base == self.word_data@,
                i <= base.len(),
                data@ == base.take(i as int),
            decreases self.word_data@.len() - i,
        {
            data.push(self.word_data[i]);
            i = i + 1;
        }
        proof {
            assert(data@ =~= base);
        }
        let mut k: usize = 0;
        while k < self.entities.len()
            invariant
                self.wf(),
                base == self.word_data@,
                k <= self.entities@.len(),
                data@ == overlay(base, self.entities@.take(k as int)),
                data@.len() == CHARACTERS_PER_COLUMN,
            decreases self.entities@.len() - k,
        {
            let ghost prev = data@;
            proof {
                assert(self.entities@.take(k + 1).drop_last() =~= self.entities@.take(k as int));
                assert(self.entities@.take(k + 1).last() == self.entities@[k as int]);
                assert(self.entities@[k as int].in_column());
            }
            let ghost e = self.entities@[k as int];
            match &self.entities[k] {
                CursorEntity::Word { word, guessed, index, removed } => {
                    let show = !*guessed && !*removed;
                    let idx0 = *index;
                    let wl = word.as_str().unicode_len();
                    let mut p: usize = 0;
                    while p < wl
                        invariant
                            prev.len() == CHARACTERS_PER_COLUMN,
                            e == self.entities@[k as int],
                            0 <= k < self.entities@.len(),
                            e matches CursorEntity::Word { word: ew, guessed: eg, index: ei, removed: er }
                                && ew@ == word@ && eg == *guessed && ei == idx0 && er == *removed,
                            show == (!*guessed && !*removed),
                            wl == word@.len(),
                            idx0 + wl <= CHARACTERS_PER_COLUMN,
                            p <= wl,
                            data@.len() == prev.len(),
                            forall|t: int|
                                0 <= t < prev.len() && !(idx0 <= t < idx0 + p as int) ==> data@[t]
                                    == prev[t],
                            forall|t: int|
                                idx0 <= t < idx0 + p as int ==> data@[t] == (if show {
                                    upper_char(word@[t - idx0])
                                } else {
                                    '.'
                                }),
                        decreases wl - p,
                    {
                        let ch = if show {
                            to_upper(word.as_str().get_char(p))
                        } else {
                            '.'
                        };
                        data[idx0 + p] = ch;
                        p = p + 1;
                    }
                    proof {
                        assert(data@ =~= apply_entity(prev, e));
                    }
                },
                CursorEntity::Brackets { pair, consumed, index } => {
                    let idx0 = *index;
                    if !*consumed {
                        data[idx0] = pair.0;
                        data[idx0 + BRACKET_LENGTH - 1] = pair.1;
                        proof {
                            assert(data@ =~= apply_entity(prev, e));
                        }
                    } else {
                        let mut p: usize = 0;
                        while p < BRACKET_LENGTH
                            invariant
                                prev.len() == CHARACTERS_PER_COLUMN,
                                e == self.entities@[k as int],
                                0 <= k < self.entities@.len(),
                                e matches CursorEntity::Brackets { consumed: ec, index: ei, .. }
                                    && ec && ei == idx0,
                                idx0 + BRACKET_LENGTH <= CHARACTERS_PER_COLUMN,
                                p <= BRACKET_LENGTH,
                                data@.len() == prev.len(),
                                forall|t: int|
                                    0 <= t < prev.len() && !(idx0 <= t < idx0 + p as int) ==> data@[t]
                                        == prev[t],
                                forall|t: int| idx0 <= t < idx0 + p as int ==> data@[t] == '.',
                            decreases BRACKET_LENGTH - p,
                        {
                            data[idx0 + p] = '.';
                            p = p + 1;
                        }
                        proof {
                            assert(data@ =~= apply_entity(prev, e));
                        }
                    }
                },
            }
            k = k + 1;
        }
        proof {
            assert(self.entities@.take(self.entities@.len() as int) =~= self.entities@);
        }
        chars_to_string(&data)
    }
}

} // verus!
