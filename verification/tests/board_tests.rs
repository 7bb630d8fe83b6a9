use robco_term::column::{eligible_starts, make_brackets, place_words, Column};
use robco_term::consts::{
    BRACKETS_PER_COLUMN, BRACKET_LENGTH, CHARACTERS_PER_COLUMN, COLUMN_END_ROW, COLUMN_START_ROW,
    LEFT_COLUMN_START, RIGHT_COLUMN_START, STARTING_ATTEMPTS, WORD_COLUMN_WIDTH,
};
use robco_term::entity::{CursorEntity, Entry, GameError};
use robco_term::game::{count_matching, GameState};

fn span(e: &CursorEntity) -> (usize, usize) {
    e.indices()
}

fn six_words() -> Vec<String> {
    ["apple", "mango", "chair", "grape", "sugar", "flame"]
        .iter()
        .map(|w| w.to_string())
        .collect()
}

#[test]
fn placed_words_sit_in_disjoint_slots() {
    let words = six_words();
    let offsets: Vec<usize> = vec![0, 3, 11, 26, 7, 19];
    let placed = place_words(&words, 5, &offsets);
    assert_eq!(placed.len(), 6);
    // slot size is 192 / 6 = 32; word i starts at 32 * i + offset
    for (i, e) in placed.iter().enumerate() {
        match e {
            CursorEntity::Word { word, guessed, index, removed } => {
                assert_eq!(word, &words[i]);
                assert!(!guessed && !removed);
                assert_eq!(*index, 32 * i + offsets[i]);
            }
            _ => panic!("expected a word"),
        }
    }
    for i in 0..placed.len() {
        for j in 0..placed.len() {
            if i != j {
                let (s1, e1) = span(&placed[i]);
                let (s2, e2) = span(&placed[j]);
                assert!(e1 <= s2 || e2 <= s1, "spans overlap");
            }
        }
    }
}

#[test]
fn eligible_bracket_starts_keep_clear_of_words() {
    let words = six_words();
    let offsets: Vec<usize> = vec![0, 0, 0, 0, 0, 0];
    let placed = place_words(&words, 5, &offsets);
    let starts = eligible_starts(&placed);
    for &s in starts.iter() {
        assert!(s + BRACKET_LENGTH <= CHARACTERS_PER_COLUMN);
        for e in placed.iter() {
            let (ws, we) = span(e);
            assert!(s + BRACKET_LENGTH < ws || s > we);
        }
    }
    // index 6 keeps clear of every word (first word ends at 5, next
    // starts at 32) and 6 + 8 < 32, so it must be offered
    assert!(starts.contains(&6));
    // index 0 lies inside the first word's span, so it must not be
    assert!(!starts.contains(&0));
}

#[test]
fn make_brackets_builds_fresh_pairs_at_the_given_starts() {
    let built = make_brackets(&vec![10, 40], &vec![1, 3]);
    assert_eq!(built.len(), 2);
    match &built[0] {
        CursorEntity::Brackets { pair, consumed, index } => {
            assert_eq!(*pair, ('[', ']'));
            assert!(!consumed);
            assert_eq!(*index, 10);
        }
        _ => panic!("expected brackets"),
    }
    match &built[1] {
        CursorEntity::Brackets { pair, consumed, index } => {
            assert_eq!(*pair, ('(', ')'));
            assert!(!consumed);
            assert_eq!(*index, 40);
        }
        _ => panic!("expected brackets"),
    }
}

#[test]
fn column_new_places_exactly_the_given_words() {
    let words = six_words();
    let addresses: Vec<u16> = (0..16u16).map(|i| 0xF000 + i * 0xC).collect();
    let col = Column::new(addresses.clone(), &words, 5).expect("placement must fit");
    assert_eq!(col.addresses, addresses);
    assert_eq!(col.word_data.len(), CHARACTERS_PER_COLUMN);
    assert_eq!(col.words(), words);
    let mut bracket_count = 0;
    for e in col.entities.iter() {
        if let CursorEntity::Brackets { .. } = e {
            bracket_count += 1;
        }
    }
    assert_eq!(bracket_count, BRACKETS_PER_COLUMN);
    // all spans that involve a word are pairwise disjoint
    for i in 0..col.entities.len() {
        for j in 0..col.entities.len() {
            if i == j {
                continue;
            }
            let both_brackets = matches!(col.entities[i], CursorEntity::Brackets { .. })
                && matches!(col.entities[j], CursorEntity::Brackets { .. });
            if !both_brackets {
                let (s1, e1) = span(&col.entities[i]);
                let (s2, e2) = span(&col.entities[j]);
                assert!(e1 <= s2 || e2 <= s1, "spans overlap");
            }
        }
    }
}

#[test]
fn column_new_rejects_words_that_cannot_fit_their_slot() {
    let words = vec!["a".repeat(96), "b".repeat(96)];
    let addresses: Vec<u16> = (0..16u16).map(|i| 0xF000 + i * 0xC).collect();
    // slot size is 192 / 2 = 96, which cannot hold a word of length 96
    match Column::new(addresses, &words, 96) {
        Err(GameError::InsufficientSpace) => {}
        _ => panic!("expected InsufficientSpace"),
    }
}

#[test]
fn game_new_builds_a_fresh_session() {
    let words: Vec<String> = [
        "apple", "mango", "chair", "grape", "sugar", "flame", "bread", "cloud", "dream", "eagle",
        "frost", "ghost",
    ]
    .iter()
    .map(|w| w.to_string())
    .collect();
    let g = GameState::new(5, words.clone()).expect("construction must fit");
    assert_eq!(g.attempts, STARTING_ATTEMPTS);
    assert_eq!(g.cursor_position, (0, 0));
    assert!(g.is_playing);
    assert!(g.entries.is_empty());
    assert!(g.status.is_none());
    assert_eq!(g.columns.len(), 2);
    assert!(words.contains(&g.correct_word));
    let mut placed: Vec<String> = g.columns[0].words();
    placed.extend(g.columns[1].words());
    assert_eq!(placed, words);
    // the cosmetic address ladder climbs by a fixed stride across both columns
    let base = g.columns[0].addresses[0];
    assert!((0xF000..0xF900).contains(&base));
    for c in 0..2 {
        assert_eq!(g.columns[c].addresses.len(), 16);
        for r in 0..16 {
            assert_eq!(g.columns[c].addresses[r], base + ((c * 16 + r) as u16) * 0xC);
        }
    }
}

#[test]
fn game_new_rejects_an_impossible_difficulty() {
    let words = vec!["a".repeat(192), "b".repeat(192)];
    match GameState::new(192, words) {
        Err(GameError::InsufficientSpace) => {}
        _ => panic!("expected InsufficientSpace"),
    }
}

#[test]
fn cursor_bands_resolve_to_the_right_column() {
    let mut g = GameState {
        attempts: STARTING_ATTEMPTS,
        columns: vec![],
        cursor_position: (LEFT_COLUMN_START, COLUMN_START_ROW),
        is_playing: true,
        correct_word: "mango".to_string(),
        entries: vec![],
        status: None,
    };
    assert_eq!(g.get_cursor_column_index(), Some(0));
    assert_eq!(g.column_coordinates(), Some((0, 0)));
    g.cursor_position = (LEFT_COLUMN_START - 1, COLUMN_START_ROW);
    assert_eq!(g.get_cursor_column_index(), None);
    g.cursor_position = (LEFT_COLUMN_START + WORD_COLUMN_WIDTH, COLUMN_START_ROW);
    assert_eq!(g.get_cursor_column_index(), None);
    g.cursor_position = (RIGHT_COLUMN_START, COLUMN_START_ROW + 1);
    assert_eq!(g.get_cursor_column_index(), Some(1));
    assert_eq!(g.column_coordinates(), Some((1, WORD_COLUMN_WIDTH as usize)));
    g.cursor_position = (RIGHT_COLUMN_START + WORD_COLUMN_WIDTH - 1, COLUMN_END_ROW);
    assert_eq!(
        g.column_coordinates(),
        Some((1, CHARACTERS_PER_COLUMN - 1))
    );
    g.cursor_position = (LEFT_COLUMN_START, COLUMN_START_ROW - 1);
    assert_eq!(g.get_cursor_column_index(), None);
    g.cursor_position = (LEFT_COLUMN_START, COLUMN_END_ROW + 1);
    assert_eq!(g.get_cursor_column_index(), None);
}

#[test]
fn count_matching_compares_positionwise() {
    assert_eq!(count_matching("apple", "mango"), 0);
    assert_eq!(count_matching("chair", "choir"), 4);
    assert_eq!(count_matching("mango", "mango"), 5);
    assert_eq!(count_matching("", "mango"), 0);
}

#[test]
fn entry_display_rows_match_their_transcripts() {
    assert_eq!(Entry::Correct { word: "mango".to_string() }.display_rows(), 5);
    assert_eq!(
        Entry::Incorrect { word: "apple".to_string(), num_correct: 0 }.display_rows(),
        3
    );
    assert_eq!(Entry::DudRemoval.display_rows(), 2);
    assert_eq!(Entry::AllowanceReplenish.display_rows(), 3);
}
