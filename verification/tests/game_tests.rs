use robco_term::column::Column;
use robco_term::consts::{
    BRACKET_LENGTH, CHARACTERS_PER_COLUMN, COLUMN_START_ROW, LEFT_COLUMN_START,
    RIGHT_COLUMN_START, STARTING_ATTEMPTS, WORD_COLUMN_WIDTH,
};
use robco_term::entity::{CursorEntity, Entry, GameEnding, InputEvent};
use robco_term::game::GameState;

fn word(text: &str, index: usize) -> CursorEntity {
    CursorEntity::Word { word: text.to_string(), guessed: false, index, removed: false }
}

fn brackets(index: usize) -> CursorEntity {
    CursorEntity::Brackets { pair: ('<', '>'), consumed: false, index }
}

fn column(entities: Vec<CursorEntity>) -> Column {
    Column {
        addresses: (0..16u16).map(|i| 0xF000 + i * 0xC).collect(),
        word_data: vec!['.'; CHARACTERS_PER_COLUMN],
        entities,
    }
}

/// Two columns: apple@0 and mango@96 on the left, chair@0 and grape@96 on
/// the right, one bracket pair at 24 on the left.
fn game(correct: &str) -> GameState {
    let left = column(vec![brackets(24), word("apple", 0), word("mango", 96)]);
    let right = column(vec![word("chair", 0), word("grape", 96)]);
    GameState {
        attempts: STARTING_ATTEMPTS,
        columns: vec![left, right],
        cursor_position: (0, 0),
        is_playing: true,
        correct_word: correct.to_string(),
        entries: vec![],
        status: None,
    }
}

/// Screen coordinate of buffer index `idx` in column `c`.
fn coord(c: usize, idx: usize) -> (i32, i32) {
    let base = if c == 0 { LEFT_COLUMN_START } else { RIGHT_COLUMN_START };
    (base + (idx % WORD_COLUMN_WIDTH as usize) as i32, COLUMN_START_ROW + (idx / WORD_COLUMN_WIDTH as usize) as i32)
}

#[test]
fn incorrect_guess_spends_one_attempt_and_logs_match_count() {
    let mut g = game("mango");
    g.cursor_position = coord(0, 2); // inside apple's span
    g.update(Some(InputEvent::Action));
    assert_eq!(g.attempts, 3);
    assert_eq!(g.entries.len(), 1);
    match &g.entries[0] {
        Entry::Incorrect { word, num_correct } => {
            assert_eq!(word, "apple");
            assert_eq!(*num_correct, 0);
        }
        _ => panic!("expected an Incorrect entry"),
    }
    assert!(g.status.is_none());
    match &g.columns[0].entities[1] {
        CursorEntity::Word { guessed, .. } => assert!(*guessed),
        _ => panic!("expected a word"),
    }
}

#[test]
fn correct_guess_wins_and_logs_correct_entry() {
    let mut g = game("mango");
    g.cursor_position = coord(0, 96);
    g.update(Some(InputEvent::Action));
    assert_eq!(g.entries.len(), 1);
    match &g.entries[0] {
        Entry::Correct { word } => assert_eq!(word, "mango"),
        _ => panic!("expected a Correct entry"),
    }
    assert!(matches!(g.status, Some(GameEnding::Won)));
}

#[test]
fn partial_match_count_is_positionwise() {
    let mut g = game("choir");
    g.columns[1].entities[0] = word("chair", 0);
    g.cursor_position = coord(1, 0);
    g.update(Some(InputEvent::Action));
    match &g.entries[0] {
        Entry::Incorrect { word, num_correct } => {
            assert_eq!(word, "chair");
            assert_eq!(*num_correct, 4);
        }
        _ => panic!("expected an Incorrect entry"),
    }
}

#[test]
fn session_guessing_apple_then_mango() {
    let mut g = game("mango");
    g.cursor_position = coord(0, 0);
    g.update(Some(InputEvent::Action));
    assert_eq!(g.attempts, 3);
    assert_eq!(g.entries.len(), 1);
    assert!(matches!(&g.entries[0], Entry::Incorrect { num_correct: 0, .. }));
    assert!(g.status.is_none());
    g.cursor_position = coord(0, 96);
    g.update(Some(InputEvent::Action));
    assert_eq!(g.entries.len(), 2);
    match &g.entries[1] {
        Entry::Correct { word } => assert_eq!(word, "mango"),
        _ => panic!("expected a Correct entry"),
    }
    assert!(matches!(g.status, Some(GameEnding::Won)));
}

#[test]
fn last_attempt_incorrect_guess_loses() {
    let mut g = game("mango");
    g.attempts = 1;
    g.cursor_position = coord(0, 0);
    g.update(Some(InputEvent::Action));
    assert_eq!(g.attempts, 0);
    assert_eq!(g.entries.len(), 1);
    assert!(matches!(g.entries[0], Entry::Incorrect { .. }));
    assert!(matches!(g.status, Some(GameEnding::Lost)));
}

#[test]
fn terminal_state_absorbs_actions() {
    let mut g = game("mango");
    g.attempts = 1;
    g.cursor_position = coord(0, 0);
    g.update(Some(InputEvent::Action));
    assert!(matches!(g.status, Some(GameEnding::Lost)));
    // further actions on another word change nothing
    g.cursor_position = coord(0, 96);
    g.update(Some(InputEvent::Action));
    assert_eq!(g.attempts, 0);
    assert_eq!(g.entries.len(), 1);
    assert!(matches!(g.status, Some(GameEnding::Lost)));
    match &g.columns[0].entities[2] {
        CursorEntity::Word { guessed, .. } => assert!(!*guessed),
        _ => panic!("expected a word"),
    }
}

#[test]
fn guessed_word_cannot_be_guessed_again() {
    let mut g = game("mango");
    g.cursor_position = coord(0, 0);
    g.update(Some(InputEvent::Action));
    assert_eq!(g.attempts, 3);
    g.update(Some(InputEvent::Action));
    assert_eq!(g.attempts, 3);
    assert_eq!(g.entries.len(), 1);
}

#[test]
fn replenish_bonus_resets_attempts() {
    let mut g = game("mango");
    g.attempts = 1;
    g.apply_bonus(true);
    assert_eq!(g.attempts, STARTING_ATTEMPTS);
    assert_eq!(g.entries.len(), 1);
    assert!(matches!(g.entries[0], Entry::AllowanceReplenish));
}

#[test]
fn dud_removal_marks_first_non_password_word() {
    let mut g = game("mango");
    g.apply_bonus(false);
    assert_eq!(g.attempts, STARTING_ATTEMPTS);
    assert_eq!(g.entries.len(), 1);
    assert!(matches!(g.entries[0], Entry::DudRemoval));
    // first eligible in scan order is apple (entity 1 of column 0)
    match &g.columns[0].entities[1] {
        CursorEntity::Word { removed, .. } => assert!(*removed),
        _ => panic!("expected a word"),
    }
    // the password itself is never removed
    match &g.columns[0].entities[2] {
        CursorEntity::Word { removed, .. } => assert!(!*removed),
        _ => panic!("expected a word"),
    }
}

#[test]
fn dud_removal_with_no_eligible_word_only_logs() {
    let mut g = game("mango");
    g.columns = vec![
        column(vec![brackets(24), word("mango", 96)]),
        column(vec![brackets(24)]),
    ];
    g.apply_bonus(false);
    assert_eq!(g.entries.len(), 1);
    assert!(matches!(g.entries[0], Entry::DudRemoval));
    match &g.columns[0].entities[1] {
        CursorEntity::Word { removed, .. } => assert!(!*removed),
        _ => panic!("expected a word"),
    }
}

#[test]
fn triggering_brackets_consumes_them_and_logs_one_entry() {
    let mut g = game("mango");
    g.cursor_position = coord(0, 24); // the hot index
    g.update(Some(InputEvent::Action));
    match &g.columns[0].entities[0] {
        CursorEntity::Brackets { consumed, .. } => assert!(*consumed),
        _ => panic!("expected brackets"),
    }
    assert_eq!(g.entries.len(), 1);
    match &g.entries[0] {
        Entry::AllowanceReplenish => assert_eq!(g.attempts, STARTING_ATTEMPTS),
        Entry::DudRemoval => assert_eq!(g.attempts, STARTING_ATTEMPTS),
        _ => panic!("expected a bonus entry"),
    }
}

#[test]
fn bracket_span_is_only_hot_at_its_start() {
    let mut g = game("mango");
    g.cursor_position = coord(0, 25); // inside the span, not the start
    assert!(g.get_entity_at_cursor().is_none());
    g.update(Some(InputEvent::Action));
    assert_eq!(g.entries.len(), 0);
    match &g.columns[0].entities[0] {
        CursorEntity::Brackets { consumed, .. } => assert!(!*consumed),
        _ => panic!("expected brackets"),
    }
}

#[test]
fn movement_events_translate_the_cursor() {
    let mut g = game("mango");
    g.cursor_position = (10, 10);
    g.update(Some(InputEvent::Left));
    assert_eq!(g.cursor_position, (9, 10));
    g.update(Some(InputEvent::Right));
    g.update(Some(InputEvent::Right));
    assert_eq!(g.cursor_position, (11, 10));
    g.update(Some(InputEvent::Up));
    assert_eq!(g.cursor_position, (11, 9));
    g.update(Some(InputEvent::Down));
    assert_eq!(g.cursor_position, (11, 10));
    g.update(Some(InputEvent::SetCursor(3, -4)));
    assert_eq!(g.cursor_position, (3, -4));
    assert!(g.is_playing);
    g.update(Some(InputEvent::Quit));
    assert!(!g.is_playing);
    g.update(None);
    assert_eq!(g.cursor_position, (3, -4));
}
