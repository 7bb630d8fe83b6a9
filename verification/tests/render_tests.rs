use robco_term::column::Column;
use robco_term::consts::{
    BRACKET_LENGTH, CHARACTERS_PER_COLUMN, COLUMN_START_ROW, LEFT_COLUMN_START,
    STARTING_ATTEMPTS, WORD_COLUMN_WIDTH,
};
use robco_term::entity::{CursorEntity, GameEnding};
use robco_term::game::GameState;

fn column(entities: Vec<CursorEntity>) -> Column {
    Column {
        addresses: (0..16u16).map(|i| 0xF000 + i * 0xC).collect(),
        word_data: vec![',' ; CHARACTERS_PER_COLUMN],
        entities,
    }
}

fn single_column_game(entities: Vec<CursorEntity>, correct: &str) -> GameState {
    GameState {
        attempts: STARTING_ATTEMPTS,
        columns: vec![column(entities), column(vec![])],
        cursor_position: (0, 0),
        is_playing: true,
        correct_word: correct.to_string(),
        entries: vec![],
        status: None,
    }
}

fn coord(idx: usize) -> (i32, i32) {
    (
        LEFT_COLUMN_START + (idx % WORD_COLUMN_WIDTH as usize) as i32,
        COLUMN_START_ROW + (idx / WORD_COLUMN_WIDTH as usize) as i32,
    )
}

#[test]
fn entity_at_resolves_word_spans_and_bracket_hot_indices() {
    let g = single_column_game(
        vec![
            CursorEntity::Word { word: "apple".to_string(), guessed: false, index: 0, removed: false },
            CursorEntity::Brackets { pair: ('{', '}'), consumed: false, index: 40 },
        ],
        "apple",
    );
    let mut g = g;
    g.cursor_position = coord(4);
    match g.get_entity_at_cursor() {
        Some(CursorEntity::Word { word, .. }) => assert_eq!(word, "apple"),
        _ => panic!("expected the word"),
    }
    g.cursor_position = coord(5);
    assert!(g.get_entity_at_cursor().is_none());
    g.cursor_position = coord(40);
    match g.get_entity_at_cursor() {
        Some(CursorEntity::Brackets { pair, .. }) => assert_eq!(*pair, ('{', '}')),
        _ => panic!("expected the brackets"),
    }
    g.cursor_position = coord(41);
    assert!(g.get_entity_at_cursor().is_none());
    g.cursor_position = (0, 0);
    assert!(g.get_entity_at_cursor().is_none());
}

#[test]
fn entity_at_treats_removed_and_consumed_entities_as_empty_space() {
    let mut g = single_column_game(
        vec![
            CursorEntity::Word { word: "apple".to_string(), guessed: false, index: 0, removed: true },
            CursorEntity::Brackets { pair: ('<', '>'), consumed: true, index: 40 },
        ],
        "apple",
    );
    g.cursor_position = coord(2);
    assert!(g.get_entity_at_cursor().is_none());
    g.cursor_position = coord(40);
    assert!(g.get_entity_at_cursor().is_none());
}

#[test]
fn highlighted_reflects_resolution_state() {
    let fresh = CursorEntity::Word { word: "apple".to_string(), guessed: false, index: 0, removed: false };
    let guessed = CursorEntity::Word { word: "apple".to_string(), guessed: true, index: 0, removed: false };
    let open_pair = CursorEntity::Brackets { pair: ('<', '>'), consumed: false, index: 0 };
    let used_pair = CursorEntity::Brackets { pair: ('<', '>'), consumed: true, index: 0 };
    assert!(fresh.highlighted());
    assert!(!guessed.highlighted());
    assert!(open_pair.highlighted());
    assert!(!used_pair.highlighted());
}

#[test]
fn indices_span_words_and_bracket_pairs() {
    let w = CursorEntity::Word { word: "apple".to_string(), guessed: false, index: 7, removed: false };
    assert_eq!(w.indices(), (7, 12));
    let b = CursorEntity::Brackets { pair: ('<', '>'), consumed: false, index: 40 };
    assert_eq!(b.indices(), (40, 40 + BRACKET_LENGTH));
}

#[test]
fn render_shows_unrevealed_words_in_uppercase() {
    let col = column(vec![CursorEntity::Word {
        word: "apple".to_string(),
        guessed: false,
        index: 10,
        removed: false,
    }]);
    let text: Vec<char> = col.render_word_data().chars().collect();
    assert_eq!(text.len(), CHARACTERS_PER_COLUMN);
    assert_eq!(&text[10..15], &['A', 'P', 'P', 'L', 'E']);
    assert_eq!(text[9], ',');
    assert_eq!(text[15], ',');
}

#[test]
fn render_dots_out_revealed_words() {
    let col = column(vec![
        CursorEntity::Word { word: "apple".to_string(), guessed: true, index: 0, removed: false },
        CursorEntity::Word { word: "mango".to_string(), guessed: false, index: 50, removed: true },
    ]);
    let text: Vec<char> = col.render_word_data().chars().collect();
    assert_eq!(&text[0..5], &['.', '.', '.', '.', '.']);
    assert_eq!(&text[50..55], &['.', '.', '.', '.', '.']);
}

#[test]
fn render_shows_bracket_pairs_at_their_span_ends() {
    let col = column(vec![CursorEntity::Brackets { pair: ('[', ']'), consumed: false, index: 30 }]);
    let text: Vec<char> = col.render_word_data().chars().collect();
    assert_eq!(text[30], '[');
    assert_eq!(text[30 + BRACKET_LENGTH - 1], ']');
    assert_eq!(text[31], ',');
}

#[test]
fn render_dots_out_consumed_bracket_pairs() {
    let col = column(vec![CursorEntity::Brackets { pair: ('[', ']'), consumed: true, index: 30 }]);
    let text: Vec<char> = col.render_word_data().chars().collect();
    for i in 30..30 + BRACKET_LENGTH {
        assert_eq!(text[i], '.');
    }
    assert_eq!(text[38], ',');
}

#[test]
fn quit_does_not_alter_the_outcome() {
    let mut g = single_column_game(vec![], "apple");
    g.status = Some(GameEnding::Won);
    g.update(Some(robco_term::entity::InputEvent::Quit));
    assert!(!g.is_playing);
    assert!(matches!(g.status, Some(GameEnding::Won)));
}
