use bliet::model::{Block, BlockKind, Card, Deck};

fn card(seen: u32, correct: u32) -> Card {
    Card {
        id: 1,
        deck_id: 1,
        name: "c".to_string(),
        front_blocks: vec![],
        back_blocks: vec![],
        created_at: 0,
        times_seen: seen,
        times_correct: correct,
        tags: None,
    }
}

#[test]
fn block_type_names_each_variant() {
    assert_eq!(Block::Text { value: "a".into() }.block_type(), "text");
    assert_eq!(Block::Math { value: "x^2".into() }.block_type(), "math");
    assert_eq!(Block::Image { src: "files/a.png".into() }.block_type(), "image");
    assert_eq!(Block::File { path: "files/a.zip".into() }.block_type(), "file");
    assert_eq!(Block::File { path: "p".into() }.kind(), BlockKind::File);
}

#[test]
fn file_path_only_for_file_bearing_blocks() {
    assert_eq!(Block::Text { value: "a".into() }.file_path(), None);
    assert_eq!(Block::Math { value: "a".into() }.file_path(), None);
    assert_eq!(Block::Image { src: "files/a.png".into() }.file_path().map(|s| s.as_str()), Some("files/a.png"));
    assert_eq!(Block::File { path: "files/b.pdf".into() }.file_path().map(|s| s.as_str()), Some("files/b.pdf"));
}

#[test]
fn set_file_path_rewrites_only_paths() {
    let mut img = Block::Image { src: "files/a.png".into() };
    img.set_file_path("files/card_0/front_0.png".into());
    assert_eq!(img, Block::Image { src: "files/card_0/front_0.png".into() });
    let mut text = Block::Text { value: "keep".into() };
    text.set_file_path("files/x.png".into());
    assert_eq!(text, Block::Text { value: "keep".into() });
}

#[test]
fn progress_is_zero_without_correct_answers() {
    assert_eq!(card(0, 0).progress_percent(), 0);
    assert_eq!(card(10, 0).progress_percent(), 0);
}

#[test]
fn progress_follows_the_confidence_curve() {
    // score = correct - 2 * wrong
    assert_eq!(card(1, 1).progress_percent(), 45);
    assert_eq!(card(2, 2).progress_percent(), 70);
    assert_eq!(card(3, 3).progress_percent(), 83);
    assert_eq!(card(4, 4).progress_percent(), 91);
    assert_eq!(card(5, 5).progress_percent(), 95);
    assert_eq!(card(6, 6).progress_percent(), 97);
    assert_eq!(card(7, 7).progress_percent(), 99);
    assert_eq!(card(8, 8).progress_percent(), 99);
    assert_eq!(card(9, 9).progress_percent(), 100);
    assert_eq!(card(1000, 1000).progress_percent(), 100);
    assert_eq!(card(5, 4).progress_percent(), 70);
}

#[test]
fn progress_matches_the_float_formula() {
    for seen in 0u32..30 {
        for correct in 0u32..=seen {
            let good = correct as f64;
            let bad = (seen - correct) as f64;
            let expected = if correct == 0 {
                0u8
            } else {
                let score = (good - 2.0 * bad).max(0.0);
                let confidence = 1.0 - (-0.6 * score).exp();
                (confidence * 100.0).round().clamp(0.0, 100.0) as u8
            };
            assert_eq!(card(seen, correct).progress_percent(), expected, "seen {} correct {}", seen, correct);
        }
    }
}

#[test]
fn progress_is_zero_when_wrong_answers_outweigh() {
    assert_eq!(card(3, 2).progress_percent(), 0);
    assert_eq!(card(10, 5).progress_percent(), 0);
}

#[test]
fn progress_counts_extra_correct_answers() {
    // more correct answers than views: the wrong count is negative
    assert_eq!(card(0, 1).progress_percent(), 83);
    assert_eq!(card(u32::MAX, u32::MAX).progress_percent(), 100);
}

#[test]
fn new_empty_card_is_blank() {
    let c = Card::new_empty(7);
    assert_eq!(c.id, -1);
    assert_eq!(c.deck_id, 7);
    assert_eq!(c.name, "Neue Karte");
    assert!(c.front_blocks.is_empty() && c.back_blocks.is_empty());
    assert_eq!((c.times_seen, c.times_correct, c.tags.clone()), (0, 0, None));
    assert!(c.created_at > 1_600_000_000);
    let d = Card::new_empty_at(3, 42);
    assert_eq!(d.created_at, 42);
}

#[test]
fn duplicates_are_equal() {
    let mut c = card(3, 2);
    c.front_blocks = vec![Block::Text { value: "q".into() }, Block::Image { src: "files/i.png".into() }];
    c.back_blocks = vec![Block::Math { value: "cos(x)".into() }];
    c.tags = Some("calc,trig".into());
    assert_eq!(c.duplicate(), c);
    let d = Deck { id: 2, name: "Calc I".into(), created_at: 5, card_count: 1 };
    assert_eq!(d.duplicate(), d);
}
