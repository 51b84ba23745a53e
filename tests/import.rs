use bliet::archive::{build_deck_zip, metadata_entry, read_archive};
use bliet::error::PortError;
use bliet::export::{package_deck, DeckExport, EXPORT_VERSION};
use bliet::import::{
    check_export_version, extract_blobs, fresh_virtual_path, import_deck_export, is_blob_entry_name, ArchiveEntry,
};
use bliet::listing::{get_card_ids, order_card_rows, CardRow};
use bliet::model::{Block, Card, Deck};

fn deck(name: &str) -> Deck {
    Deck { id: 77, name: name.to_string(), created_at: 1000, card_count: 1 }
}

fn card(name: &str, front: Vec<Block>, back: Vec<Block>, seen: u32, correct: u32) -> Card {
    Card {
        id: 5,
        deck_id: 77,
        name: name.to_string(),
        front_blocks: front,
        back_blocks: back,
        created_at: 1234,
        times_seen: seen,
        times_correct: correct,
        tags: Some("calc".into()),
    }
}

fn entry(name: &str, data: &[u8]) -> ArchiveEntry {
    ArchiveEntry { name: name.to_string(), data: data.to_vec() }
}

fn export_of(cards: Vec<Card>, version: u32) -> DeckExport {
    DeckExport { export_version: version, deck: deck("D"), cards }
}

#[test]
fn version_check() {
    assert_eq!(check_export_version(EXPORT_VERSION), Ok(()));
    assert_eq!(check_export_version(1), Err(PortError::UnsupportedVersion { got: 1, supported: EXPORT_VERSION }));
    assert_eq!(check_export_version(99), Err(PortError::UnsupportedVersion { got: 99, supported: EXPORT_VERSION }));
}

#[test]
fn unsupported_version_is_rejected_before_anything_is_planned() {
    let ex = export_of(vec![card("c", vec![Block::Text { value: "q".into() }], vec![], 0, 0)], 1);
    let r = import_deck_export(&ex, &vec![entry("files/card_0/front_0.png", b"x")]);
    assert!(matches!(r, Err(PortError::UnsupportedVersion { got: 1, supported: 2 })));
}

#[test]
fn missing_entry_is_rejected() {
    let ex = export_of(
        vec![card("c", vec![Block::Image { src: "files/card_0/front_0.png".into() }], vec![], 0, 0)],
        EXPORT_VERSION,
    );
    let r = import_deck_export(&ex, &vec![entry("export.json", b"{}")]);
    match r {
        Err(PortError::MissingBlob { path }) => assert_eq!(path, "files/card_0/front_0.png"),
        _ => panic!("expected a missing blob"),
    }
    let r = import_deck_export(&ex, &vec![entry("files/card_0/front_1.png", b"x")]);
    assert!(matches!(r, Err(PortError::MissingBlob { .. })));
}

#[test]
fn blob_entries_are_under_files() {
    assert!(is_blob_entry_name("files/card_0/front_0.png"));
    assert!(is_blob_entry_name("files/"));
    assert!(!is_blob_entry_name("export.json"));
    assert!(!is_blob_entry_name("file"));
    assert!(!is_blob_entry_name("Files/x"));
}

#[test]
fn fresh_paths_are_new_each_time() {
    let a = fresh_virtual_path("files/card_0/front_0.png");
    let b = fresh_virtual_path("files/card_0/front_0.png");
    assert_ne!(a, b);
    assert!(a.starts_with("files/") && a.ends_with(".png"));
    assert_eq!(a.len(), "files/".len() + 36 + ".png".len());
}

#[test]
fn extract_skips_non_blob_entries() {
    let entries = vec![entry("export.json", b"{}"), entry("files/card_0/back_0.pdf", b"%PDF"), entry("readme", b"r")];
    let (blobs, paths) = extract_blobs(&entries);
    assert_eq!(blobs.len(), 1);
    assert_eq!(blobs[0].data, b"%PDF".to_vec());
    assert!(blobs[0].virtual_path.ends_with(".pdf"));
    assert_eq!(paths.get(&"files/card_0/back_0.pdf".to_string()), Some(&blobs[0].virtual_path));
    assert_eq!(paths.get(&"export.json".to_string()), None);
}

#[test]
fn text_only_round_trip() {
    let cards = vec![
        card("one", vec![Block::Text { value: "q1".into() }], vec![Block::Math { value: "a^2".into() }], 5, 4),
        card("two", vec![], vec![Block::Text { value: "".into() }], 0, 0),
    ];
    let (export, files) = package_deck(&deck("Bio"), &cards);
    assert!(files.is_empty());
    let archive = build_deck_zip(b"{}", &files, &vec![]).unwrap();
    let entries = read_archive(archive).unwrap();
    let plan = import_deck_export(&export, &entries).unwrap();
    assert_eq!(plan.deck_name, "Bio");
    assert!(plan.blobs.is_empty());
    assert_eq!(plan.cards, cards);
}

#[test]
fn blob_round_trip() {
    let bytes: Vec<u8> = (0..=255u8).chain(0..10).collect();
    let cards = vec![card("pic", vec![Block::Image { src: "files/orig.png".into() }], vec![], 1, 1)];
    let (export, files) = package_deck(&deck("Art"), &cards);
    let blobs: Vec<Vec<u8>> = files.iter().map(|_| bytes.clone()).collect();
    let archive = build_deck_zip(b"{}", &files, &blobs).unwrap();
    let entries = read_archive(archive).unwrap();
    let plan = import_deck_export(&export, &entries).unwrap();
    let new_path = match &plan.cards[0].front_blocks[0] {
        Block::Image { src } => src.clone(),
        other => panic!("unexpected block {:?}", other),
    };
    assert_ne!(new_path, "files/orig.png");
    assert!(new_path.starts_with("files/") && new_path.ends_with(".png"));
    let stored = plan.blobs.iter().find(|b| b.virtual_path == new_path).unwrap();
    assert_eq!(stored.data, bytes);
}

#[test]
fn calc_deck_scenario() {
    let derivative = card(
        "Derivative",
        vec![Block::Text { value: "What is d/dx sin(x)?".into() }],
        vec![Block::Math { value: "cos(x)".into() }],
        3,
        2,
    );
    let (export, files) = package_deck(&deck("Calc I"), &vec![derivative.clone()]);
    assert_eq!(export.export_version, EXPORT_VERSION);
    assert_eq!(export.deck.name, "Calc I");
    assert_eq!(export.cards, vec![derivative.clone()]);
    let meta = b"{\"export_version\":2}";
    let archive = build_deck_zip(meta, &files, &vec![]).unwrap();
    let entries = read_archive(archive).unwrap();
    assert_eq!(metadata_entry(&entries).unwrap(), &meta.to_vec());
    let plan = import_deck_export(&export, &entries).unwrap();
    assert_eq!(plan.deck_name, "Calc I");
    assert_eq!(plan.cards.len(), 1);
    let c = &plan.cards[0];
    assert_eq!(c.name, "Derivative");
    assert_eq!(c.front_blocks, vec![Block::Text { value: "What is d/dx sin(x)?".into() }]);
    assert_eq!(c.back_blocks, vec![Block::Math { value: "cos(x)".into() }]);
    assert_eq!((c.times_seen, c.times_correct), (3, 2));
    assert_eq!(c.progress_percent(), 0);
}

#[test]
fn archive_without_metadata_is_malformed() {
    let entries = vec![entry("files/card_0/front_0.png", b"x")];
    assert!(matches!(metadata_entry(&entries), Err(PortError::MalformedMetadata { .. })));
}

#[test]
fn listing_is_newest_first_and_per_deck() {
    let rows = vec![
        CardRow { id: 1, deck_id: 1, created_at: 10 },
        CardRow { id: 2, deck_id: 2, created_at: 50 },
        CardRow { id: 3, deck_id: 1, created_at: 30 },
        CardRow { id: 4, deck_id: 1, created_at: 10 },
        CardRow { id: 5, deck_id: 1, created_at: 20 },
    ];
    assert_eq!(get_card_ids(&rows, 1), vec![3, 5, 1, 4]);
    assert_eq!(get_card_ids(&rows, 2), vec![2]);
    assert_eq!(get_card_ids(&rows, 3), Vec::<i64>::new());
    assert_eq!(order_card_rows(&rows, 1).len(), 4);
}
