use bliet::archive::{build_deck_zip, metadata_entry, read_archive};
use bliet::error::PortError;
use bliet::export::{
    build_export_path_map, collect_export_files, package_deck, rewrite_cards_for_export, ExportFile, EXPORT_VERSION,
};
use bliet::model::{Block, Card, Deck};
use bliet::pathmap::PathMap;

fn card(name: &str, front: Vec<Block>, back: Vec<Block>) -> Card {
    Card {
        id: 10,
        deck_id: 1,
        name: name.to_string(),
        front_blocks: front,
        back_blocks: back,
        created_at: 100,
        times_seen: 4,
        times_correct: 3,
        tags: Some("a,b".into()),
    }
}

fn img(p: &str) -> Block {
    Block::Image { src: p.to_string() }
}

fn file(p: &str) -> Block {
    Block::File { path: p.to_string() }
}

fn text(v: &str) -> Block {
    Block::Text { value: v.to_string() }
}

#[test]
fn collects_one_entry_per_file_block_in_order() {
    let cards = vec![
        card("a", vec![text("q"), img("files/u1.png")], vec![file("files/u2.pdf")]),
        card("b", vec![], vec![text("x"), text("y"), img("files/u3.jpg")]),
    ];
    let files = collect_export_files(&cards);
    let got: Vec<(&str, &str)> = files.iter().map(|f| (f.src_virtual.as_str(), f.zip_path.as_str())).collect();
    assert_eq!(
        got,
        vec![
            ("files/u1.png", "files/card_0/front_1.png"),
            ("files/u2.pdf", "files/card_0/back_0.pdf"),
            ("files/u3.jpg", "files/card_1/back_2.jpg"),
        ]
    );
}

#[test]
fn shared_source_collapses_to_first_occurrence() {
    let cards = vec![
        card("a", vec![img("files/same.png")], vec![]),
        card("b", vec![img("files/same.png")], vec![img("files/other.png")]),
    ];
    let files = collect_export_files(&cards);
    assert_eq!(files.len(), 2);
    assert_eq!(files[0].zip_path, "files/card_0/front_0.png");
    assert_eq!(files[1].zip_path, "files/card_1/back_0.png");
    let map = build_export_path_map(&files);
    let out = rewrite_cards_for_export(&cards, &map);
    assert_eq!(out[1].front_blocks[0], img("files/card_0/front_0.png"));
}

#[test]
fn n_cards_with_m_files_give_n_times_m_paths() {
    let n = 5;
    let m = 3;
    let mut cards = Vec::new();
    for i in 0..n {
        let front = (0..m).map(|j| img(&format!("files/c{}_{}.png", i, j))).collect();
        cards.push(card("c", front, vec![text("answer")]));
    }
    let files = collect_export_files(&cards);
    assert_eq!(files.len(), n * m);
    let mut paths: Vec<&str> = files.iter().map(|f| f.zip_path.as_str()).collect();
    paths.sort();
    paths.dedup();
    assert_eq!(paths.len(), n * m);
}

#[test]
fn path_map_lookup() {
    let files = vec![
        ExportFile { src_virtual: "files/a.png".into(), zip_path: "files/card_0/front_0.png".into() },
        ExportFile { src_virtual: "files/b.png".into(), zip_path: "files/card_0/back_0.png".into() },
    ];
    let map = build_export_path_map(&files);
    assert_eq!(map.get(&"files/b.png".to_string()).map(|s| s.as_str()), Some("files/card_0/back_0.png"));
    assert_eq!(map.get(&"files/c.png".to_string()), None);
    let mut m = PathMap::new();
    m.insert("k".into(), "v1".into());
    m.insert("k".into(), "v2".into());
    assert_eq!(m.get(&"k".to_string()).map(|s| s.as_str()), Some("v2"));
}

#[test]
fn rewrite_leaves_text_and_unknown_paths() {
    let cards = vec![card("a", vec![text("files/a.png"), img("files/a.png"), img("files/z.png")], vec![])];
    let mut map = PathMap::new();
    map.insert("files/a.png".into(), "files/card_0/front_1.png".into());
    let out = rewrite_cards_for_export(&cards, &map);
    assert_eq!(
        out[0].front_blocks,
        vec![text("files/a.png"), img("files/card_0/front_1.png"), img("files/z.png")]
    );
    assert_eq!(cards[0].front_blocks[1], img("files/a.png"));
}

#[test]
fn package_keeps_deck_and_statistics() {
    let deck = Deck { id: 9, name: "Calc I".into(), created_at: 50, card_count: 1 };
    let cards = vec![card("Derivative", vec![img("files/u.png")], vec![text("a")])];
    let (export, files) = package_deck(&deck, &cards);
    assert_eq!(export.export_version, EXPORT_VERSION);
    assert_eq!(export.deck, deck);
    assert_eq!(export.cards.len(), 1);
    assert_eq!(export.cards[0].front_blocks[0], img("files/card_0/front_0.png"));
    assert_eq!((export.cards[0].times_seen, export.cards[0].times_correct), (4, 3));
    assert_eq!(export.cards[0].tags.as_deref(), Some("a,b"));
    assert_eq!(files.len(), 1);
    assert_eq!(files[0].src_virtual, "files/u.png");
}

#[test]
fn zip_holds_metadata_then_blobs() {
    let files = vec![
        ExportFile { src_virtual: "files/a.png".into(), zip_path: "files/card_0/front_0.png".into() },
        ExportFile { src_virtual: "files/b.bin".into(), zip_path: "files/card_1/back_2.bin".into() },
    ];
    let blobs = vec![vec![0x89, 0x50, 0x4e, 0x47, 0, 255], vec![]];
    let bytes = build_deck_zip(b"{\"export_version\":2}", &files, &blobs).unwrap();
    assert_eq!(&bytes[0..2], b"PK");
    let entries = read_archive(bytes).unwrap();
    let names: Vec<&str> = entries.iter().map(|e| e.name.as_str()).collect();
    assert_eq!(names, vec!["export.json", "files/card_0/front_0.png", "files/card_1/back_2.bin"]);
    assert_eq!(entries[1].data, blobs[0]);
    assert_eq!(entries[2].data, blobs[1]);
    assert_eq!(metadata_entry(&entries).unwrap(), &b"{\"export_version\":2}".to_vec());
}

#[test]
fn zip_is_deterministic() {
    let files = vec![ExportFile { src_virtual: "files/a.png".into(), zip_path: "files/card_0/front_0.png".into() }];
    let blobs = vec![vec![1, 2, 3]];
    assert_eq!(build_deck_zip(b"{}", &files, &blobs).unwrap(), build_deck_zip(b"{}", &files, &blobs).unwrap());
}

#[test]
fn duplicate_archive_paths_fail_as_io() {
    let files = vec![
        ExportFile { src_virtual: "files/a.png".into(), zip_path: "files/card_0/front_0.png".into() },
        ExportFile { src_virtual: "files/b.png".into(), zip_path: "files/card_0/front_0.png".into() },
    ];
    let blobs = vec![vec![1], vec![2]];
    assert!(matches!(build_deck_zip(b"{}", &files, &blobs), Err(PortError::Io { .. })));
}

#[test]
fn garbage_is_not_an_archive() {
    assert!(matches!(read_archive(b"not a zip".to_vec()), Err(PortError::Io { .. })));
}

#[test]
fn blob_named_like_metadata_collides() {
    let files = vec![ExportFile { src_virtual: "files/a.json".into(), zip_path: "export.json".into() }];
    let blobs = vec![vec![1]];
    assert!(matches!(build_deck_zip(b"{}", &files, &blobs), Err(PortError::Io { .. })));
}

#[test]
fn packaged_deck_always_zips() {
    let cards = vec![
        card("a", vec![img("files/s.png"), file("files/t.pdf")], vec![img("files/s.png")]),
        card("b", vec![text("t")], vec![file("files/u")]),
    ];
    let deck = Deck { id: 1, name: "D".into(), created_at: 0, card_count: 2 };
    let (_, files) = package_deck(&deck, &cards);
    let blobs: Vec<Vec<u8>> = files.iter().map(|f| f.src_virtual.as_bytes().to_vec()).collect();
    let entries = read_archive(build_deck_zip(b"{}", &files, &blobs).unwrap()).unwrap();
    assert_eq!(entries.len(), files.len() + 1);
    for (f, e) in files.iter().zip(entries.iter().skip(1)) {
        assert_eq!(e.name, f.zip_path);
        assert_eq!(e.data, f.src_virtual.as_bytes());
    }
}
