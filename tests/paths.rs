use bliet::paths::{decimal, derive_export_path, extension, last_index, resolve_virtual_path, Side};
use bliet::pick::PickKind;

#[test]
fn decimal_notation() {
    assert_eq!(decimal(0), "0");
    assert_eq!(decimal(7), "7");
    assert_eq!(decimal(10), "10");
    assert_eq!(decimal(1234567890), "1234567890");
    assert_eq!(decimal(usize::MAX), usize::MAX.to_string());
}

#[test]
fn last_index_of_char() {
    assert_eq!(last_index("a.b.c", '.'), Some(3));
    assert_eq!(last_index("abc", '.'), None);
    assert_eq!(last_index("", '.'), None);
}

#[test]
fn extension_of_virtual_paths() {
    assert_eq!(extension("files/0c9e.png"), "png");
    assert_eq!(extension("files/a.tar.gz"), "gz");
    assert_eq!(extension("files/noext"), "bin");
    assert_eq!(extension("dir.d/noext"), "bin");
    assert_eq!(extension("files/trailing."), "bin");
    assert_eq!(extension("bild.jpeg"), "jpeg");
}

#[test]
fn export_path_from_position() {
    assert_eq!(derive_export_path(0, 0, Side::Front, "files/u.png"), "files/card_0/front_0.png");
    assert_eq!(derive_export_path(12, 3, Side::Back, "files/u.pdf"), "files/card_12/back_3.pdf");
    assert_eq!(derive_export_path(1, 0, Side::Front, "files/u"), "files/card_1/front_0.bin");
}

#[test]
fn resolve_joins_under_root() {
    assert_eq!(resolve_virtual_path("/data", "files/a.png"), "/data/files/a.png");
    assert_eq!(resolve_virtual_path("/data/", "files/a.png"), "/data/files/a.png");
    assert_eq!(resolve_virtual_path("", "files/a.png"), "/files/a.png");
}

#[test]
fn pick_kinds() {
    let (label, exts) = PickKind::Image.dialog_filter();
    assert_eq!(label, "Images");
    assert_eq!(exts, vec!["png", "jpg", "jpeg", "webp"]);
    let (label, exts) = PickKind::Archive.dialog_filter();
    assert_eq!(label, "Archives");
    assert_eq!(exts, vec!["zip", "tar", "gz", "7z"]);
    assert_eq!(PickKind::Image.default_extension(Some("gif")), "gif");
    assert_eq!(PickKind::Image.default_extension(None), "png");
    assert_eq!(PickKind::Archive.default_extension(None), "zip");
}
