//! Properties that relate the packager's and the unpacker's functions.
use vstd::prelude::*;
use crate::archive::{archive_layout, metadata_name, names_distinct, zip_entries_in};
use crate::export::{
    deck_slots, export_files_of, files_view, first_per_source, has_source, rewrite_blocks, rewrite_card, side_slots,
    ExportFile,
};
use crate::import::{lemma_pairs_map_keys, blob_entries, is_blob_entry, placement, references, side_references, StoredBlob};
use crate::model::{cards_view, is_file_kind, BlockKind, BlockView, Card, CardView};
use crate::pathmap::pairs_map;
use crate::paths::{dec, export_path, extension_of, lemma_export_path_injective, Side};

verus! {

/// Number of file-bearing blocks.
pub open spec fn file_block_count(bs: Seq<BlockView>) -> nat
    decreases bs.len(),
{
    if bs.len() == 0 {
        0
    } else {
        file_block_count(bs.drop_last()) + if is_file_kind(bs.last().kind) {
            1nat
        } else {
            0nat
        }
    }
}

/// No two entries share a source path.
pub open spec fn sources_distinct(s: Seq<(Seq<char>, Seq<char>)>) -> bool {
    forall|a: int, b: int| 0 <= a < b < s.len() ==> (#[trigger] s[a]).0 != (#[trigger] s[b]).0
}

/// No two entries share an archive path.
pub open spec fn paths_distinct(s: Seq<(Seq<char>, Seq<char>)>) -> bool {
    forall|a: int, b: int| 0 <= a < b < s.len() ==> (#[trigger] s[a]).1 != (#[trigger] s[b]).1
}

pub open spec fn side_placed(slot: (Seq<char>, Seq<char>), card: nat, side: Side, limit: nat) -> bool {
    exists|k: nat| k < limit && slot.1 == #[trigger] export_path(card, side, k, extension_of(slot.0))
}

pub open spec fn deck_placed(slot: (Seq<char>, Seq<char>), limit: nat) -> bool {
    exists|c: nat, side: Side, k: nat| c < limit && slot.1 == #[trigger] export_path(c, side, k, extension_of(slot.0))
}

proof fn lemma_side_slots(card: nat, side: Side, bs: Seq<BlockView>)
    ensures
        side_slots(card, side, bs).len() == file_block_count(bs),
        forall|a: int| 0 <= a < side_slots(card, side, bs).len()
            ==> side_placed(#[trigger] side_slots(card, side, bs)[a], card, side, bs.len()),
        paths_distinct(side_slots(card, side, bs)),
    decreases bs.len(),
{
    if bs.len() > 0 {
        let prev = side_slots(card, side, bs.drop_last());
        let s = side_slots(card, side, bs);
        lemma_side_slots(card, side, bs.drop_last());
        assert forall|a: int| 0 <= a < prev.len() implies side_placed(#[trigger] prev[a], card, side, bs.len()) by {
            let k = choose|k: nat| k < bs.drop_last().len() && prev[a].1 == #[trigger] export_path(card, side, k, extension_of(prev[a].0));
        }
        if is_file_kind(bs.last().kind) {
            let last = s.last();
            let n = (bs.len() - 1) as nat;
            assert(last.1 == export_path(card, side, n, extension_of(last.0)));
            assert(side_placed(last, card, side, bs.len()));
            assert forall|a: int, b: int| 0 <= a < b < s.len() implies (#[trigger] s[a]).1 != (#[trigger] s[b]).1 by {
                if b == s.len() - 1 {
                    assert(s[a] == prev[a]);
                    let k = choose|k: nat| k < bs.drop_last().len() && prev[a].1 == #[trigger] export_path(card, side, k, extension_of(prev[a].0));
                    if s[a].1 == s[b].1 {
                        lemma_export_path_injective(card, side, k, extension_of(prev[a].0), card, side, n, extension_of(last.0));
                    }
                } else {
                    assert(s[a] == prev[a] && s[b] == prev[b]);
                }
            }
        }
    }
}

proof fn lemma_deck_slots(cards: Seq<CardView>)
    ensures
        forall|a: int| 0 <= a < deck_slots(cards).len() ==> deck_placed(#[trigger] deck_slots(cards)[a], cards.len()),
        paths_distinct(deck_slots(cards)),
    decreases cards.len(),
{
    if cards.len() > 0 {
        let n = (cards.len() - 1) as nat;
        let prev = deck_slots(cards.drop_last());
        let c = cards.last();
        let f = side_slots(n, Side::Front, c.front);
        let b = side_slots(n, Side::Back, c.back);
        let s = deck_slots(cards);
        lemma_deck_slots(cards.drop_last());
        lemma_side_slots(n, Side::Front, c.front);
        lemma_side_slots(n, Side::Back, c.back);
        assert(s == prev + f + b);
        assert forall|a: int| 0 <= a < s.len() implies deck_placed(#[trigger] s[a], cards.len()) by {
            if a < prev.len() {
                assert(s[a] == prev[a]);
                let (x, y, z) = choose|x: nat, y: Side, z: nat| x < cards.drop_last().len() && prev[a].1 == #[trigger] export_path(x, y, z, extension_of(prev[a].0));
                assert(s[a].1 == export_path(x, y, z, extension_of(s[a].0)));
            } else if a < prev.len() + f.len() {
                assert(s[a] == f[a - prev.len()]);
                let k = choose|k: nat| k < c.front.len() && f[a - prev.len()].1 == #[trigger] export_path(n, Side::Front, k, extension_of(f[a - prev.len()].0));
                assert(s[a].1 == export_path(n, Side::Front, k, extension_of(s[a].0)));
            } else {
                assert(s[a] == b[a - prev.len() - f.len()]);
                let k = choose|k: nat| k < c.back.len() && b[a - prev.len() - f.len()].1 == #[trigger] export_path(n, Side::Back, k, extension_of(b[a - prev.len() - f.len()].0));
                assert(s[a].1 == export_path(n, Side::Back, k, extension_of(s[a].0)));
            }
        }
        assert forall|x: int, y: int| 0 <= x < y < s.len() implies (#[trigger] s[x]).1 != (#[trigger] s[y]).1 by {
            let p = prev.len() as int;
            let q = p + f.len();
            if y < p {
                assert(s[x] == prev[x] && s[y] == prev[y]);
            } else if x >= p && y < q {
                assert(s[x] == f[x - p] && s[y] == f[y - p]);
            } else if x >= q {
                assert(s[x] == b[x - q] && s[y] == b[y - q]);
            } else if s[x].1 == s[y].1 {
                if x < p {
                    assert(s[x] == prev[x]);
                    let (c1, s1, k1) = choose|c1: nat, s1: Side, k1: nat| c1 < cards.drop_last().len() && prev[x].1 == #[trigger] export_path(c1, s1, k1, extension_of(prev[x].0));
                    let (s2, k2) = if y < q {
                        assert(s[y] == f[y - p]);
                        let k2 = choose|k: nat| k < c.front.len() && f[y - p].1 == #[trigger] export_path(n, Side::Front, k, extension_of(f[y - p].0));
                        (Side::Front, k2)
                    } else {
                        assert(s[y] == b[y - q]);
                        let k2 = choose|k: nat| k < c.back.len() && b[y - q].1 == #[trigger] export_path(n, Side::Back, k, extension_of(b[y - q].0));
                        (Side::Back, k2)
                    };
                    lemma_export_path_injective(c1, s1, k1, extension_of(s[x].0), n, s2, k2, extension_of(s[y].0));
                } else {
                    assert(s[x] == f[x - p] && s[y] == b[y - q]);
                    let k1 = choose|k: nat| k < c.front.len() && f[x - p].1 == #[trigger] export_path(n, Side::Front, k, extension_of(f[x - p].0));
                    let k2 = choose|k: nat| k < c.back.len() && b[y - q].1 == #[trigger] export_path(n, Side::Back, k, extension_of(b[y - q].0));
                    lemma_export_path_injective(n, Side::Front, k1, extension_of(s[x].0), n, Side::Back, k2, extension_of(s[y].0));
                }
            }
        }
    }
}

proof fn lemma_deck_slots_count(cards: Seq<CardView>, m: nat)
    requires
        forall|i: int| 0 <= i < cards.len() ==> file_block_count((#[trigger] cards[i]).front) + file_block_count(cards[i].back) == m,
    ensures
        deck_slots(cards).len() == cards.len() * m,
    decreases cards.len(),
{
    if cards.len() > 0 {
        let n = (cards.len() - 1) as nat;
        lemma_deck_slots_count(cards.drop_last(), m);
        lemma_side_slots(n, Side::Front, cards.last().front);
        lemma_side_slots(n, Side::Back, cards.last().back);
        assert(cards.last() == cards[cards.len() - 1]);
        assert((cards.len() - 1) * m + m == cards.len() * m) by (nonlinear_arith);
    }
}

proof fn lemma_first_per_source_distinct(s: Seq<(Seq<char>, Seq<char>)>)
    requires
        sources_distinct(s),
    ensures
        first_per_source(s) == s,
    decreases s.len(),
{
    if s.len() > 0 {
        let d = s.drop_last();
        assert(sources_distinct(d)) by {
            assert forall|a: int, b: int| 0 <= a < b < d.len() implies (#[trigger] d[a]).0 != (#[trigger] d[b]).0 by {
                assert(d[a] == s[a] && d[b] == s[b]);
            }
        }
        lemma_first_per_source_distinct(d);
        if has_source(d, s.last().0) {
            let i = choose|i: int| 0 <= i < d.len() && (#[trigger] d[i]).0 == s.last().0;
            assert(s[i].0 == s[s.len() - 1].0);
        }
        assert(d.push(s.last()) =~= s);
    }
}

proof fn lemma_first_per_source_from(s: Seq<(Seq<char>, Seq<char>)>)
    ensures
        forall|b: int| 0 <= b < first_per_source(s).len()
            ==> exists|a: int| 0 <= a < s.len() && #[trigger] first_per_source(s)[b] == s[a],
        sources_distinct(first_per_source(s)),
        paths_distinct(s) ==> paths_distinct(first_per_source(s)),
    decreases s.len(),
{
    if s.len() > 0 {
        let d = s.drop_last();
        let fd = first_per_source(d);
        let f = first_per_source(s);
        lemma_first_per_source_from(d);
        assert forall|b: int| 0 <= b < fd.len() implies exists|a: int| 0 <= a < s.len() && #[trigger] fd[b] == s[a] by {
            let a = choose|a: int| 0 <= a < d.len() && fd[b] == d[a];
            assert(s[a] == d[a]);
        }
        if !has_source(fd, s.last().0) {
            assert(f == fd.push(s.last()));
            assert forall|b: int| 0 <= b < f.len() implies exists|a: int| 0 <= a < s.len() && #[trigger] f[b] == s[a] by {
                if b < fd.len() {
                    assert(f[b] == fd[b]);
                } else {
                    assert(f[b] == s[s.len() - 1]);
                }
            }
            assert forall|x: int, y: int| 0 <= x < y < f.len() implies (#[trigger] f[x]).0 != (#[trigger] f[y]).0 by {
                if y == f.len() - 1 {
                    assert(f[x] == fd[x]);
                } else {
                    assert(f[x] == fd[x] && f[y] == fd[y]);
                }
            }
            if paths_distinct(s) {
                assert(paths_distinct(d)) by {
                    assert forall|x: int, y: int| 0 <= x < y < d.len() implies (#[trigger] d[x]).1 != (#[trigger] d[y]).1 by {
                        assert(d[x] == s[x] && d[y] == s[y]);
                    }
                }
                assert forall|x: int, y: int| 0 <= x < y < f.len() implies (#[trigger] f[x]).1 != (#[trigger] f[y]).1 by {
                    if y == f.len() - 1 {
                        assert(f[x] == fd[x]);
                        let a = choose|a: int| 0 <= a < d.len() && fd[x] == d[a];
                        assert(d[a] == s[a]);
                        assert(f[y] == s[s.len() - 1]);
                    } else {
                        assert(f[x] == fd[x] && f[y] == fd[y]);
                    }
                }
            }
        } else {
            if paths_distinct(s) {
                assert(paths_distinct(d)) by {
                    assert forall|x: int, y: int| 0 <= x < y < d.len() implies (#[trigger] d[x]).1 != (#[trigger] d[y]).1 by {
                        assert(d[x] == s[x] && d[y] == s[y]);
                    }
                }
            }
        }
    }
}

proof fn lemma_pairs_map_lookup(s: Seq<(Seq<char>, Seq<char>)>)
    requires
        sources_distinct(s),
    ensures
        forall|k: int| 0 <= k < s.len() ==> pairs_map(s).contains_key((#[trigger] s[k]).0) && pairs_map(s)[s[k].0] == s[k].1,
        pairs_map(s).dom().finite(),
        pairs_map(s).dom().len() == s.len(),
    decreases s.len(),
{
    if s.len() > 0 {
        let d = s.drop_last();
        lemma_pairs_map_keys(d);
        if pairs_map(d).contains_key(s.last().0) {
            let j = choose|j: int| 0 <= j < d.len() && (#[trigger] d[j]).0 == s.last().0;
            assert(s[j] == d[j]);
            assert(s[j].0 != s[s.len() - 1].0);
        }
        assert(sources_distinct(d)) by {
            assert forall|a: int, b: int| 0 <= a < b < d.len() implies (#[trigger] d[a]).0 != (#[trigger] d[b]).0 by {
                assert(d[a] == s[a] && d[b] == s[b]);
            }
        }
        lemma_pairs_map_lookup(d);
        assert(pairs_map(s).dom() == pairs_map(d).dom().insert(s.last().0));
        assert forall|k: int| 0 <= k < s.len() implies pairs_map(s).contains_key((#[trigger] s[k]).0) && pairs_map(s)[s[k].0] == s[k].1 by {
            if k < s.len() - 1 {
                assert(s[k] == d[k]);
                assert(s[k].0 != s[s.len() - 1].0);
            }
        }
    }
}

/// Whatever the deck, the blobs an archive of it holds have distinct
/// sources and distinct archive paths, all under `files/`; the path map
/// built from them sends each source to its own archive path.
pub proof fn lemma_export_files_distinct(cards: Seq<Card>)
    ensures
        sources_distinct(export_files_of(cards)),
        paths_distinct(export_files_of(cards)),
        forall|k: int| 0 <= k < export_files_of(cards).len() ==> is_blob_entry((#[trigger] export_files_of(cards)[k]).1),
        forall|k: int| 0 <= k < export_files_of(cards).len()
            ==> pairs_map(export_files_of(cards)).contains_key((#[trigger] export_files_of(cards)[k]).0)
                && pairs_map(export_files_of(cards))[export_files_of(cards)[k].0] == export_files_of(cards)[k].1,
{
    let slots = deck_slots(cards_view(cards));
    let f = export_files_of(cards);
    lemma_deck_slots(cards_view(cards));
    lemma_first_per_source_from(slots);
    lemma_pairs_map_lookup(f);
    assert forall|k: int| 0 <= k < f.len() implies is_blob_entry((#[trigger] f[k]).1) by {
        let a = choose|a: int| 0 <= a < slots.len() && f[k] == slots[a];
        assert(deck_placed(slots[a], cards.len()));
        let (c, side, b) = choose|c: nat, side: Side, b: nat| c < cards_view(cards).len()
            && slots[a].1 == #[trigger] export_path(c, side, b, extension_of(slots[a].0));
        lemma_export_path_is_blob_entry(c, side, b, extension_of(slots[a].0));
    }
}

/// The entries of a deck's archive (its metadata document and its blobs)
/// have pairwise distinct names.
pub proof fn lemma_archive_names_distinct(cards: Seq<Card>, metadata: Seq<u8>, files: Seq<ExportFile>, blobs: Seq<Vec<u8>>)
    requires
        files_view(files) == export_files_of(cards),
        blobs.len() == files.len(),
    ensures
        names_distinct(archive_layout(metadata, files, blobs)),
        archive_layout(metadata, files, blobs).len() == export_files_of(cards).len() + 1,
{
    let f = export_files_of(cards);
    let layout = archive_layout(metadata, files, blobs);
    lemma_export_files_distinct(cards);
    reveal_strlit("export.json");
    reveal_strlit("files/");
    assert(!is_blob_entry(metadata_name())) by {
        assert(metadata_name().take(6)[0] != "files/"@[0]);
    }
    assert forall|a: int, b: int| 0 <= a < b < layout.len() implies (#[trigger] layout[a]).0 != (#[trigger] layout[b]).0 by {
        assert(layout[b].0 == files[b - 1].zip_path@);
        assert(files_view(files)[b - 1] == (files[b - 1].src_virtual@, files[b - 1].zip_path@));
        assert(is_blob_entry(f[b - 1].1));
        if a > 0 {
            assert(layout[a].0 == files[a - 1].zip_path@);
            assert(files_view(files)[a - 1] == (files[a - 1].src_virtual@, files[a - 1].zip_path@));
        }
    }
}

/// When no two file-bearing blocks of a deck share a source file and each
/// of its `n` cards has `m` of them, the archive holds `n * m` blobs, all
/// under distinct archive paths, and the path map sends each of the `n * m`
/// sources to its own archive path.
pub proof fn lemma_export_paths_unique(cards: Seq<Card>, m: nat)
    requires
        sources_distinct(deck_slots(cards_view(cards))),
        forall|i: int| 0 <= i < cards.len() ==> file_block_count((#[trigger] cards[i])@.front) + file_block_count(cards[i]@.back) == m,
    ensures
        export_files_of(cards).len() == cards.len() * m,
        paths_distinct(export_files_of(cards)),
        pairs_map(export_files_of(cards)).dom().len() == cards.len() * m,
        forall|k: int| 0 <= k < export_files_of(cards).len()
            ==> pairs_map(export_files_of(cards)).contains_key((#[trigger] export_files_of(cards)[k]).0)
                && pairs_map(export_files_of(cards))[export_files_of(cards)[k].0] == export_files_of(cards)[k].1,
{
    lemma_export_files_distinct(cards);
    lemma_pairs_map_lookup(export_files_of(cards));
    let cv = cards_view(cards);
    assert forall|i: int| 0 <= i < cv.len() implies file_block_count((#[trigger] cv[i]).front) + file_block_count(cv[i].back) == m by {
        assert(cv[i] == cards[i]@);
    }
    lemma_deck_slots_count(cv, m);
    lemma_deck_slots(cv);
    lemma_first_per_source_distinct(deck_slots(cv));
}

/// No block of the cards is file-bearing.
pub open spec fn text_only(cards: Seq<Card>) -> bool {
    forall|i: int| 0 <= i < cards.len() ==> {
        &&& forall|k: int| 0 <= k < (#[trigger] cards[i])@.front.len() ==> !is_file_kind(cards[i]@.front[k].kind)
        &&& forall|k: int| 0 <= k < cards[i]@.back.len() ==> !is_file_kind(cards[i]@.back[k].kind)
    }
}

proof fn lemma_no_file_blocks(bs: Seq<BlockView>, m: Map<Seq<char>, Seq<char>>)
    requires
        forall|k: int| 0 <= k < bs.len() ==> !is_file_kind((#[trigger] bs[k]).kind),
    ensures
        file_block_count(bs) == 0,
        rewrite_blocks(bs, m) == bs,
        forall|p: Seq<char>| !side_references(bs, p),
    decreases bs.len(),
{
    if bs.len() > 0 {
        lemma_no_file_blocks(bs.drop_last(), m);
        assert(!is_file_kind(bs[bs.len() - 1].kind));
    }
    assert(rewrite_blocks(bs, m) =~= bs);
}

/// Exporting cards without file-bearing blocks packs no blob, and importing
/// what was exported gives back the same cards: names, blocks in order,
/// statistics, tags and creation times. Whatever path maps the two sides
/// build, no reference can be missing.
pub proof fn lemma_text_only_round_trip(
    original: Seq<Card>,
    exported: Seq<Card>,
    to_archive: Map<Seq<char>, Seq<char>>,
    from_archive: Map<Seq<char>, Seq<char>>,
)
    requires
        text_only(original),
        exported.len() == original.len(),
        forall|i: int| 0 <= i < original.len() ==> (#[trigger] exported[i])@ == rewrite_card(original[i]@, to_archive),
    ensures
        export_files_of(original).len() == 0,
        forall|p: Seq<char>| !references(exported, p),
        forall|i: int| 0 <= i < original.len() ==> rewrite_card((#[trigger] exported[i])@, from_archive) == original[i]@,
{
    let cv = cards_view(original);
    assert forall|i: int| 0 <= i < original.len() implies
        rewrite_card((#[trigger] exported[i])@, from_archive) == original[i]@
        && file_block_count(original[i]@.front) + file_block_count(original[i]@.back) == 0
        && forall|p: Seq<char>| !side_references(exported[i]@.front, p) && !side_references(exported[i]@.back, p) by {
        let c = original[i]@;
        assert forall|k: int| 0 <= k < c.front.len() implies !is_file_kind((#[trigger] c.front[k]).kind) by {
            assert(text_only(original));
        }
        assert forall|k: int| 0 <= k < c.back.len() implies !is_file_kind((#[trigger] c.back[k]).kind) by {
            assert(text_only(original));
        }
        lemma_no_file_blocks(c.front, to_archive);
        lemma_no_file_blocks(c.back, to_archive);
        lemma_no_file_blocks(c.front, from_archive);
        lemma_no_file_blocks(c.back, from_archive);
    }
    assert forall|i: int| 0 <= i < cv.len() implies file_block_count((#[trigger] cv[i]).front) + file_block_count(cv[i].back) == 0 by {
        assert(cv[i] == original[i]@);
        assert(rewrite_card(exported[i]@, from_archive) == original[i]@);
    }
    lemma_deck_slots_count(cv, 0);
    assert forall|p: Seq<char>| !references(exported, p) by {
        if references(exported, p) {
            let i = choose|i: int| 0 <= i < exported.len() && (side_references((#[trigger] exported[i])@.front, p) || side_references(exported[i]@.back, p));
        }
    }
}

proof fn lemma_export_path_is_blob_entry(card: nat, side: Side, block: nat, ext: Seq<char>)
    ensures
        is_blob_entry(export_path(card, side, block, ext)),
{
    reveal_strlit("files/card_");
    reveal_strlit("files/");
    let p = export_path(card, side, block, ext);
    assert(p =~= "files/card_"@ + (dec(card) + "/"@ + crate::paths::side_name(side) + "_"@ + dec(block) + "."@ + ext));
    assert(p.take(6) =~= "files/"@);
}

/// Exporting a deck of one card whose only file-bearing block is an image
/// on its front packs one blob, the bytes read for the image's source; and
/// importing the entries read back from the archive stores exactly those
/// bytes under a fresh path that the imported image references. Everything
/// else on the card comes back unchanged.
pub proof fn lemma_image_blob_round_trip(
    card: Card,
    src: Seq<char>,
    metadata: Seq<u8>,
    files: Seq<ExportFile>,
    blobs: Seq<Vec<u8>>,
    archive: Seq<u8>,
    exported: Card,
    stored: Seq<StoredBlob>,
    imported: Card,
)
    requires
        card@.front == seq![BlockView { kind: BlockKind::Image, content: src }],
        forall|k: int| 0 <= k < card@.back.len() ==> !is_file_kind((#[trigger] card@.back[k]).kind),
        files_view(files) == export_files_of(seq![card]),
        exported@ == rewrite_card(card@, pairs_map(export_files_of(seq![card]))),
        blobs.len() == files.len(),
        zip_entries_in(archive) == archive_layout(metadata, files, blobs),
        stored.len() == blob_entries(zip_entries_in(archive)).len(),
        forall|k: int| 0 <= k < stored.len() ==> (#[trigger] stored[k]).data@ == blob_entries(zip_entries_in(archive))[k].1,
        imported@ == rewrite_card(exported@, pairs_map(placement(blob_entries(zip_entries_in(archive)), stored))),
    ensures
        files.len() == 1,
        files[0].src_virtual@ == src,
        stored.len() == 1,
        stored[0].data@ == blobs[0]@,
        imported@.front == seq![BlockView { kind: BlockKind::Image, content: stored[0].virtual_path@ }],
        imported@.back == card@.back,
        imported@.name == card@.name,
        imported@.times_seen == card@.times_seen,
        imported@.times_correct == card@.times_correct,
        imported@.tags == card@.tags,
        imported@.created_at == card@.created_at,
{
    let c = card@;
    let cards = seq![card];
    let cv = cards_view(cards);
    assert(cv[0] == c);
    assert(cv.drop_last() =~= Seq::<CardView>::empty());
    let z = export_path(0, Side::Front, 0, extension_of(src));
    let front = c.front;
    assert(front.drop_last() =~= Seq::<BlockView>::empty());
    assert(side_slots(0, Side::Front, front.drop_last()) == Seq::<(Seq<char>, Seq<char>)>::empty());
    assert(front.last() == BlockView { kind: BlockKind::Image, content: src });
    assert(side_slots(0, Side::Front, front) =~= seq![(src, z)]);
    assert(deck_slots(cv.drop_last()) == Seq::<(Seq<char>, Seq<char>)>::empty());
    lemma_side_slots(0, Side::Back, c.back);
    lemma_no_file_blocks(c.back, Map::empty());
    assert(side_slots(0, Side::Back, c.back).len() == 0);
    assert(deck_slots(cv) =~= seq![(src, z)]);
    let slots = seq![(src, z)];
    assert(slots.drop_last() =~= Seq::<(Seq<char>, Seq<char>)>::empty());
    assert(first_per_source(slots.drop_last()) == Seq::<(Seq<char>, Seq<char>)>::empty());
    assert(!has_source(Seq::<(Seq<char>, Seq<char>)>::empty(), src));
    assert(first_per_source(slots) =~= slots);
    assert(export_files_of(cards) =~= slots);
    assert(files_view(files)[0] == (files[0].src_virtual@, files[0].zip_path@));
    let m1 = pairs_map(slots);
    assert(pairs_map(slots.drop_last()) == Map::<Seq<char>, Seq<char>>::empty());
    assert(m1 == Map::<Seq<char>, Seq<char>>::empty().insert(src, z));
    lemma_no_file_blocks(c.back, m1);
    assert(exported@.front =~= seq![BlockView { kind: BlockKind::Image, content: z }]);
    assert(exported@.back == c.back);
    // the archive's entries: metadata, then the one blob
    let layout = archive_layout(metadata, files, blobs);
    reveal_strlit("export.json");
    reveal_strlit("files/");
    assert(layout =~= seq![(metadata_name(), metadata), (z, blobs[0]@)]);
    lemma_export_path_is_blob_entry(0, Side::Front, 0, extension_of(src));
    assert(!is_blob_entry(metadata_name())) by {
        assert(metadata_name().take(6)[0] != "files/"@[0]);
    }
    assert(layout.drop_last() =~= seq![(metadata_name(), metadata)]);
    assert(layout.drop_last().drop_last() =~= Seq::<(Seq<char>, Seq<u8>)>::empty());
    let be = blob_entries(layout);
    assert(blob_entries(layout.drop_last().drop_last()) == Seq::<(Seq<char>, Seq<u8>)>::empty());
    assert(blob_entries(layout.drop_last()) == Seq::<(Seq<char>, Seq<u8>)>::empty());
    assert(be =~= seq![(z, blobs[0]@)]);
    let pl = placement(be, stored);
    assert(pl =~= seq![(z, stored[0].virtual_path@)]);
    assert(pl.drop_last() =~= Seq::<(Seq<char>, Seq<char>)>::empty());
    let m2 = pairs_map(pl);
    assert(pairs_map(pl.drop_last()) == Map::<Seq<char>, Seq<char>>::empty());
    assert(m2 == Map::<Seq<char>, Seq<char>>::empty().insert(z, stored[0].virtual_path@));
    lemma_no_file_blocks(c.back, m2);
    assert(imported@.front =~= seq![BlockView { kind: BlockKind::Image, content: stored[0].virtual_path@ }]);
}

/// For `n` cards with `m` file-bearing blocks each and no shared source
/// file, the archive holds the metadata document and `n * m` blobs, all
/// under pairwise distinct names.
pub proof fn lemma_archive_entries_unique(
    cards: Seq<Card>,
    m: nat,
    metadata: Seq<u8>,
    files: Seq<ExportFile>,
    blobs: Seq<Vec<u8>>,
)
    requires
        sources_distinct(deck_slots(cards_view(cards))),
        forall|i: int| 0 <= i < cards.len() ==> file_block_count((#[trigger] cards[i])@.front) + file_block_count(cards[i]@.back) == m,
        files_view(files) == export_files_of(cards),
        blobs.len() == files.len(),
    ensures
        archive_layout(metadata, files, blobs).len() == cards.len() * m + 1,
        names_distinct(archive_layout(metadata, files, blobs)),
{
    lemma_export_paths_unique(cards, m);
    lemma_archive_names_distinct(cards, metadata, files, blobs);
}

} // verus!
