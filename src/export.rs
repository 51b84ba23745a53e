//! The export packager: which blobs go into an archive, under which paths,
//! and the card snapshots that reference them.
use vstd::prelude::*;
use crate::model::{blocks_view, cards_view, is_file_kind, with_path, Block, BlockView, Card, CardView, Deck};
use crate::pathmap::{pairs_map, PathMap};
use crate::paths::{derive_export_path, export_path, extension_of, Side};

verus! {

/// The archive format version this library writes.
pub const EXPORT_VERSION: u32 = 2;

/// The metadata document of an archive.
#[derive(Clone, Debug)]
pub struct DeckExport {
    pub export_version: u32,
    pub deck: Deck,
    pub cards: Vec<Card>,
}

/// A blob to pack: its virtual path in the store and its path in the archive.
#[derive(Clone, Debug, PartialEq)]
pub struct ExportFile {
    pub src_virtual: String,
    pub zip_path: String,
}

pub open spec fn file_view(f: ExportFile) -> (Seq<char>, Seq<char>) {
    (f.src_virtual@, f.zip_path@)
}

pub open spec fn files_view(fs: Seq<ExportFile>) -> Seq<(Seq<char>, Seq<char>)> {
    fs.map_values(|f: ExportFile| file_view(f))
}

/// One entry per file-bearing block of one side, in block order: the block's
/// source path and the archive path its position gives.
pub open spec fn side_slots(card: nat, side: Side, blocks: Seq<BlockView>) -> Seq<(Seq<char>, Seq<char>)>
    decreases blocks.len(),
{
    if blocks.len() == 0 {
        Seq::empty()
    } else {
        let prev = side_slots(card, side, blocks.drop_last());
        let b = blocks.last();
        if is_file_kind(b.kind) {
            prev.push((b.content, export_path(card, side, (blocks.len() - 1) as nat, extension_of(b.content))))
        } else {
            prev
        }
    }
}

pub open spec fn card_slots(card: nat, c: CardView) -> Seq<(Seq<char>, Seq<char>)> {
    side_slots(card, Side::Front, c.front) + side_slots(card, Side::Back, c.back)
}

/// The slots of all cards, card by card, front before back.
pub open spec fn deck_slots(cards: Seq<CardView>) -> Seq<(Seq<char>, Seq<char>)>
    decreases cards.len(),
{
    if cards.len() == 0 {
        Seq::empty()
    } else {
        deck_slots(cards.drop_last()) + card_slots((cards.len() - 1) as nat, cards.last())
    }
}

pub open spec fn has_source(fs: Seq<(Seq<char>, Seq<char>)>, src: Seq<char>) -> bool {
    exists|i: int| 0 <= i < fs.len() && (#[trigger] fs[i]).0 == src
}

/// The slots with each source path kept at its first occurrence only.
pub open spec fn first_per_source(s: Seq<(Seq<char>, Seq<char>)>) -> Seq<(Seq<char>, Seq<char>)>
    decreases s.len(),
{
    if s.len() == 0 {
        Seq::empty()
    } else {
        let d = first_per_source(s.drop_last());
        if has_source(d, s.last().0) {
            d
        } else {
            d.push(s.last())
        }
    }
}

/// The blobs an archive of these cards holds.
pub open spec fn export_files_of(cards: Seq<Card>) -> Seq<(Seq<char>, Seq<char>)> {
    first_per_source(deck_slots(cards_view(cards)))
}

/// A block as it is written into an archive: its path is replaced by the
/// one the map gives, when the map has it.
pub open spec fn rewrite_block(b: BlockView, m: Map<Seq<char>, Seq<char>>) -> BlockView {
    if is_file_kind(b.kind) && m.contains_key(b.content) {
        with_path(b, m[b.content])
    } else {
        b
    }
}

pub open spec fn rewrite_blocks(bs: Seq<BlockView>, m: Map<Seq<char>, Seq<char>>) -> Seq<BlockView> {
    bs.map_values(|b: BlockView| rewrite_block(b, m))
}

pub open spec fn rewrite_card(c: CardView, m: Map<Seq<char>, Seq<char>>) -> CardView {
    CardView { front: rewrite_blocks(c.front, m), back: rewrite_blocks(c.back, m), ..c }
}

fn contains_source(files: &Vec<ExportFile>, src: &String) -> (r: bool)
    ensures
        r == has_source(files_view(files@), src@),
{
    let mut k: usize = 0;
    while k < files.len()
        invariant
            k <= files.len(),
            forall|j: int| 0 <= j < k ==> (#[trigger] files@[j]).src_virtual@ != src@,
        decreases files.len() - k,
    {
        if files[k].src_virtual == *src {
            assert(files_view(files@)[k as int].0 == src@);
            return true;
        }
        k += 1;
    }
    assert forall|i: int| 0 <= i < files_view(files@).len() implies (#[trigger] files_view(files@)[i]).0 != src@ by {
        assert(files_view(files@)[i] == file_view(files@[i]));
    }
    false
}

fn push_side_files(
    files: &mut Vec<ExportFile>,
    card_index: usize,
    side: Side,
    blocks: &Vec<Block>,
    Ghost(before): Ghost<Seq<(Seq<char>, Seq<char>)>>,
)
    requires
        files_view(old(files)@) == first_per_source(before),
    ensures
        files_view(final(files)@) == first_per_source(before + side_slots(card_index as nat, side, blocks_view(blocks@))),
{
    let ghost bv = blocks_view(blocks@);
    let mut i: usize = 0;
    assert(before + side_slots(card_index as nat, side, bv.take(0)) =~= before);
    while i < blocks.len()
        invariant
            i <= blocks.len(),
            bv == blocks_view(blocks@),
            files_view(files@) == first_per_source(before + side_slots(card_index as nat, side, bv.take(i as int))),
        decreases blocks.len() - i,
    {
        let ghost seen = before + side_slots(card_index as nat, side, bv.take(i as int));
        assert(bv.take(i + 1).drop_last() =~= bv.take(i as int));
        assert(bv.take(i + 1).last() == blocks@[i as int]@);
        match blocks[i].file_path() {
            Some(src) => {
                let zip_path = derive_export_path(card_index, i, side, src.as_str());
                let ghost slot = (src@, zip_path@);
                assert(before + side_slots(card_index as nat, side, bv.take(i + 1)) =~= seen.push(slot));
                assert(seen.push(slot).drop_last() =~= seen);
                if !contains_source(files, src) {
                    files.push(ExportFile { src_virtual: src.clone(), zip_path });
                    assert(files_view(files@) =~= first_per_source(seen).push(slot));
                }
            },
            None => {
                assert(before + side_slots(card_index as nat, side, bv.take(i + 1)) =~= seen);
            },
        }
        i += 1;
    }
    assert(bv.take(blocks.len() as int) =~= bv);
}

/// The blobs to pack for these cards: one entry per distinct source path,
/// at the archive path of the first block that references it.
pub fn collect_export_files(cards: &[Card]) -> (r: Vec<ExportFile>)
    ensures
        files_view(r@) == export_files_of(cards@),
{
    let ghost cv = cards_view(cards@);
    let mut files: Vec<ExportFile> = Vec::new();
    let mut ci: usize = 0;
    assert(files_view(files@) =~= first_per_source(deck_slots(cv.take(0))));
    while ci < cards.len()
        invariant
            ci <= cards@.len(),
            cv == cards_view(cards@),
            files_view(files@) == first_per_source(deck_slots(cv.take(ci as int))),
        decreases cards.len() - ci,
    {
        let card = &cards[ci];
        let ghost prefix = deck_slots(cv.take(ci as int));
        push_side_files(&mut files, ci, Side::Front, &card.front_blocks, Ghost(prefix));
        let ghost mid = prefix + side_slots(ci as nat, Side::Front, blocks_view(card.front_blocks@));
        push_side_files(&mut files, ci, Side::Back, &card.back_blocks, Ghost(mid));
        assert(cv.take(ci + 1).drop_last() =~= cv.take(ci as int));
        assert(cv.take(ci + 1).last() == card@);
        assert(deck_slots(cv.take(ci + 1)) =~= mid + side_slots(ci as nat, Side::Back, blocks_view(card.back_blocks@)));
        ci += 1;
    }
    assert(cv.take(cards.len() as int) =~= cv);
    files
}

/// The map from source path to archive path that the entries describe.
pub fn build_export_path_map(export_files: &[ExportFile]) -> (r: PathMap)
    ensures
        r@ == pairs_map(files_view(export_files@)),
{
    let ghost fv = files_view(export_files@);
    let mut map = PathMap::new();
    let mut i: usize = 0;
    assert(fv.take(0) =~= Seq::<(Seq<char>, Seq<char>)>::empty());
    while i < export_files.len()
        invariant
            i <= export_files@.len(),
            fv == files_view(export_files@),
            map@ == pairs_map(fv.take(i as int)),
        decreases export_files.len() - i,
    {
        let f = &export_files[i];
        map.insert(f.src_virtual.clone(), f.zip_path.clone());
        assert(fv.take(i + 1).drop_last() =~= fv.take(i as int));
        i += 1;
    }
    assert(fv.take(export_files.len() as int) =~= fv);
    map
}

fn rewrite_side(blocks: &Vec<Block>, path_map: &PathMap) -> (r: Vec<Block>)
    ensures
        blocks_view(r@) == rewrite_blocks(blocks_view(blocks@), path_map@),
{
    let mut r: Vec<Block> = Vec::new();
    let mut i: usize = 0;
    while i < blocks.len()
        invariant
            i <= blocks.len(),
            r@.len() == i,
            forall|k: int| 0 <= k < i ==> (#[trigger] r@[k])@ == rewrite_block(blocks@[k]@, path_map@),
        decreases blocks.len() - i,
    {
        let mut b = blocks[i].duplicate();
        match blocks[i].file_path() {
            Some(p) => match path_map.get(p) {
                Some(np) => b.set_file_path(np.clone()),
                None => {},
            },
            None => {},
        }
        r.push(b);
        i += 1;
    }
    assert(blocks_view(r@) =~= rewrite_blocks(blocks_view(blocks@), path_map@));
    r
}

/// Rewrites one card for the archive.
pub fn rewrite_card_paths(card: &Card, path_map: &PathMap) -> (r: Card)
    ensures
        r@ == rewrite_card(card@, path_map@),
{
    let c = card.duplicate();
    Card {
        front_blocks: rewrite_side(&card.front_blocks, path_map),
        back_blocks: rewrite_side(&card.back_blocks, path_map),
        ..c
    }
}

/// Copies of the cards whose file-bearing blocks reference the archive
/// paths that the map gives.
pub fn rewrite_cards_for_export(cards: &[Card], path_map: &PathMap) -> (r: Vec<Card>)
    ensures
        r@.len() == cards@.len(),
        forall|i: int| 0 <= i < cards@.len() ==> (#[trigger] r@[i])@ == rewrite_card(cards@[i]@, path_map@),
{
    let mut r: Vec<Card> = Vec::new();
    let mut i: usize = 0;
    while i < cards.len()
        invariant
            i <= cards@.len(),
            r@.len() == i,
            forall|k: int| 0 <= k < i ==> (#[trigger] r@[k])@ == rewrite_card(cards@[k]@, path_map@),
        decreases cards.len() - i,
    {
        r.push(rewrite_card_paths(&cards[i], path_map));
        i += 1;
    }
    r
}

/// Everything an archive of the deck holds besides the blob bytes: the
/// metadata document, whose cards reference archive paths, and the blobs to
/// pack.
pub fn package_deck(deck: &Deck, cards: &Vec<Card>) -> (r: (DeckExport, Vec<ExportFile>))
    ensures
        files_view(r.1@) == export_files_of(cards@),
        r.0.export_version == EXPORT_VERSION,
        r.0.deck.id == deck.id,
        r.0.deck.name@ == deck.name@,
        r.0.deck.created_at == deck.created_at,
        r.0.deck.card_count == deck.card_count,
        r.0.cards@.len() == cards@.len(),
        forall|i: int| 0 <= i < cards@.len()
            ==> (#[trigger] r.0.cards@[i])@ == rewrite_card(cards@[i]@, pairs_map(export_files_of(cards@))),
{
    let files = collect_export_files(cards.as_slice());
    let path_map = build_export_path_map(files.as_slice());
    let exported = rewrite_cards_for_export(cards.as_slice(), &path_map);
    (DeckExport { export_version: EXPORT_VERSION, deck: deck.duplicate(), cards: exported }, files)
}

} // verus!
