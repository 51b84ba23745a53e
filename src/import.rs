//! The import unpacker: from an archive's metadata and entries to the blobs
//! to store and the cards to create, with every file reference remapped.
use vstd::prelude::*;
use vstd::string::StrSliceExecFns;
use vstd::string::StringExecFns;
use crate::error::PortError;
use crate::export::{rewrite_block, rewrite_blocks, rewrite_card, DeckExport, EXPORT_VERSION};
use crate::model::{blocks_view, is_file_kind, Block, BlockView, Card, CardView};
use crate::pathmap::{pairs_map, PathMap};
use crate::paths::{extension, extension_of};

verus! {

/// One named entry of an archive.
#[derive(Clone, Debug, PartialEq)]
pub struct ArchiveEntry {
    pub name: String,
    pub data: Vec<u8>,
}

pub open spec fn entry_view(e: ArchiveEntry) -> (Seq<char>, Seq<u8>) {
    (e.name@, e.data@)
}

pub open spec fn entries_view(es: Seq<ArchiveEntry>) -> Seq<(Seq<char>, Seq<u8>)> {
    es.map_values(|e: ArchiveEntry| entry_view(e))
}

/// Bytes to place in the file store under a fresh virtual path.
#[derive(Clone, Debug, PartialEq)]
pub struct StoredBlob {
    pub virtual_path: String,
    pub data: Vec<u8>,
}

/// What importing an archive creates: the blobs to store, a deck of the
/// given name, and its cards in order, their file references pointing at
/// the new blobs. `paths` maps each archive path to its new virtual path.
pub struct ImportPlan {
    pub deck_name: String,
    pub blobs: Vec<StoredBlob>,
    pub cards: Vec<Card>,
    pub paths: PathMap,
}

/// Entries under `files/` carry blobs.
pub open spec fn is_blob_entry(name: Seq<char>) -> bool {
    name.len() >= 6 && name.take(6) == "files/"@
}

/// The blob entries of an archive, in order.
pub open spec fn blob_entries(es: Seq<(Seq<char>, Seq<u8>)>) -> Seq<(Seq<char>, Seq<u8>)>
    decreases es.len(),
{
    if es.len() == 0 {
        Seq::empty()
    } else if is_blob_entry(es.last().0) {
        blob_entries(es.drop_last()).push(es.last())
    } else {
        blob_entries(es.drop_last())
    }
}

/// Archive path of each blob entry, paired with the virtual path its blob
/// was stored under.
pub open spec fn placement(entries: Seq<(Seq<char>, Seq<u8>)>, blobs: Seq<StoredBlob>) -> Seq<(Seq<char>, Seq<char>)> {
    Seq::new(blobs.len(), |k: int| (entries[k].0, blobs[k].virtual_path@))
}

pub open spec fn side_references(bs: Seq<BlockView>, p: Seq<char>) -> bool {
    exists|k: int| 0 <= k < bs.len() && is_file_kind((#[trigger] bs[k]).kind) && bs[k].content == p
}

/// Some file-bearing block of the cards references `p`.
pub open spec fn references(cards: Seq<Card>, p: Seq<char>) -> bool {
    exists|i: int| 0 <= i < cards.len() && (side_references((#[trigger] cards[i])@.front, p) || side_references(cards[i]@.back, p))
}

/// Some blob entry of the archive is named `p`.
pub open spec fn has_blob_entry(entries: Seq<(Seq<char>, Seq<u8>)>, p: Seq<char>) -> bool {
    exists|i: int| 0 <= i < entries.len() && (#[trigger] entries[i]).0 == p && is_blob_entry(p)
}

/// Every file reference of the cards names a blob entry of the archive.
pub open spec fn all_references_present(cards: Seq<Card>, entries: Seq<(Seq<char>, Seq<u8>)>) -> bool {
    forall|p: Seq<char>| references(cards, p) ==> has_blob_entry(entries, p)
}

pub(crate) proof fn lemma_pairs_map_keys(s: Seq<(Seq<char>, Seq<char>)>)
    ensures
        forall|p: Seq<char>| #[trigger] pairs_map(s).contains_key(p)
            <==> exists|k: int| 0 <= k < s.len() && (#[trigger] s[k]).0 == p,
    decreases s.len(),
{
    if s.len() > 0 {
        lemma_pairs_map_keys(s.drop_last());
        assert forall|p: Seq<char>| #[trigger] pairs_map(s).contains_key(p)
            <==> exists|k: int| 0 <= k < s.len() && (#[trigger] s[k]).0 == p by {
            if pairs_map(s.drop_last()).contains_key(p) {
                let k = choose|k: int| 0 <= k < s.drop_last().len() && (#[trigger] s.drop_last()[k]).0 == p;
                assert(s[k].0 == p);
            }
            if exists|k: int| 0 <= k < s.len() && (#[trigger] s[k]).0 == p {
                let k = choose|k: int| 0 <= k < s.len() && (#[trigger] s[k]).0 == p;
                if k < s.len() - 1 {
                    assert(s.drop_last()[k].0 == p);
                }
            }
        }
    }
}

proof fn lemma_blob_entries_names(es: Seq<(Seq<char>, Seq<u8>)>)
    ensures
        forall|p: Seq<char>| has_blob_entry(es, p)
            <==> exists|k: int| 0 <= k < blob_entries(es).len() && (#[trigger] blob_entries(es)[k]).0 == p,
    decreases es.len(),
{
    if es.len() > 0 {
        let d = es.drop_last();
        lemma_blob_entries_names(d);
        let be = blob_entries(es);
        assert forall|p: Seq<char>| has_blob_entry(es, p)
            <==> exists|k: int| 0 <= k < be.len() && (#[trigger] be[k]).0 == p by {
            if has_blob_entry(es, p) {
                let i = choose|i: int| 0 <= i < es.len() && (#[trigger] es[i]).0 == p && is_blob_entry(p);
                if i < es.len() - 1 {
                    assert(d[i].0 == p);
                    assert(has_blob_entry(d, p));
                    let k = choose|k: int| 0 <= k < blob_entries(d).len() && (#[trigger] blob_entries(d)[k]).0 == p;
                    assert(be[k] == blob_entries(d)[k]);
                } else {
                    assert(be.last().0 == p);
                }
            }
            if exists|k: int| 0 <= k < be.len() && (#[trigger] be[k]).0 == p {
                let k = choose|k: int| 0 <= k < be.len() && (#[trigger] be[k]).0 == p;
                if k < blob_entries(d).len() {
                    assert(blob_entries(d)[k] == be[k]);
                    assert(has_blob_entry(d, p));
                    let i = choose|i: int| 0 <= i < d.len() && (#[trigger] d[i]).0 == p && is_blob_entry(p);
                    assert(es[i] == d[i]);
                } else {
                    assert(es.last() == be[k]);
                    assert(es[es.len() - 1].0 == p);
                }
            }
        }
    }
}

proof fn lemma_placement_keys(es: Seq<(Seq<char>, Seq<u8>)>, blobs: Seq<StoredBlob>)
    requires
        blobs.len() == blob_entries(es).len(),
    ensures
        forall|p: Seq<char>| #[trigger] pairs_map(placement(blob_entries(es), blobs)).contains_key(p)
            <==> has_blob_entry(es, p),
{
    let be = blob_entries(es);
    let pl = placement(be, blobs);
    lemma_pairs_map_keys(pl);
    lemma_blob_entries_names(es);
    assert forall|p: Seq<char>| #[trigger] pairs_map(pl).contains_key(p) <==> has_blob_entry(es, p) by {
        if pairs_map(pl).contains_key(p) {
            let k = choose|k: int| 0 <= k < pl.len() && (#[trigger] pl[k]).0 == p;
            assert(be[k].0 == p);
        }
        if has_blob_entry(es, p) {
            let k = choose|k: int| 0 <= k < be.len() && (#[trigger] be[k]).0 == p;
            assert(pl[k].0 == p);
        }
    }
}

/// Accepts exactly the archive format version this library writes.
pub fn check_export_version(version: u32) -> (r: Result<(), PortError>)
    ensures
        r is Ok <==> version == EXPORT_VERSION,
        r is Err ==> r == Err::<(), PortError>(PortError::UnsupportedVersion { got: version, supported: EXPORT_VERSION }),
{
    if version == EXPORT_VERSION {
        Ok(())
    } else {
        Err(PortError::UnsupportedVersion { got: version, supported: EXPORT_VERSION })
    }
}

/// Whether an entry name lies under `files/`.
pub fn is_blob_entry_name(name: &str) -> (r: bool)
    ensures
        r == is_blob_entry(name@),
{
    let prefix = "files/";
    proof {
        reveal_strlit("files/");
        assert(prefix@.len() == 6);
    }
    let n = name.unicode_len();
    if n < 6 {
        return false;
    }
    let mut k: usize = 0;
    while k < 6
        invariant
            k <= 6 <= n == name@.len(),
            prefix@ == "files/"@,
            prefix@.len() == 6,
            forall|j: int| 0 <= j < k ==> name@[j] == prefix@[j],
        decreases 6 - k,
    {
        if name.get_char(k) != prefix.get_char(k) {
            assert(name@.take(6)[k as int] != "files/"@[k as int]);
            return false;
        }
        k += 1;
    }
    assert(name@.take(6) =~= "files/"@);
    true
}

/// Relies on `uuid::Uuid::new_v4` and its `Display`: a random version-4
/// identifier in hyphenated form, 36 characters long.
#[verifier::external_body]
fn random_token() -> (r: String)
    ensures
        r@.len() == 36,
{
    uuid::Uuid::new_v4().to_string()
}

/// `path` is `files/<token>.<ext>` for a 36-character token and the
/// extension of `name`.
pub open spec fn fresh_for(path: Seq<char>, name: Seq<char>) -> bool {
    exists|t: Seq<char>| t.len() == 36 && path == "files/"@ + t + "."@ + extension_of(name)
}

/// A fresh virtual path `files/<random token>.<ext>` for a blob whose
/// original name is `name`.
pub fn fresh_virtual_path(name: &str) -> (r: String)
    ensures
        fresh_for(r@, name@),
{
    let token = random_token();
    let mut p = String::from_str("files/");
    p.append(token.as_str());
    p.append(".");
    let ext = extension(name);
    p.append(ext.as_str());
    p
}

fn copy_bytes(b: &Vec<u8>) -> (r: Vec<u8>)
    ensures
        r@ == b@,
{
    let mut r: Vec<u8> = Vec::new();
    let mut i: usize = 0;
    while i < b.len()
        invariant
            i <= b.len(),
            r@ == b@.take(i as int),
        decreases b.len() - i,
    {
        r.push(b[i]);
        i += 1;
        assert(r@ =~= b@.take(i as int));
    }
    assert(b@.take(b.len() as int) =~= b@);
    r
}

/// Copies each blob entry of the archive under a fresh virtual path, and
/// records where each went.
pub fn extract_blobs(entries: &Vec<ArchiveEntry>) -> (r: (Vec<StoredBlob>, PathMap))
    ensures
        r.0@.len() == blob_entries(entries_view(entries@)).len(),
        forall|k: int| 0 <= k < r.0@.len() ==> (#[trigger] r.0@[k]).data@ == blob_entries(entries_view(entries@))[k].1,
        forall|k: int| 0 <= k < r.0@.len() ==> fresh_for(#[trigger] r.0@[k].virtual_path@, blob_entries(entries_view(entries@))[k].0),
        r.1@ == pairs_map(placement(blob_entries(entries_view(entries@)), r.0@)),
{
    let ghost ev = entries_view(entries@);
    let mut blobs: Vec<StoredBlob> = Vec::new();
    let mut paths = PathMap::new();
    let mut i: usize = 0;
    assert(ev.take(0) =~= Seq::<(Seq<char>, Seq<u8>)>::empty());
    assert(placement(blob_entries(ev.take(0)), blobs@) =~= Seq::<(Seq<char>, Seq<char>)>::empty());
    while i < entries.len()
        invariant
            i <= entries@.len(),
            ev == entries_view(entries@),
            blobs@.len() == blob_entries(ev.take(i as int)).len(),
            forall|k: int| 0 <= k < blobs@.len() ==> (#[trigger] blobs@[k]).data@ == blob_entries(ev.take(i as int))[k].1,
            forall|k: int| 0 <= k < blobs@.len() ==> fresh_for(#[trigger] blobs@[k].virtual_path@, blob_entries(ev.take(i as int))[k].0),
            paths@ == pairs_map(placement(blob_entries(ev.take(i as int)), blobs@)),
        decreases entries.len() - i,
    {
        let e = &entries[i];
        assert(ev.take(i + 1).drop_last() =~= ev.take(i as int));
        assert(ev.take(i + 1).last() == entry_view(*e));
        if is_blob_entry_name(e.name.as_str()) {
            let ghost old_blobs = blobs@;
            let ghost be = blob_entries(ev.take(i as int));
            let fresh = fresh_virtual_path(e.name.as_str());
            paths.insert(e.name.clone(), fresh.clone());
            blobs.push(StoredBlob { virtual_path: fresh, data: copy_bytes(&e.data) });
            let ghost be2 = blob_entries(ev.take(i + 1));
            assert(be2 == be.push(entry_view(*e)));
            assert(placement(be2, blobs@).drop_last() =~= placement(be, old_blobs));
        }
        i += 1;
    }
    assert(ev.take(entries.len() as int) =~= ev);
    (blobs, paths)
}

/// The cards' blocks with every file reference replaced by the path the map
/// gives; the first reference the map lacks is the error.
fn import_side(blocks: &Vec<Block>, paths: &PathMap) -> (r: Result<Vec<Block>, String>)
    ensures
        match r {
            Ok(bs) => blocks_view(bs@) == rewrite_blocks(blocks_view(blocks@), paths@)
                && forall|k: int| 0 <= k < blocks@.len() && is_file_kind((#[trigger] blocks@[k])@.kind)
                    ==> paths@.contains_key(blocks@[k]@.content),
            Err(p) => side_references(blocks_view(blocks@), p@) && !paths@.contains_key(p@),
        },
{
    let mut r: Vec<Block> = Vec::new();
    let mut i: usize = 0;
    while i < blocks.len()
        invariant
            i <= blocks.len(),
            r@.len() == i,
            forall|k: int| 0 <= k < i ==> (#[trigger] r@[k])@ == rewrite_block(blocks@[k]@, paths@),
            forall|k: int| 0 <= k < i && is_file_kind((#[trigger] blocks@[k])@.kind) ==> paths@.contains_key(blocks@[k]@.content),
        decreases blocks.len() - i,
    {
        let mut b = blocks[i].duplicate();
        match blocks[i].file_path() {
            Some(p) => match paths.get(p) {
                Some(np) => b.set_file_path(np.clone()),
                None => {
                    assert(blocks_view(blocks@)[i as int] == blocks@[i as int]@);
                    return Err(p.clone());
                },
            },
            None => {},
        }
        r.push(b);
        i += 1;
    }
    assert(blocks_view(r@) =~= rewrite_blocks(blocks_view(blocks@), paths@));
    Ok(r)
}

/// Turns an archive's metadata and entries into what importing it creates.
/// Identifiers in the archive are not reused: the plan carries names,
/// blocks and statistics only.
pub fn import_deck_export(export: &DeckExport, entries: &Vec<ArchiveEntry>) -> (r: Result<ImportPlan, PortError>)
    ensures
        (r matches Err(PortError::UnsupportedVersion { .. })) <==> export.export_version != EXPORT_VERSION,
        export.export_version == EXPORT_VERSION && all_references_present(export.cards@, entries_view(entries@))
            ==> r is Ok,
        r is Ok ==> all_references_present(export.cards@, entries_view(entries@)),
        r is Ok || r matches Err(PortError::UnsupportedVersion { .. }) || r matches Err(PortError::MissingBlob { .. }),
        r matches Err(PortError::UnsupportedVersion { got, supported })
            ==> got == export.export_version && supported == EXPORT_VERSION,
        r matches Err(PortError::MissingBlob { path }) ==> references(export.cards@, path@)
            && !has_blob_entry(entries_view(entries@), path@),
        r matches Ok(plan) ==> {
            let be = blob_entries(entries_view(entries@));
            &&& plan.deck_name@ == export.deck.name@
            &&& plan.blobs@.len() == be.len()
            &&& forall|k: int| 0 <= k < be.len() ==> (#[trigger] plan.blobs@[k]).data@ == be[k].1
            &&& forall|k: int| 0 <= k < be.len() ==> fresh_for(#[trigger] plan.blobs@[k].virtual_path@, be[k].0)
            &&& plan.paths@ == pairs_map(placement(be, plan.blobs@))
            &&& plan.cards@.len() == export.cards@.len()
            &&& forall|i: int| 0 <= i < export.cards@.len()
                ==> (#[trigger] plan.cards@[i])@ == rewrite_card(export.cards@[i]@, plan.paths@)
        },
{
    match check_export_version(export.export_version) {
        Ok(()) => {},
        Err(e) => {
            return Err(e);
        },
    }
    let (blobs, paths) = extract_blobs(entries);
    proof {
        lemma_placement_keys(entries_view(entries@), blobs@);
    }
    let mut cards: Vec<Card> = Vec::new();
    let mut i: usize = 0;
    while i < export.cards.len()
        invariant
            i <= export.cards@.len(),
            cards@.len() == i,
            forall|k: int| 0 <= k < i ==> (#[trigger] cards@[k])@ == rewrite_card(export.cards@[k]@, paths@),
            forall|k: int, p: Seq<char>|
                #![trigger side_references(export.cards@[k]@.front, p)]
                #![trigger side_references(export.cards@[k]@.back, p)]
                0 <= k < i && (side_references(export.cards@[k]@.front, p) || side_references(export.cards@[k]@.back, p))
                    ==> paths@.contains_key(p),
            forall|p: Seq<char>| #[trigger] paths@.contains_key(p) <==> has_blob_entry(entries_view(entries@), p),
            export.export_version == EXPORT_VERSION,
        decreases export.cards.len() - i,
    {
        let c = &export.cards[i];
        let front = match import_side(&c.front_blocks, &paths) {
            Ok(bs) => bs,
            Err(p) => {
                assert(references(export.cards@, p@));
                return Err(PortError::MissingBlob { path: p });
            },
        };
        let back = match import_side(&c.back_blocks, &paths) {
            Ok(bs) => bs,
            Err(p) => {
                assert(references(export.cards@, p@));
                return Err(PortError::MissingBlob { path: p });
            },
        };
        let copy = c.duplicate();
        cards.push(Card { front_blocks: front, back_blocks: back, ..copy });
        proof {
            assert forall|p: Seq<char>| side_references(c@.front, p) || side_references(c@.back, p) implies paths@.contains_key(p) by {
                if side_references(c@.front, p) {
                    let k = choose|k: int| 0 <= k < c@.front.len() && is_file_kind((#[trigger] c@.front[k]).kind) && c@.front[k].content == p;
                    assert(c.front_blocks@[k]@ == c@.front[k]);
                } else {
                    let k = choose|k: int| 0 <= k < c@.back.len() && is_file_kind((#[trigger] c@.back[k]).kind) && c@.back[k].content == p;
                    assert(c.back_blocks@[k]@ == c@.back[k]);
                }
            }
        }
        i += 1;
    }
    assert forall|p: Seq<char>| references(export.cards@, p) implies has_blob_entry(entries_view(entries@), p) by {
        let k = choose|k: int| 0 <= k < export.cards@.len() && (side_references((#[trigger] export.cards@[k])@.front, p) || side_references(export.cards@[k]@.back, p));
    }
    Ok(ImportPlan { deck_name: export.deck.name.clone(), blobs, cards, paths })
}

} // verus!
