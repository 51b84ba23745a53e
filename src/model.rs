//! Decks, cards and the typed content blocks that make up a card's sides.
use vstd::prelude::*;

verus! {

/// The four kinds of content a block can hold.
#[derive(Clone, Copy, Debug, PartialEq, Eq, Structural)]
pub enum BlockKind {
    Text,
    Math,
    Image,
    File,
}

/// Mathematical view of a block: its kind and the one string it carries
/// (the text, the formula markup, or the virtual path of the blob).
pub struct BlockView {
    pub kind: BlockKind,
    pub content: Seq<char>,
}

/// One typed unit of content on a card side.
#[derive(Clone, Debug, PartialEq)]
pub enum Block {
    Text { value: String },
    Math { value: String },
    Image { src: String },
    File { path: String },
}

impl View for Block {
    type V = BlockView;

    open spec fn view(&self) -> BlockView {
        match self {
            Block::Text { value } => BlockView { kind: BlockKind::Text, content: value@ },
            Block::Math { value } => BlockView { kind: BlockKind::Math, content: value@ },
            Block::Image { src } => BlockView { kind: BlockKind::Image, content: src@ },
            Block::File { path } => BlockView { kind: BlockKind::File, content: path@ },
        }
    }
}

/// Image and file blocks reference a blob of the file store by virtual path.
pub open spec fn is_file_kind(k: BlockKind) -> bool {
    k == BlockKind::Image || k == BlockKind::File
}

pub open spec fn kind_tag(k: BlockKind) -> Seq<char> {
    match k {
        BlockKind::Text => "text"@,
        BlockKind::Math => "math"@,
        BlockKind::Image => "image"@,
        BlockKind::File => "file"@,
    }
}

/// The virtual path a block references, if it is file-bearing.
pub open spec fn path_of(b: BlockView) -> Option<Seq<char>> {
    if is_file_kind(b.kind) {
        Some(b.content)
    } else {
        None
    }
}

/// A block with its path replaced; blocks without a path stay as they are.
pub open spec fn with_path(b: BlockView, p: Seq<char>) -> BlockView {
    if is_file_kind(b.kind) {
        BlockView { kind: b.kind, content: p }
    } else {
        b
    }
}

pub open spec fn blocks_view(bs: Seq<Block>) -> Seq<BlockView> {
    bs.map_values(|b: Block| b@)
}

impl Block {
    /// The storage discriminator of the block.
    pub fn block_type(&self) -> (r: &'static str)
        ensures
            r@ == kind_tag(self@.kind),
    {
        match self {
            Block::Text { .. } => "text",
            Block::Math { .. } => "math",
            Block::Image { .. } => "image",
            Block::File { .. } => "file",
        }
    }

    pub fn kind(&self) -> (r: BlockKind)
        ensures
            r == self@.kind,
    {
        match self {
            Block::Text { .. } => BlockKind::Text,
            Block::Math { .. } => BlockKind::Math,
            Block::Image { .. } => BlockKind::Image,
            Block::File { .. } => BlockKind::File,
        }
    }

    /// The virtual path of an image or file block.
    pub fn file_path(&self) -> (r: Option<&String>)
        ensures
            r matches Some(p) ==> path_of(self@) == Some(p@),
            r is None ==> path_of(self@) is None,
    {
        match self {
            Block::Image { src } => Some(src),
            Block::File { path } => Some(path),
            _ => None,
        }
    }

    /// Replaces the virtual path of an image or file block; other blocks are
    /// left unchanged.
    pub fn set_file_path(&mut self, p: String)
        ensures
            final(self)@ == with_path(old(self)@, p@),
    {
        match self {
            Block::Image { src } => {
                *src = p;
            },
            Block::File { path } => {
                *path = p;
            },
            _ => {},
        }
    }

    /// A copy of the block.
    pub fn duplicate(&self) -> (r: Block)
        ensures
            r@ == self@,
    {
        match self {
            Block::Text { value } => Block::Text { value: value.clone() },
            Block::Math { value } => Block::Math { value: value.clone() },
            Block::Image { src } => Block::Image { src: src.clone() },
            Block::File { path } => Block::File { path: path.clone() },
        }
    }
}


pub open spec fn opt_view(o: Option<String>) -> Option<Seq<char>> {
    match o {
        Some(s) => Some(s@),
        None => None,
    }
}

/// Mathematical view of a card.
pub struct CardView {
    pub id: i64,
    pub deck_id: i64,
    pub name: Seq<char>,
    pub front: Seq<BlockView>,
    pub back: Seq<BlockView>,
    pub created_at: i64,
    pub times_seen: u32,
    pub times_correct: u32,
    pub tags: Option<Seq<char>>,
}

/// A flashcard: a name, an ordered front side and back side of blocks, and
/// its study statistics.
#[derive(Clone, Debug, PartialEq)]
pub struct Card {
    pub id: i64,
    pub deck_id: i64,
    pub name: String,
    /// Blocks of the question side.
    pub front_blocks: Vec<Block>,
    /// Blocks of the answer side.
    pub back_blocks: Vec<Block>,
    pub created_at: i64,
    pub times_seen: u32,
    pub times_correct: u32,
    pub tags: Option<String>,
}

impl View for Card {
    type V = CardView;

    open spec fn view(&self) -> CardView {
        CardView {
            id: self.id,
            deck_id: self.deck_id,
            name: self.name@,
            front: blocks_view(self.front_blocks@),
            back: blocks_view(self.back_blocks@),
            created_at: self.created_at,
            times_seen: self.times_seen,
            times_correct: self.times_correct,
            tags: opt_view(self.tags),
        }
    }
}

pub open spec fn cards_view(cs: Seq<Card>) -> Seq<CardView> {
    cs.map_values(|c: Card| c@)
}

/// `good - 2 * bad` where `good` counts the correct answers and `bad` the
/// others, floored at zero.
pub open spec fn confidence_score(times_seen: u32, times_correct: u32) -> int {
    let good = times_correct as int;
    let bad = times_seen as int - times_correct as int;
    if good - 2 * bad > 0 {
        good - 2 * bad
    } else {
        0
    }
}

/// `round(100 * (1 - e^(-0.6 * s)))` for a score `s >= 0`: the curve reaches
/// 100 from a score of 9 on.
pub open spec fn percent_of_score(s: int) -> u8 {
    if s <= 0 {
        0
    } else if s == 1 {
        45
    } else if s == 2 {
        70
    } else if s == 3 {
        83
    } else if s == 4 {
        91
    } else if s == 5 {
        95
    } else if s == 6 {
        97
    } else if s <= 8 {
        99
    } else {
        100
    }
}

pub open spec fn progress_of(times_seen: u32, times_correct: u32) -> u8 {
    if times_correct == 0 {
        0
    } else {
        percent_of_score(confidence_score(times_seen, times_correct))
    }
}

/// Relies on `chrono::Utc::now` and `DateTime::timestamp`: the current time
/// in whole seconds since the Unix epoch.
#[verifier::external_body]
fn now_timestamp() -> i64 {
    chrono::Utc::now().timestamp()
}

/// Table of `percent_of_score` for the scores below 9.
const PERCENT_BY_SCORE: [u8; 9] = [0, 45, 70, 83, 91, 95, 97, 99, 99];

fn copy_blocks(bs: &Vec<Block>) -> (r: Vec<Block>)
    ensures
        blocks_view(r@) == blocks_view(bs@),
{
    let mut r: Vec<Block> = Vec::new();
    let mut i: usize = 0;
    while i < bs.len()
        invariant
            i <= bs.len(),
            r@.len() == i,
            forall|k: int| 0 <= k < i ==> (#[trigger] r@[k])@ == bs@[k]@,
        decreases bs.len() - i,
    {
        r.push(bs[i].duplicate());
        i += 1;
    }
    assert(blocks_view(r@) =~= blocks_view(bs@));
    r
}

fn copy_opt(o: &Option<String>) -> (r: Option<String>)
    ensures
        opt_view(r) == opt_view(*o),
{
    match o {
        Some(s) => Some(s.clone()),
        None => None,
    }
}

impl Card {
    /// An empty card of the deck, created at `created_at`; the store assigns
    /// the real identifier.
    pub fn new_empty_at(deck_id: i64, created_at: i64) -> (r: Card)
        ensures
            r.id == -1,
            r.deck_id == deck_id,
            r.name@ == "Neue Karte"@,
            r.front_blocks@.len() == 0,
            r.back_blocks@.len() == 0,
            r.created_at == created_at,
            r.times_seen == 0,
            r.times_correct == 0,
            r.tags is None,
    {
        Card {
            id: -1,
            deck_id,
            name: String::from_str("Neue Karte"),
            front_blocks: Vec::new(),
            back_blocks: Vec::new(),
            created_at,
            times_seen: 0,
            times_correct: 0,
            tags: None,
        }
    }

    /// An empty card of the deck, created now.
    pub fn new_empty(deck_id: i64) -> (r: Card)
        ensures
            r.id == -1,
            r.deck_id == deck_id,
            r.name@ == "Neue Karte"@,
            r.front_blocks@.len() == 0,
            r.back_blocks@.len() == 0,
            r.times_seen == 0,
            r.times_correct == 0,
            r.tags is None,
    {
        Card::new_empty_at(deck_id, now_timestamp())
    }

    /// Confidence, in percent, that the card is known.
    pub fn progress_percent(&self) -> (r: u8)
        ensures
            r == progress_of(self.times_seen, self.times_correct),
            r <= 100,
    {
        if self.times_correct == 0 {
            return 0;
        }
        let good = self.times_correct as i64;
        let seen = self.times_seen as i64;
        let raw: i64 = 3 * good - 2 * seen;
        assert(raw == self.times_correct as int - 2 * (self.times_seen as int - self.times_correct as int));
        if raw <= 0 {
            0
        } else if raw >= 9 {
            100
        } else {
            let r = PERCENT_BY_SCORE[raw as usize];
            r
        }
    }

    /// A copy of the card.
    pub fn duplicate(&self) -> (r: Card)
        ensures
            r@ == self@,
    {
        Card {
            id: self.id,
            deck_id: self.deck_id,
            name: self.name.clone(),
            front_blocks: copy_blocks(&self.front_blocks),
            back_blocks: copy_blocks(&self.back_blocks),
            created_at: self.created_at,
            times_seen: self.times_seen,
            times_correct: self.times_correct,
            tags: copy_opt(&self.tags),
        }
    }
}

/// A deck of cards; `card_count` is a read-side aggregate.
#[derive(Clone, Debug, PartialEq)]
pub struct Deck {
    pub id: i64,
    pub name: String,
    pub created_at: i64,
    pub card_count: u32,
}

impl Deck {
    /// A copy of the deck.
    pub fn duplicate(&self) -> (r: Deck)
        ensures
            r.id == self.id,
            r.name@ == self.name@,
            r.created_at == self.created_at,
            r.card_count == self.card_count,
    {
        Deck { id: self.id, name: self.name.clone(), created_at: self.created_at, card_count: self.card_count }
    }
}

/// The virtual path of a blob that was just placed in the file store.
#[derive(Clone, Debug, PartialEq)]
pub struct FileResponse {
    pub path: String,
}

} // verus!
