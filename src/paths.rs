//! Archive-relative paths: `files/card_<i>/<side>_<j>.<ext>`.
use vstd::prelude::*;
use vstd::string::StrSliceExecFns;
use vstd::string::StringExecFns;

verus! {

/// The side of a card a block sits on.
#[derive(Clone, Copy, Debug, PartialEq, Eq, Structural)]
pub enum Side {
    Front,
    Back,
}

pub open spec fn side_name(s: Side) -> Seq<char> {
    match s {
        Side::Front => "front"@,
        Side::Back => "back"@,
    }
}

pub open spec fn digit_char(d: nat) -> char {
    if d == 0 {
        '0'
    } else if d == 1 {
        '1'
    } else if d == 2 {
        '2'
    } else if d == 3 {
        '3'
    } else if d == 4 {
        '4'
    } else if d == 5 {
        '5'
    } else if d == 6 {
        '6'
    } else if d == 7 {
        '7'
    } else if d == 8 {
        '8'
    } else {
        '9'
    }
}

pub open spec fn is_digit(c: char) -> bool {
    '0' <= c && c <= '9'
}

/// Decimal notation of `n`, most significant digit first.
pub open spec fn dec(n: nat) -> Seq<char>
    decreases n,
{
    if n < 10 {
        seq![digit_char(n)]
    } else {
        dec(n / 10).push(digit_char(n % 10))
    }
}

/// Index of the last occurrence of `c` in `s`, or -1.
pub open spec fn last_index_of(s: Seq<char>, c: char) -> int
    decreases s.len(),
{
    if s.len() == 0 {
        -1
    } else if s.last() == c {
        s.len() - 1
    } else {
        last_index_of(s.drop_last(), c)
    }
}

/// The extension of a virtual path: what follows its last `.` when that dot
/// lies in the last path segment and something follows it; `bin` otherwise.
pub open spec fn extension_of(p: Seq<char>) -> Seq<char> {
    let d = last_index_of(p, '.');
    if d > last_index_of(p, '/') && d + 1 < p.len() {
        p.subrange(d + 1, p.len() as int)
    } else {
        "bin"@
    }
}

/// Where the blob of block `block` on side `side` of card `card` is stored
/// in an archive.
pub open spec fn export_path(card: nat, side: Side, block: nat, ext: Seq<char>) -> Seq<char> {
    "files/card_"@ + dec(card) + "/"@ + side_name(side) + "_"@ + dec(block) + "."@ + ext
}

proof fn lemma_digit_char(d: nat)
    requires
        d < 10,
    ensures
        is_digit(digit_char(d)),
        forall|e: nat| e < 10 && digit_char(e) == digit_char(d) ==> e == d,
{
}

proof fn lemma_dec_digits(n: nat)
    ensures
        dec(n).len() >= 1,
        n >= 10 ==> dec(n).len() >= 2,
        forall|k: int| 0 <= k < dec(n).len() ==> is_digit(#[trigger] dec(n)[k]),
    decreases n,
{
    if n < 10 {
        lemma_digit_char(n);
    } else {
        lemma_dec_digits(n / 10);
        lemma_digit_char(n % 10);
    }
}

/// Distinct numbers have distinct decimal notations.
pub proof fn lemma_dec_injective(a: nat, b: nat)
    requires
        dec(a) == dec(b),
    ensures
        a == b,
    decreases a,
{
    lemma_dec_digits(a);
    lemma_dec_digits(b);
    if a < 10 && b < 10 {
        lemma_digit_char(a);
        assert(dec(a)[0] == digit_char(a));
        assert(dec(b)[0] == digit_char(b));
    } else if a >= 10 && b >= 10 {
        assert(dec(a).last() == digit_char(a % 10));
        assert(dec(b).last() == digit_char(b % 10));
        lemma_digit_char(a % 10);
        assert(dec(a).drop_last() =~= dec(a / 10));
        assert(dec(b).drop_last() =~= dec(b / 10));
        lemma_dec_injective(a / 10, b / 10);
        assert(a % 10 == b % 10);
        assert(a == 10 * (a / 10) + a % 10);
        assert(b == 10 * (b / 10) + b % 10);
    } else if a < 10 {
        assert(dec(a).len() == 1);
    } else {
        assert(dec(b).len() == 1);
    }
}

/// Cutting two sequences at the first `c`: when the parts before `c` hold
/// no `c`, equal sequences have equal parts.
proof fn lemma_split_at_first(x1: Seq<char>, y1: Seq<char>, x2: Seq<char>, y2: Seq<char>, c: char)
    requires
        x1 + seq![c] + y1 == x2 + seq![c] + y2,
        forall|k: int| 0 <= k < x1.len() ==> x1[k] != c,
        forall|k: int| 0 <= k < x2.len() ==> x2[k] != c,
    ensures
        x1 == x2,
        y1 == y2,
{
    let s = x1 + seq![c] + y1;
    if x1.len() < x2.len() {
        assert(s[x1.len() as int] == c);
        assert((x2 + seq![c] + y2)[x1.len() as int] == x2[x1.len() as int]);
    } else if x2.len() < x1.len() {
        assert(s[x2.len() as int] == x1[x2.len() as int]);
        assert((x2 + seq![c] + y2)[x2.len() as int] == c);
    }
    assert(x1 =~= s.subrange(0, x1.len() as int));
    assert(x2 =~= (x2 + seq![c] + y2).subrange(0, x2.len() as int));
    assert(y1 =~= s.subrange(x1.len() as int + 1, s.len() as int));
    assert(y2 =~= (x2 + seq![c] + y2).subrange(x2.len() as int + 1, s.len() as int));
}

/// Distinct positions give distinct archive paths.
#[verifier::rlimit(60)]
pub proof fn lemma_export_path_injective(
    c1: nat,
    s1: Side,
    b1: nat,
    e1: Seq<char>,
    c2: nat,
    s2: Side,
    b2: nat,
    e2: Seq<char>,
)
    requires
        export_path(c1, s1, b1, e1) == export_path(c2, s2, b2, e2),
    ensures
        c1 == c2,
        s1 == s2,
        b1 == b2,
{
    reveal_strlit("files/card_");
    reveal_strlit("/");
    reveal_strlit("_");
    reveal_strlit(".");
    reveal_strlit("front");
    reveal_strlit("back");
    let pre = "files/card_"@;
    let tail1 = side_name(s1) + "_"@ + dec(b1) + "."@ + e1;
    let tail2 = side_name(s2) + "_"@ + dec(b2) + "."@ + e2;
    let p1 = export_path(c1, s1, b1, e1);
    let p2 = export_path(c2, s2, b2, e2);
    assert(p1 =~= pre + (dec(c1) + seq!['/'] + tail1));
    assert(p2 =~= pre + (dec(c2) + seq!['/'] + tail2));
    assert(dec(c1) + seq!['/'] + tail1 =~= p1.subrange(pre.len() as int, p1.len() as int));
    assert(dec(c2) + seq!['/'] + tail2 =~= p2.subrange(pre.len() as int, p2.len() as int));
    lemma_dec_digits(c1);
    lemma_dec_digits(c2);
    lemma_split_at_first(dec(c1), tail1, dec(c2), tail2, '/');
    lemma_dec_injective(c1, c2);
    assert(tail1[0] == side_name(s1)[0]);
    assert(tail2[0] == side_name(s2)[0]);
    let n = side_name(s1).len() as int;
    let rest1 = dec(b1) + seq!['.'] + e1;
    let rest2 = dec(b2) + seq!['.'] + e2;
    assert(rest1 =~= tail1.subrange(n + 1, tail1.len() as int));
    assert(rest2 =~= tail2.subrange(n + 1, tail2.len() as int));
    lemma_dec_digits(b1);
    lemma_dec_digits(b2);
    lemma_split_at_first(dec(b1), e1, dec(b2), e2, '.');
    lemma_dec_injective(b1, b2);
}

fn digit_str(d: usize) -> (r: &'static str)
    requires
        d < 10,
    ensures
        r@ == seq![digit_char(d as nat)],
{
    proof {
        reveal_strlit("0");
        reveal_strlit("1");
        reveal_strlit("2");
        reveal_strlit("3");
        reveal_strlit("4");
        reveal_strlit("5");
        reveal_strlit("6");
        reveal_strlit("7");
        reveal_strlit("8");
        reveal_strlit("9");
    }
    if d == 0 {
        "0"
    } else if d == 1 {
        "1"
    } else if d == 2 {
        "2"
    } else if d == 3 {
        "3"
    } else if d == 4 {
        "4"
    } else if d == 5 {
        "5"
    } else if d == 6 {
        "6"
    } else if d == 7 {
        "7"
    } else if d == 8 {
        "8"
    } else {
        "9"
    }
}

/// Decimal notation of `n`.
pub fn decimal(n: usize) -> (r: String)
    ensures
        r@ == dec(n as nat),
    decreases n,
{
    if n < 10 {
        String::from_str(digit_str(n))
    } else {
        let mut s = decimal(n / 10);
        s.append(digit_str(n % 10));
        s
    }
}

/// Index of the last `c` in `s`.
pub fn last_index(s: &str, c: char) -> (r: Option<usize>)
    ensures
        match r {
            Some(i) => i as int == last_index_of(s@, c) && i < s@.len(),
            None => last_index_of(s@, c) == -1,
        },
{
    let n = s.unicode_len();
    assert(s@.take(n as int) =~= s@);
    let mut j: usize = n;
    while j > 0
        invariant
            j <= n == s@.len(),
            last_index_of(s@, c) == last_index_of(s@.take(j as int), c),
        decreases j,
    {
        let ch = s.get_char(j - 1);
        if ch == c {
            return Some(j - 1);
        }
        assert(s@.take(j as int).drop_last() =~= s@.take(j - 1));
        j -= 1;
    }
    None
}

/// The extension of a virtual path, as `extension_of` describes it.
pub fn extension(path: &str) -> (r: String)
    ensures
        r@ == extension_of(path@),
{
    assert(path@.take(path@.len() as int) =~= path@);
    let n = path.unicode_len();
    let dot = last_index(path, '.');
    let slash = last_index(path, '/');
    match dot {
        Some(d) => {
            let after_slash = match slash {
                Some(sl) => d > sl,
                None => true,
            };
            if after_slash && d + 1 < n {
                return String::from_str(path.substring_char(d + 1, n));
            }
        },
        None => {},
    }
    String::from_str("bin")
}

fn side_str(s: Side) -> (r: &'static str)
    ensures
        r@ == side_name(s),
{
    match s {
        Side::Front => "front",
        Side::Back => "back",
    }
}

/// The archive path of a blob, from its position and its source virtual path.
pub fn derive_export_path(card_index: usize, block_index: usize, side: Side, src: &str) -> (r: String)
    ensures
        r@ == export_path(card_index as nat, side, block_index as nat, extension_of(src@)),
{
    let mut p = String::from_str("files/card_");
    let ci = decimal(card_index);
    p.append(ci.as_str());
    p.append("/");
    p.append(side_str(side));
    p.append("_");
    let bi = decimal(block_index);
    p.append(bi.as_str());
    p.append(".");
    let ext = extension(src);
    p.append(ext.as_str());
    p
}

/// Where a virtual path lies inside the store's root directory.
pub open spec fn resolved_path(root: Seq<char>, virtual_path: Seq<char>) -> Seq<char> {
    if root.len() > 0 && root.last() == '/' {
        root + virtual_path
    } else {
        root + "/"@ + virtual_path
    }
}

/// The location of a virtual path under the store's root directory.
pub fn resolve_virtual_path(root: &str, virtual_path: &str) -> (r: String)
    ensures
        r@ == resolved_path(root@, virtual_path@),
{
    let n = root.unicode_len();
    let mut p = String::from_str(root);
    if n == 0 || root.get_char(n - 1) != '/' {
        p.append("/");
    }
    p.append(virtual_path);
    p
}

} // verus!
