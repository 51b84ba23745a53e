//! Card tags: a comma-joined list of trimmed, lowercase names.
use vstd::prelude::*;
use vstd::string::StrSliceExecFns;
use vstd::string::StringExecFns;

verus! {

/// Unicode's `White_Space` characters, which `str::trim` removes.
pub open spec fn is_white_space(c: char) -> bool {
    ('\u{9}' <= c && c <= '\u{d}') || c == ' ' || c == '\u{85}' || c == '\u{a0}' || c == '\u{1680}'
        || ('\u{2000}' <= c && c <= '\u{200a}') || c == '\u{2028}' || c == '\u{2029}' || c == '\u{202f}'
        || c == '\u{205f}' || c == '\u{3000}'
}

pub open spec fn strip_start(s: Seq<char>) -> Seq<char>
    decreases s.len(),
{
    if s.len() > 0 && is_white_space(s[0]) {
        strip_start(s.drop_first())
    } else {
        s
    }
}

pub open spec fn strip_end(s: Seq<char>) -> Seq<char>
    decreases s.len(),
{
    if s.len() > 0 && is_white_space(s.last()) {
        strip_end(s.drop_last())
    } else {
        s
    }
}

/// The text without leading and trailing white space.
pub open spec fn trimmed(s: Seq<char>) -> Seq<char> {
    strip_end(strip_start(s))
}

/// What `str::to_lowercase` returns.
pub uninterp spec fn lower_of(s: Seq<char>) -> Seq<char>;

/// Relies on `str::trim`: the text with leading and trailing characters of
/// Unicode's `White_Space` property removed.
#[verifier::external_body]
fn trim_text(s: &str) -> (r: &str)
    ensures
        r@ == trimmed(s@),
{
    s.trim()
}

/// Relies on `str::to_lowercase`: the result depends on the characters
/// alone; each character maps to one or more, so an empty text stays empty
/// and any other stays non-empty.
#[verifier::external_body]
fn lowercase(s: &str) -> (r: String)
    ensures
        r@ == lower_of(s@),
        s@.len() == 0 ==> r@.len() == 0,
        s@.len() > 0 ==> r@.len() > 0,
{
    s.to_lowercase()
}

/// The pieces of `s` between commas, in order, read left to right: a
/// comma starts a new, empty piece; any other character extends the last.
pub open spec fn split_commas(s: Seq<char>) -> Seq<Seq<char>>
    decreases s.len(),
{
    if s.len() == 0 {
        seq![Seq::<char>::empty()]
    } else {
        let p = split_commas(s.drop_last());
        if s.last() == ',' {
            p.push(Seq::<char>::empty())
        } else {
            p.drop_last().push(p.last().push(s.last()))
        }
    }
}

/// The non-empty names among the pieces, in order.
pub open spec fn non_empty(parts: Seq<Seq<char>>) -> Seq<Seq<char>>
    decreases parts.len(),
{
    if parts.len() == 0 {
        Seq::empty()
    } else if parts.last().len() == 0 {
        non_empty(parts.drop_last())
    } else {
        non_empty(parts.drop_last()).push(parts.last())
    }
}

/// The names joined by commas.
pub open spec fn join_commas(parts: Seq<Seq<char>>) -> Seq<char>
    decreases parts.len(),
{
    if parts.len() == 0 {
        Seq::empty()
    } else if parts.len() == 1 {
        parts[0]
    } else {
        join_commas(parts.drop_last()) + seq![','] + parts.last()
    }
}

/// The tag value stored for these names: none when no name is left.
pub open spec fn tags_of(names: Seq<Seq<char>>) -> Option<Seq<char>> {
    let kept = non_empty(names);
    if kept.len() == 0 {
        None
    } else {
        Some(join_commas(kept))
    }
}

/// Each piece trimmed, then lowercased.
pub open spec fn normalized_names(raw: Seq<char>) -> Seq<Seq<char>> {
    split_commas(raw).map_values(|p: Seq<char>| lower_of(trimmed(p)))
}

proof fn lemma_split_len(s: Seq<char>)
    ensures
        split_commas(s).len() >= 1,
    decreases s.len(),
{
    if s.len() > 0 {
        lemma_split_len(s.drop_last());
    }
}

proof fn lemma_non_empty_none(parts: Seq<Seq<char>>)
    ensures
        non_empty(parts).len() == 0 <==> forall|k: int| 0 <= k < parts.len() ==> (#[trigger] parts[k]).len() == 0,
    decreases parts.len(),
{
    if parts.len() > 0 {
        let d = parts.drop_last();
        lemma_non_empty_none(d);
        if non_empty(parts).len() == 0 {
            assert forall|k: int| 0 <= k < parts.len() implies (#[trigger] parts[k]).len() == 0 by {
                if k < parts.len() - 1 {
                    assert(parts[k] == d[k]);
                }
            }
        }
        if forall|k: int| 0 <= k < parts.len() ==> (#[trigger] parts[k]).len() == 0 {
            assert forall|k: int| 0 <= k < d.len() implies (#[trigger] d[k]).len() == 0 by {
                assert(parts[k] == d[k]);
            }
            assert(parts[parts.len() - 1].len() == 0);
        }
    }
}

/// Joins the non-empty names with commas; `None` when none is left.
pub fn join_tags(names: &Vec<String>) -> (r: Option<String>)
    ensures
        r is None <==> tags_of(names@.map_values(|n: String| n@)) is None,
        r matches Some(t) ==> tags_of(names@.map_values(|n: String| n@)) == Some(t@),
{
    let ghost nv = names@.map_values(|n: String| n@);
    let mut out = String::new();
    let mut any = false;
    let mut i: usize = 0;
    assert(nv.take(0) =~= Seq::<Seq<char>>::empty());
    while i < names.len()
        invariant
            i <= names@.len(),
            nv == names@.map_values(|n: String| n@),
            any == (non_empty(nv.take(i as int)).len() > 0),
            out@ == join_commas(non_empty(nv.take(i as int))),
        decreases names.len() - i,
    {
        let name = &names[i];
        assert(nv.take(i + 1).drop_last() =~= nv.take(i as int));
        assert(nv.take(i + 1).last() == name@);
        let ghost kept = non_empty(nv.take(i as int));
        if name.unicode_len() > 0 {
            if any {
                out.append(",");
                proof {
                    reveal_strlit(",");
                }
            }
            out.append(name.as_str());
            any = true;
            assert(non_empty(nv.take(i + 1)) == kept.push(name@));
            assert(kept.push(name@).drop_last() =~= kept);
            assert(out@ =~= join_commas(kept.push(name@)));
        }
        i += 1;
    }
    assert(nv.take(names.len() as int) =~= nv);
    if any {
        Some(out)
    } else {
        None
    }
}

/// The tags value for what a user typed: comma-separated names, each
/// trimmed and lowercased, empty ones dropped; `None` when none is left.
pub fn normalize_tags(raw: &str) -> (r: Option<String>)
    ensures
        r is None <==> tags_of(normalized_names(raw@)) is None,
        r matches Some(t) ==> tags_of(normalized_names(raw@)) == Some(t@),
        r is None <==> forall|k: int| 0 <= k < split_commas(raw@).len()
            ==> (#[trigger] trimmed(split_commas(raw@)[k])).len() == 0,
{
    let n = raw.unicode_len();
    let mut names: Vec<String> = Vec::new();
    let mut start: usize = 0;
    let mut i: usize = 0;
    assert(raw@.take(0) =~= Seq::<char>::empty());
    assert(split_commas(raw@.take(0)) == seq![Seq::<char>::empty()]);
    while i < n
        invariant
            start <= i <= n == raw@.len(),
            split_commas(raw@.take(i as int)).len() == names@.len() + 1,
            split_commas(raw@.take(i as int)).last() == raw@.subrange(start as int, i as int),
            forall|k: int| 0 <= k < names@.len() ==> (#[trigger] names@[k])@ == lower_of(trimmed(split_commas(raw@.take(i as int))[k])),
            forall|k: int| 0 <= k < names@.len() ==> ((#[trigger] names@[k])@.len() == 0
                <==> trimmed(split_commas(raw@.take(i as int))[k]).len() == 0),
        decreases n - i,
    {
        let c = raw.get_char(i);
        let ghost t = raw@.take(i as int);
        proof {
            lemma_split_len(t);
            assert(raw@.take(i + 1).drop_last() =~= t);
        }
        if c == ',' {
            let piece = raw.substring_char(start, i);
            let name = lowercase(trim_text(piece));
            names.push(name);
            start = i + 1;
            assert(raw@.subrange(start as int, i + 1) =~= Seq::<char>::empty());
        } else {
            assert(raw@.subrange(start as int, i + 1) =~= raw@.subrange(start as int, i as int).push(c));
        }
        i += 1;
    }
    let last = raw.substring_char(start, n);
    names.push(lowercase(trim_text(last)));
    assert(raw@.take(n as int) =~= raw@);
    let ghost nv = names@.map_values(|s: String| s@);
    assert(nv =~= normalized_names(raw@));
    proof {
        lemma_non_empty_none(nv);
        let sp = split_commas(raw@);
        assert((forall|k: int| 0 <= k < nv.len() ==> (#[trigger] nv[k]).len() == 0)
            <==> (forall|k: int| 0 <= k < sp.len() ==> (#[trigger] trimmed(sp[k])).len() == 0)) by {
            if forall|k: int| 0 <= k < nv.len() ==> (#[trigger] nv[k]).len() == 0 {
                assert forall|k: int| 0 <= k < sp.len() implies (#[trigger] trimmed(sp[k])).len() == 0 by {
                    assert(nv[k] == names@[k]@);
                }
            }
            if forall|k: int| 0 <= k < sp.len() ==> (#[trigger] trimmed(sp[k])).len() == 0 {
                assert forall|k: int| 0 <= k < nv.len() implies (#[trigger] nv[k]).len() == 0 by {
                    assert(nv[k] == names@[k]@);
                    assert(trimmed(sp[k]).len() == 0);
                }
            }
        }
    }
    join_tags(&names)
}

} // verus!
