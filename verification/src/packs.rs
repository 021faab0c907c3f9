//! Working with a set of loaded packs: listing, resolving and naming stickers.

use vstd::prelude::*;
use vstd::string::*;
use crate::manifest::{
    ImagePath, Sticker, StickerView, StickerPack, StickerPackManifest, key_matches, views, pack_views, qualified,
};
use crate::text::{
    all_ascii, ascii_alphanumeric, char_lowercase, char_to_lowercase, chars_of, is_ascii_alphanumeric, join_strings,
    join_with, pad_right, push_char, push_chars, push_padded, push_str, str_equal, strings_view,
};

verus! {

broadcast use vstd::seq_lib::group_seq_properties;

/// All stickers of all packs as values, pack after pack, each pack in manifest order.
pub open spec fn all_views(packs: Seq<StickerPack>) -> Seq<StickerView> {
    packs.map_values(|p: StickerPack| pack_views(p)).flatten()
}

/// All stickers of all packs, pack after pack, each pack in manifest order.
pub fn all_stickers(packs: &[StickerPack]) -> (res: Vec<Sticker>)
    ensures
        views(res@) == all_views(packs@),
{
    let mut res: Vec<Sticker> = Vec::new();
    let mut i: usize = 0;
    while i < packs.len()
        invariant
            i <= packs@.len(),
            views(res@) == all_views(packs@.take(i as int)),
        decreases packs@.len() - i,
    {
        let mut more = packs[i].stickers();
        let ghost before = res@;
        res.append(&mut more);
        proof {
            let ps = packs@.take(i as int).map_values(|p: StickerPack| pack_views(p));
            assert(packs@.take(i + 1).map_values(|p: StickerPack| pack_views(p)) =~= ps.push(
                pack_views(packs@[i as int]),
            ));
            ps.lemma_flatten_push(pack_views(packs@[i as int]));
            assert(views(res@) =~= views(before) + pack_views(packs@[i as int]));
        }
        i = i + 1;
    }
    assert(packs@.take(packs@.len() as int) =~= packs@);
    res
}

/// Why a query did not single out one sticker.
#[derive(Debug)]
pub enum ResolveError {
    /// No sticker matched the query.
    NoMatch,
    /// Several stickers matched; they are listed in order.
    Ambiguous(Vec<Sticker>),
}

/// The query is the id or the qualified id of the sticker.
pub open spec fn exact_match(k: StickerView, query: Seq<char>) -> bool {
    k.id == query || qualified(k.pack_id, k.id) == query
}

/// Some sticker has the query as id or qualified id.
pub open spec fn has_exact(ks: Seq<StickerView>, query: Seq<char>) -> bool {
    exists|i: int| 0 <= i < ks.len() && #[trigger] exact_match(ks[i], query)
}

/// Index `i` is the first sticker whose id or qualified id is the query.
pub open spec fn first_exact(ks: Seq<StickerView>, query: Seq<char>, i: int) -> bool {
    &&& 0 <= i < ks.len()
    &&& exact_match(ks[i], query)
    &&& forall|j: int| 0 <= j < i ==> !#[trigger] exact_match(ks[j], query)
}

/// The stickers that the query matches loosely, in order.
pub open spec fn loose_matches(ks: Seq<StickerView>, query: Seq<char>) -> Seq<StickerView> {
    ks.filter(|k: StickerView| key_matches(k, query))
}

/// Finds the sticker a query names among the stickers of `packs`: the first
/// whose id or qualified id is the query; else the only one the query matches
/// loosely; else an error saying that none or several matched.
pub fn resolve_sticker(query: &str, packs: &[StickerPack]) -> (res: Result<Sticker, ResolveError>)
    ensures
        ({
            let ks = all_views(packs@);
            let loose = loose_matches(ks, query@);
            match res {
                Ok(s) => {
                    ||| exists|i: int| #[trigger] first_exact(ks, query@, i) && s@ == ks[i]
                    ||| !has_exact(ks, query@) && loose.len() == 1 && s@ == loose[0]
                },
                Err(ResolveError::NoMatch) => !has_exact(ks, query@) && loose.len() == 0,
                Err(ResolveError::Ambiguous(v)) => !has_exact(ks, query@) && loose.len() >= 2
                    && views(v@) == loose,
            }
        }),
        has_exact(all_views(packs@), query@) ==> res is Ok,
{
    let stickers = all_stickers(packs);
    let ghost ks = all_views(packs@);
    let mut i: usize = 0;
    while i < stickers.len()
        invariant
            ks == all_views(packs@),
            views(stickers@) == ks,
            i <= stickers@.len(),
            forall|j: int| 0 <= j < i ==> !#[trigger] exact_match(ks[j], query@),
        decreases stickers@.len() - i,
    {
        let s = &stickers[i];
        assert(ks[i as int] == s@);
        if str_equal(s.id.as_str(), query) || str_equal(s.qualified_id().as_str(), query) {
            let found = s.duplicate();
            assert(first_exact(ks, query@, i as int) && found@ == ks[i as int]);
            return Ok(found);
        }
        i = i + 1;
    }
    assert(!has_exact(ks, query@));
    let ghost pred = |k: StickerView| key_matches(k, query@);
    let mut matches: Vec<Sticker> = Vec::new();
    let mut j: usize = 0;
    while j < stickers.len()
        invariant
            ks == all_views(packs@),
            views(stickers@) == ks,
            pred == (|k: StickerView| key_matches(k, query@)),
            j <= stickers@.len(),
            views(matches@) == ks.take(j as int).filter(pred),
        decreases stickers@.len() - j,
    {
        let s = &stickers[j];
        let ghost before = matches@;
        assert(ks.take(j + 1) =~= ks.take(j as int).push(ks[j as int]));
        proof { ks.take(j as int).lemma_filter_push(ks[j as int], pred); }
        if s.matches_query(query) {
            matches.push(s.duplicate());
            assert(views(matches@) =~= views(before).push(s@));
        }
        j = j + 1;
    }
    assert(ks.take(stickers@.len() as int) =~= ks);
    if matches.len() == 0 {
        Err(ResolveError::NoMatch)
    } else if matches.len() == 1 {
        let only = matches.pop().unwrap();
        Ok(only)
    } else {
        Err(ResolveError::Ambiguous(matches))
    }
}


/// The input with every character replaced by its Unicode lowercase mapping.
pub open spec fn lowered_chars(input: Seq<char>) -> Seq<char> {
    input.map_values(|c: char| char_lowercase(c)).flatten()
}

/// One step of building a slug: letters and digits are kept, and any run of
/// other characters after some kept character becomes a single `-`.
pub open spec fn slug_step(acc: (Seq<char>, bool), c: char) -> (Seq<char>, bool) {
    if ascii_alphanumeric(c) {
        (acc.0.push(c), false)
    } else if !acc.1 && acc.0.len() > 0 {
        (acc.0.push('-'), true)
    } else {
        acc
    }
}

/// The slug built so far from `cs`, and whether it ends in a dash just added.
pub open spec fn slug_fold(cs: Seq<char>) -> (Seq<char>, bool)
    decreases cs.len(),
{
    if cs.len() == 0 {
        (seq![], false)
    } else {
        slug_step(slug_fold(cs.drop_last()), cs.last())
    }
}

/// `s` without its leading `c` characters.
pub open spec fn trim_start_char(s: Seq<char>, c: char) -> Seq<char>
    decreases s.len(),
{
    if s.len() > 0 && s[0] == c {
        trim_start_char(s.drop_first(), c)
    } else {
        s
    }
}

/// `s` without its trailing `c` characters.
pub open spec fn trim_end_char(s: Seq<char>, c: char) -> Seq<char>
    decreases s.len(),
{
    if s.len() > 0 && s.last() == c {
        trim_end_char(s.drop_last(), c)
    } else {
        s
    }
}

/// The slug of a pack name: lowercased, ASCII letters and digits kept, every
/// run of other characters turned into one `-`, and no `-` at either end.
pub open spec fn spec_slugify(input: Seq<char>) -> Seq<char> {
    trim_end_char(trim_start_char(slug_fold(lowered_chars(input)).0, '-'), '-')
}

/// Only ASCII letters, digits and single dashes, with no dash at either end.
pub open spec fn slug_shaped(s: Seq<char>) -> bool {
    &&& forall|i: int| 0 <= i < s.len() ==> ascii_alphanumeric(#[trigger] s[i]) || s[i] == '-'
    &&& s.len() > 0 ==> s[0] != '-' && s.last() != '-'
    &&& forall|i: int| 0 <= i < s.len() - 1 ==> !(#[trigger] s[i] == '-' && s[i + 1] == '-')
}

proof fn lemma_slug_fold_shape(cs: Seq<char>)
    ensures
        ({
            let (out, last) = slug_fold(cs);
            &&& forall|i: int| 0 <= i < out.len() ==> ascii_alphanumeric(#[trigger] out[i]) || out[i] == '-'
            &&& out.len() > 0 ==> out[0] != '-'
            &&& forall|i: int| 0 <= i < out.len() - 1 ==> !(#[trigger] out[i] == '-' && out[i + 1] == '-')
            &&& last <==> (out.len() > 0 && out.last() == '-')
            &&& (out.len() == 0 <==> forall|i: int| 0 <= i < cs.len() ==> !ascii_alphanumeric(#[trigger] cs[i]))
        }),
    decreases cs.len(),
{
    if cs.len() > 0 {
        let prev = cs.drop_last();
        lemma_slug_fold_shape(prev);
        let (out, last) = slug_fold(cs);
        let (pout, plast) = slug_fold(prev);
        assert forall|i: int| 0 <= i < prev.len() implies prev[i] == cs[i] by {}
        if ascii_alphanumeric(cs.last()) {
            assert(out == pout.push(cs.last()));
        } else if !plast && pout.len() > 0 {
            assert(out == pout.push('-'));
            assert(pout.last() != '-');
            assert(exists|i: int| 0 <= i < prev.len() && ascii_alphanumeric(#[trigger] prev[i]));
            let w = choose|i: int| 0 <= i < prev.len() && ascii_alphanumeric(#[trigger] prev[i]);
            assert(cs[w] == prev[w]);
        } else {
            assert(out == pout);
            if out.len() == 0 {
                assert forall|i: int| 0 <= i < cs.len() implies !ascii_alphanumeric(#[trigger] cs[i]) by {
                    if i < prev.len() {
                        assert(cs[i] == prev[i]);
                    }
                }
            } else {
                let w = choose|i: int| 0 <= i < prev.len() && ascii_alphanumeric(#[trigger] prev[i]);
                assert(cs[w] == prev[w]);
            }
        }
    }
}

/// Slugs are made of ASCII letters, digits and single dashes, never start or end
/// with a dash, and are empty exactly when the lowercased name holds no ASCII
/// letter or digit.
pub proof fn lemma_slug_shape(input: Seq<char>)
    ensures
        slug_shaped(spec_slugify(input)),
        spec_slugify(input).len() == 0 <==> forall|i: int|
            0 <= i < lowered_chars(input).len() ==> !ascii_alphanumeric(
                #[trigger] lowered_chars(input)[i],
            ),
{
    let cs = lowered_chars(input);
    lemma_slug_fold_shape(cs);
    let (out, last) = slug_fold(cs);
    assert(trim_start_char(out, '-') == out);
    let slug = spec_slugify(input);
    if out.len() > 0 && out.last() == '-' {
        assert(out.len() >= 2);
        let d = out.drop_last();
        assert(d.last() == out[out.len() - 2]);
        assert(!(out[out.len() - 2] == '-' && out[out.len() - 1] == '-'));
        assert(trim_end_char(d, '-') == d);
        assert(slug == d);
        assert(slug[0] == out[0]);
        assert forall|i: int| 0 <= i < slug.len() implies ascii_alphanumeric(#[trigger] slug[i]) || slug[i] == '-' by {
            assert(slug[i] == out[i]);
        }
        assert forall|i: int| 0 <= i < slug.len() - 1 implies !(#[trigger] slug[i] == '-' && slug[i + 1] == '-') by {
            assert(slug[i] == out[i]);
            assert(slug[i + 1] == out[i + 1]);
        }
    } else {
        assert(slug == out);
    }
}

/// A character a slug may hold: a lowercase ASCII letter, a digit or `-`.
pub open spec fn slug_char(c: char) -> bool {
    ('a' <= c && c <= 'z') || ('0' <= c && c <= '9') || c == '-'
}

/// No character is an ASCII capital.
pub open spec fn no_ascii_capitals(s: Seq<char>) -> bool {
    forall|i: int| 0 <= i < s.len() ==> !('A' <= #[trigger] s[i] && s[i] <= 'Z')
}

proof fn lemma_slug_fold_from(cs: Seq<char>)
    ensures
        forall|i: int| 0 <= i < slug_fold(cs).0.len() ==> #[trigger] slug_fold(cs).0[i] == '-' || cs.contains(slug_fold(cs).0[i]),
    decreases cs.len(),
{
    if cs.len() > 0 {
        let prev = cs.drop_last();
        lemma_slug_fold_from(prev);
        let out = slug_fold(cs).0;
        let pout = slug_fold(prev).0;
        assert forall|i: int| 0 <= i < out.len() implies #[trigger] out[i] == '-' || cs.contains(out[i]) by {
            if i < pout.len() {
                assert(out[i] == pout[i]);
                if out[i] != '-' {
                    let w = choose|w: int| 0 <= w < prev.len() && prev[w] == pout[i];
                    assert(cs[w] == prev[w]);
                }
            } else {
                assert(out[i] == '-' || out[i] == cs.last());
                assert(cs[cs.len() - 1] == cs.last());
            }
        }
    }
}

proof fn lemma_slug_is_fold_prefix(input: Seq<char>)
    ensures
        spec_slugify(input).len() <= slug_fold(lowered_chars(input)).0.len(),
        forall|i: int| 0 <= i < spec_slugify(input).len() ==> #[trigger] spec_slugify(input)[i]
            == slug_fold(lowered_chars(input)).0[i],
{
    let cs = lowered_chars(input);
    lemma_slug_fold_shape(cs);
    let out = slug_fold(cs).0;
    assert(trim_start_char(out, '-') == out);
    if out.len() > 0 && out.last() == '-' {
        let d = out.drop_last();
        assert(d.last() == out[out.len() - 2]);
        assert(!(out[out.len() - 2] == '-' && out[out.len() - 1] == '-'));
        assert(trim_end_char(d, '-') == d);
    }
}

proof fn lemma_lowered_slug_chars(s: Seq<char>)
    requires
        forall|i: int| 0 <= i < s.len() ==> slug_char(#[trigger] s[i]),
    ensures
        lowered_chars(s) == s,
    decreases s.len(),
{
    if s.len() > 0 {
        let p = s.drop_last();
        lemma_lowered_slug_chars(p);
        let ms = p.map_values(|c: char| char_lowercase(c));
        assert(s.map_values(|c: char| char_lowercase(c)) =~= ms.push(char_lowercase(s.last())));
        ms.lemma_flatten_push(char_lowercase(s.last()));
        assert(slug_char(s[s.len() - 1]));
        assert(char_lowercase(s.last()) == seq![s.last()]);
        assert(s =~= p.push(s.last()));
    } else {
        assert(lowered_chars(s) =~= s);
    }
}

proof fn lemma_fold_of_slug(s: Seq<char>, n: int)
    requires
        slug_shaped(s),
        0 <= n <= s.len(),
    ensures
        slug_fold(s.take(n)) == (s.take(n), n > 0 && s[n - 1] == '-'),
    decreases n,
{
    if n > 0 {
        lemma_fold_of_slug(s, n - 1);
        assert(s.take(n).drop_last() =~= s.take(n - 1));
        assert(s.take(n).last() == s[n - 1]);
        assert(s.take(n - 1).push(s[n - 1]) =~= s.take(n));
        if s[n - 1] == '-' {
            assert(n - 1 > 0);
            assert(!(s[n - 2] == '-' && s[n - 1] == '-'));
        }
    } else {
        assert(s.take(0) =~= Seq::<char>::empty());
    }
}

/// When lowercasing the name gives no ASCII capital (as for every ASCII name),
/// its slug holds only lowercase ASCII letters, digits and `-`, and making a
/// slug of the slug gives it back unchanged.
pub proof fn lemma_slug_idempotent(input: Seq<char>)
    requires
        no_ascii_capitals(lowered_chars(input)),
    ensures
        forall|i: int| 0 <= i < spec_slugify(input).len() ==> slug_char(#[trigger] spec_slugify(input)[i]),
        spec_slugify(spec_slugify(input)) == spec_slugify(input),
{
    let cs = lowered_chars(input);
    let s = spec_slugify(input);
    lemma_slug_shape(input);
    lemma_slug_is_fold_prefix(input);
    lemma_slug_fold_from(cs);
    assert forall|i: int| 0 <= i < s.len() implies slug_char(#[trigger] s[i]) by {
        let out = slug_fold(cs).0;
        assert(s[i] == out[i]);
        if s[i] != '-' {
            let w = choose|w: int| 0 <= w < cs.len() && cs[w] == out[i];
            assert(!('A' <= cs[w] && cs[w] <= 'Z'));
        }
    }
    lemma_lowered_slug_chars(s);
    lemma_fold_of_slug(s, s.len() as int);
    assert(s.take(s.len() as int) =~= s);
    assert(trim_start_char(s, '-') == s);
    assert(trim_end_char(s, '-') == s);
}

/// Lowercasing an ASCII name gives no ASCII capital.
pub proof fn lemma_ascii_lowering_has_no_capitals(input: Seq<char>)
    requires
        all_ascii(input),
    ensures
        no_ascii_capitals(lowered_chars(input)),
    decreases input.len(),
{
    if input.len() > 0 {
        let p = input.drop_last();
        assert forall|i: int| 0 <= i < p.len() implies (#[trigger] p[i] as u32) < 128 by {
            assert(p[i] == input[i]);
        }
        lemma_ascii_lowering_has_no_capitals(p);
        let ms = p.map_values(|c: char| char_lowercase(c));
        assert(input.map_values(|c: char| char_lowercase(c)) =~= ms.push(char_lowercase(input.last())));
        ms.lemma_flatten_push(char_lowercase(input.last()));
        assert((input[input.len() - 1] as u32) < 128);
        let l = lowered_chars(input);
        assert forall|i: int| 0 <= i < l.len() implies !('A' <= #[trigger] l[i] && l[i] <= 'Z') by {
            if i < lowered_chars(p).len() {
                assert(l[i] == lowered_chars(p)[i]);
            }
        }
    } else {
        assert(lowered_chars(input) =~= Seq::<char>::empty());
    }
}

fn trim_dashes(v: &Vec<char>) -> (r: Vec<char>)
    ensures
        r@ == trim_end_char(trim_start_char(v@, '-'), '-'),
{
    let n = v.len();
    let mut start: usize = 0;
    while start < n && v[start] == '-'
        invariant
            n == v@.len(),
            start <= n,
            trim_start_char(v@, '-') == trim_start_char(v@.skip(start as int), '-'),
        decreases n - start,
    {
        assert(v@.skip(start as int).drop_first() =~= v@.skip(start + 1));
        start = start + 1;
    }
    assert(trim_start_char(v@.skip(start as int), '-') == v@.skip(start as int));
    let mut end: usize = n;
    while end > start && v[end - 1] == '-'
        invariant
            n == v@.len(),
            start <= end <= n,
            trim_end_char(v@.skip(start as int), '-') == trim_end_char(
                v@.subrange(start as int, end as int),
                '-',
            ),
        decreases end - start,
    {
        assert(v@.subrange(start as int, end as int).drop_last() =~= v@.subrange(
            start as int,
            end - 1,
        ));
        end = end - 1;
    }
    assert(v@.skip(start as int) =~= v@.subrange(start as int, n as int));
    let mut r: Vec<char> = Vec::new();
    let mut k: usize = start;
    while k < end
        invariant
            n == v@.len(),
            start <= k <= end <= n,
            r@ == v@.subrange(start as int, k as int),
        decreases end - k,
    {
        r.push(v[k]);
        k = k + 1;
        assert(r@ =~= v@.subrange(start as int, k as int));
    }
    assert(trim_end_char(v@.subrange(start as int, end as int), '-') == v@.subrange(
        start as int,
        end as int,
    ));
    r
}

/// The slug of a pack name, used as the pack's id and folder name.
///
/// Every slug holds only lowercase ASCII letters, digits and `-`, and is its
/// own slug.
pub fn slugify(input: &str) -> (out: String)
    ensures
        out@ == spec_slugify(input@),
        forall|k: int| 0 <= k < out@.len() ==> slug_char(#[trigger] out@[k]),
        spec_slugify(out@) == out@,
{
    let cs = chars_of(input);
    let mut acc: Vec<char> = Vec::new();
    let mut last_dash = false;
    let mut i: usize = 0;
    while i < cs.len()
        invariant
            cs@ == input@,
            i <= cs@.len(),
            (acc@, last_dash) == slug_fold(lowered_chars(input@.take(i as int))),
            no_ascii_capitals(lowered_chars(input@.take(i as int))),
        decreases cs@.len() - i,
    {
        let lc = char_to_lowercase(cs[i]);
        assert(lc@ == char_lowercase(input@[i as int]));
        assert(no_ascii_capitals(lc@));
        let ghost base = lowered_chars(input@.take(i as int));
        let mut j: usize = 0;
        while j < lc.len()
            invariant
                j <= lc@.len(),
                (acc@, last_dash) == slug_fold(base + lc@.take(j as int)),
            decreases lc@.len() - j,
        {
            let c = lc[j];
            assert((base + lc@.take(j + 1)).drop_last() =~= base + lc@.take(j as int));
            assert((base + lc@.take(j + 1)).last() == c);
            if is_ascii_alphanumeric(c) {
                acc.push(c);
                last_dash = false;
            } else if !last_dash && acc.len() > 0 {
                acc.push('-');
                last_dash = true;
            }
            j = j + 1;
        }
        proof {
            assert(lc@.take(lc@.len() as int) =~= lc@);
            let ms = input@.take(i as int).map_values(|c: char| char_lowercase(c));
            assert(input@.take(i + 1).map_values(|c: char| char_lowercase(c)) =~= ms.push(
                char_lowercase(input@[i as int]),
            ));
            ms.lemma_flatten_push(char_lowercase(input@[i as int]));
            let before = lowered_chars(input@.take(i as int));
            let after = lowered_chars(input@.take(i + 1));
            assert(after == before + lc@);
            assert forall|k: int| 0 <= k < after.len() implies !('A' <= #[trigger] after[k] && after[k] <= 'Z') by {
                if k < before.len() {
                    assert(after[k] == before[k]);
                } else {
                    assert(after[k] == lc@[k - before.len()]);
                }
            }
        }
        i = i + 1;
    }
    assert(input@.take(cs@.len() as int) =~= input@);
    proof {
        lemma_slug_idempotent(input@);
    }
    let trimmed = trim_dashes(&acc);
    let mut out = String::new();
    push_chars(&mut out, &trimmed);
    out
}


/// Why a new pack could not be set up.
#[derive(Debug)]
pub enum InitPackError {
    /// The name holds no letter or digit, so it gives no pack id.
    NameWithoutLetterOrDigit,
}

/// The manifest of a new, empty pack named `name`: its id is the slug of the
/// name, its author "Unknown" and its license "MIT". A name whose slug is
/// empty is refused.
pub fn new_pack_manifest(name: &str) -> (r: Result<StickerPackManifest, InitPackError>)
    ensures
        r is Err <==> spec_slugify(name@).len() == 0,
        r matches Ok(m) ==> {
            &&& m.id@ == spec_slugify(name@)
            &&& m.name@ == name@
            &&& m.author@ == "Unknown"@
            &&& m.license@ == "MIT"@
            &&& m.description is None
            &&& m.homepage is None
            &&& m.stickers@.len() == 0
        },
{
    let id = slugify(name);
    if id.as_str().is_empty() {
        return Err(InitPackError::NameWithoutLetterOrDigit);
    }
    Ok(
        StickerPackManifest {
            id,
            name: String::from_str(name),
            author: String::from_str("Unknown"),
            license: String::from_str("MIT"),
            description: None,
            homepage: None,
            stickers: Vec::new(),
        },
    )
}

/// Where sticker packs are looked for: the folder given on the command line;
/// else the `TERMINAL_STICKERS_HOME` value when it is set and not empty; else
/// `packs` under the working folder, or the installed share folder, when it
/// exists; else the per-user data folder; else `packs`. The caller passes
/// `local` and `installed` only when they exist, `project` only when the
/// platform has a data folder.
pub fn select_pack_dir(
    explicit: Option<String>,
    home: Option<String>,
    local: Option<String>,
    installed: Option<String>,
    project: Option<String>,
) -> (dir: String)
    ensures
        dir@ == (if explicit is Some {
            explicit->0@
        } else if home is Some && home->0@.len() > 0 {
            home->0@
        } else if local is Some {
            local->0@
        } else if installed is Some {
            installed->0@
        } else if project is Some {
            project->0@
        } else {
            "packs"@
        }),
{
    if let Some(path) = explicit {
        return path;
    }
    if let Some(path) = home {
        if !path.as_str().is_empty() {
            return path;
        }
    }
    if let Some(path) = local {
        return path;
    }
    if let Some(path) = installed {
        return path;
    }
    if let Some(path) = project {
        return path;
    }
    String::from_str("packs")
}

/// The sticker for an image file named directly on the command line: pack
/// "direct" ("Direct File"), id the file stem (else "sticker"), name the file
/// name (else the query), the query itself as its file, no tags.
pub fn direct_sticker(query: &str, stem: Option<String>, file_name: Option<String>) -> (s: Sticker)
    ensures
        s.pack_id@ == "direct"@,
        s.pack_name@ == "Direct File"@,
        s.id@ == (if stem is Some { stem->0@ } else { "sticker"@ }),
        s.name@ == (if file_name is Some { file_name->0@ } else { query@ }),
        s.path.folder@ == Seq::<char>::empty(),
        s.path.file@ == query@,
        s.tags@.len() == 0,
{
    let id = match stem {
        Some(v) => v,
        None => String::from_str("sticker"),
    };
    let name = match file_name {
        Some(v) => v,
        None => String::from_str(query),
    };
    Sticker {
        pack_id: String::from_str("direct"),
        pack_name: String::from_str("Direct File"),
        id,
        name,
        path: ImagePath { folder: String::new(), file: String::from_str(query) },
        tags: Vec::new(),
    }
}

/// Whether a sticker is listed for a query: every sticker is when the query is
/// empty.
pub open spec fn listed_for(k: StickerView, query: Seq<char>) -> bool {
    query.len() == 0 || key_matches(k, query)
}

/// The tag list shown after a sticker: ` [a, b]`, or nothing without tags.
pub open spec fn tags_suffix(tags: Seq<Seq<char>>) -> Seq<char> {
    if tags.len() == 0 {
        seq![]
    } else {
        seq![' ', '['] + join_with(tags, seq![',', ' ']) + seq![']']
    }
}

/// The listing line of a sticker: its qualified id padded to 24 characters, its
/// name and its tags.
pub open spec fn sticker_line(k: StickerView) -> Seq<char> {
    seq![' ', ' '] + pad_right(qualified(k.pack_id, k.id), 24) + seq![' '] + k.name + tags_suffix(
        k.tags,
    )
}

/// The heading line of a pack: `name (id)`.
pub open spec fn pack_header(pack: StickerPack) -> Seq<char> {
    pack.manifest.name@ + seq![' ', '('] + pack.manifest.id@ + seq![')']
}

/// The lines listing one pack: nothing when none of its stickers is listed,
/// else its heading and one line per listed sticker.
pub open spec fn pack_listing(pack: StickerPack, query: Seq<char>) -> Seq<Seq<char>> {
    let shown = pack_views(pack).filter(|k: StickerView| listed_for(k, query));
    if shown.len() == 0 {
        seq![]
    } else {
        seq![pack_header(pack)] + shown.map_values(|k: StickerView| sticker_line(k))
    }
}

/// The lines listing all packs for a query, pack after pack.
pub open spec fn listing(packs: Seq<StickerPack>, query: Seq<char>) -> Seq<Seq<char>> {
    packs.map_values(|p: StickerPack| pack_listing(p, query)).flatten()
}

/// With an empty query every sticker of a pack is listed.
pub proof fn lemma_empty_query_lists_every_sticker(pack: StickerPack)
    ensures
        pack_views(pack).filter(|k: StickerView| listed_for(k, seq![])) == pack_views(pack),
{
    lemma_filter_keeps_all(pack_views(pack), |k: StickerView| listed_for(k, seq![]));
}

proof fn lemma_filter_keeps_all(s: Seq<StickerView>, pred: spec_fn(StickerView) -> bool)
    requires
        forall|i: int| 0 <= i < s.len() ==> pred(#[trigger] s[i]),
    ensures
        s.filter(pred) == s,
    decreases s.len(),
{
    reveal(Seq::filter);
    if s.len() > 0 {
        lemma_filter_keeps_all(s.drop_last(), pred);
        assert(s.drop_last().push(s.last()) =~= s);
    }
}

/// A sticker is named exactly by its own id and by its full id `pack/sticker`.
pub proof fn lemma_ids_name_exactly(k: StickerView)
    ensures
        exact_match(k, k.id),
        exact_match(k, qualified(k.pack_id, k.id)),
{
}

/// When a query is the full id of some sticker, resolving it finds an exact
/// match, and the first one lies no later than that sticker; so
/// `resolve_sticker` answers `Ok` with the first sticker named by the query.
pub proof fn lemma_full_id_resolves(ks: Seq<StickerView>, query: Seq<char>, i: int)
    requires
        0 <= i < ks.len(),
        qualified(ks[i].pack_id, ks[i].id) == query || ks[i].id == query,
    ensures
        has_exact(ks, query),
        exists|j: int| 0 <= j <= i && #[trigger] first_exact(ks, query, j),
    decreases i,
{
    assert(exact_match(ks[i], query));
    if exists|j: int| 0 <= j < i && #[trigger] exact_match(ks[j], query) {
        let j = choose|j: int| 0 <= j < i && #[trigger] exact_match(ks[j], query);
        lemma_full_id_resolves(ks, query, j);
    } else {
        assert(first_exact(ks, query, i));
    }
}

proof fn lemma_flatten_contains<A>(ss: Seq<Seq<A>>, j: int, x: A)
    requires
        0 <= j < ss.len(),
        ss[j].contains(x),
    ensures
        ss.flatten().contains(x),
    decreases ss.len(),
{
    let p = ss.drop_last();
    assert(ss =~= p.push(ss.last()));
    p.lemma_flatten_push(ss.last());
    if j < ss.len() - 1 {
        assert(p[j] == ss[j]);
        lemma_flatten_contains(p, j, x);
        let k = choose|k: int| 0 <= k < p.flatten().len() && p.flatten()[k] == x;
        assert(ss.flatten()[k] == x);
    } else {
        let k = choose|k: int| 0 <= k < ss.last().len() && ss.last()[k] == x;
        assert(ss.flatten()[p.flatten().len() + k] == x);
    }
}

/// Every sticker of a pack that the query matches (or every sticker, for an
/// empty query) has its line in the listing.
pub proof fn lemma_listing_shows_matches(packs: Seq<StickerPack>, query: Seq<char>, j: int, i: int)
    requires
        0 <= j < packs.len(),
        0 <= i < pack_views(packs[j]).len(),
        query.len() == 0 || key_matches(pack_views(packs[j])[i], query),
    ensures
        pack_listing(packs[j], query).contains(sticker_line(pack_views(packs[j])[i])),
        listing(packs, query).contains(sticker_line(pack_views(packs[j])[i])),
{
    let ks = pack_views(packs[j]);
    let pred = |k: StickerView| listed_for(k, query);
    ks.lemma_filter_contains(pred, i);
    let shown = ks.filter(pred);
    let m = choose|m: int| 0 <= m < shown.len() && shown[m] == ks[i];
    let lines = shown.map_values(|k: StickerView| sticker_line(k));
    assert(pack_listing(packs[j], query)[1 + m] == lines[m]);
    let all = packs.map_values(|p: StickerPack| pack_listing(p, query));
    assert(all[j] == pack_listing(packs[j], query));
    lemma_flatten_contains(all, j, sticker_line(ks[i]));
}

/// For a non-empty query, a pack none of whose stickers the query matches is
/// left out of the listing.
pub proof fn lemma_listing_hides_packs_without_match(pack: StickerPack, query: Seq<char>)
    requires
        query.len() > 0,
        forall|i: int| 0 <= i < pack_views(pack).len() ==> !key_matches(#[trigger] pack_views(pack)[i], query),
    ensures
        pack_listing(pack, query) == Seq::<Seq<char>>::empty(),
{
    let ks = pack_views(pack);
    let pred = |k: StickerView| listed_for(k, query);
    let shown = ks.filter(pred);
    if shown.len() > 0 {
        ks.lemma_filter_pred(pred, 0);
        assert(shown.contains(shown[0]));
        ks.lemma_filter_contains_rev(pred, shown[0]);
        let i = choose|i: int| 0 <= i < ks.len() && ks[i] == shown[0];
        assert(!key_matches(ks[i], query));
    }
}

fn render_sticker_line(s: &Sticker) -> (line: String)
    ensures
        line@ == sticker_line(s@),
{
    let mut line = String::new();
    push_char(&mut line, ' ');
    push_char(&mut line, ' ');
    let qid = s.qualified_id();
    push_padded(&mut line, qid.as_str(), 24);
    push_char(&mut line, ' ');
    push_str(&mut line, s.name.as_str());
    if s.tags.len() > 0 {
        push_char(&mut line, ' ');
        push_char(&mut line, '[');
        let joined = join_strings(&s.tags, ", ");
        proof {
            reveal_strlit(", ");
            assert(", "@ =~= seq![',', ' ']);
        }
        push_str(&mut line, joined.as_str());
        push_char(&mut line, ']');
    }
    assert(line@ =~= sticker_line(s@));
    line
}

fn pack_lines(pack: &StickerPack, query: &str) -> (lines: Vec<String>)
    ensures
        strings_view(lines@) == pack_listing(*pack, query@),
{
    let stickers = pack.stickers();
    let ghost ks = pack_views(*pack);
    let ghost pred = |k: StickerView| listed_for(k, query@);
    let mut body: Vec<String> = Vec::new();
    let ghost mut shown: Seq<StickerView> = seq![];
    let mut i: usize = 0;
    while i < stickers.len()
        invariant
            ks == pack_views(*pack),
            views(stickers@) == ks,
            pred == (|k: StickerView| listed_for(k, query@)),
            i <= stickers@.len(),
            shown == ks.take(i as int).filter(pred),
            strings_view(body@) == shown.map_values(|k: StickerView| sticker_line(k)),
        decreases stickers@.len() - i,
    {
        let s = &stickers[i];
        assert(ks[i as int] == s@);
        assert(ks.take(i + 1) =~= ks.take(i as int).push(ks[i as int]));
        proof {
            ks.take(i as int).lemma_filter_push(ks[i as int], pred);
        }
        if query.is_empty() || s.matches_query(query) {
            let line = render_sticker_line(s);
            let ghost before = body@;
            body.push(line);
            proof {
                shown = shown.push(s@);
                assert(strings_view(body@) =~= strings_view(before).push(sticker_line(s@)));
                assert(shown.map_values(|k: StickerView| sticker_line(k)) =~= shown.drop_last().map_values(
                    |k: StickerView| sticker_line(k),
                ).push(sticker_line(s@)));
            }
        }
        i = i + 1;
    }
    assert(ks.take(stickers@.len() as int) =~= ks);
    let mut lines: Vec<String> = Vec::new();
    if body.len() == 0 {
        assert(strings_view(lines@) =~= pack_listing(*pack, query@));
        return lines;
    }
    let mut head = String::from_str(pack.manifest.name.as_str());
    push_char(&mut head, ' ');
    push_char(&mut head, '(');
    push_str(&mut head, pack.manifest.id.as_str());
    push_char(&mut head, ')');
    assert(head@ =~= pack_header(*pack));
    lines.push(head);
    lines.append(&mut body);
    assert(strings_view(lines@) =~= pack_listing(*pack, query@));
    lines
}

/// The lines that list the stickers of `packs` for a query (every sticker when
/// the query is empty): for each pack with a listed sticker, its heading line,
/// then one line per listed sticker.
pub fn list_lines(packs: &[StickerPack], query: &str) -> (lines: Vec<String>)
    ensures
        strings_view(lines@) == listing(packs@, query@),
{
    let mut lines: Vec<String> = Vec::new();
    let mut i: usize = 0;
    while i < packs.len()
        invariant
            i <= packs@.len(),
            strings_view(lines@) == listing(packs@.take(i as int), query@),
        decreases packs@.len() - i,
    {
        let mut more = pack_lines(&packs[i], query);
        let ghost before = lines@;
        lines.append(&mut more);
        proof {
            let ps = packs@.take(i as int).map_values(|p: StickerPack| pack_listing(p, query@));
            assert(packs@.take(i + 1).map_values(|p: StickerPack| pack_listing(p, query@))
                =~= ps.push(pack_listing(packs@[i as int], query@)));
            ps.lemma_flatten_push(pack_listing(packs@[i as int], query@));
            assert(strings_view(lines@) =~= strings_view(before) + pack_listing(
                packs@[i as int],
                query@,
            ));
        }
        i = i + 1;
    }
    assert(packs@.take(packs@.len() as int) =~= packs@);
    lines
}


/// `a` comes no later than `b` in code point order (the order of `String`'s `<=`).
pub open spec fn chars_le(a: Seq<char>, b: Seq<char>) -> bool
    decreases a.len(),
{
    if a.len() == 0 {
        true
    } else if b.len() == 0 {
        false
    } else if a[0] != b[0] {
        a[0] < b[0]
    } else {
        chars_le(a.drop_first(), b.drop_first())
    }
}

/// Code point order is total.
pub proof fn lemma_chars_le_total(a: Seq<char>, b: Seq<char>)
    ensures
        chars_le(a, b) || chars_le(b, a),
    decreases a.len(),
{
    if a.len() > 0 && b.len() > 0 && a[0] == b[0] {
        lemma_chars_le_total(a.drop_first(), b.drop_first());
    }
}

/// Code point order is transitive.
pub proof fn lemma_chars_le_transitive(a: Seq<char>, b: Seq<char>, c: Seq<char>)
    requires
        chars_le(a, b),
        chars_le(b, c),
    ensures
        chars_le(a, c),
    decreases a.len(),
{
    if a.len() > 0 && b.len() > 0 && c.len() > 0 && a[0] == b[0] && b[0] == c[0] {
        lemma_chars_le_transitive(a.drop_first(), b.drop_first(), c.drop_first());
    }
}

/// Code point order only ties equal sequences.
pub proof fn lemma_chars_le_antisymmetric(a: Seq<char>, b: Seq<char>)
    requires
        chars_le(a, b),
        chars_le(b, a),
    ensures
        a == b,
    decreases a.len(),
{
    if a.len() > 0 && b.len() > 0 {
        lemma_chars_le_antisymmetric(a.drop_first(), b.drop_first());
        assert(a =~= seq![a[0]] + a.drop_first());
        assert(b =~= seq![b[0]] + b.drop_first());
    }
}

/// Whether `a` comes no later than `b` in code point order.
pub fn name_le(a: &str, b: &str) -> (r: bool)
    ensures
        r == chars_le(a@, b@),
{
    let x = chars_of(a);
    let y = chars_of(b);
    let mut i: usize = 0;
    while i < x.len() && i < y.len()
        invariant
            x@ == a@,
            y@ == b@,
            i <= x@.len(),
            i <= y@.len(),
            chars_le(a@, b@) == chars_le(a@.skip(i as int), b@.skip(i as int)),
        decreases x@.len() - i,
    {
        assert(a@.skip(i as int).drop_first() =~= a@.skip(i + 1));
        assert(b@.skip(i as int).drop_first() =~= b@.skip(i + 1));
        if x[i] != y[i] {
            return x[i] < y[i];
        }
        i = i + 1;
    }
    i == x.len()
}

/// Packs in order of their names.
pub open spec fn sorted_by_name(s: Seq<StickerPack>) -> bool {
    forall|i: int, j: int|
        0 <= i < j < s.len() ==> chars_le(
            #[trigger] s[i].manifest.name@,
            #[trigger] s[j].manifest.name@,
        )
}

/// `perm` tells, for each position of `res`, where its pack stood in `orig`:
/// each pack of `orig` appears once, and packs with equal names keep their order.
pub open spec fn stable_arrangement(
    orig: Seq<StickerPack>,
    res: Seq<StickerPack>,
    perm: Seq<int>,
) -> bool {
    &&& perm.len() == res.len() == orig.len()
    &&& forall|i: int| 0 <= i < perm.len() ==> 0 <= #[trigger] perm[i] < orig.len()
    &&& forall|i: int| 0 <= i < perm.len() ==> #[trigger] res[i] == orig[perm[i]]
    &&& forall|i: int, j: int| 0 <= i < j < perm.len() ==> #[trigger] perm[i] != #[trigger] perm[j]
    &&& forall|i: int, j: int|
        0 <= i < j < perm.len() && #[trigger] res[i].manifest.name@ == #[trigger] res[j].manifest.name@
            ==> perm[i] < perm[j]
}

/// The packs sorted by name; packs with equal names keep their order.
pub fn sort_packs_by_name(packs: Vec<StickerPack>) -> (res: Vec<StickerPack>)
    ensures
        sorted_by_name(res@),
        exists|perm: Seq<int>| stable_arrangement(packs@, res@, perm),
{
    let ghost orig = packs@;
    let n = packs.len();
    let mut rest = packs;
    let mut res: Vec<StickerPack> = Vec::new();
    let ghost mut perm: Seq<int> = seq![];
    let mut i: usize = 0;
    while rest.len() > 0
        invariant
            rest@ == orig.skip(i as int),
            orig.len() == n,
            i <= orig.len(),
            res@.len() == i,
            sorted_by_name(res@),
            perm.len() == i,
            forall|k: int| 0 <= k < i ==> 0 <= #[trigger] perm[k] < i,
            forall|k: int| 0 <= k < i ==> #[trigger] res@[k] == orig[perm[k]],
            forall|a: int, b: int| 0 <= a < b < i ==> #[trigger] perm[a] != #[trigger] perm[b],
            forall|a: int, b: int|
                0 <= a < b < i && #[trigger] res@[a].manifest.name@ == #[trigger] res@[b].manifest.name@
                    ==> perm[a] < perm[b],
        decreases rest@.len(),
    {
        let x = rest.remove(0);
        assert(x == orig[i as int]);
        let mut p: usize = 0;
        while p < res.len() && name_le(res[p].manifest.name.as_str(), x.manifest.name.as_str())
            invariant
                p <= res@.len(),
                forall|q: int| 0 <= q < p ==> chars_le(#[trigger] res@[q].manifest.name@, x.manifest.name@),
            decreases res@.len() - p,
        {
            p = p + 1;
        }
        let ghost old_res = res@;
        let ghost old_perm = perm;
        let ghost xn = x.manifest.name@;
        res.insert(p, x);
        proof {
            perm = old_perm.insert(p as int, i as int);
            assert(res@ == old_res.insert(p as int, x));
            assert forall|a: int, b: int| 0 <= a < b < res@.len() implies chars_le(
                #[trigger] res@[a].manifest.name@,
                #[trigger] res@[b].manifest.name@,
            ) by {
                if a == p {
                    let ob = old_res[b - 1];
                    lemma_chars_le_total(old_res[p as int].manifest.name@, xn);
                    if b - 1 > p {
                        assert(chars_le(old_res[p as int].manifest.name@, old_res[b - 1].manifest.name@));
                        lemma_chars_le_transitive(xn, old_res[p as int].manifest.name@, ob.manifest.name@);
                    }
                } else if b == p {
                } else if a < p && b > p {
                    assert(chars_le(old_res[a].manifest.name@, old_res[b - 1].manifest.name@));
                } else if a > p {
                    assert(chars_le(old_res[a - 1].manifest.name@, old_res[b - 1].manifest.name@));
                } else {
                    assert(chars_le(old_res[a].manifest.name@, old_res[b].manifest.name@));
                }
            }
            assert forall|k: int| 0 <= k < i + 1 implies 0 <= #[trigger] perm[k] < i + 1 by {
                if k < p {
                    assert(perm[k] == old_perm[k]);
                } else if k > p {
                    assert(perm[k] == old_perm[k - 1]);
                }
            }
            assert forall|k: int| 0 <= k < i + 1 implies #[trigger] res@[k] == orig[perm[k]] by {
                if k < p {
                    assert(perm[k] == old_perm[k]);
                } else if k > p {
                    assert(perm[k] == old_perm[k - 1]);
                }
            }
            assert forall|a: int, b: int| 0 <= a < b < i + 1 implies #[trigger] perm[a] != #[trigger] perm[b] by {
                if a < p && b < p {
                    assert(old_perm[a] != old_perm[b]);
                } else if a < p && b > p {
                    assert(old_perm[a] != old_perm[b - 1]);
                } else if a > p {
                    assert(old_perm[a - 1] != old_perm[b - 1]);
                } else if a == p {
                    assert(old_perm[b - 1] < i);
                } else {
                    assert(old_perm[a] < i);
                }
            }
            assert forall|a: int, b: int|
                0 <= a < b < i + 1 && #[trigger] res@[a].manifest.name@ == #[trigger] res@[b].manifest.name@
                    implies perm[a] < perm[b] by {
                if a == p {
                    if b - 1 > p {
                        assert(chars_le(old_res[p as int].manifest.name@, old_res[b - 1].manifest.name@));
                    }
                    assert(chars_le(old_res[p as int].manifest.name@, xn));
                    assert(false);
                } else if b == p {
                    assert(old_perm[a] < i);
                } else if a < p && b > p {
                    assert(old_res[a].manifest.name@ == old_res[b - 1].manifest.name@);
                } else if a > p {
                    assert(old_res[a - 1].manifest.name@ == old_res[b - 1].manifest.name@);
                } else {
                    assert(old_res[a].manifest.name@ == old_res[b].manifest.name@);
                }
            }
        }
        i = i + 1;
        assert(rest@ =~= orig.skip(i as int));
    }
    assert(stable_arrangement(orig, res@, perm));
    res
}

} // verus!
