//! Sticker pack manifests and the stickers they describe.

use vstd::prelude::*;
use vstd::string::*;
use crate::text::{
    all_ascii, ascii_lower_char, lowercase, push_char, push_str, seq_contains, str_contains, strings_view, to_lowercase,
};

verus! {

/// One sticker entry of a pack manifest.
#[derive(Debug, Clone)]
pub struct StickerManifest {
    pub id: String,
    pub name: String,
    /// Image file, relative to the pack's folder.
    pub file: String,
    pub tags: Vec<String>,
}

/// The contents of a `sticker-pack.toml` manifest.
#[derive(Debug, Clone)]
pub struct StickerPackManifest {
    pub id: String,
    pub name: String,
    pub author: String,
    pub license: String,
    pub description: Option<String>,
    pub homepage: Option<String>,
    pub stickers: Vec<StickerManifest>,
}

/// A loaded pack: its manifest and the folder that holds it.
#[derive(Debug, Clone)]
pub struct StickerPack {
    pub manifest: StickerPackManifest,
    pub root: String,
}

/// Where a sticker's image lies: a file, relative to a folder. The two are
/// joined by the platform's path rules where the image is opened.
#[derive(Debug, Clone, PartialEq, Eq)]
pub struct ImagePath {
    pub folder: String,
    pub file: String,
}

/// A sticker ready to be listed, previewed or sent.
#[derive(Debug, Clone, PartialEq, Eq)]
pub struct Sticker {
    pub pack_id: String,
    pub pack_name: String,
    pub id: String,
    pub name: String,
    pub path: ImagePath,
    pub tags: Vec<String>,
}

/// A sticker as values.
pub struct StickerView {
    pub pack_id: Seq<char>,
    pub pack_name: Seq<char>,
    pub id: Seq<char>,
    pub name: Seq<char>,
    pub folder: Seq<char>,
    pub file: Seq<char>,
    pub tags: Seq<Seq<char>>,
}

/// `pack/sticker`, the id that names a sticker across packs.
pub open spec fn qualified(pack_id: Seq<char>, id: Seq<char>) -> Seq<char> {
    pack_id + seq!['/'] + id
}

/// Whether a query, compared without case, occurs in the id, the name, the
/// qualified id or one of the tags of a sticker.
pub open spec fn key_matches(k: StickerView, query: Seq<char>) -> bool {
    let q = lowercase(query);
    ||| seq_contains(lowercase(k.id), q)
    ||| seq_contains(lowercase(k.name), q)
    ||| seq_contains(lowercase(qualified(k.pack_id, k.id)), q)
    ||| exists|i: int| 0 <= i < k.tags.len() && seq_contains(lowercase(#[trigger] k.tags[i]), q)
}

/// The sticker that entry `m` of `pack` describes: the pack's id and name, the
/// entry's id, name and tags, and its file inside the pack folder.
pub open spec fn manifest_view(pack: StickerPack, m: StickerManifest) -> StickerView {
    StickerView {
        pack_id: pack.manifest.id@,
        pack_name: pack.manifest.name@,
        id: m.id@,
        name: m.name@,
        folder: pack.root@,
        file: m.file@,
        tags: strings_view(m.tags@),
    }
}

/// The stickers of a pack as values, in manifest order.
pub open spec fn pack_views(pack: StickerPack) -> Seq<StickerView> {
    pack.manifest.stickers@.map_values(|m: StickerManifest| manifest_view(pack, m))
}

/// A sequence of stickers as values.
pub open spec fn views(stickers: Seq<Sticker>) -> Seq<StickerView> {
    stickers.map_values(|s: Sticker| s@)
}

impl View for Sticker {
    type V = StickerView;

    open spec fn view(&self) -> StickerView {
        StickerView {
            pack_id: self.pack_id@,
            pack_name: self.pack_name@,
            id: self.id@,
            name: self.name@,
            folder: self.path.folder@,
            file: self.path.file@,
            tags: strings_view(self.tags@),
        }
    }
}

impl Sticker {
    /// `pack/sticker`.
    pub fn qualified_id(&self) -> (r: String)
        ensures
            r@ == qualified(self.pack_id@, self.id@),
    {
        let mut r = String::from_str(self.pack_id.as_str());
        push_char(&mut r, '/');
        push_str(&mut r, self.id.as_str());
        assert(r@ =~= qualified(self.pack_id@, self.id@));
        r
    }

    /// Whether `query`, compared without case, occurs in the id, name,
    /// qualified id or a tag of this sticker.
    pub fn matches_query(&self, query: &str) -> (b: bool)
        ensures
            b == key_matches(self@, query@),
            query@.len() == 0 ==> b,
    {
        let q = to_lowercase(query);
        let lid = to_lowercase(self.id.as_str());
        proof {
            if query@.len() == 0 {
                assert(q@ =~= Seq::<char>::empty());
                assert(lid@.subrange(0int, 0int + q@.len()) =~= q@);
                assert(seq_contains(lid@, q@));
            }
        }
        if str_contains(lid.as_str(), q.as_str()) {
            return true;
        }
        if str_contains(to_lowercase(self.name.as_str()).as_str(), q.as_str()) {
            return true;
        }
        let qid = self.qualified_id();
        if str_contains(to_lowercase(qid.as_str()).as_str(), q.as_str()) {
            return true;
        }
        let ghost k = self@;
        let mut i: usize = 0;
        while i < self.tags.len()
            invariant
                k == self@,
                q@ == lowercase(query@),
                i <= self.tags@.len(),
                forall|j: int|
                    0 <= j < i ==> !seq_contains(lowercase(#[trigger] k.tags[j]), lowercase(query@)),
            decreases self.tags@.len() - i,
        {
            if str_contains(to_lowercase(self.tags[i].as_str()).as_str(), q.as_str()) {
                assert(k.tags[i as int] == self.tags@[i as int]@);
                return true;
            }
            assert(k.tags[i as int] == self.tags@[i as int]@);
            i = i + 1;
        }
        false
    }

    /// A copy of this sticker with every field equal.
    pub fn duplicate(&self) -> (r: Sticker)
        ensures
            r@ == self@,
    {
        Sticker {
            pack_id: self.pack_id.clone(),
            pack_name: self.pack_name.clone(),
            id: self.id.clone(),
            name: self.name.clone(),
            path: ImagePath { folder: self.path.folder.clone(), file: self.path.file.clone() },
            tags: clone_strings(&self.tags),
        }
    }
}

/// A copy of a list of strings.
pub fn clone_strings(v: &Vec<String>) -> (r: Vec<String>)
    ensures
        r@ == v@,
{
    let mut r: Vec<String> = Vec::new();
    let mut i: usize = 0;
    while i < v.len()
        invariant
            i <= v@.len(),
            r@ == v@.take(i as int),
        decreases v@.len() - i,
    {
        r.push(v[i].clone());
        i = i + 1;
        assert(r@ =~= v@.take(i as int));
    }
    assert(v@.take(v@.len() as int) =~= v@);
    r
}

impl StickerPack {
    /// The stickers of this pack, in manifest order, each carrying the pack's
    /// id and name and its image file inside the pack folder.
    pub fn stickers(&self) -> (res: Vec<Sticker>)
        ensures
            res@.len() == self.manifest.stickers@.len(),
            forall|i: int|
                0 <= i < res@.len() ==> #[trigger] res@[i]@ == manifest_view(
                    *self,
                    self.manifest.stickers@[i],
                ),
            views(res@) == pack_views(*self),
    {
        let mut res: Vec<Sticker> = Vec::new();
        let mut i: usize = 0;
        while i < self.manifest.stickers.len()
            invariant
                i <= self.manifest.stickers@.len(),
                res@.len() == i,
                forall|j: int|
                    0 <= j < i ==> #[trigger] res@[j]@ == manifest_view(
                        *self,
                        self.manifest.stickers@[j],
                    ),
            decreases self.manifest.stickers@.len() - i,
        {
            let entry = &self.manifest.stickers[i];
            let sticker = Sticker {
                pack_id: self.manifest.id.clone(),
                pack_name: self.manifest.name.clone(),
                id: entry.id.clone(),
                name: entry.name.clone(),
                path: ImagePath { folder: self.root.clone(), file: entry.file.clone() },
                tags: clone_strings(&entry.tags),
            };
            res.push(sticker);
            i = i + 1;
        }
        assert(views(res@) =~= pack_views(*self));
        res
    }
}

proof fn lemma_empty_is_contained(hay: Seq<char>)
    ensures
        seq_contains(hay, seq![]),
{
    assert(hay.subrange(0int, 0int + Seq::<char>::empty().len()) =~= Seq::<char>::empty());
}

proof fn lemma_lowercase_ascii(s: Seq<char>)
    requires
        all_ascii(s),
    ensures
        lowercase(s) == s.map_values(|c: char| ascii_lower_char(c)),
        all_ascii(lowercase(s)),
        lowercase(lowercase(s)) == lowercase(s),
{
    let l = lowercase(s);
    assert forall|i: int| 0 <= i < l.len() implies (#[trigger] l[i] as u32) < 128 by {
        assert((s[i] as u32) < 128);
    }
    assert(lowercase(l) =~= l);
}

proof fn lemma_lowercase_keeps_containment(hay: Seq<char>, needle: Seq<char>)
    requires
        all_ascii(hay),
        all_ascii(needle),
        seq_contains(hay, needle),
    ensures
        seq_contains(lowercase(hay), lowercase(needle)),
{
    lemma_lowercase_ascii(hay);
    lemma_lowercase_ascii(needle);
    let i = choose|i: int| 0 <= i <= hay.len() - needle.len() && #[trigger] hay.subrange(i, i + needle.len()) == needle;
    let lh = lowercase(hay);
    let ln = lowercase(needle);
    assert(lh.subrange(i, i + ln.len()) =~= ln) by {
        assert forall|j: int| 0 <= j < ln.len() implies lh.subrange(i, i + ln.len())[j] == ln[j] by {
            assert(hay.subrange(i, i + needle.len())[j] == needle[j]);
        }
    }
}

/// The empty query matches every sticker.
pub proof fn lemma_empty_query_matches(k: StickerView)
    ensures
        key_matches(k, seq![]),
{
    assert(all_ascii(Seq::<char>::empty()));
    assert(lowercase(Seq::<char>::empty()) =~= Seq::<char>::empty());
    lemma_empty_is_contained(lowercase(k.id));
}

/// Matching ignores case: an ASCII query matches exactly the stickers its
/// lowercase form matches.
pub proof fn lemma_match_ignores_case(k: StickerView, query: Seq<char>)
    requires
        all_ascii(query),
    ensures
        key_matches(k, query) == key_matches(k, lowercase(query)),
{
    lemma_lowercase_ascii(query);
}

/// An ASCII query that occurs, as written, in the id, the name, the full id
/// `pack/sticker` or a tag of a sticker, each of them ASCII, matches it.
pub proof fn lemma_contained_query_matches(k: StickerView, query: Seq<char>, t: int)
    requires
        all_ascii(query),
    ensures
        all_ascii(k.id) && seq_contains(k.id, query) ==> key_matches(k, query),
        all_ascii(k.name) && seq_contains(k.name, query) ==> key_matches(k, query),
        all_ascii(qualified(k.pack_id, k.id)) && seq_contains(qualified(k.pack_id, k.id), query)
            ==> key_matches(k, query),
        0 <= t < k.tags.len() && all_ascii(k.tags[t]) && seq_contains(k.tags[t], query)
            ==> key_matches(k, query),
{
    if all_ascii(k.id) && seq_contains(k.id, query) {
        lemma_lowercase_keeps_containment(k.id, query);
    }
    if all_ascii(k.name) && seq_contains(k.name, query) {
        lemma_lowercase_keeps_containment(k.name, query);
    }
    if all_ascii(qualified(k.pack_id, k.id)) && seq_contains(qualified(k.pack_id, k.id), query) {
        lemma_lowercase_keeps_containment(qualified(k.pack_id, k.id), query);
    }
    if 0 <= t < k.tags.len() && all_ascii(k.tags[t]) && seq_contains(k.tags[t], query) {
        lemma_lowercase_keeps_containment(k.tags[t], query);
    }
}

/// A sticker matches a query only when the query, lowercased, occurs in its
/// lowercased id, name, full id or one of its tags.
pub proof fn lemma_match_has_a_source(k: StickerView, query: Seq<char>)
    requires
        key_matches(k, query),
    ensures
        seq_contains(lowercase(k.id), lowercase(query)) || seq_contains(lowercase(k.name), lowercase(query))
            || seq_contains(lowercase(qualified(k.pack_id, k.id)), lowercase(query)) || exists|t: int|
            0 <= t < k.tags.len() && seq_contains(lowercase(#[trigger] k.tags[t]), lowercase(query)),
{
}

/// The full id of a sticker is its pack id, a `/`, then its id.
pub proof fn lemma_qualified_parts(pack_id: Seq<char>, id: Seq<char>)
    ensures
        qualified(pack_id, id).len() == pack_id.len() + 1 + id.len(),
        qualified(pack_id, id).take(pack_id.len() as int) == pack_id,
        qualified(pack_id, id)[pack_id.len() as int] == '/',
        qualified(pack_id, id).skip(pack_id.len() + 1int) == id,
{
    assert(qualified(pack_id, id).take(pack_id.len() as int) =~= pack_id);
    assert(qualified(pack_id, id).skip(pack_id.len() + 1int) =~= id);
}

} // verus!
