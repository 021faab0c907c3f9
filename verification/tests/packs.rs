use terminal_stickers::manifest::{Sticker, StickerManifest, StickerPack, StickerPackManifest};
use terminal_stickers::packs::{
    all_stickers, direct_sticker, list_lines, name_le, new_pack_manifest, resolve_sticker,
    select_pack_dir, slugify, sort_packs_by_name, InitPackError, ResolveError,
};

fn entry(id: &str, name: &str, tags: &[&str]) -> StickerManifest {
    StickerManifest {
        id: id.to_string(),
        name: name.to_string(),
        file: format!("stickers/{id}.png"),
        tags: tags.iter().map(|t| t.to_string()).collect(),
    }
}

fn pack(id: &str, name: &str, stickers: Vec<StickerManifest>) -> StickerPack {
    StickerPack {
        manifest: StickerPackManifest {
            id: id.to_string(),
            name: name.to_string(),
            author: "tests".to_string(),
            license: "MIT".to_string(),
            description: None,
            homepage: None,
            stickers,
        },
        root: format!("packs/{id}"),
    }
}

fn sample() -> Vec<StickerPack> {
    vec![
        pack(
            "starter",
            "Starter Pack",
            vec![
                entry("laugh", "Laugh", &["reaction", "funny"]),
                entry("ok", "OK", &[]),
            ],
        ),
        pack("memes", "Memes", vec![entry("ok", "Okay Meme", &["meme"])]),
    ]
}

#[test]
fn slugifies_pack_names() {
    assert_eq!(slugify("My Reactions!"), "my-reactions");
    assert_eq!(slugify("  A   B  "), "a-b");
}

#[test]
fn slug_edge_cases() {
    assert_eq!(slugify(""), "");
    assert_eq!(slugify("!!!"), "");
    assert_eq!(slugify("--Hello--World--"), "hello-world");
    assert_eq!(slugify("Café Olé 2"), "caf-ol-2");
    assert_eq!(slugify("ABC"), "abc");
}

#[test]
fn slugs_are_stable() {
    for name in ["My Reactions!", "  A   B  ", "--Hello--World--", "x_Y z9", "Café Olé 2"] {
        let once = slugify(name);
        assert!(once.chars().all(|c| c.is_ascii_lowercase() || c.is_ascii_digit() || c == '-'));
        assert_eq!(slugify(&once), once);
    }
}

#[test]
fn new_pack_manifest_uses_slug_as_id() {
    let m = new_pack_manifest("My Reactions").unwrap();
    assert_eq!(m.id, "my-reactions");
    assert_eq!(m.name, "My Reactions");
    assert_eq!(m.author, "Unknown");
    assert_eq!(m.license, "MIT");
    assert!(m.description.is_none());
    assert!(m.homepage.is_none());
    assert!(m.stickers.is_empty());
    assert!(matches!(
        new_pack_manifest("?!"),
        Err(InitPackError::NameWithoutLetterOrDigit)
    ));
}

#[test]
fn all_stickers_goes_pack_by_pack() {
    let all = all_stickers(&sample());
    let ids: Vec<String> = all.iter().map(|s| s.qualified_id()).collect();
    assert_eq!(ids, vec!["starter/laugh", "starter/ok", "memes/ok"]);
    assert_eq!(all[0].pack_name, "Starter Pack");
    assert_eq!(all[0].tags, vec!["reaction", "funny"]);
}

#[test]
fn resolves_exact_ids_first() {
    let packs = sample();
    let s = resolve_sticker("ok", &packs).unwrap();
    assert_eq!(s.qualified_id(), "starter/ok");
    let s = resolve_sticker("memes/ok", &packs).unwrap();
    assert_eq!(s.qualified_id(), "memes/ok");
}

#[test]
fn resolves_unique_loose_match() {
    let packs = sample();
    let s = resolve_sticker("FUNNY", &packs).unwrap();
    assert_eq!(s.id, "laugh");
}

#[test]
fn reports_missing_and_ambiguous_queries() {
    let packs = sample();
    assert!(matches!(resolve_sticker("zzz", &packs), Err(ResolveError::NoMatch)));
    match resolve_sticker("k", &packs) {
        Err(ResolveError::Ambiguous(v)) => {
            let ids: Vec<String> = v.iter().map(|s| s.qualified_id()).collect();
            assert_eq!(ids, vec!["starter/ok", "memes/ok"]);
        }
        other => panic!("unexpected {:?}", other.map(|s| s.id)),
    }
}

#[test]
fn list_lines_for_all_and_for_a_query() {
    let packs = sample();
    let lines = list_lines(&packs, "");
    assert_eq!(
        lines,
        vec![
            "Starter Pack (starter)".to_string(),
            format!("  {:<24} {}{}", "starter/laugh", "Laugh", " [reaction, funny]"),
            format!("  {:<24} {}", "starter/ok", "OK"),
            "Memes (memes)".to_string(),
            format!("  {:<24} {} [meme]", "memes/ok", "Okay Meme"),
        ]
    );
    let lines = list_lines(&packs, "meme");
    assert_eq!(
        lines,
        vec![
            "Memes (memes)".to_string(),
            format!("  {:<24} {} [meme]", "memes/ok", "Okay Meme"),
        ]
    );
    assert!(list_lines(&packs, "nothing-here").is_empty());
}

#[test]
fn long_ids_are_not_cut() {
    let packs = vec![pack(
        "a-very-long-pack-identifier",
        "Long",
        vec![entry("and-a-long-sticker", "X", &[])],
    )];
    assert_eq!(
        list_lines(&packs, "")[1],
        "  a-very-long-pack-identifier/and-a-long-sticker X"
    );
}

#[test]
fn packs_sort_by_name_stably() {
    let packs = vec![
        pack("b1", "Beta", vec![]),
        pack("a", "Alpha", vec![]),
        pack("b2", "Beta", vec![]),
        pack("z", "", vec![]),
    ];
    let sorted = sort_packs_by_name(packs);
    let ids: Vec<&str> = sorted.iter().map(|p| p.manifest.id.as_str()).collect();
    assert_eq!(ids, vec!["z", "a", "b1", "b2"]);
    assert!(name_le("Alpha", "Beta"));
    assert!(name_le("Beta", "Beta"));
    assert!(!name_le("Beta", "Alpha"));
    assert!(name_le("Be", "Beta"));
    assert!(!name_le("beta", "Beta"));
}

#[test]
fn pack_dir_precedence() {
    let s = |v: &str| Some(v.to_string());
    assert_eq!(select_pack_dir(s("x"), s("h"), s("l"), s("i"), s("p")), "x");
    assert_eq!(select_pack_dir(None, s("h"), s("l"), s("i"), s("p")), "h");
    assert_eq!(select_pack_dir(None, s(""), s("l"), s("i"), s("p")), "l");
    assert_eq!(select_pack_dir(None, None, None, s("i"), s("p")), "i");
    assert_eq!(select_pack_dir(None, None, None, None, s("p")), "p");
    assert_eq!(select_pack_dir(None, None, None, None, None), "packs");
}

#[test]
fn direct_file_sticker() {
    let s: Sticker = direct_sticker("./cat.png", Some("cat".into()), Some("cat.png".into()));
    assert_eq!(s.qualified_id(), "direct/cat");
    assert_eq!(s.pack_name, "Direct File");
    assert_eq!(s.name, "cat.png");
    assert_eq!(s.path.folder, "");
    assert_eq!(s.path.file, "./cat.png");
    let s = direct_sticker("q", None, None);
    assert_eq!(s.id, "sticker");
    assert_eq!(s.name, "q");
    assert!(s.tags.is_empty());
}
