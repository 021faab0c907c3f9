use terminal_stickers::manifest::{ImagePath, Sticker, StickerManifest, StickerPack, StickerPackManifest};

fn sticker() -> Sticker {
    Sticker {
        pack_id: "starter".to_string(),
        pack_name: "Starter".to_string(),
        id: "laugh".to_string(),
        name: "Laugh Out Loud".to_string(),
        path: ImagePath {
            folder: "packs/starter".to_string(),
            file: "stickers/laugh.ppm".to_string(),
        },
        tags: vec!["Reaction".to_string(), "funny".to_string()],
    }
}

#[test]
fn qualified_ids_join_pack_and_sticker() {
    assert_eq!(sticker().qualified_id(), "starter/laugh");
}

#[test]
fn queries_match_without_case() {
    let s = sticker();
    assert!(s.matches_query("LAUGH"));
    assert!(s.matches_query("out loud"));
    assert!(s.matches_query("starter/l"));
    assert!(s.matches_query("reaction"));
    assert!(s.matches_query("FUN"));
    assert!(s.matches_query(""));
    assert!(!s.matches_query("sad"));
    assert!(!s.matches_query("laugh/starter"));
}

#[test]
fn loads_pack_manifest_and_resolves_sticker_paths() {
    let pack = StickerPack {
        manifest: StickerPackManifest {
            id: "test".to_string(),
            name: "Test Pack".to_string(),
            author: "tests".to_string(),
            license: "MIT".to_string(),
            description: None,
            homepage: None,
            stickers: vec![StickerManifest {
                id: "ok".to_string(),
                name: "OK".to_string(),
                file: "stickers/ok.png".to_string(),
                tags: vec!["reaction".to_string()],
            }],
        },
        root: "/tmp/pack".to_string(),
    };
    let stickers = pack.stickers();
    assert_eq!(stickers.len(), 1);
    assert_eq!(stickers[0].qualified_id(), "test/ok");
    assert_eq!(stickers[0].pack_name, "Test Pack");
    assert_eq!(stickers[0].tags, vec!["reaction".to_string()]);
    assert_eq!(stickers[0].name, "OK");
    assert_eq!(stickers[0].path.folder, "/tmp/pack");
    assert_eq!(stickers[0].path.file, "stickers/ok.png");
    let joined = std::path::Path::new(&stickers[0].path.folder).join(&stickers[0].path.file);
    assert!(joined.ends_with("stickers/ok.png"));
    assert!(joined.starts_with("/tmp/pack"));
    assert_eq!(joined, std::path::PathBuf::from("/tmp/pack/stickers/ok.png"));
}
