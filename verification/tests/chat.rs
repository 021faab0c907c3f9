use terminal_stickers::animation::TextEffect;
use terminal_stickers::manifest::{ImagePath, Sticker};
use terminal_stickers::tui::{ChatApp, Key, SEND_ANIMATION_FRAMES};

fn sticker(pack: &str, id: &str, name: &str) -> Sticker {
    Sticker {
        pack_id: pack.to_string(),
        pack_name: pack.to_string(),
        id: id.to_string(),
        name: name.to_string(),
        path: ImagePath { folder: pack.to_string(), file: format!("{id}.png") },
        tags: vec![],
    }
}

fn app() -> ChatApp {
    ChatApp::new(vec![
        sticker("starter", "laugh", "Laugh"),
        sticker("starter", "ok", "OK"),
        sticker("memes", "cat", "Cat"),
    ])
}

#[test]
fn arrows_move_within_the_list() {
    let mut a = app();
    assert!(!a.handle_key(Key::Up));
    assert_eq!(a.selected, 0);
    a.handle_key(Key::Down);
    a.handle_key(Key::Down);
    a.handle_key(Key::Down);
    assert_eq!(a.selected, 2);
    a.handle_key(Key::Up);
    assert_eq!(a.selected, 1);
}

#[test]
fn q_and_esc_quit_outside_search() {
    let mut a = app();
    assert!(a.handle_key(Key::Char('q')));
    assert!(a.handle_key(Key::Esc));
    assert!(!a.handle_key(Key::Char('/')));
    assert!(a.searching);
    assert!(!a.handle_key(Key::Char('q')));
    assert_eq!(a.search, "q");
    assert!(!a.handle_key(Key::Esc));
    assert!(!a.searching);
}

#[test]
fn search_filters_and_clamps_selection() {
    let mut a = app();
    a.handle_key(Key::Down);
    a.handle_key(Key::Down);
    a.handle_key(Key::Char('/'));
    assert_eq!(a.search_line(), "_");
    a.handle_key(Key::Char('c'));
    a.handle_key(Key::Char('a'));
    assert_eq!(a.search_line(), "ca_");
    assert_eq!(a.visible_stickers().len(), 1);
    assert_eq!(a.selected, 0);
    a.handle_key(Key::Backspace);
    assert_eq!(a.search, "c");
    a.handle_key(Key::Enter);
    assert!(!a.searching);
    assert_eq!(a.search_line(), "c");
    let rows = a.sticker_rows();
    assert_eq!(
        rows,
        vec![("memes/cat".to_string(), "Cat".to_string(), true)]
    );
}

#[test]
fn enter_sends_and_animates() {
    let mut a = app();
    assert_eq!(a.conversation_lines(), vec!["No stickers sent yet.".to_string()]);
    assert_eq!(a.animation_line(), None);
    a.handle_key(Key::Down);
    a.handle_key(Key::Enter);
    assert_eq!(a.messages, vec!["me: [starter/ok] OK".to_string()]);
    assert_eq!(a.conversation_lines(), vec!["me: [starter/ok] OK".to_string()]);
    let anim = a.animation.as_ref().unwrap();
    assert_eq!(anim.text, "sent OK");
    assert_eq!(anim.effect, TextEffect::Burst);
    assert_eq!(a.animation_line(), Some("sent OK".to_string()));
    for _ in 0..SEND_ANIMATION_FRAMES - 1 {
        a.tick();
        assert!(a.animation.is_some());
    }
    a.tick();
    assert!(a.animation.is_none());
}

#[test]
fn animation_frames_show_burst_shells() {
    let mut a = app();
    a.handle_key(Key::Enter);
    for _ in 0..4 {
        a.tick();
    }
    // frame 4 of 18: 4 * 5 / 18 = 1
    assert_eq!(a.animation_line(), Some(". sent Laugh .".to_string()));
}

#[test]
fn enter_with_empty_list_does_nothing() {
    let mut a = ChatApp::new(vec![]);
    assert!(!a.handle_key(Key::Enter));
    assert!(a.messages.is_empty());
    assert!(a.animation.is_none());
    a.handle_key(Key::Down);
    assert_eq!(a.selected, 0);
}
