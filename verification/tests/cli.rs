use terminal_stickers::animation::TextEffect;
use terminal_stickers::cli::{AnimateArgs, Command};

#[test]
fn animate_words_join_with_spaces() {
    let args = AnimateArgs {
        text: vec!["mandou".to_string(), "bem".to_string()],
        effect: TextEffect::Glitch,
        fps: 30,
        frames: 36,
        no_color: false,
    };
    assert_eq!(args.text(), "mandou bem");
    let one = AnimateArgs { text: vec!["solo".to_string()], ..args.clone() };
    assert_eq!(one.text(), "solo");
    let none = AnimateArgs { text: vec![], ..args };
    assert_eq!(none.text(), "");
}

#[test]
fn default_command_is_chat() {
    assert!(matches!(Command::default(), Command::Chat(_)));
}
