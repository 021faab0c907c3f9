use terminal_stickers::animation::{
    frame_count, frame_delay_millis, render_ansi_frame, render_plain_frame, TextEffect,
};

#[test]
fn typewriter_reveals_text_over_time() {
    assert_eq!(
        render_plain_frame(TextEffect::Typewriter, "hello", 0, 5),
        "h_"
    );
    assert_eq!(
        render_plain_frame(TextEffect::Typewriter, "hello", 4, 5),
        "hello"
    );
}

#[test]
fn wipe_uses_ascii_placeholder_cells() {
    assert_eq!(render_plain_frame(TextEffect::Wipe, "hi", 0, 4), ">.");
}

#[test]
fn glitch_finishes_on_original_text() {
    assert_eq!(
        render_plain_frame(TextEffect::Glitch, "ship it", 9, 10),
        "ship it"
    );
}

#[test]
fn burst_wraps_text_with_ascii_shells() {
    assert_eq!(render_plain_frame(TextEffect::Burst, "ok", 2, 10), ". ok .");
}

#[test]
fn typewriter_reveals_one_character_per_frame() {
    assert_eq!(render_plain_frame(TextEffect::Typewriter, "abcd", 0, 4), "a_");
    assert_eq!(render_plain_frame(TextEffect::Typewriter, "abcd", 1, 4), "ab_");
    assert_eq!(render_plain_frame(TextEffect::Typewriter, "abcd", 2, 4), "abc_");
    assert_eq!(render_plain_frame(TextEffect::Typewriter, "abcd", 3, 4), "abcd");
}

#[test]
fn wipe_keeps_spaces_as_spaces() {
    assert_eq!(render_plain_frame(TextEffect::Wipe, "ab cd", 0, 10), ">. ..");
    assert_eq!(render_plain_frame(TextEffect::Wipe, "ab c\td", 0, 12), ">. . .");
}

#[test]
fn glitch_scrambles_hidden_characters() {
    // frame 0 of 10 reveals nothing of a 7-character text; spaces stay.
    let out = render_plain_frame(TextEffect::Glitch, "ship it", 0, 10);
    assert_eq!(out.chars().count(), 7);
    assert_eq!(out.chars().nth(4), Some(' '));
    // index 0, frame 0: value 0 -> '#'; index 1: 31 + 1 = 32 -> 32 % 11 = 10 -> '>'.
    assert_eq!(out.chars().next(), Some('#'));
    assert_eq!(out.chars().nth(1), Some('>'));
}

#[test]
fn burst_shell_grows() {
    assert_eq!(render_plain_frame(TextEffect::Burst, "ok", 0, 10), "ok");
    assert_eq!(render_plain_frame(TextEffect::Burst, "ok", 4, 10), "* ok *");
    assert_eq!(render_plain_frame(TextEffect::Burst, "ok", 6, 10), "+* ok *+");
    assert_eq!(render_plain_frame(TextEffect::Burst, "ok", 8, 10), ">+* ok *+<");
}

#[test]
fn empty_text_gives_empty_frames() {
    assert_eq!(render_plain_frame(TextEffect::Burst, "", 0, 10), "");
    assert_eq!(render_ansi_frame(TextEffect::Wipe, "", 0, 10, true, (1, 2, 3)), "");
}

#[test]
fn ansi_frame_wraps_in_color() {
    assert_eq!(
        render_ansi_frame(TextEffect::Burst, "ok", 9, 10, true, (255, 7, 80)),
        "\x1b[38;2;255;7;80mok\x1b[0m"
    );
    assert_eq!(
        render_ansi_frame(TextEffect::Burst, "ok", 9, 10, false, (255, 7, 80)),
        "ok"
    );
}

#[test]
fn frame_count_covers_every_character() {
    assert_eq!(frame_count(36, "hi"), 36);
    assert_eq!(frame_count(2, "hello"), 5);
    assert_eq!(frame_count(0, ""), 1);
    assert_eq!(frame_count(0, "héllo"), 5);
}

#[test]
fn frame_delay_treats_zero_fps_as_one() {
    assert_eq!(frame_delay_millis(30), 33);
    assert_eq!(frame_delay_millis(0), 1000);
    assert_eq!(frame_delay_millis(24), 41);
}
