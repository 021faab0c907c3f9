use terminal_stickers::render::{
    choose_backend, detect_from_pairs, halfblock_text, preview_width, push_halfblock_cell,
    decode_image, render_halfblocks, visible_rgb, RenderBackend, RendererChoice, RgbaGrid,
};

#[test]
fn detects_kitty() {
    let backend = detect_from_pairs(&[("TERM", "xterm-kitty"), ("COLORTERM", "truecolor")]);
    assert_eq!(backend, RenderBackend::Kitty);
}

#[test]
fn detects_windows_terminal_as_sixel() {
    let backend = detect_from_pairs(&[("WT_SESSION", "abc"), ("TERM", "xterm-256color")]);
    assert_eq!(backend, RenderBackend::Sixel);
}

#[test]
fn falls_back_to_halfblocks_for_truecolor() {
    let backend = detect_from_pairs(&[("TERM", "xterm-256color"), ("COLORTERM", "truecolor")]);
    assert_eq!(backend, RenderBackend::Halfblocks);
}

#[test]
fn detection_order_and_case() {
    assert_eq!(detect_from_pairs(&[]), RenderBackend::Plain);
    assert_eq!(detect_from_pairs(&[("kitty_window_id", "1")]), RenderBackend::Kitty);
    assert_eq!(detect_from_pairs(&[("TERM", "XTERM-KITTY")]), RenderBackend::Kitty);
    assert_eq!(detect_from_pairs(&[("TERM_PROGRAM", "wezterm")]), RenderBackend::Iterm2);
    assert_eq!(detect_from_pairs(&[("TERM_PROGRAM", "ITERM.APP")]), RenderBackend::Iterm2);
    assert_eq!(detect_from_pairs(&[("TERM", "foot")]), RenderBackend::Sixel);
    assert_eq!(detect_from_pairs(&[("COLORTERM", "24BIT")]), RenderBackend::Halfblocks);
    assert_eq!(
        detect_from_pairs(&[("TERM", "xterm-kitty"), ("WT_SESSION", "x")]),
        RenderBackend::Kitty
    );
    // Sixel comes before the iTerm2 protocol.
    assert_eq!(
        detect_from_pairs(&[("TERM_PROGRAM", "WezTerm"), ("WT_SESSION", "x")]),
        RenderBackend::Sixel
    );
    assert_eq!(
        detect_from_pairs(&[("WEZTERM_EXECUTABLE", "/bin/wezterm"), ("TERM", "mlterm")]),
        RenderBackend::Sixel
    );
    // The first variable with a matching name counts.
    assert_eq!(
        detect_from_pairs(&[("TERM", "dumb"), ("term", "kitty")]),
        RenderBackend::Plain
    );
}

#[test]
fn unrelated_and_repeated_variables_change_nothing() {
    let base = [("TERM", "xterm-256color"), ("COLORTERM", "truecolor")];
    assert_eq!(detect_from_pairs(&base), RenderBackend::Halfblocks);
    let more = [
        ("TERM", "xterm-256color"),
        ("COLORTERM", "truecolor"),
        ("HOME", "/root"),
        ("term", "xterm-kitty"),
        ("LANG", "C"),
    ];
    assert_eq!(detect_from_pairs(&more), RenderBackend::Halfblocks);
}

#[test]
fn explicit_choice_wins_over_environment() {
    let env = [("TERM", "xterm-kitty")];
    assert_eq!(choose_backend(RendererChoice::Auto, &env), RenderBackend::Kitty);
    assert_eq!(choose_backend(RendererChoice::Plain, &env), RenderBackend::Plain);
    assert_eq!(choose_backend(RendererChoice::Sixel, &env), RenderBackend::Sixel);
}

#[test]
fn backend_names() {
    assert_eq!(RenderBackend::Kitty.name(), "kitty");
    assert_eq!(RenderBackend::Sixel.name(), "sixel");
    assert_eq!(RenderBackend::Iterm2.name(), "iterm2");
    assert_eq!(RenderBackend::Halfblocks.name(), "halfblocks");
    assert_eq!(RenderBackend::Plain.name(), "plain");
}

#[test]
fn preview_width_is_clamped() {
    assert_eq!(preview_width(0), 4);
    assert_eq!(preview_width(32), 32);
    assert_eq!(preview_width(500), 120);
}

#[test]
fn transparent_pixels_are_not_drawn() {
    assert_eq!(visible_rgb((1, 2, 3, 15)), None);
    assert_eq!(visible_rgb((1, 2, 3, 16)), Some((1, 2, 3)));
}

#[test]
fn halfblock_cells() {
    let mut s = String::new();
    push_halfblock_cell(&mut s, (1, 2, 3, 255), (4, 5, 6, 255));
    assert_eq!(s, "\x1b[38;2;1;2;3m\x1b[48;2;4;5;6m\u{2580}");
    let mut s = String::new();
    push_halfblock_cell(&mut s, (10, 20, 30, 255), (4, 5, 6, 0));
    assert_eq!(s, "\x1b[38;2;10;20;30m\u{2580}");
    let mut s = String::new();
    push_halfblock_cell(&mut s, (10, 20, 30, 0), (100, 200, 0, 99));
    assert_eq!(s, "\x1b[38;2;100;200;0m\u{2584}");
    let mut s = String::new();
    push_halfblock_cell(&mut s, (0, 0, 0, 0), (0, 0, 0, 0));
    assert_eq!(s, " ");
}

#[test]
fn halfblock_picture_lines() {
    let grid = RgbaGrid {
        width: 2,
        height: 2,
        pixels: vec![
            9, 9, 9, 255, 0, 0, 0, 0, //
            0, 0, 0, 0, 0, 0, 0, 0,
        ],
    };
    assert_eq!(halfblock_text(&grid), "\x1b[38;2;9;9;9m\u{2580} \x1b[0m\n");
}

fn png_bytes(image: image::DynamicImage) -> Vec<u8> {
    let mut bytes: Vec<u8> = Vec::new();
    image
        .write_to(&mut std::io::Cursor::new(&mut bytes), image::ImageFormat::Png)
        .unwrap();
    bytes
}

fn rgba_png(width: u32, height: u32, pixel: [u8; 4]) -> Vec<u8> {
    png_bytes(image::DynamicImage::ImageRgba8(image::RgbaImage::from_pixel(
        width,
        height,
        image::Rgba(pixel),
    )))
}

#[test]
fn decodes_png_bytes() {
    let bytes = rgba_png(3, 2, [1, 2, 3, 255]);
    let picture = decode_image(&bytes).unwrap();
    assert_eq!((picture.width(), picture.height()), (3, 2));
    assert_eq!(picture.pixel_bytes(), 4);
    let gray = png_bytes(image::DynamicImage::ImageLuma16(image::ImageBuffer::from_pixel(
        5,
        7,
        image::Luma([700u16]),
    )));
    let picture = decode_image(&gray).unwrap();
    assert_eq!((picture.width(), picture.height()), (5, 7));
    assert_eq!(picture.pixel_bytes(), 2);
}

#[test]
fn refuses_bytes_that_hold_no_image() {
    assert!(decode_image(b"not an image").is_none());
    assert!(decode_image(&[]).is_none());
}

#[test]
fn renders_decoded_image() {
    let picture = decode_image(&rgba_png(1, 1, [255, 0, 0, 255])).unwrap();
    let out = render_halfblocks(&picture, 4, 2);
    let cell = "\x1b[38;2;255;0;0m\x1b[48;2;255;0;0m\u{2580}";
    let line = format!("{}\x1b[0m\n", cell.repeat(4));
    assert_eq!(out, line.repeat(2));
}

#[test]
fn renders_transparent_image_as_spaces() {
    let picture = decode_image(&rgba_png(2, 2, [0, 0, 0, 0])).unwrap();
    let out = render_halfblocks(&picture, 4, 2);
    assert_eq!(out, "    \x1b[0m\n    \x1b[0m\n");
}

#[test]
fn narrow_widths_are_widened_to_four_cells() {
    let picture = decode_image(&rgba_png(1, 1, [0, 0, 0, 0])).unwrap();
    let out = render_halfblocks(&picture, 1, 1);
    assert_eq!(out, "    \x1b[0m\n");
}

#[test]
fn wide_colour_pictures_are_resized_before_conversion() {
    // A 16-bit picture whose columns alternate 770 and 0: resampling in 16 bits
    // and only then converting to 8 bits is what the cells must show.
    let mut source: image::ImageBuffer<image::Rgba<u16>, Vec<u16>> = image::ImageBuffer::new(8, 4);
    for (x, _, p) in source.enumerate_pixels_mut() {
        let v = if x % 2 == 0 { 770 } else { 0 };
        *p = image::Rgba([v, v, v, 65535]);
    }
    let source = image::DynamicImage::ImageRgba16(source);
    let picture = decode_image(&png_bytes(source.clone())).unwrap();
    assert_eq!(picture.pixel_bytes(), 8);
    let out = render_halfblocks(&picture, 4, 1);
    let expected = source.resize_exact(4, 2, image::imageops::FilterType::Triangle).to_rgba8();
    let grid = RgbaGrid { width: 4, height: 2, pixels: expected.into_raw() };
    assert_eq!(out, halfblock_text(&grid));
    let early = source.to_rgba8();
    let early = image::imageops::resize(&early, 4, 2, image::imageops::FilterType::Triangle);
    let other = halfblock_text(&RgbaGrid { width: 4, height: 2, pixels: early.into_raw() });
    assert_ne!(out, other);
}
