//! Choosing how stickers are drawn, and drawing them with Unicode half blocks.

use vstd::prelude::*;
use vstd::string::*;
use crate::animation::{ansi_foreground, ansi_reset, push_foreground};
use crate::text::{
    eq_ignore_ascii_case, eq_ignore_ascii_case_spec, lowercase, push_char, push_decimal, decimal,
    seq_contains, str_contains, to_lowercase,
};
use image::DynamicImage;
use image::imageops::FilterType;

verus! {

/// The renderer asked for on the command line.
#[derive(Debug, Clone, Copy, PartialEq, Eq, Structural)]
pub enum RendererChoice {
    Auto,
    Kitty,
    Sixel,
    Iterm2,
    Halfblocks,
    Plain,
}

/// The way stickers are drawn in the terminal.
#[derive(Debug, Clone, Copy, PartialEq, Eq, Structural)]
pub enum RenderBackend {
    Kitty,
    Sixel,
    Iterm2,
    Halfblocks,
    Plain,
}

/// The name of a backend as the `doctor` command prints it.
pub open spec fn backend_name(b: RenderBackend) -> Seq<char> {
    match b {
        RenderBackend::Kitty => "kitty"@,
        RenderBackend::Sixel => "sixel"@,
        RenderBackend::Iterm2 => "iterm2"@,
        RenderBackend::Halfblocks => "halfblocks"@,
        RenderBackend::Plain => "plain"@,
    }
}

impl RenderBackend {
    /// The name of this backend.
    pub fn name(self) -> (n: &'static str)
        ensures
            n@ == backend_name(self),
    {
        match self {
            RenderBackend::Kitty => "kitty",
            RenderBackend::Sixel => "sixel",
            RenderBackend::Iterm2 => "iterm2",
            RenderBackend::Halfblocks => "halfblocks",
            RenderBackend::Plain => "plain",
        }
    }
}

/// The characters of each name and value of an environment.
pub open spec fn pairs_view(pairs: Seq<(&str, &str)>) -> Seq<(Seq<char>, Seq<char>)> {
    pairs.map_values(|p: (&str, &str)| (p.0@, p.1@))
}

/// The value of the first variable whose name equals `name` up to ASCII case.
pub open spec fn lookup(pairs: Seq<(Seq<char>, Seq<char>)>, name: Seq<char>) -> Option<Seq<char>>
    decreases pairs.len(),
{
    if pairs.len() == 0 {
        None
    } else if eq_ignore_ascii_case_spec(pairs[0].0, name) {
        Some(pairs[0].1)
    } else {
        lookup(pairs.drop_first(), name)
    }
}

/// A looked-up value, or nothing when the variable is not set.
pub open spec fn value_or_empty(v: Option<Seq<char>>) -> Seq<char> {
    match v {
        Some(s) => s,
        None => seq![],
    }
}

/// The backend an environment calls for, best first: Kitty when the terminal
/// says so; else Sixel for Windows Terminal, foot, mlterm and sixel terminals;
/// else the iTerm2 protocol for WezTerm and iTerm.app; else half blocks with
/// true color; else plain text.
pub open spec fn spec_detect(pairs: Seq<(Seq<char>, Seq<char>)>) -> RenderBackend {
    let term = lowercase(value_or_empty(lookup(pairs, "TERM"@)));
    let term_program = value_or_empty(lookup(pairs, "TERM_PROGRAM"@));
    let colorterm = lowercase(value_or_empty(lookup(pairs, "COLORTERM"@)));
    if lookup(pairs, "KITTY_WINDOW_ID"@) is Some || seq_contains(term, "kitty"@) {
        RenderBackend::Kitty
    } else if lookup(pairs, "WT_SESSION"@) is Some || seq_contains(term, "foot"@) || seq_contains(
        term,
        "mlterm"@,
    ) || seq_contains(term, "sixel"@) {
        RenderBackend::Sixel
    } else if lookup(pairs, "WEZTERM_EXECUTABLE"@) is Some || eq_ignore_ascii_case_spec(
        term_program,
        "WezTerm"@,
    ) || eq_ignore_ascii_case_spec(term_program, "iTerm.app"@) {
        RenderBackend::Iterm2
    } else if seq_contains(colorterm, "truecolor"@) || seq_contains(colorterm, "24bit"@) {
        RenderBackend::Halfblocks
    } else {
        RenderBackend::Plain
    }
}

fn lookup_var<'a>(pairs: &[(&'a str, &'a str)], name: &str) -> (v: Option<&'a str>)
    ensures
        match v {
            Some(s) => lookup(pairs_view(pairs@), name@) == Some(s@),
            None => lookup(pairs_view(pairs@), name@) is None,
        },
{
    let ghost all = pairs_view(pairs@);
    let mut i: usize = 0;
    assert(all.skip(0) =~= all);
    while i < pairs.len()
        invariant
            all == pairs_view(pairs@),
            i <= pairs@.len(),
            lookup(all, name@) == lookup(all.skip(i as int), name@),
        decreases pairs@.len() - i,
    {
        let (key, value) = pairs[i];
        assert(all.skip(i as int)[0] == (key@, value@));
        assert(all.skip(i as int).drop_first() =~= all.skip(i + 1));
        if eq_ignore_ascii_case(key, name) {
            return Some(value);
        }
        i = i + 1;
    }
    None
}

fn lowered_var(pairs: &[(&str, &str)], name: &str) -> (s: String)
    ensures
        s@ == lowercase(value_or_empty(lookup(pairs_view(pairs@), name@))),
{
    match lookup_var(pairs, name) {
        Some(v) => to_lowercase(v),
        None => {
            proof {
                reveal_strlit("");
            }
            assert(""@ =~= Seq::<char>::empty());
            to_lowercase("")
        },
    }
}

/// The backend that an environment, given as name/value pairs, calls for.
pub fn detect_from_pairs(pairs: &[(&str, &str)]) -> (b: RenderBackend)
    ensures
        b == spec_detect(pairs_view(pairs@)),
{
    let term = lowered_var(pairs, "TERM");
    let term_program: &str = match lookup_var(pairs, "TERM_PROGRAM") {
        Some(v) => v,
        None => "",
    };
    let colorterm = lowered_var(pairs, "COLORTERM");
    assert(""@ =~= Seq::<char>::empty()) by {
        reveal_strlit("");
    }
    if lookup_var(pairs, "KITTY_WINDOW_ID").is_some() || str_contains(term.as_str(), "kitty") {
        return RenderBackend::Kitty;
    }
    if lookup_var(pairs, "WT_SESSION").is_some() || str_contains(term.as_str(), "foot")
        || str_contains(term.as_str(), "mlterm") || str_contains(term.as_str(), "sixel") {
        return RenderBackend::Sixel;
    }
    if lookup_var(pairs, "WEZTERM_EXECUTABLE").is_some() || eq_ignore_ascii_case(
        term_program,
        "WezTerm",
    ) || eq_ignore_ascii_case(term_program, "iTerm.app") {
        return RenderBackend::Iterm2;
    }
    if str_contains(colorterm.as_str(), "truecolor") || str_contains(colorterm.as_str(), "24bit") {
        return RenderBackend::Halfblocks;
    }
    RenderBackend::Plain
}

/// The variables that detection reads.
pub open spec fn detection_names() -> Seq<Seq<char>> {
    seq![
        "TERM"@,
        "TERM_PROGRAM"@,
        "COLORTERM"@,
        "KITTY_WINDOW_ID"@,
        "WEZTERM_EXECUTABLE"@,
        "WT_SESSION"@,
    ]
}

/// A variable named `key` cannot change what detection reads from `pairs`:
/// its name is none of the detection variables, up to ASCII case, or that
/// variable is already set in `pairs`.
pub open spec fn cannot_change_detection(pairs: Seq<(Seq<char>, Seq<char>)>, key: Seq<char>) -> bool {
    forall|k: int|
        0 <= k < detection_names().len() && eq_ignore_ascii_case_spec(key, #[trigger] detection_names()[k])
            ==> lookup(pairs, detection_names()[k]) is Some
}

proof fn lemma_lookup_concat(a: Seq<(Seq<char>, Seq<char>)>, b: Seq<(Seq<char>, Seq<char>)>, name: Seq<char>)
    ensures
        lookup(a + b, name) == match lookup(a, name) {
            Some(v) => Some(v),
            None => lookup(b, name),
        },
    decreases a.len(),
{
    if a.len() > 0 {
        assert((a + b).drop_first() =~= a.drop_first() + b);
        lemma_lookup_concat(a.drop_first(), b, name);
    } else {
        assert(a + b =~= b);
    }
}

proof fn lemma_lookup_absent(b: Seq<(Seq<char>, Seq<char>)>, name: Seq<char>)
    requires
        forall|j: int| 0 <= j < b.len() ==> !eq_ignore_ascii_case_spec(#[trigger] b[j].0, name),
    ensures
        lookup(b, name) is None,
    decreases b.len(),
{
    if b.len() > 0 {
        assert(!eq_ignore_ascii_case_spec(b[0].0, name));
        assert forall|j: int| 0 <= j < b.drop_first().len() implies !eq_ignore_ascii_case_spec(
            #[trigger] b.drop_first()[j].0,
            name,
        ) by {
            assert(b.drop_first()[j] == b[j + 1]);
        }
        lemma_lookup_absent(b.drop_first(), name);
    }
}

proof fn lemma_lookup_unchanged(
    pairs: Seq<(Seq<char>, Seq<char>)>,
    extra: Seq<(Seq<char>, Seq<char>)>,
    k: int,
)
    requires
        0 <= k < detection_names().len(),
        forall|j: int| 0 <= j < extra.len() ==> cannot_change_detection(pairs, #[trigger] extra[j].0),
    ensures
        lookup(pairs + extra, detection_names()[k]) == lookup(pairs, detection_names()[k]),
{
    let name = detection_names()[k];
    lemma_lookup_concat(pairs, extra, name);
    if lookup(pairs, name) is None {
        assert forall|j: int| 0 <= j < extra.len() implies !eq_ignore_ascii_case_spec(
            #[trigger] extra[j].0,
            name,
        ) by {
            assert(cannot_change_detection(pairs, extra[j].0));
        }
        lemma_lookup_absent(extra, name);
    }
}

/// Detection reads only its own variables, and the first setting of each wins:
/// appending variables that cannot change what it reads leaves the detected
/// backend as it was.
pub proof fn lemma_detect_ignores_other_variables(
    pairs: Seq<(Seq<char>, Seq<char>)>,
    extra: Seq<(Seq<char>, Seq<char>)>,
)
    requires
        forall|j: int| 0 <= j < extra.len() ==> cannot_change_detection(pairs, #[trigger] extra[j].0),
    ensures
        spec_detect(pairs + extra) == spec_detect(pairs),
{
    lemma_lookup_unchanged(pairs, extra, 0);
    lemma_lookup_unchanged(pairs, extra, 1);
    lemma_lookup_unchanged(pairs, extra, 2);
    lemma_lookup_unchanged(pairs, extra, 3);
    lemma_lookup_unchanged(pairs, extra, 4);
    lemma_lookup_unchanged(pairs, extra, 5);
}

/// The backend for a renderer choice: `auto` detects it from the environment.
pub open spec fn spec_choose_backend(
    choice: RendererChoice,
    pairs: Seq<(Seq<char>, Seq<char>)>,
) -> RenderBackend {
    match choice {
        RendererChoice::Auto => spec_detect(pairs),
        RendererChoice::Kitty => RenderBackend::Kitty,
        RendererChoice::Sixel => RenderBackend::Sixel,
        RendererChoice::Iterm2 => RenderBackend::Iterm2,
        RendererChoice::Halfblocks => RenderBackend::Halfblocks,
        RendererChoice::Plain => RenderBackend::Plain,
    }
}

/// The backend for a renderer choice, detecting it from the environment `env`
/// for `auto`.
pub fn choose_backend(choice: RendererChoice, env: &[(&str, &str)]) -> (b: RenderBackend)
    ensures
        b == spec_choose_backend(choice, pairs_view(env@)),
{
    match choice {
        RendererChoice::Auto => detect_from_pairs(env),
        RendererChoice::Kitty => RenderBackend::Kitty,
        RendererChoice::Sixel => RenderBackend::Sixel,
        RendererChoice::Iterm2 => RenderBackend::Iterm2,
        RendererChoice::Halfblocks => RenderBackend::Halfblocks,
        RendererChoice::Plain => RenderBackend::Plain,
    }
}


/// A picture as rows of RGBA pixels, four bytes per pixel, row after row.
pub struct RgbaGrid {
    pub width: u32,
    pub height: u32,
    pub pixels: Vec<u8>,
}

/// The RGBA bytes of the pixel in column `x` of row `y`.
pub open spec fn pixel_at(px: Seq<u8>, w: int, x: int, y: int) -> (u8, u8, u8, u8) {
    let i = (y * w + x) * 4;
    (px[i], px[i + 1], px[i + 2], px[i + 3])
}

/// The color of a pixel that is opaque enough to be drawn (alpha at least 16).
pub open spec fn visible_color(p: (u8, u8, u8, u8)) -> Option<(u8, u8, u8)> {
    if p.3 >= 16 {
        Some((p.0, p.1, p.2))
    } else {
        None
    }
}

/// The escape sequence that selects a 24-bit background color.
pub open spec fn ansi_background(rgb: (u8, u8, u8)) -> Seq<char> {
    seq!['\x1b', '[', '4', '8', ';', '2', ';'] + decimal(rgb.0 as nat) + seq![';'] + decimal(
        rgb.1 as nat,
    ) + seq![';'] + decimal(rgb.2 as nat) + seq!['m']
}

/// One terminal cell showing two stacked pixels: an upper half block in the top
/// color over the bottom color, a half block for a single visible pixel, or a
/// space.
pub open spec fn halfblock_cell(top: (u8, u8, u8, u8), bottom: (u8, u8, u8, u8)) -> Seq<char> {
    match (visible_color(top), visible_color(bottom)) {
        (Some(t), Some(b)) => ansi_foreground(t) + ansi_background(b) + seq!['\u{2580}'],
        (Some(t), None) => ansi_foreground(t) + seq!['\u{2580}'],
        (None, Some(b)) => ansi_foreground(b) + seq!['\u{2584}'],
        (None, None) => seq![' '],
    }
}

/// The terminal line showing pixel rows `y` and `y + 1`.
pub open spec fn halfblock_row(px: Seq<u8>, w: int, y: int) -> Seq<char> {
    Seq::new(w as nat, |x: int| halfblock_cell(pixel_at(px, w, x, y), pixel_at(px, w, x, y + 1))).flatten()
        + ansi_reset() + seq!['\n']
}

/// The whole picture, two pixel rows per terminal line.
pub open spec fn halfblock_picture(px: Seq<u8>, w: int, h: int) -> Seq<char> {
    Seq::new((h / 2) as nat, |k: int| halfblock_row(px, w, 2 * k)).flatten()
}

/// Each sign of a terminal calls for its backend unless a better one is called
/// for: `KITTY_WINDOW_ID` set gives Kitty; `WT_SESSION` set gives Sixel unless
/// Kitty; `WEZTERM_EXECUTABLE` set, or `TERM_PROGRAM` WezTerm or iTerm.app,
/// gives the iTerm2 protocol unless Kitty or Sixel; a true-color `COLORTERM`
/// gives half blocks unless one of those; and plain text only when no sign is
/// there. Variable names and these values are compared without ASCII case.
pub proof fn lemma_detect_signs(pairs: Seq<(Seq<char>, Seq<char>)>)
    ensures
        lookup(pairs, "KITTY_WINDOW_ID"@) is Some ==> spec_detect(pairs) == RenderBackend::Kitty,
        lookup(pairs, "WT_SESSION"@) is Some && spec_detect(pairs) != RenderBackend::Kitty
            ==> spec_detect(pairs) == RenderBackend::Sixel,
        (lookup(pairs, "WEZTERM_EXECUTABLE"@) is Some
            || eq_ignore_ascii_case_spec(value_or_empty(lookup(pairs, "TERM_PROGRAM"@)), "WezTerm"@)
            || eq_ignore_ascii_case_spec(value_or_empty(lookup(pairs, "TERM_PROGRAM"@)), "iTerm.app"@))
            && spec_detect(pairs) != RenderBackend::Kitty && spec_detect(pairs) != RenderBackend::Sixel
            ==> spec_detect(pairs) == RenderBackend::Iterm2,
        seq_contains(lowercase(value_or_empty(lookup(pairs, "COLORTERM"@))), "truecolor"@)
            && spec_detect(pairs) != RenderBackend::Kitty && spec_detect(pairs) != RenderBackend::Sixel
            && spec_detect(pairs) != RenderBackend::Iterm2
            ==> spec_detect(pairs) == RenderBackend::Halfblocks,
        spec_detect(pairs) == RenderBackend::Plain ==> lookup(pairs, "KITTY_WINDOW_ID"@) is None
            && lookup(pairs, "WT_SESSION"@) is None && lookup(pairs, "WEZTERM_EXECUTABLE"@) is None,
{
}

/// The picture is drawn top first: the picture of an even number of pixel rows
/// is the picture of all but its last two rows, followed by the line showing
/// those two; no rows give no lines.
pub proof fn lemma_picture_grows_downwards(px: Seq<u8>, w: int, h: int)
    requires
        h >= 0,
        h % 2 == 0,
    ensures
        h == 0 ==> halfblock_picture(px, w, h) == Seq::<char>::empty(),
        h >= 2 ==> halfblock_picture(px, w, h) == halfblock_picture(px, w, h - 2) + halfblock_row(px, w, h - 2),
{
    let f = |k: int| halfblock_row(px, w, 2 * k);
    if h == 0 {
        assert(Seq::new(0nat, f) =~= Seq::<Seq<char>>::empty());
        assert(Seq::<Seq<char>>::empty().flatten() =~= Seq::<char>::empty());
    } else {
        let n = (h / 2) as nat;
        assert(((h - 2) / 2) as nat == (n - 1) as nat);
        assert(Seq::new(n, f) =~= Seq::new((n - 1) as nat, f).push(f(n - 1)));
        Seq::new((n - 1) as nat, f).lemma_flatten_push(f(n - 1));
        assert(2 * (n - 1) == h - 2);
    }
}

/// The first terminal line of a picture shows its top two pixel rows.
pub proof fn lemma_picture_starts_at_top(px: Seq<u8>, w: int, h: int)
    requires
        h >= 2,
        h % 2 == 0,
    ensures
        halfblock_picture(px, w, h).take(halfblock_row(px, w, 0).len() as int) == halfblock_row(px, w, 0),
    decreases h,
{
    lemma_picture_grows_downwards(px, w, h);
    let r0 = halfblock_row(px, w, 0);
    if h == 2 {
        lemma_picture_grows_downwards(px, w, 0);
        assert(halfblock_picture(px, w, h) =~= r0);
    } else {
        lemma_picture_starts_at_top(px, w, h - 2);
        let before = halfblock_picture(px, w, h - 2);
        assert(before.len() >= r0.len());
        assert(halfblock_picture(px, w, h).take(r0.len() as int) =~= before.take(r0.len() as int));
    }
}

/// A terminal line starts with the cell of the leftmost column, showing
/// pixel row `y` over pixel row `y + 1`, and ends with an attribute reset and
/// a newline.
pub proof fn lemma_row_shape(px: Seq<u8>, w: int, y: int)
    requires
        w >= 1,
    ensures
        ({
            let row = halfblock_row(px, w, y);
            let first = halfblock_cell(pixel_at(px, w, 0, y), pixel_at(px, w, 0, y + 1));
            let tail = ansi_reset() + seq!['\n'];
            &&& row.take(first.len() as int) == first
            &&& row.skip(row.len() - tail.len()) == tail
        }),
{
    let f = |x: int| halfblock_cell(pixel_at(px, w, x, y), pixel_at(px, w, x, y + 1));
    let cells = Seq::new(w as nat, f);
    let first = f(0);
    let tail = ansi_reset() + seq!['\n'];
    assert(cells =~= seq![first] + cells.drop_first());
    vstd::seq_lib::lemma_flatten_concat(seq![first], cells.drop_first());
    assert(seq![first].flatten() =~= first) by {
        Seq::<Seq<char>>::empty().lemma_flatten_push(first);
        assert(seq![first] =~= Seq::<Seq<char>>::empty().push(first));
        assert(Seq::<Seq<char>>::empty().flatten() =~= Seq::<char>::empty());
    }
    let row = halfblock_row(px, w, y);
    assert(row.take(first.len() as int) =~= first);
    assert(row.skip(row.len() - tail.len()) =~= tail);
}

/// The asked preview width kept within 4..=120.
pub open spec fn spec_preview_width(width: u32) -> u32 {
    if width < 4 {
        4
    } else if width > 120 {
        120
    } else {
        width
    }
}

/// The width in cells a preview is drawn at: the asked width, kept within 4..=120.
pub fn preview_width(width: u32) -> (w: u32)
    ensures
        w == spec_preview_width(width),
{
    if width < 4 {
        4
    } else if width > 120 {
        120
    } else {
        width
    }
}

/// The color of a pixel opaque enough to be drawn.
pub fn visible_rgb(pixel: (u8, u8, u8, u8)) -> (c: Option<(u8, u8, u8)>)
    ensures
        c == visible_color(pixel),
{
    let (r, g, b, a) = pixel;
    if a >= 16 {
        Some((r, g, b))
    } else {
        None
    }
}

fn push_background(out: &mut String, rgb: (u8, u8, u8))
    ensures
        final(out)@ == old(out)@ + ansi_background(rgb),
{
    push_char(out, '\x1b');
    push_char(out, '[');
    push_char(out, '4');
    push_char(out, '8');
    push_char(out, ';');
    push_char(out, '2');
    push_char(out, ';');
    push_decimal(out, rgb.0);
    push_char(out, ';');
    push_decimal(out, rgb.1);
    push_char(out, ';');
    push_decimal(out, rgb.2);
    push_char(out, 'm');
    assert(out@ =~= old(out)@ + ansi_background(rgb));
}

/// Appends the cell that shows `top` over `bottom`.
pub fn push_halfblock_cell(out: &mut String, top: (u8, u8, u8, u8), bottom: (u8, u8, u8, u8))
    ensures
        final(out)@ == old(out)@ + halfblock_cell(top, bottom),
{
    match (visible_rgb(top), visible_rgb(bottom)) {
        (Some(t), Some(b)) => {
            push_foreground(out, t);
            push_background(out, b);
            push_char(out, '\u{2580}');
        },
        (Some(t), None) => {
            push_foreground(out, t);
            push_char(out, '\u{2580}');
        },
        (None, Some(b)) => {
            push_foreground(out, b);
            push_char(out, '\u{2584}');
        },
        (None, None) => {
            push_char(out, ' ');
        },
    }
    assert(out@ =~= old(out)@ + halfblock_cell(top, bottom));
}

proof fn lemma_pixel_index(w: int, h: int, x: int, y: int)
    requires
        0 <= x < w,
        0 <= y < h,
    ensures
        0 <= (y * w + x) * 4,
        (y * w + x) * 4 + 3 < w * h * 4,
        y * w + x < w * h,
{
    assert(y * w + x < w * h) by (nonlinear_arith)
        requires
            0 <= x < w,
            0 <= y < h,
    ;
    assert(0 <= y * w) by (nonlinear_arith)
        requires
            0 <= x < w,
            0 <= y < h,
    ;
}

fn get_pixel(px: &Vec<u8>, w: u32, h: u32, x: u32, y: u32) -> (p: (u8, u8, u8, u8))
    requires
        px@.len() == w * h * 4,
        x < w,
        y < h,
    ensures
        p == pixel_at(px@, w as int, x as int, y as int),
{
    proof {
        lemma_pixel_index(w as int, h as int, x as int, y as int);
    }
    let n = px.len();
    assert((y as int) * (w as int) <= (y as int) * (w as int) + (x as int));
    let i = ((y as usize) * (w as usize) + (x as usize)) * 4;
    (px[i], px[i + 1], px[i + 2], px[i + 3])
}

/// The terminal text of a picture of even height, two pixel rows per line,
/// each line ending with an attribute reset.
pub fn halfblock_text(grid: &RgbaGrid) -> (out: String)
    requires
        grid.pixels@.len() == grid.width * grid.height * 4,
        grid.height % 2 == 0,
    ensures
        out@ == halfblock_picture(grid.pixels@, grid.width as int, grid.height as int),
{
    let w = grid.width;
    let h = grid.height;
    let ghost px = grid.pixels@;
    let ghost rowf = |k: int| halfblock_row(px, w as int, 2 * k);
    let rows = h / 2;
    let mut out = String::new();
    let mut k: u32 = 0;
    while k < rows
        invariant
            px == grid.pixels@,
            w == grid.width,
            h == grid.height,
            rows == h / 2,
            h % 2 == 0,
            px.len() == w * h * 4,
            rowf == (|k: int| halfblock_row(px, w as int, 2 * k)),
            k <= rows,
            out@ == Seq::new(k as nat, rowf).flatten(),
        decreases rows - k,
    {
        let y = 2 * k;
        let ghost cellf = |x: int|
            halfblock_cell(pixel_at(px, w as int, x, y as int), pixel_at(px, w as int, x, y + 1));
        let ghost start = out@;
        let mut x: u32 = 0;
        while x < w
            invariant
                px == grid.pixels@,
                px.len() == w * h * 4,
                y + 1 < h,
                cellf == (|x: int|
                    halfblock_cell(pixel_at(px, w as int, x, y as int), pixel_at(px, w as int, x, y + 1))),
                x <= w,
                out@ == start + Seq::new(x as nat, cellf).flatten(),
            decreases w - x,
        {
            let top = get_pixel(&grid.pixels, w, h, x, y);
            let bottom = get_pixel(&grid.pixels, w, h, x, y + 1);
            push_halfblock_cell(&mut out, top, bottom);
            proof {
                assert(Seq::new((x + 1) as nat, cellf) =~= Seq::new(x as nat, cellf).push(cellf(x as int)));
                Seq::new(x as nat, cellf).lemma_flatten_push(cellf(x as int));
            }
            x = x + 1;
        }
        push_char(&mut out, '\x1b');
        push_char(&mut out, '[');
        push_char(&mut out, '0');
        push_char(&mut out, 'm');
        push_char(&mut out, '\n');
        proof {
            assert(Seq::new(w as nat, cellf) =~= Seq::new(w as nat, |x: int|
                halfblock_cell(pixel_at(px, w as int, x, 2 * k), pixel_at(px, w as int, x, 2 * k + 1))));
            assert(out@ =~= start + rowf(k as int));
            assert(Seq::new((k + 1) as nat, rowf) =~= Seq::new(k as nat, rowf).push(rowf(k as int)));
            Seq::new(k as nat, rowf).lemma_flatten_push(rowf(k as int));
        }
        k = k + 1;
    }
    out
}

/// The picture that the image crate decodes from a file's bytes: its width,
/// its height and the bytes per pixel of its colour type; `None` when the bytes
/// hold no image it reads.
pub uninterp spec fn decoded(bytes: Seq<u8>) -> Option<(u32, u32, u8)>;

/// The RGBA bytes of the picture decoded from `bytes`, resampled in its own
/// colour type to `nw` by `nh` pixels with the triangle filter and then
/// converted to 8-bit RGBA.
pub uninterp spec fn resized(bytes: Seq<u8>, nw: u32, nh: u32) -> Seq<u8>;

/// The image crate's decoded picture, carried through unread.
#[verifier::external_type_specification]
#[verifier::external_body]
pub struct ExDynamicImage(DynamicImage);

/// A picture as the image crate decoded it from a file's bytes, kept in its
/// own colour type. Only `decode_image` makes one.
pub struct DecodedImage {
    width: u32,
    height: u32,
    pixel_bytes: u8,
    image: DynamicImage,
    source: Ghost<Seq<u8>>,
}

/// A decoded picture as values: its size, the bytes per pixel of its colour
/// type, and the bytes it was decoded from.
pub struct DecodedView {
    pub width: u32,
    pub height: u32,
    pub pixel_bytes: u8,
    pub source: Seq<u8>,
}

impl View for DecodedImage {
    type V = DecodedView;

    closed spec fn view(&self) -> DecodedView {
        DecodedView {
            width: self.width,
            height: self.height,
            pixel_bytes: self.pixel_bytes,
            source: self.source@,
        }
    }
}

impl DecodedImage {
    /// The picture's width in pixels.
    pub fn width(&self) -> (w: u32)
        ensures
            w == self@.width,
    {
        self.width
    }

    /// The picture's height in pixels.
    pub fn height(&self) -> (h: u32)
        ensures
            h == self@.height,
    {
        self.height
    }

    /// The bytes per pixel of the picture's colour type.
    pub fn pixel_bytes(&self) -> (b: u8)
        ensures
            b == self@.pixel_bytes,
    {
        self.pixel_bytes
    }
}

/// Resampling a picture to `nw` by `nh` pixels and converting it to RGBA finds
/// room for its buffers: the new picture in its own colour type and in RGBA,
/// and, unless the sizes are equal or the picture is empty, a float copy four
/// channels wide of the old width by the new height.
pub open spec fn resize_fits(image: DecodedView, nw: u32, nh: u32) -> bool {
    &&& nw * nh * 4 <= isize::MAX
    &&& nw * nh * image.pixel_bytes <= isize::MAX
    &&& (image.width == 0 || image.height == 0 || (nw == image.width && nh == image.height)
        || image.width * nh * 16 <= isize::MAX)
}

/// Calls `image::load_from_memory`, which guesses the format from the bytes and
/// decodes them. The picture's width, height and bytes per pixel are named
/// `decoded` of the bytes, and the picture keeps the bytes it came from in its
/// view.
#[verifier::external_body]
fn decode_bytes(bytes: &[u8]) -> (r: Option<DecodedImage>)
    ensures
        match r {
            Some(d) => decoded(bytes@) == Some((d@.width, d@.height, d@.pixel_bytes)) && d@.source == bytes@,
            None => decoded(bytes@) is None,
        },
{
    match image::load_from_memory(bytes) {
        Ok(image) => Some(DecodedImage {
            width: image.width(),
            height: image.height(),
            pixel_bytes: image.color().bytes_per_pixel(),
            image,
            source: Ghost(bytes@),
        }),
        Err(_) => None,
    }
}

/// Calls `DynamicImage::resize_exact` with the triangle filter, then
/// `to_rgba8`. The new picture is `nwidth` by `nheight` pixels, four bytes
/// each, named `resized` of the bytes the picture came from and the new sizes.
/// Buffers too large for memory words make the image crate panic, so their
/// sizes must fit (`resize_fits`).
#[verifier::external_body]
fn resize_rgba(image: &DecodedImage, nwidth: u32, nheight: u32) -> (grid: RgbaGrid)
    requires
        resize_fits(image@, nwidth, nheight),
    ensures
        grid.width == nwidth,
        grid.height == nheight,
        grid.pixels@ == resized(image@.source, nwidth, nheight),
        grid.pixels@.len() == nwidth * nheight * 4,
{
    let rgba = image.image.resize_exact(nwidth, nheight, FilterType::Triangle).to_rgba8();
    RgbaGrid { width: rgba.width(), height: rgba.height(), pixels: rgba.into_raw() }
}

/// Decodes an image file's bytes (PNG, JPEG, WebP, GIF and PNM), or `None`
/// when they hold no such image.
pub fn decode_image(bytes: &[u8]) -> (r: Option<DecodedImage>)
    ensures
        match r {
            Some(d) => decoded(bytes@) == Some((d@.width, d@.height, d@.pixel_bytes)) && d@.source == bytes@,
            None => decoded(bytes@) is None,
        },
{
    decode_bytes(bytes)
}

/// Draws a picture with half blocks: resized to `width` cells (kept within
/// 4..=120) and `rows` lines, two pixel rows per line.
pub fn render_halfblocks(image: &DecodedImage, width: u32, rows: u32) -> (out: String)
    requires
        rows <= 0x7fff_ffff,
        resize_fits(image@, spec_preview_width(width), (2 * rows) as u32),
    ensures
        out@ == halfblock_picture(
            resized(image@.source, spec_preview_width(width), (2 * rows) as u32),
            spec_preview_width(width) as int,
            2 * rows,
        ),
{
    let w = preview_width(width);
    let h = rows * 2;
    let grid = resize_rgba(image, w, h);
    halfblock_text(&grid)
}

} // verus!
