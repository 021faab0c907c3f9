//! Text animation frames: typewriter, wipe, glitch and burst effects.

use vstd::prelude::*;
use vstd::string::*;
use crate::text::{chars_of, decimal, is_whitespace, push_char, push_decimal, push_str, white_space};

verus! {

/// The animation effects a text can be played with.
#[derive(Debug, Clone, Copy, PartialEq, Eq, Structural)]
pub enum TextEffect {
    Typewriter,
    Wipe,
    Glitch,
    Burst,
}

/// Number of frames an animation of `len` characters plays when `requested` are asked for:
/// at least one frame, and at least one frame per character.
pub open spec fn spec_frame_count(requested: int, len: int) -> int {
    let m = if requested >= len { requested } else { len };
    if m >= 1 { m } else { 1 }
}

/// Number of characters revealed of `total` at frame `frame` of `total_frames`.
pub open spec fn spec_scaled_count(total: int, frame: int, total_frames: int) -> int {
    if total == 0 {
        0
    } else {
        let frames = if total_frames >= 1 { total_frames } else { 1 };
        let v = ((frame + 1) * total) / frames;
        if v <= total { v } else { total }
    }
}

/// Typewriter frame: the revealed prefix, then a `_` cursor while text is still hidden.
pub open spec fn spec_typewriter(text: Seq<char>, frame: int, total_frames: int) -> Seq<char> {
    let v = spec_scaled_count(text.len() as int, frame, total_frames);
    if v < text.len() {
        text.take(v).push('_')
    } else {
        text.take(v)
    }
}

/// One cell of a wipe frame: revealed, the `>` edge, or a placeholder.
pub open spec fn wipe_cell(c: char, i: int, visible: int) -> char {
    if i < visible {
        c
    } else if i == visible {
        '>'
    } else if white_space(c) {
        ' '
    } else {
        '.'
    }
}

/// Wipe frame: same length as the text.
pub open spec fn spec_wipe(text: Seq<char>, frame: int, total_frames: int) -> Seq<char> {
    let v = spec_scaled_count(text.len() as int, frame, total_frames);
    Seq::new(text.len(), |i: int| wipe_cell(text[i], i, v))
}

/// The scramble symbols of the glitch effect, by position.
pub open spec fn glitch_symbol(k: int) -> char {
    if k == 0 {
        '#'
    } else if k == 1 {
        '@'
    } else if k == 2 {
        '%'
    } else if k == 3 {
        '&'
    } else if k == 4 {
        '?'
    } else if k == 5 {
        '+'
    } else if k == 6 {
        '='
    } else if k == 7 {
        '*'
    } else if k == 8 {
        '/'
    } else if k == 9 {
        '<'
    } else {
        '>'
    }
}

/// The scramble symbol shown at character `index` in frame `frame`
/// (machine-word wrapping arithmetic).
pub open spec fn spec_glitch_char(index: usize, frame: usize) -> char {
    let value = vstd::wrapping::usize_specs::wrapping_add(
        vstd::wrapping::usize_specs::wrapping_add(
            vstd::wrapping::usize_specs::wrapping_mul(index, 31),
            vstd::wrapping::usize_specs::wrapping_mul(frame, 17),
        ),
        index ^ frame,
    );
    glitch_symbol((value % 11) as int)
}

/// One cell of a glitch frame.
pub open spec fn glitch_cell(c: char, i: int, visible: int, frame: int) -> char {
    if white_space(c) || i < visible {
        c
    } else {
        spec_glitch_char(i as usize, frame as usize)
    }
}

/// Glitch frame: same length as the text.
pub open spec fn spec_glitch(text: Seq<char>, frame: int, total_frames: int) -> Seq<char> {
    let v = spec_scaled_count(text.len() as int, frame, total_frames);
    Seq::new(text.len(), |i: int| glitch_cell(text[i], i, v, frame))
}

/// Which of the five burst shells is shown.
pub open spec fn spec_shell_index(frame: int, total_frames: int) -> int {
    if total_frames <= 1 {
        4
    } else {
        let k = (frame * 5) / total_frames;
        if k <= 4 { k } else { 4 }
    }
}

/// Left part of burst shell `k`.
pub open spec fn shell_left(k: int) -> Seq<char> {
    if k == 0 {
        seq![]
    } else if k == 1 {
        seq!['.', ' ']
    } else if k == 2 {
        seq!['*', ' ']
    } else if k == 3 {
        seq!['+', '*', ' ']
    } else {
        seq!['>', '+', '*', ' ']
    }
}

/// Right part of burst shell `k`.
pub open spec fn shell_right(k: int) -> Seq<char> {
    if k == 0 {
        seq![]
    } else if k == 1 {
        seq![' ', '.']
    } else if k == 2 {
        seq![' ', '*']
    } else if k == 3 {
        seq![' ', '*', '+']
    } else {
        seq![' ', '*', '+', '<']
    }
}

/// Burst frame: the text wrapped in a shell of ASCII reaction marks.
pub open spec fn spec_burst(text: Seq<char>, frame: int, total_frames: int) -> Seq<char> {
    let k = spec_shell_index(frame, total_frames);
    shell_left(k) + text + shell_right(k)
}

/// The plain (uncolored) frame `frame` of `total_frames` of an animation.
pub open spec fn spec_plain_frame(
    effect: TextEffect,
    text: Seq<char>,
    frame: int,
    total_frames: int,
) -> Seq<char> {
    if text.len() == 0 {
        seq![]
    } else if frame + 1 >= total_frames {
        text
    } else {
        match effect {
            TextEffect::Typewriter => spec_typewriter(text, frame, total_frames),
            TextEffect::Wipe => spec_wipe(text, frame, total_frames),
            TextEffect::Glitch => spec_glitch(text, frame, total_frames),
            TextEffect::Burst => spec_burst(text, frame, total_frames),
        }
    }
}

/// The frame arithmetic stays within machine words (outside this range the
/// computation overflows).
pub open spec fn frame_in_range(
    effect: TextEffect,
    text: Seq<char>,
    frame: int,
    total_frames: int,
) -> bool {
    text.len() > 0 ==> {
        &&& frame < usize::MAX
        &&& frame + 1 < total_frames ==> match effect {
            TextEffect::Burst => frame * 5 <= usize::MAX,
            _ => (frame + 1) * text.len() <= usize::MAX,
        }
    }
}

/// Number of frames played for `text` when `requested` frames are asked for.
pub fn frame_count(requested: usize, text: &str) -> (n: usize)
    ensures
        n == spec_frame_count(requested as int, text@.len() as int),
        n >= 1,
        n >= text@.len(),
        n >= requested,
{
    let len = text.unicode_len();
    let m = if requested >= len { requested } else { len };
    if m >= 1 { m } else { 1 }
}

fn scaled_count(total: usize, frame: usize, total_frames: usize) -> (c: usize)
    requires
        total > 0 ==> frame < usize::MAX && (frame + 1) * total <= usize::MAX,
    ensures
        c == spec_scaled_count(total as int, frame as int, total_frames as int),
        c <= total,
{
    if total == 0 {
        return 0;
    }
    let frames = if total_frames >= 1 { total_frames } else { 1 };
    let v = ((frame + 1) * total) / frames;
    if v <= total { v } else { total }
}

fn render_typewriter(text: &str, frame: usize, total_frames: usize) -> (out: String)
    requires
        text@.len() > 0 ==> frame < usize::MAX && (frame + 1) * text@.len() <= usize::MAX,
    ensures
        out@ == spec_typewriter(text@, frame as int, total_frames as int),
{
    let chars = chars_of(text);
    let total = chars.len();
    let visible = scaled_count(total, frame, total_frames);
    let mut out = String::new();
    let mut i: usize = 0;
    while i < visible
        invariant
            chars@ == text@,
            visible <= chars@.len(),
            i <= visible,
            out@ == chars@.take(i as int),
        decreases visible - i,
    {
        push_char(&mut out, chars[i]);
        i = i + 1;
        assert(out@ =~= chars@.take(i as int));
    }
    if visible < total {
        push_char(&mut out, '_');
    }
    out
}

fn render_wipe(text: &str, frame: usize, total_frames: usize) -> (out: String)
    requires
        text@.len() > 0 ==> frame < usize::MAX && (frame + 1) * text@.len() <= usize::MAX,
    ensures
        out@ == spec_wipe(text@, frame as int, total_frames as int),
{
    let chars = chars_of(text);
    let visible = scaled_count(chars.len(), frame, total_frames);
    let ghost want = spec_wipe(text@, frame as int, total_frames as int);
    let mut out = String::new();
    let mut index: usize = 0;
    while index < chars.len()
        invariant
            chars@ == text@,
            visible == spec_scaled_count(text@.len() as int, frame as int, total_frames as int),
            want == spec_wipe(text@, frame as int, total_frames as int),
            index <= chars@.len(),
            out@ == want.take(index as int),
        decreases chars@.len() - index,
    {
        let ch = chars[index];
        if index < visible {
            push_char(&mut out, ch);
        } else if index == visible {
            push_char(&mut out, '>');
        } else if is_whitespace(ch) {
            push_char(&mut out, ' ');
        } else {
            push_char(&mut out, '.');
        }
        index = index + 1;
        assert(out@ =~= want.take(index as int));
    }
    assert(want.take(chars@.len() as int) =~= want);
    out
}

fn glitch_symbol_at(k: usize) -> (c: char)
    ensures
        c == glitch_symbol(k as int),
{
    if k == 0 {
        '#'
    } else if k == 1 {
        '@'
    } else if k == 2 {
        '%'
    } else if k == 3 {
        '&'
    } else if k == 4 {
        '?'
    } else if k == 5 {
        '+'
    } else if k == 6 {
        '='
    } else if k == 7 {
        '*'
    } else if k == 8 {
        '/'
    } else if k == 9 {
        '<'
    } else {
        '>'
    }
}

fn glitch_char(index: usize, frame: usize) -> (c: char)
    ensures
        c == spec_glitch_char(index, frame),
{
    let value = index.wrapping_mul(31).wrapping_add(frame.wrapping_mul(17)).wrapping_add(
        index ^ frame,
    );
    glitch_symbol_at(value % 11)
}

fn render_glitch(text: &str, frame: usize, total_frames: usize) -> (out: String)
    requires
        text@.len() > 0 ==> frame < usize::MAX && (frame + 1) * text@.len() <= usize::MAX,
    ensures
        out@ == spec_glitch(text@, frame as int, total_frames as int),
{
    let chars = chars_of(text);
    let visible = scaled_count(chars.len(), frame, total_frames);
    let ghost want = spec_glitch(text@, frame as int, total_frames as int);
    let mut out = String::new();
    let mut index: usize = 0;
    while index < chars.len()
        invariant
            chars@ == text@,
            visible == spec_scaled_count(text@.len() as int, frame as int, total_frames as int),
            want == spec_glitch(text@, frame as int, total_frames as int),
            index <= chars@.len(),
            out@ == want.take(index as int),
        decreases chars@.len() - index,
    {
        let ch = chars[index];
        if is_whitespace(ch) || index < visible {
            push_char(&mut out, ch);
        } else {
            push_char(&mut out, glitch_char(index, frame));
        }
        index = index + 1;
        assert(out@ =~= want.take(index as int));
    }
    assert(want.take(chars@.len() as int) =~= want);
    out
}

fn push_shell_left(out: &mut String, k: usize)
    requires
        k <= 4,
    ensures
        final(out)@ == old(out)@ + shell_left(k as int),
{
    if k == 1 {
        push_char(out, '.');
    } else if k == 2 {
        push_char(out, '*');
    } else if k == 3 {
        push_char(out, '+');
        push_char(out, '*');
    } else if k == 4 {
        push_char(out, '>');
        push_char(out, '+');
        push_char(out, '*');
    }
    if k >= 1 {
        push_char(out, ' ');
    }
    assert(out@ =~= old(out)@ + shell_left(k as int));
}

fn push_shell_right(out: &mut String, k: usize)
    requires
        k <= 4,
    ensures
        final(out)@ == old(out)@ + shell_right(k as int),
{
    if k >= 1 {
        push_char(out, ' ');
    }
    if k == 1 {
        push_char(out, '.');
    } else if k == 2 {
        push_char(out, '*');
    } else if k == 3 {
        push_char(out, '*');
        push_char(out, '+');
    } else if k == 4 {
        push_char(out, '*');
        push_char(out, '+');
        push_char(out, '<');
    }
    assert(out@ =~= old(out)@ + shell_right(k as int));
}

fn render_burst(text: &str, frame: usize, total_frames: usize) -> (out: String)
    requires
        total_frames > 1 ==> frame * 5 <= usize::MAX,
    ensures
        out@ == spec_burst(text@, frame as int, total_frames as int),
{
    let index = if total_frames <= 1 {
        4
    } else {
        let k = (frame * 5) / total_frames;
        if k <= 4 { k } else { 4 }
    };
    let mut out = String::new();
    push_shell_left(&mut out, index);
    push_str(&mut out, text);
    push_shell_right(&mut out, index);
    assert(out@ =~= spec_burst(text@, frame as int, total_frames as int));
    out
}

/// Frame `frame` of `total_frames` of `text` played with `effect`, without color.
/// The last frame, and every frame after it, shows the text itself.
pub fn render_plain_frame(effect: TextEffect, text: &str, frame: usize, total_frames: usize) -> (out:
    String)
    requires
        frame_in_range(effect, text@, frame as int, total_frames as int),
    ensures
        out@ == spec_plain_frame(effect, text@, frame as int, total_frames as int),
{
    if text.is_empty() {
        return String::new();
    }
    if frame + 1 >= total_frames {
        return String::from_str(text);
    }
    match effect {
        TextEffect::Typewriter => render_typewriter(text, frame, total_frames),
        TextEffect::Wipe => render_wipe(text, frame, total_frames),
        TextEffect::Glitch => render_glitch(text, frame, total_frames),
        TextEffect::Burst => render_burst(text, frame, total_frames),
    }
}


/// The escape sequence that selects a 24-bit foreground color.
pub open spec fn ansi_foreground(rgb: (u8, u8, u8)) -> Seq<char> {
    seq!['\x1b', '[', '3', '8', ';', '2', ';'] + decimal(rgb.0 as nat) + seq![';'] + decimal(
        rgb.1 as nat,
    ) + seq![';'] + decimal(rgb.2 as nat) + seq!['m']
}

/// The escape sequence that resets all text attributes.
pub open spec fn ansi_reset() -> Seq<char> {
    seq!['\x1b', '[', '0', 'm']
}

/// Frame of an animation as the terminal shows it: when `color` is set and the
/// frame is not empty, it is wrapped in the foreground color `rgb` and a reset.
pub open spec fn spec_ansi_frame(
    effect: TextEffect,
    text: Seq<char>,
    frame: int,
    total_frames: int,
    color: bool,
    rgb: (u8, u8, u8),
) -> Seq<char> {
    let plain = spec_plain_frame(effect, text, frame, total_frames);
    if !color || plain.len() == 0 {
        plain
    } else {
        ansi_foreground(rgb) + plain + ansi_reset()
    }
}

/// Appends the escape sequence that selects the foreground color `rgb`.
pub fn push_foreground(out: &mut String, rgb: (u8, u8, u8))
    ensures
        final(out)@ == old(out)@ + ansi_foreground(rgb),
{
    push_char(out, '\x1b');
    push_char(out, '[');
    push_char(out, '3');
    push_char(out, '8');
    push_char(out, ';');
    push_char(out, '2');
    push_char(out, ';');
    push_decimal(out, rgb.0);
    push_char(out, ';');
    push_decimal(out, rgb.1);
    push_char(out, ';');
    push_decimal(out, rgb.2);
    push_char(out, 'm');
    assert(out@ =~= old(out)@ + ansi_foreground(rgb));
}

/// Frame `frame` of `total_frames` of `text` played with `effect`, colored with
/// `rgb` when `color` is set. The color of each effect and frame is computed
/// in floating point by the caller.
pub fn render_ansi_frame(
    effect: TextEffect,
    text: &str,
    frame: usize,
    total_frames: usize,
    color: bool,
    rgb: (u8, u8, u8),
) -> (out: String)
    requires
        frame_in_range(effect, text@, frame as int, total_frames as int),
    ensures
        out@ == spec_ansi_frame(effect, text@, frame as int, total_frames as int, color, rgb),
{
    let plain = render_plain_frame(effect, text, frame, total_frames);
    if !color || plain.as_str().is_empty() {
        return plain;
    }
    let mut out = String::new();
    push_foreground(&mut out, rgb);
    push_str(&mut out, plain.as_str());
    push_char(&mut out, '\x1b');
    push_char(&mut out, '[');
    push_char(&mut out, '0');
    push_char(&mut out, 'm');
    assert(out@ =~= ansi_foreground(rgb) + plain@ + ansi_reset());
    out
}

/// Milliseconds between two frames at `fps` frames per second (a rate of 0 counts as 1).
pub fn frame_delay_millis(fps: u64) -> (ms: u64)
    ensures
        ms == 1000int / (if fps >= 1 { fps as int } else { 1int }),
{
    let rate = if fps >= 1 { fps } else { 1 };
    1000 / rate
}

/// The last frame of an animation, and any frame past it, shows the original text.
pub proof fn lemma_final_frame_is_text(
    effect: TextEffect,
    text: Seq<char>,
    frame: int,
    total_frames: int,
)
    requires
        frame + 1 >= total_frames,
    ensures
        spec_plain_frame(effect, text, frame, total_frames) == text,
{
}

/// The number of revealed characters never decreases from one frame to a later one.
pub proof fn lemma_reveal_monotone(total: int, frame1: int, frame2: int, total_frames: int)
    requires
        0 <= total,
        0 <= frame1 <= frame2,
    ensures
        spec_scaled_count(total, frame1, total_frames) <= spec_scaled_count(
            total,
            frame2,
            total_frames,
        ),
        0 <= spec_scaled_count(total, frame1, total_frames) <= total,
{
    if total > 0 {
        let frames = if total_frames >= 1 { total_frames } else { 1 };
        assert((frame1 + 1) * total <= (frame2 + 1) * total) by (nonlinear_arith)
            requires
                0 <= frame1 <= frame2,
                0 < total,
        ;
        assert(((frame1 + 1) * total) / frames <= ((frame2 + 1) * total) / frames) by (
        nonlinear_arith)
            requires
                (frame1 + 1) * total <= (frame2 + 1) * total,
                frames >= 1,
        ;
        assert(0 <= ((frame1 + 1) * total) / frames) by (nonlinear_arith)
            requires
                0 <= frame1,
                0 < total,
                frames >= 1,
        ;
    }
}

/// When an animation plays exactly one frame per character, the typewriter reveals
/// exactly one more character each frame: frame `k` shows the first `k + 1`
/// characters followed by the cursor.
pub proof fn lemma_typewriter_one_char_per_frame(text: Seq<char>, frame: int)
    requires
        0 <= frame,
        frame + 1 < text.len(),
    ensures
        spec_plain_frame(TextEffect::Typewriter, text, frame, text.len() as int) == text.take(
            frame + 1,
        ).push('_'),
{
    let n = text.len() as int;
    assert(((frame + 1) * n) / n == frame + 1) by (nonlinear_arith)
        requires
            n > 0,
    ;
}

/// Wipe and glitch frames have exactly as many characters as the text, and keep
/// every revealed character in place.
pub proof fn lemma_wipe_glitch_keep_shape(
    text: Seq<char>,
    frame: int,
    total_frames: int,
    i: int,
)
    requires
        0 <= frame,
        0 <= i < text.len(),
        i < spec_scaled_count(text.len() as int, frame, total_frames),
    ensures
        spec_plain_frame(TextEffect::Wipe, text, frame, total_frames).len() == text.len(),
        spec_plain_frame(TextEffect::Glitch, text, frame, total_frames).len() == text.len(),
        spec_plain_frame(TextEffect::Wipe, text, frame, total_frames)[i] == text[i],
        spec_plain_frame(TextEffect::Glitch, text, frame, total_frames)[i] == text[i],
{
}

/// A burst frame is the text with a shell of marks on each side, the two sides
/// having the same width.
pub proof fn lemma_burst_wraps_text(text: Seq<char>, frame: int, total_frames: int)
    requires
        text.len() > 0,
        frame + 1 < total_frames,
    ensures
        ({
            let k = spec_shell_index(frame, total_frames);
            let out = spec_plain_frame(TextEffect::Burst, text, frame, total_frames);
            &&& shell_left(k).len() == shell_right(k).len()
            &&& out == shell_left(k) + text + shell_right(k)
            &&& out.subrange(shell_left(k).len() as int, (shell_left(k).len() + text.len()) as int)
                == text
        }),
{
    let k = spec_shell_index(frame, total_frames);
    let l = shell_left(k);
    assert((l + text + shell_right(k)).subrange(l.len() as int, (l.len() + text.len()) as int) =~= text);
}

/// Past the wipe's `>` edge every cell is an ASCII placeholder: a space for
/// white space, a dot for anything else.
pub proof fn lemma_wipe_placeholders(text: Seq<char>, frame: int, total_frames: int, i: int)
    requires
        0 <= frame,
        frame + 1 < total_frames,
        spec_scaled_count(text.len() as int, frame, total_frames) < i < text.len(),
    ensures
        spec_plain_frame(TextEffect::Wipe, text, frame, total_frames)[i] == (if white_space(text[i]) {
            ' '
        } else {
            '.'
        }),
{
}

/// The burst's shell only grows as the animation goes on: a later frame never
/// shows a smaller shell, and a bigger shell has more marks on each side.
pub proof fn lemma_burst_expands(frame1: int, frame2: int, total_frames: int)
    requires
        0 <= frame1 <= frame2,
    ensures
        spec_shell_index(frame1, total_frames) <= spec_shell_index(frame2, total_frames),
        0 <= spec_shell_index(frame1, total_frames) <= 4,
        spec_shell_index(frame1, total_frames) <= spec_shell_index(frame2, total_frames) ==> shell_left(
            spec_shell_index(frame1, total_frames),
        ).len() <= shell_left(spec_shell_index(frame2, total_frames)).len(),
{
    if total_frames > 1 {
        assert((frame1 * 5) / total_frames <= (frame2 * 5) / total_frames) by (nonlinear_arith)
            requires
                0 <= frame1 <= frame2,
                total_frames > 1,
        ;
        assert(0 <= (frame1 * 5) / total_frames) by (nonlinear_arith)
            requires
                0 <= frame1,
                total_frames > 1,
        ;
    }
}

proof fn lemma_div_step(a: int, n: int, t: int)
    requires
        0 <= a,
        0 <= n <= t,
        t > 0,
    ensures
        a / t <= (a + n) / t <= a / t + 1,
{
    let q = a / t;
    let r = a % t;
    vstd::arithmetic::div_mod::lemma_fundamental_div_mod(a, t);
    vstd::arithmetic::div_mod::lemma_fundamental_div_mod(a + n, t);
    vstd::arithmetic::div_mod::lemma_div_is_ordered(a, a + n, t);
    assert(a + n < (q + 2) * t) by (nonlinear_arith)
        requires
            a == t * q + r,
            0 <= r < t,
            n <= t,
    ;
    assert((a + n) / t <= q + 1) by (nonlinear_arith)
        requires
            a + n < (q + 2) * t,
            (a + n) == t * ((a + n) / t) + (a + n) % t,
            0 <= (a + n) % t,
            t > 0,
    ;
}

/// When the text is no longer than the number of frames, the typewriter
/// reveals at most one more character from one frame to the next: frame `f`
/// shows a prefix and the cursor, and frame `f + 1` shows a prefix longer by
/// at most one, or the whole text once it is the last frame.
pub proof fn lemma_typewriter_step(text: Seq<char>, frame: int, total_frames: int)
    requires
        0 <= frame,
        1 <= text.len() <= total_frames,
        frame + 1 < total_frames,
    ensures
        ({
            let n = text.len() as int;
            let va = spec_scaled_count(n, frame, total_frames);
            let vb = spec_scaled_count(n, frame + 1, total_frames);
            &&& va <= vb <= va + 1
            &&& va < n
            &&& spec_plain_frame(TextEffect::Typewriter, text, frame, total_frames) == text.take(
                va,
            ).push('_')
            &&& frame + 2 < total_frames ==> spec_plain_frame(
                TextEffect::Typewriter,
                text,
                frame + 1,
                total_frames,
            ) == text.take(vb).push('_')
            &&& frame + 2 >= total_frames ==> spec_plain_frame(
                TextEffect::Typewriter,
                text,
                frame + 1,
                total_frames,
            ) == text
        }),
{
    let n = text.len() as int;
    let t = total_frames;
    assert((frame + 1) * n >= 0) by (nonlinear_arith)
        requires
            frame >= 0,
            n >= 1,
    ;
    assert((frame + 2) * n == (frame + 1) * n + n) by (nonlinear_arith);
    lemma_div_step((frame + 1) * n, n, t);
    assert((frame + 1) * n < t * n) by (nonlinear_arith)
        requires
            frame + 1 < t,
            n >= 1,
    ;
    vstd::arithmetic::div_mod::lemma_div_by_multiple_is_strongly_ordered((frame + 1) * n, t * n, n, t);
    assert((t * n) / t == n) by (nonlinear_arith)
        requires
            t > 0,
    ;
    if frame + 2 < t {
        assert((frame + 2) * n < t * n) by (nonlinear_arith)
            requires
                frame + 2 < t,
                n >= 1,
        ;
        vstd::arithmetic::div_mod::lemma_div_by_multiple_is_strongly_ordered((frame + 2) * n, t * n, n, t);
    }
}

} // verus!
