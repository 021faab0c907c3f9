//! The chat screen's state: sticker list, search box, conversation and the
//! short animation played after a sticker is sent. The terminal drawing and
//! the event loop stand outside; they hand key presses to [`ChatApp::handle_key`]
//! and draw what the methods below return.

use vstd::prelude::*;
use vstd::string::*;
use crate::animation::{TextEffect, frame_in_range, render_plain_frame, spec_plain_frame};
use crate::manifest::{Sticker, StickerView, key_matches, views, qualified};
use crate::text::{pop_char, push_char, push_str, strings_view};
use crate::manifest::clone_strings;

verus! {

/// Frames of the animation shown after sending a sticker.
pub const SEND_ANIMATION_FRAMES: usize = 18;

/// A key press, as far as the chat screen tells keys apart.
#[derive(Debug, Clone, Copy, PartialEq, Eq, Structural)]
pub enum Key {
    Char(char),
    Esc,
    Enter,
    Backspace,
    Up,
    Down,
    Other,
}

/// An animation being played in the conversation pane.
#[derive(Debug)]
pub struct ActiveAnimation {
    pub text: String,
    pub effect: TextEffect,
    pub frame: usize,
    pub frames: usize,
}

/// A playing animation: text, effect, current frame and number of frames.
pub type AnimationView = (Seq<char>, TextEffect, usize, usize);

impl ActiveAnimation {
    /// An animation of `text` at its first frame.
    pub fn new(text: String, effect: TextEffect, frames: usize) -> (a: Self)
        ensures
            a.text == text,
            a.effect == effect,
            a.frame == 0,
            a.frames == frames,
    {
        ActiveAnimation { text, effect, frame: 0, frames }
    }

    /// The line shown for the current frame.
    pub fn line(&self) -> (s: String)
        requires
            frame_in_range(self.effect, self.text@, self.frame as int, self.frames as int),
        ensures
            s@ == spec_plain_frame(self.effect, self.text@, self.frame as int, self.frames as int),
    {
        render_plain_frame(self.effect, self.text.as_str(), self.frame, self.frames)
    }

    /// Text, effect, frame and frame count.
    pub open spec fn state(&self) -> AnimationView {
        (self.text@, self.effect, self.frame, self.frames)
    }
}

/// The chat screen.
#[derive(Debug)]
pub struct ChatApp {
    pub stickers: Vec<Sticker>,
    pub selected: usize,
    pub search: String,
    pub searching: bool,
    pub messages: Vec<String>,
    pub animation: Option<ActiveAnimation>,
}

/// What the chat screen holds, as values.
pub struct ChatView {
    pub stickers: Seq<StickerView>,
    pub selected: int,
    pub search: Seq<char>,
    pub searching: bool,
    pub messages: Seq<Seq<char>>,
    pub animation: Option<AnimationView>,
}

/// The stickers shown for a search: all of them while the search is empty.
pub open spec fn visible(s: ChatView) -> Seq<StickerView> {
    s.stickers.filter(|k: StickerView| s.search.len() == 0 || key_matches(k, s.search))
}

/// The last position that can be selected in a list of `n` items.
pub open spec fn last_index(n: int) -> int {
    if n == 0 { 0 } else { n - 1 }
}

/// The selection pulled back into the list shown for the current search.
pub open spec fn clamp_step(s: ChatView) -> ChatView {
    let m = last_index(visible(s).len() as int);
    ChatView { selected: if s.selected <= m { s.selected } else { m }, ..s }
}

/// The message posted for a sent sticker.
pub open spec fn sent_message(k: StickerView) -> Seq<char> {
    "me: ["@ + qualified(k.pack_id, k.id) + "] "@ + k.name
}

/// Sending the selected sticker: a message is posted and its animation starts;
/// nothing happens when no sticker is selected.
pub open spec fn send_step(s: ChatView) -> ChatView {
    let vis = visible(s);
    if 0 <= s.selected < vis.len() {
        let k = vis[s.selected];
        ChatView {
            messages: s.messages.push(sent_message(k)),
            animation: Some(("sent "@ + k.name, TextEffect::Burst, 0usize, SEND_ANIMATION_FRAMES)),
            ..s
        }
    } else {
        s
    }
}

/// The chat screen after a key press, and whether the screen closes.
/// While searching, keys edit the search (Esc and Enter end it); otherwise
/// `q` and Esc close, `/` starts a search, arrows move the selection and
/// Enter sends the selected sticker.
pub open spec fn key_step(s: ChatView, key: Key) -> (ChatView, bool) {
    if s.searching {
        match key {
            Key::Esc | Key::Enter => (ChatView { searching: false, ..s }, false),
            Key::Backspace => (
                clamp_step(
                    ChatView {
                        search: if s.search.len() > 0 { s.search.drop_last() } else { s.search },
                        ..s
                    },
                ),
                false,
            ),
            Key::Char(c) => (clamp_step(ChatView { search: s.search.push(c), ..s }), false),
            _ => (s, false),
        }
    } else {
        match key {
            Key::Char(c) => if c == 'q' {
                (s, true)
            } else if c == '/' {
                (ChatView { searching: true, ..s }, false)
            } else {
                (s, false)
            },
            Key::Esc => (s, true),
            Key::Up => (ChatView { selected: if s.selected > 0 { s.selected - 1 } else { 0 }, ..s }, false),
            Key::Down => {
                let m = last_index(visible(s).len() as int);
                (ChatView { selected: if s.selected + 1 <= m { s.selected + 1 } else { m }, ..s }, false)
            },
            Key::Enter => (send_step(s), false),
            _ => (s, false),
        }
    }
}

/// One tick of the clock: the animation moves one frame on, and ends after
/// its last frame.
pub open spec fn tick_step(s: ChatView) -> ChatView {
    match s.animation {
        Some(a) => if a.2 + 1 >= a.3 {
            ChatView { animation: None, ..s }
        } else {
            ChatView { animation: Some((a.0, a.1, (a.2 + 1) as usize, a.3)), ..s }
        },
        None => s,
    }
}

/// The invariant of the chat screen: the selection lies within the shown
/// list, and a playing animation is a burst short of its last frame.
pub open spec fn chat_wf(s: ChatView) -> bool {
    &&& 0 <= s.selected <= last_index(visible(s).len() as int)
    &&& match s.animation {
        Some(a) => a.1 == TextEffect::Burst && a.2 < a.3 && a.3 == SEND_ANIMATION_FRAMES,
        None => true,
    }
}

/// A list row shows the qualified id and name of a sticker, and whether it is selected.
pub open spec fn row_shows(row: (String, String, bool), k: StickerView, selected: bool) -> bool {
    &&& row.0@ == qualified(k.pack_id, k.id)
    &&& row.1@ == k.name
    &&& row.2 == selected
}

impl View for ChatApp {
    type V = ChatView;

    open spec fn view(&self) -> ChatView {
        ChatView {
            stickers: views(self.stickers@),
            selected: self.selected as int,
            search: self.search@,
            searching: self.searching,
            messages: strings_view(self.messages@),
            animation: match self.animation {
                Some(a) => Some(a.state()),
                None => None,
            },
        }
    }
}

impl ChatApp {
    /// A chat screen over `stickers`: first sticker selected, no search,
    /// no messages.
    pub fn new(stickers: Vec<Sticker>) -> (app: Self)
        ensures
            app@ == (ChatView {
                stickers: views(stickers@),
                selected: 0,
                search: seq![],
                searching: false,
                messages: seq![],
                animation: None,
            }),
            chat_wf(app@),
    {
        let app = ChatApp {
            stickers,
            selected: 0,
            search: String::new(),
            searching: false,
            messages: Vec::new(),
            animation: None,
        };
        assert(app@.messages =~= seq![]);
        app
    }

    /// The stickers shown for the current search, in order.
    pub fn visible_stickers(&self) -> (v: Vec<&Sticker>)
        ensures
            v@.map_values(|s: &Sticker| s@) == visible(self@),
    {
        let ghost ks = views(self.stickers@);
        let ghost pred = |k: StickerView| self.search@.len() == 0 || key_matches(k, self.search@);
        let mut v: Vec<&Sticker> = Vec::new();
        let mut i: usize = 0;
        while i < self.stickers.len()
            invariant
                ks == views(self.stickers@),
                pred == (|k: StickerView| self.search@.len() == 0 || key_matches(k, self.search@)),
                i <= self.stickers@.len(),
                v@.map_values(|s: &Sticker| s@) == ks.take(i as int).filter(pred),
            decreases self.stickers@.len() - i,
        {
            let s = &self.stickers[i];
            assert(ks.take(i + 1) =~= ks.take(i as int).push(ks[i as int]));
            proof {
                ks.take(i as int).lemma_filter_push(ks[i as int], pred);
            }
            let ghost before = v@;
            if self.search.as_str().is_empty() || s.matches_query(self.search.as_str()) {
                v.push(s);
                assert(v@.map_values(|s: &Sticker| s@) =~= before.map_values(|s: &Sticker| s@).push(ks[i as int]));
            }
            i = i + 1;
        }
        assert(ks.take(self.stickers@.len() as int) =~= ks);
        v
    }

    /// Pulls the selection back into the list shown for the current search.
    pub fn clamp_selection(&mut self)
        ensures
            final(self)@ == clamp_step(old(self)@),
    {
        let n = self.visible_stickers().len();
        let max = if n == 0 { 0 } else { n - 1 };
        if self.selected > max {
            self.selected = max;
        }
        assert(self@ =~= clamp_step(old(self)@));
    }

    /// The search box: the search text, with a `_` cursor while searching.
    pub fn search_line(&self) -> (line: String)
        ensures
            line@ == (if self.searching { self.search@.push('_') } else { self.search@ }),
    {
        let mut line = String::from_str(self.search.as_str());
        if self.searching {
            push_char(&mut line, '_');
        }
        line
    }

    /// Sends the selected sticker: posts its message and starts its animation.
    pub fn send_selected(&mut self)
        ensures
            final(self)@ == send_step(old(self)@),
    {
        let (message, caption) = {
            let vis = self.visible_stickers();
            if self.selected >= vis.len() {
                return;
            }
            let sticker = vis[self.selected];
            assert(sticker@ == visible(self@)[self.selected as int]);
            let mut message = String::new();
            push_str(&mut message, "me: [");
            push_str(&mut message, sticker.qualified_id().as_str());
            push_str(&mut message, "] ");
            push_str(&mut message, sticker.name.as_str());
            let mut caption = String::new();
            push_str(&mut caption, "sent ");
            push_str(&mut caption, sticker.name.as_str());
            (message, caption)
        };
        let ghost before = self.messages@;
        self.messages.push(message);
        self.animation = Some(ActiveAnimation::new(caption, TextEffect::Burst, SEND_ANIMATION_FRAMES));
        assert(strings_view(self.messages@) =~= strings_view(before).push(message@));
        assert(self@ =~= send_step(old(self)@));
    }

    /// Handles a key press and says whether the chat closes.
    pub fn handle_key(&mut self, key: Key) -> (quit: bool)
        requires
            chat_wf(old(self)@),
        ensures
            (final(self)@, quit) == key_step(old(self)@, key),
            chat_wf(final(self)@),
    {
        proof {
            lemma_key_step_keeps_wf(self@, key);
        }
        if self.searching {
            match key {
                Key::Esc | Key::Enter => {
                    self.searching = false;
                },
                Key::Backspace => {
                    pop_char(&mut self.search);
                    self.clamp_selection();
                },
                Key::Char(ch) => {
                    push_char(&mut self.search, ch);
                    self.clamp_selection();
                },
                _ => {},
            }
            assert(self@ =~= key_step(old(self)@, key).0);
            return false;
        }
        match key {
            Key::Char('q') | Key::Esc => true,
            Key::Char('/') => {
                self.searching = true;
                false
            },
            Key::Up => {
                self.selected = if self.selected > 0 { self.selected - 1 } else { 0 };
                false
            },
            Key::Down => {
                let n = self.visible_stickers().len();
                let max = if n == 0 { 0 } else { n - 1 };
                self.selected = if self.selected + 1 <= max { self.selected + 1 } else { max };
                false
            },
            Key::Enter => {
                self.send_selected();
                false
            },
            _ => false,
        }
    }

    /// The line of the animation being played, if any.
    pub fn animation_line(&self) -> (line: Option<String>)
        requires
            chat_wf(self@),
        ensures
            match (line, self@.animation) {
                (Some(l), Some(a)) => l@ == spec_plain_frame(a.1, a.0, a.2 as int, a.3 as int),
                (None, None) => true,
                _ => false,
            },
    {
        match &self.animation {
            Some(a) => Some(a.line()),
            None => None,
        }
    }

    /// Advances the animation by one frame; it ends after its last frame.
    pub fn tick(&mut self)
        requires
            chat_wf(old(self)@),
        ensures
            final(self)@ == tick_step(old(self)@),
            chat_wf(final(self)@),
    {
        proof {
            lemma_tick_keeps_wf(self@);
        }
        let done = match &mut self.animation {
            Some(a) => {
                a.frame = a.frame + 1;
                a.frame >= a.frames
            },
            None => false,
        };
        if done {
            self.animation = None;
        }
        assert(self@ =~= tick_step(old(self)@));
    }

    /// The rows of the sticker list: qualified id, name, and whether the row
    /// is the selected one.
    pub fn sticker_rows(&self) -> (rows: Vec<(String, String, bool)>)
        ensures
            rows@.len() == visible(self@).len(),
            forall|i: int|
                0 <= i < rows@.len() ==> row_shows(#[trigger] rows@[i], visible(self@)[i], i == self.selected),
    {
        let vis = self.visible_stickers();
        let mut rows: Vec<(String, String, bool)> = Vec::new();
        let mut i: usize = 0;
        while i < vis.len()
            invariant
                vis@.map_values(|s: &Sticker| s@) == visible(self@),
                i <= vis@.len(),
                rows@.len() == i,
                forall|j: int|
                    0 <= j < i ==> row_shows(#[trigger] rows@[j], visible(self@)[j], j == self.selected),
            decreases vis@.len() - i,
        {
            let s = vis[i];
            assert(visible(self@)[i as int] == s@);
            let ghost before = rows@;
            rows.push((s.qualified_id(), String::from_str(s.name.as_str()), i == self.selected));
            i = i + 1;
        }
        rows
    }

    /// The lines of the conversation pane: the messages, or a hint while none
    /// has been sent.
    pub fn conversation_lines(&self) -> (lines: Vec<String>)
        ensures
            strings_view(lines@) == (if self.messages@.len() == 0 {
                seq!["No stickers sent yet."@]
            } else {
                strings_view(self.messages@)
            }),
    {
        if self.messages.len() == 0 {
            let mut lines: Vec<String> = Vec::new();
            lines.push(String::from_str("No stickers sent yet."));
            assert(strings_view(lines@) =~= seq!["No stickers sent yet."@]);
            lines
        } else {
            clone_strings(&self.messages)
        }
    }
}

/// Every key press keeps the selection within the shown list and the
/// animation well formed, leaves the sticker list as it was, and posts at most
/// one message, which only Enter outside a search can post.
pub proof fn lemma_key_step_keeps_wf(s: ChatView, key: Key)
    requires
        chat_wf(s),
    ensures
        chat_wf(key_step(s, key).0),
        key_step(s, key).0.stickers == s.stickers,
        key_step(s, key).0.messages == s.messages || (
            !s.searching && key == Key::Enter
            && key_step(s, key).0.messages.drop_last() == s.messages
            && key_step(s, key).0.messages.len() == s.messages.len() + 1
        ),
{
    let t = key_step(s, key).0;
    if t.messages != s.messages {
        assert(t.messages.drop_last() =~= s.messages);
    }
}

/// Every tick keeps the chat screen well formed.
pub proof fn lemma_tick_keeps_wf(s: ChatView)
    requires
        chat_wf(s),
    ensures
        chat_wf(tick_step(s)),
{
}

/// The chat screen closes exactly on `q` or Esc outside a search, and closing
/// leaves its state as it was.
pub proof fn lemma_quit_keys(s: ChatView, key: Key)
    ensures
        key_step(s, key).1 <==> (!s.searching && (key == Key::Char('q') || key == Key::Esc)),
        key_step(s, key).1 ==> key_step(s, key).0 == s,
{
}

/// Outside a search, Enter posts exactly one message, for the selected shown
/// sticker, and starts its burst animation; the list and search stay as they were.
pub proof fn lemma_enter_sends_selected(s: ChatView)
    requires
        chat_wf(s),
        !s.searching,
        visible(s).len() > 0,
    ensures
        ({
            let (t, quit) = key_step(s, Key::Enter);
            let k = visible(s)[s.selected];
            &&& !quit
            &&& t.messages == s.messages.push(sent_message(k))
            &&& t.animation == Some(("sent "@ + k.name, TextEffect::Burst, 0usize, SEND_ANIMATION_FRAMES))
            &&& t.stickers == s.stickers
            &&& t.search == s.search
            &&& t.selected == s.selected
        }),
{
}

/// While searching, Backspace undoes a typed character: the search text comes
/// back, and the selection is no further down than before.
pub proof fn lemma_backspace_undoes_typing(s: ChatView, c: char)
    requires
        chat_wf(s),
        s.searching,
    ensures
        ({
            let t = key_step(key_step(s, Key::Char(c)).0, Key::Backspace).0;
            &&& t.search == s.search
            &&& t.searching
            &&& t.stickers == s.stickers
            &&& t.messages == s.messages
            &&& t.animation == s.animation
            &&& t.selected <= s.selected
        }),
{
    assert(s.search.push(c).drop_last() =~= s.search);
}

/// The chat screen after `n` ticks.
pub open spec fn ticks(s: ChatView, n: nat) -> ChatView
    decreases n,
{
    if n == 0 {
        s
    } else {
        tick_step(ticks(s, (n - 1) as nat))
    }
}

/// An animation at frame `f` of `F` shows the following frames one tick after
/// another and is gone after exactly `F - f` ticks; ticks change nothing else.
pub proof fn lemma_animation_lifetime(s: ChatView, n: nat)
    requires
        s.animation matches Some(a) && a.2 < a.3,
    ensures
        ({
            let a = s.animation.unwrap();
            &&& n < a.3 - a.2 ==> ticks(s, n).animation == Some((a.0, a.1, (a.2 + n) as usize, a.3))
            &&& n == a.3 - a.2 ==> ticks(s, n).animation is None
            &&& n <= a.3 - a.2 ==> ticks(s, n) == ChatView { animation: ticks(s, n).animation, ..s }
        }),
    decreases n,
{
    if n > 0 {
        lemma_animation_lifetime(s, (n - 1) as nat);
    }
}

/// The animation started by sending a sticker plays its frames one tick at a
/// time and ends after exactly `SEND_ANIMATION_FRAMES` ticks; nothing else on
/// the screen changes meanwhile.
pub proof fn lemma_send_animation_lasts(s: ChatView, n: nat)
    requires
        chat_wf(s),
        !s.searching,
        visible(s).len() > 0,
    ensures
        ({
            let t = key_step(s, Key::Enter).0;
            let text = "sent "@ + visible(s)[s.selected].name;
            &&& n < SEND_ANIMATION_FRAMES ==> ticks(t, n).animation == Some(
                (text, TextEffect::Burst, n as usize, SEND_ANIMATION_FRAMES),
            )
            &&& n == SEND_ANIMATION_FRAMES ==> ticks(t, n).animation is None
            &&& n <= SEND_ANIMATION_FRAMES ==> ticks(t, n) == ChatView { animation: ticks(t, n).animation, ..t }
        }),
{
    lemma_enter_sends_selected(s);
    lemma_animation_lifetime(key_step(s, Key::Enter).0, n);
}

/// A tick with no animation playing changes nothing.
pub proof fn lemma_idle_tick(s: ChatView)
    requires
        s.animation is None,
    ensures
        tick_step(s) == s,
{
}

/// The chat screen shows every sticker the search matches (every sticker
/// while the search is empty).
pub proof fn lemma_search_shows_matches(s: ChatView, i: int)
    requires
        0 <= i < s.stickers.len(),
        s.search.len() == 0 || key_matches(s.stickers[i], s.search),
    ensures
        visible(s).contains(s.stickers[i]),
{
    s.stickers.lemma_filter_contains(|k: StickerView| s.search.len() == 0 || key_matches(k, s.search), i);
}

/// The chat screen shows only stickers of its list that the search matches.
pub proof fn lemma_search_shows_only_matches(s: ChatView, j: int)
    requires
        0 <= j < visible(s).len(),
    ensures
        s.stickers.contains(visible(s)[j]),
        s.search.len() == 0 || key_matches(visible(s)[j], s.search),
{
    let pred = |k: StickerView| s.search.len() == 0 || key_matches(k, s.search);
    s.stickers.lemma_filter_pred(pred, j);
    assert(visible(s).contains(visible(s)[j]));
    s.stickers.lemma_filter_contains_rev(pred, visible(s)[j]);
}

} // verus!
