//! The command line: its commands and their arguments.

use vstd::prelude::*;
use crate::animation::TextEffect;
use crate::render::RendererChoice;
use crate::text::{join_strings, join_with, strings_view};

verus! {

/// The whole command line.
#[derive(Debug)]
pub struct Cli {
    /// Folder to look for sticker packs in.
    pub pack_dir: Option<String>,
    pub command: Option<Command>,
}

/// The subcommands.
#[derive(Debug, Clone)]
pub enum Command {
    Animate(AnimateArgs),
    Chat(ChatArgs),
    List(ListArgs),
    Preview(PreviewArgs),
    Doctor,
    InitPack(InitPackArgs),
}

impl Default for Command {
    /// Without a subcommand the chat opens.
    fn default() -> (c: Self)
        ensures
            c == Command::Chat(ChatArgs),
    {
        Command::Chat(ChatArgs)
    }
}

/// Arguments of `chat` (none).
#[derive(Debug, Clone)]
pub struct ChatArgs;

/// Arguments of `animate`.
#[derive(Debug, Clone)]
pub struct AnimateArgs {
    /// The words of the text, as given.
    pub text: Vec<String>,
    pub effect: TextEffect,
    pub fps: u64,
    pub frames: usize,
    pub no_color: bool,
}

impl AnimateArgs {
    /// The text to animate: the words joined by single spaces.
    pub fn text(&self) -> (s: String)
        ensures
            s@ == join_with(strings_view(self.text@), seq![' ']),
    {
        let s = join_strings(&self.text, " ");
        proof {
            reveal_strlit(" ");
            assert(" "@ =~= seq![' ']);
        }
        s
    }
}

/// Arguments of `list`.
#[derive(Debug, Clone)]
pub struct ListArgs {
    pub query: Option<String>,
}

/// Arguments of `preview`.
#[derive(Debug, Clone)]
pub struct PreviewArgs {
    pub sticker: String,
    pub width: u32,
    pub renderer: RendererChoice,
}

/// Arguments of `init-pack`.
#[derive(Debug, Clone)]
pub struct InitPackArgs {
    pub name: String,
}

} // verus!
