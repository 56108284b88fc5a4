use vstd::prelude::*;

use crate::data::opt_string_view;

verus! {

/// Context attached to a message: who issued the command it answers, and on
/// whom it acts.
#[derive(Debug, Clone, PartialEq)]
pub enum Metadata {
    Empty,
    Test(Test),
    Command(Command),
}

#[derive(Debug, Clone, PartialEq)]
pub struct Test {
    pub foo: String,
}

#[derive(Debug, Clone, PartialEq)]
pub struct Command {
    pub player: Player,
    pub target: Option<Player>,
}

#[derive(Debug, Clone, PartialEq)]
pub struct Player {
    pub discord_id: Option<String>,
    pub discord_mention: Option<String>,
    pub discord_name: Option<String>,
    pub steam_uid: String,
}

// -- models ----------------------------------------------------------------

pub struct MetaTestV {
    pub foo: Seq<char>,
}

pub struct PlayerV {
    pub discord_id: Option<Seq<char>>,
    pub discord_mention: Option<Seq<char>>,
    pub discord_name: Option<Seq<char>>,
    pub steam_uid: Seq<char>,
}

pub struct CommandV {
    pub player: PlayerV,
    pub target: Option<PlayerV>,
}

pub enum MetadataV {
    Empty,
    Test(MetaTestV),
    Command(CommandV),
}

impl View for Test {
    type V = MetaTestV;

    open spec fn view(&self) -> MetaTestV {
        MetaTestV { foo: self.foo@ }
    }
}

impl View for Player {
    type V = PlayerV;

    open spec fn view(&self) -> PlayerV {
        PlayerV {
            discord_id: opt_string_view(self.discord_id),
            discord_mention: opt_string_view(self.discord_mention),
            discord_name: opt_string_view(self.discord_name),
            steam_uid: self.steam_uid@,
        }
    }
}

impl View for Command {
    type V = CommandV;

    open spec fn view(&self) -> CommandV {
        CommandV {
            player: self.player@,
            target: match self.target {
                Some(ref p) => Some(p@),
                None => None,
            },
        }
    }
}

impl View for Metadata {
    type V = MetadataV;

    open spec fn view(&self) -> MetadataV {
        match self {
            Metadata::Empty => MetadataV::Empty,
            Metadata::Test(x) => MetadataV::Test(x@),
            Metadata::Command(x) => MetadataV::Command(x@),
        }
    }
}

impl Default for Metadata {
    fn default() -> (r: Metadata)
        ensures
            r@ == MetadataV::Empty,
    {
        Metadata::Empty
    }
}

} // verus!
