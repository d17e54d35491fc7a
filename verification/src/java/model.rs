//! The status that a Java edition server reports, as its JSON describes it.
use vstd::prelude::*;

verus! {

/// A server's answer to a status request, with the measured latency.
pub struct JavaPing {
    pub version: Version,
    pub players: Players,
    pub description: Description,
    pub favicon: Option<String>,
    pub mod_info: Option<ModInfo>,
    pub latency: u32,
}

/// The message of the day: plain text or a text component.
pub enum Description {
    Plain(String),
    Component(TextComponent),
}

/// A chat text component: an object with text and styling, a bare string, or
/// a list of components.
pub enum TextComponent {
    Object {
        text: String,
        hat: Option<bool>,
        player: Option<PlayerField>,
        shadow_color: Option<i32>,
        atlas: Option<String>,
        sprite: Option<String>,
        bold: Option<bool>,
        strikethrough: Option<bool>,
        obfuscated: Option<bool>,
        italic: Option<bool>,
        underlined: Option<bool>,
        font: Option<String>,
        color: Option<String>,
        extra: Option<Vec<TextComponent>>,
    },
    String(String),
    Array(Vec<TextComponent>),
}

/// The player of a head component: a name, or a full profile.
pub enum PlayerField {
    Name(String),
    Full(Player),
}

/// A player profile.
pub struct Player {
    pub name: Option<String>,
    pub properties: Option<Vec<Property>>,
}

/// A profile property.
pub struct Property {
    pub name: String,
    pub value: String,
}

/// The server's version name and protocol number.
pub struct Version {
    pub name: String,
    pub protocol: Option<i32>,
}

/// Player counts and a sample of the players online.
pub struct Players {
    pub online: u32,
    pub max: i32,
    pub sample: Option<Vec<PlayerInfo>>,
}

/// A player in the sample.
pub struct PlayerInfo {
    pub name: String,
    pub id: String,
}

/// Mod loader information (Forge and the like).
#[derive(Default)]
pub struct ModInfo {
    pub name: String,
    pub mod_list: Vec<Mod>,
}

/// One mod.
pub struct Mod {
    pub mod_id: String,
    pub version: String,
}

} // verus!
