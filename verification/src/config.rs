//! The parts of the bot's configuration that the library's logic reads, and
//! the decision that precedes loading the configuration file.
use vstd::prelude::*;

verus! {

/// Activity type shown next to the bot name in the Discord member list.
#[derive(Debug, Clone, Copy, PartialEq, Eq, Structural)]
pub enum ActivityKind {
    Playing,
    Watching,
    Listening,
    Competing,
}

/// Online status for the bot.
#[derive(Debug, Clone, Copy, PartialEq, Eq, Structural)]
pub enum BotStatus {
    Online,
    Dnd,
    Idle,
    Invisible,
}

/// Bot presence shown in the Discord member list on startup.
#[derive(Debug)]
pub struct BotPresence {
    /// Activity type: playing, watching, listening, or competing.
    pub activity: ActivityKind,
    /// The text displayed next to the activity type (e.g. "for questions").
    pub message: String,
    /// Online status: online, dnd, idle, or invisible.
    pub status: BotStatus,
}

/// Translates a local file path prefix to a public URL prefix.
#[derive(Debug)]
pub struct UrlMapping {
    /// Local path prefix to match (e.g. `"./docs"`).
    pub from: String,
    /// Public URL prefix to replace it with (e.g. `"https://example.com/docs"`).
    pub to: String,
}

/// A single documentation directory within a cloned git repository.
#[derive(Debug)]
pub struct DocSet {
    /// Path to the docs directory relative to the repository root (e.g. `"./docs"`).
    pub path: String,
    /// URL mappings that translate local file paths to public web URLs.
    pub url_mapping: Vec<UrlMapping>,
}

/// What verifying the configuration file comes to.
#[derive(Debug, Clone, Copy, PartialEq, Eq, Structural)]
pub enum ConfigFileAction {
    /// The file is there and holds a valid configuration: read it.
    Load,
    /// The file is there but does not hold a valid configuration: stop with
    /// the error that reading or parsing it gave.
    Invalid,
    /// It is missing but the example is there: copy the example into place,
    /// then stop and ask for it to be filled in.
    CreateFromExample,
    /// Both are missing: stop with an error.
    Missing,
}

/// Decides, from which files exist and whether `config.yaml` reads and
/// parses as a configuration, whether the configuration exists and is valid.
/// `config_valid` is only looked at when the file exists.
pub fn config_file_action(config_exists: bool, config_valid: bool, example_exists: bool) -> (a:
    ConfigFileAction)
    ensures
        a == if config_exists {
            if config_valid {
                ConfigFileAction::Load
            } else {
                ConfigFileAction::Invalid
            }
        } else if example_exists {
            ConfigFileAction::CreateFromExample
        } else {
            ConfigFileAction::Missing
        },
{
    if !config_exists {
        if example_exists {
            ConfigFileAction::CreateFromExample
        } else {
            ConfigFileAction::Missing
        }
    } else if config_valid {
        ConfigFileAction::Load
    } else {
        ConfigFileAction::Invalid
    }
}

} // verus!
