//! Decisions about the game installation: whether a candidate directory is
//! a valid install root, and whether the game's own language configuration
//! must be pruned because it references a localization that is no longer
//! installed.

use vstd::prelude::*;

verus! {

use crate::errors::Error;
use vstd::string::StringExecFns;

/// Validates a candidate game directory from what a probe of it found: it
/// is valid exactly when it holds the game executable and the sibling data
/// directory.
pub fn validate_game_directory(exe_present: bool, data_present: bool) -> (r: Result<(), Error>)
    ensures
        r is Ok <==> exe_present && data_present,
        r matches Err(e) ==> e matches Error::ConfigurationError { detail } && detail@
            == "invalid game directory"@,
{
    if exe_present && data_present {
        Ok(())
    } else {
        Err(Error::ConfigurationError { detail: "invalid game directory".to_owned() })
    }
}

/// What to do with the game's language configuration file.
pub enum GameConfigAction {
    /// The configuration is absent or healthy: leave it.
    Keep,
    /// The configuration is unreadable or references a localization that is
    /// not installed: delete it so the game recreates it.
    DeleteConfig,
}

/// Decides the fate of the game's language configuration. `lang` is the
/// configured language as parsed from the file (`None` when the file could
/// not be parsed); `active_present` says whether the directory of that
/// localization exists. An unparseable file and a stale reference are
/// pruned; an empty language value is an error; a healthy file is kept.
pub fn game_config_action(lang: &Option<String>, active_present: bool) -> (r: Result<
    GameConfigAction,
    Error,
>)
    ensures
        (match lang {
            None => r matches Ok(GameConfigAction::DeleteConfig),
            Some(l) => if l@.len() == 0 {
                r matches Err(e) && e is DecodeError
            } else if !active_present {
                r matches Ok(GameConfigAction::DeleteConfig)
            } else {
                r matches Ok(GameConfigAction::Keep)
            },
        }),
{
    match lang {
        None => Ok(GameConfigAction::DeleteConfig),
        Some(l) => {
            if l.as_str().is_empty() {
                Err(Error::DecodeError { detail: "game configuration names no language".to_owned() })
            } else if !active_present {
                Ok(GameConfigAction::DeleteConfig)
            } else {
                Ok(GameConfigAction::Keep)
            }
        },
    }
}

} // verus!
