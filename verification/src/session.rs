//! New scan sessions: their identifiers, names and configurations.

use vstd::prelude::*;
use vstd::string::*;
use crate::config::{ScanConfig, ScanPreset, session_config, resolve_session_config};
use crate::paths::{file_name, path_file_name};

verus! {

/// Lowercase hexadecimal digit.
pub open spec fn is_hex_lower(c: char) -> bool {
    ('0' <= c && c <= '9') || ('a' <= c && c <= 'f')
}

/// Text of a random (version 4, RFC 4122 variant) UUID in hyphenated
/// lowercase form: `xxxxxxxx-xxxx-4xxx-yxxx-xxxxxxxxxxxx`, `y` one of
/// `8`, `9`, `a`, `b`.
pub open spec fn is_uuid_v4_text(s: Seq<char>) -> bool {
    &&& s.len() == 36
    &&& forall|i: int| 0 <= i < 36 ==> (if i == 8 || i == 13 || i == 18 || i == 23 {
        #[trigger] s[i] == '-'
    } else {
        is_hex_lower(s[i])
    })
    &&& s[14] == '4'
    &&& (s[19] == '8' || s[19] == '9' || s[19] == 'a' || s[19] == 'b')
}

/// A fresh session identifier: a random UUID.
///
/// Calls `uuid::Uuid::new_v4` and formats it. Claimed: the text is a
/// version 4 UUID in hyphenated lowercase form (as the `uuid` crate
/// documents for `new_v4` and its `Display`). Which UUID comes back is
/// random.
#[verifier::external_body]
pub fn new_session_id() -> (id: String)
    ensures
        is_uuid_v4_text(id@),
{
    uuid::Uuid::new_v4().to_string()
}

/// Name of a new session: the given name, or else the last component of
/// the root path, or else `Scan`.
pub open spec fn session_name(root_path: Seq<char>, name: Option<Seq<char>>) -> Seq<char> {
    match name {
        Some(n) => n,
        None => match path_file_name(root_path) {
            Some(f) => f,
            None => "Scan"@,
        },
    }
}

/// A session about to be created.
pub struct NewSession {
    pub id: String,
    pub name: String,
    pub config: ScanConfig,
}

/// Prepares a new session: a fresh identifier, its name and its
/// configuration.
pub fn prepare_session(
    root_path: &str,
    name: Option<&str>,
    preset: ScanPreset,
    custom: Option<ScanConfig>,
) -> (s: NewSession)
    ensures
        is_uuid_v4_text(s.id@),
        s.name@ == session_name(
            root_path@,
            match name {
                Some(n) => Some(n@),
                None => None,
            },
        ),
        s.config == session_config(preset, custom),
{
    let id = new_session_id();
    let session_name = match name {
        Some(n) => String::from_str(n),
        None => match file_name(root_path) {
            Some(f) => f,
            None => String::from_str("Scan"),
        },
    };
    let config = resolve_session_config(preset, custom);
    NewSession { id, name: session_name, config }
}

/// A request to create a session: the folder to scan, and optionally a
/// name, a preset and a custom configuration.
pub struct CreateSessionRequest {
    pub root_path: String,
    pub name: Option<String>,
    pub preset: Option<ScanPreset>,
    pub config: Option<ScanConfig>,
}

impl CreateSessionRequest {
    /// The preset asked for, `VisualSimilar` when none is given.
    pub open spec fn chosen_preset(self) -> ScanPreset {
        match self.preset {
            Some(p) => p,
            None => ScanPreset::VisualSimilar,
        }
    }

    /// Prepares the session this request asks for; without a preset, the
    /// `VisualSimilar` preset applies.
    pub fn prepare(self) -> (s: NewSession)
        ensures
            is_uuid_v4_text(s.id@),
            s.name@ == session_name(
                self.root_path@,
                match self.name {
                    Some(n) => Some(n@),
                    None => None,
                },
            ),
            s.config == session_config(self.chosen_preset(), self.config),
    {
        let preset = match self.preset {
            Some(p) => p,
            None => ScanPreset::VisualSimilar,
        };
        let name: Option<&str> = match &self.name {
            Some(n) => Some(n.as_str()),
            None => None,
        };
        prepare_session(self.root_path.as_str(), name, preset, self.config)
    }
}

} // verus!
