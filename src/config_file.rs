//! The configuration document: the target device and the remap and
//! dual-role entries, each a plain key sequence. Key combinations are
//! flattened into these sequences for storage and rebuilt from them.
use vstd::prelude::*;

use crate::key_code::KeyCode;
use crate::key_combo::{canonical_keys, KeyCombination};
use crate::key_registry::KeyRegistry;

verus! {

/// Why a configuration file could not be read or written; the message says
/// what failed.
#[derive(Clone, Debug)]
pub enum ConfigFileError {
    Io(String),
    TomlDeserialize(String),
    TomlSerialize(String),
}

/// A configuration document.
#[derive(Clone, Debug)]
pub struct ConfigFile {
    pub device_name: Option<String>,
    pub phys: Option<String>,
    pub dual_role: Vec<DualRoleConfig>,
    pub remap: Vec<RemapConfig>,
}

/// A key that acts as `hold` when held and as `tap` when tapped.
#[derive(Clone, Debug)]
pub struct DualRoleConfig {
    pub input: KeyCode,
    pub hold: Vec<KeyCode>,
    pub tap: Vec<KeyCode>,
}

/// A combination `input` remapped to the combination `output`.
#[derive(Clone, Debug)]
pub struct RemapConfig {
    pub input: Vec<KeyCode>,
    pub output: Vec<KeyCode>,
}

/// `Some(text)` for non-empty text, `None` for empty text.
pub open spec fn non_empty(text: Seq<char>) -> Option<Seq<char>> {
    if text.len() == 0 {
        None
    } else {
        Some(text)
    }
}

/// The view of an optional string.
pub open spec fn opt_view(s: Option<String>) -> Option<Seq<char>> {
    match s {
        Some(t) => Some(t@),
        None => None,
    }
}

impl ConfigFile {
    /// The document for the device named `name` on port `phys`, as typed by
    /// the user: an empty field means the value is not set.
    pub fn from_parts(
        name: String,
        phys: String,
        remap: Vec<RemapConfig>,
        dual_role: Vec<DualRoleConfig>,
    ) -> (r: Self)
        ensures
            opt_view(r.device_name) == non_empty(name@),
            opt_view(r.phys) == non_empty(phys@),
            r.remap@ == remap@,
            r.dual_role@ == dual_role@,
    {
        let device_name = if name.as_str().is_empty() {
            None
        } else {
            Some(name)
        };
        let phys = if phys.as_str().is_empty() {
            None
        } else {
            Some(phys)
        };
        ConfigFile { device_name, phys, dual_role, remap }
    }
}

impl RemapConfig {
    /// The entry storing the flattened combinations `input` and `output`.
    pub fn from_combinations(input: &KeyCombination, output: &KeyCombination) -> (r: Self)
        requires
            input.wf(),
            output.wf(),
        ensures
            r.input@ == input@,
            r.output@ == output@,
    {
        RemapConfig { input: input.to_keys(), output: output.to_keys() }
    }

    /// The combinations stored in this entry, in canonical form.
    pub fn combinations(&self) -> (r: (KeyCombination, KeyCombination))
        ensures
            r.0.wf(),
            r.1.wf(),
            r.0@ == canonical_keys(self.input@),
            r.1@ == canonical_keys(self.output@),
    {
        (KeyCombination::from_keys(self.input.as_slice()), KeyCombination::from_keys(
            self.output.as_slice(),
        ))
    }
}

impl DualRoleConfig {
    /// A fresh entry: the first key of the registry, with empty actions.
    pub fn default_for(registry: &KeyRegistry) -> (r: Self)
        requires
            registry@.len() > 0,
        ensures
            r.input == registry@[0].code,
            r.hold@.len() == 0,
            r.tap@.len() == 0,
    {
        DualRoleConfig { input: registry.key_at(0), hold: Vec::new(), tap: Vec::new() }
    }

    /// The entry for trigger `input` storing the flattened combinations
    /// `hold` and `tap`.
    pub fn from_combinations(input: KeyCode, hold: &KeyCombination, tap: &KeyCombination) -> (r:
        Self)
        requires
            hold.wf(),
            tap.wf(),
        ensures
            r.input == input,
            r.hold@ == hold@,
            r.tap@ == tap@,
    {
        DualRoleConfig { input, hold: hold.to_keys(), tap: tap.to_keys() }
    }

    /// The hold and tap combinations stored in this entry, in canonical
    /// form.
    pub fn combinations(&self) -> (r: (KeyCombination, KeyCombination))
        ensures
            r.0.wf(),
            r.1.wf(),
            r.0@ == canonical_keys(self.hold@),
            r.1@ == canonical_keys(self.tap@),
    {
        (KeyCombination::from_keys(self.hold.as_slice()), KeyCombination::from_keys(
            self.tap.as_slice(),
        ))
    }
}

} // verus!
