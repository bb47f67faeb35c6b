//! The description of a mod (`mod.txt`).
use vstd::prelude::*;
use vstd::std_specs::cmp::PartialEqSpecImpl;
use crate::str_map::StrMap;
use crate::text::{append_chars, chars_of, compare_strs, string_of, text_order};
use crate::util::{safe_name, skewer_case, to_safe_name, to_skewer_case};
use crate::version::{semver_order, version_text, SemVersion, VersionView};

verus! {

/// Where the mod loader finds updates for a mod.
#[derive(Clone, Copy, Debug, PartialEq, Eq, Structural)]
pub struct ModUpdatesInfo {
    pub modworkshop: u32,
}

/// The `[mod]` table: name, id, version and loader priority.
pub struct ModBaseInfo {
    pub name: String,
    pub id: String,
    pub version: SemVersion,
    pub priority: Option<i32>,
}

pub type ModBaseView = (Seq<char>, Seq<char>, VersionView, Option<i32>);

impl View for ModBaseInfo {
    type V = ModBaseView;

    open spec fn view(&self) -> ModBaseView {
        (self.name@, self.id@, self.version@, self.priority)
    }
}

/// A mod's description: its base table, the scripts it autoloads (by name),
/// and where it gets updates.
pub struct ModInfo {
    pub base: ModBaseInfo,
    pub autoload: Option<StrMap<String>>,
    pub updates: Option<ModUpdatesInfo>,
}

/// Values that replace the matching parts of a `ModInfo`.
pub struct ModInfoOverride {
    pub name: Option<String>,
    pub id: Option<String>,
    pub version: Option<SemVersion>,
    pub priority: Option<i32>,
    pub autoload: Option<StrMap<String>>,
    pub updates: Option<ModUpdatesInfo>,
}

/// The script a new mod autoloads: `res://mods/<safe name>/Main.gd`.
pub open spec fn main_script_path(safe: Seq<char>) -> Seq<char> {
    "res://mods/"@ + safe + "/Main.gd"@
}

/// The order `derive(Ord)` gives an optional integer: `None` first.
pub open spec fn opt_i32_order(a: Option<i32>, b: Option<i32>) -> int {
    match (a, b) {
        (None, None) => 0,
        (None, Some(_)) => -1,
        (Some(_), None) => 1,
        (Some(x), Some(y)) => if x < y {
            -1
        } else if x > y {
            1
        } else {
            0
        },
    }
}

/// The order of `ModBaseInfo` (derived: name, id, version, priority). -1, 0 or 1.
pub open spec fn base_order(a: ModBaseView, b: ModBaseView) -> int {
    if text_order(a.0, b.0) != 0 {
        text_order(a.0, b.0)
    } else if text_order(a.1, b.1) != 0 {
        text_order(a.1, b.1)
    } else if semver_order(a.2, b.2) != 0 {
        semver_order(a.2, b.2)
    } else {
        opt_i32_order(a.3, b.3)
    }
}

pub fn compare_opt_i32(a: Option<i32>, b: Option<i32>) -> (res: i8)
    ensures
        res == opt_i32_order(a, b),
        opt_i32_order(b, a) == 0 - res,
        (res == 0) == (a == b),
{
    match (a, b) {
        (None, None) => 0,
        (None, Some(_)) => -1,
        (Some(_), None) => 1,
        (Some(x), Some(y)) => if x < y {
            -1
        } else if x > y {
            1
        } else {
            0
        },
    }
}

impl ModBaseInfo {
    /// Compares as `derive(Ord)` does: -1, 0 or 1.
    pub fn compare(&self, other: &ModBaseInfo) -> (res: i8)
        ensures
            res == base_order(self@, other@),
            base_order(other@, self@) == 0 - res,
            (res == 0) == (self@ == other@),
    {
        let by_name = compare_strs(self.name.as_str(), other.name.as_str());
        if by_name != 0 {
            return by_name;
        }
        let by_id = compare_strs(self.id.as_str(), other.id.as_str());
        if by_id != 0 {
            return by_id;
        }
        let by_version = self.version.compare(&other.version);
        if by_version != 0 {
            return by_version;
        }
        compare_opt_i32(self.priority, other.priority)
    }

    /// `name version`, as the mod is displayed.
    pub fn display_text(&self) -> (res: String)
        ensures
            res@ == self.name@ + seq![' '] + version_text(self.version@),
    {
        let mut out = chars_of(self.name.as_str());
        out.push(' ');
        let v = self.version.to_chars();
        append_chars(&mut out, &v);
        string_of(&out)
    }
}

impl PartialEq for ModInfo {
    fn eq(&self, other: &ModInfo) -> (res: bool) {
        self.base.compare(&other.base) == 0
    }
}

impl PartialEqSpecImpl for ModInfo {
    open spec fn obeys_eq_spec() -> bool {
        true
    }

    open spec fn eq_spec(&self, other: &ModInfo) -> bool {
        self.base@ == other.base@
    }
}

impl ModInfo {
    /// The description `init` starts from: the given name, its skewer-case
    /// form as id, version 0.1.0, no priority, one autoload entry that maps the
    /// safe name to `res://mods/<safe name>/Main.gd`, and no updates.
    pub fn default_from(mod_name: String) -> (res: ModInfo)
        ensures
            res.base.name@ == mod_name@,
            res.base.id@ == skewer_case(mod_name@),
            res.base.version@ == (0u64, 1u64, 0u64, Seq::<char>::empty(), Seq::<char>::empty()),
            res.base.priority is None,
            res.autoload matches Some(m) && m@.dom() == set![safe_name(mod_name@)]
                && m@[safe_name(mod_name@)]@ == main_script_path(safe_name(mod_name@)),
            res.updates is None,
    {
        let mod_safe_name = to_safe_name(mod_name.as_str());
        let mod_id = to_skewer_case(mod_name.as_str());
        let mut path = chars_of("res://mods/");
        let safe_chars = chars_of(mod_safe_name.as_str());
        append_chars(&mut path, &safe_chars);
        let tail = chars_of("/Main.gd");
        append_chars(&mut path, &tail);
        let path_string = string_of(&path);
        let mut autoload: StrMap<String> = StrMap::new();
        autoload.insert(mod_safe_name, path_string);
        assert(autoload@.dom() =~= set![safe_name(mod_name@)]);
        ModInfo {
            base: ModBaseInfo {
                name: mod_name,
                id: mod_id,
                version: SemVersion::new(0, 1, 0),
                priority: None,
            },
            autoload: Some(autoload),
            updates: None,
        }
    }

    /// Compares by the base table, as the description's `Ord` does: -1, 0 or 1.
    pub fn compare(&self, other: &ModInfo) -> (res: i8)
        ensures
            res == base_order(self.base@, other.base@),
            base_order(other.base@, self.base@) == 0 - res,
            (res == 0) == (self.base@ == other.base@),
    {
        self.base.compare(&other.base)
    }

    /// `name version`, as the mod is displayed.
    pub fn display_text(&self) -> (res: String)
        ensures
            res@ == self.base.name@ + seq![' '] + version_text(self.base.version@),
    {
        self.base.display_text()
    }
}


impl ModInfoOverride {
    /// The override the command line asks for: an update id becomes update info
    /// on modworkshop; autoload entries are never given.
    pub fn from_args(
        name: Option<String>,
        id: Option<String>,
        priority: Option<i32>,
        version: Option<SemVersion>,
        update_id: Option<u32>,
    ) -> (res: ModInfoOverride)
        ensures
            res.name == name,
            res.id == id,
            res.priority == priority,
            res.version == version,
            res.autoload is None,
            res.updates == (match update_id {
                Some(u) => Some(ModUpdatesInfo { modworkshop: u }),
                None => None,
            }),
    {
        let updates = match update_id {
            Some(u) => Some(ModUpdatesInfo { modworkshop: u }),
            None => None,
        };
        ModInfoOverride { name, id, version, priority, autoload: None, updates }
    }
}

} // verus!
