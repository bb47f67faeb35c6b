//! The mod loader's configuration: profiles that enable mods and give them
//! priorities.
use vstd::prelude::*;
use crate::str_map::StrMap;
use vstd::string::StringExecFns;
use crate::text::{
    append_chars, chars_of, compare_strs, split_once, split_once_chars, string_of, text_order,
};
use crate::version::{opt_version_view, semver_order, semver_parse, version_text, SemVersion, VersionView};

verus! {

#[verifier::external_type_specification]
#[verifier::external_body]
pub struct ExTomlValue(toml::Value);

/// The mods of one profile: whether each is enabled, and its priority. A mod
/// is named by its id, or by `id@version`.
pub struct ModConfigProfile {
    pub enabled: StrMap<bool>,
    pub priority: StrMap<i32>,
}

/// One mod of a profile, as listed to a user.
pub struct ModConfigEntry {
    pub id: String,
    pub version: Option<SemVersion>,
    pub name: Option<String>,
    pub priority: i32,
    pub enabled: bool,
}

/// Global settings of the mod loader; `rest` keeps the settings this crate does
/// not read.
pub struct ModConfigSettings {
    pub developer_mode: bool,
    pub active_profile: String,
    pub rest: StrMap<toml::Value>,
}

/// The whole configuration: settings and the profiles by name.
pub struct ModConfig {
    pub settings: ModConfigSettings,
    pub profile: StrMap<ModConfigProfile>,
}

pub type EntryView = (Seq<char>, Option<VersionView>, Option<Seq<char>>, i32, bool);

pub open spec fn opt_text_view(s: Option<String>) -> Option<Seq<char>> {
    match s {
        Some(x) => Some(x@),
        None => None,
    }
}

impl View for ModConfigEntry {
    type V = EntryView;

    open spec fn view(&self) -> EntryView {
        (self.id@, opt_version_view(self.version), opt_text_view(self.name), self.priority, self.enabled)
    }
}

/// The key under which a profile keeps an entry: `id`, or `id@version`.
pub open spec fn entry_key(e: EntryView) -> Seq<char> {
    match e.1 {
        Some(v) => e.0 + seq!['@'] + version_text(v),
        None => e.0,
    }
}

pub open spec fn opt_version_order(a: Option<VersionView>, b: Option<VersionView>) -> int {
    match (a, b) {
        (None, None) => 0,
        (None, Some(_)) => -1,
        (Some(_), None) => 1,
        (Some(x), Some(y)) => semver_order(x, y),
    }
}

pub open spec fn opt_text_order(a: Option<Seq<char>>, b: Option<Seq<char>>) -> int {
    match (a, b) {
        (None, None) => 0,
        (None, Some(_)) => -1,
        (Some(_), None) => 1,
        (Some(x), Some(y)) => text_order(x, y),
    }
}

pub open spec fn int_order(a: int, b: int) -> int {
    if a < b {
        -1
    } else if a > b {
        1
    } else {
        0
    }
}

/// The order `derive(Ord)` gives entries: by id, version, name, priority, and
/// disabled before enabled. -1, 0 or 1.
pub open spec fn entry_order(a: EntryView, b: EntryView) -> int {
    if text_order(a.0, b.0) != 0 {
        text_order(a.0, b.0)
    } else if opt_version_order(a.1, b.1) != 0 {
        opt_version_order(a.1, b.1)
    } else if opt_text_order(a.2, b.2) != 0 {
        opt_text_order(a.2, b.2)
    } else if a.3 != b.3 {
        int_order(a.3 as int, b.3 as int)
    } else {
        int_order(if a.4 { 1 } else { 0 }, if b.4 { 1 } else { 0 })
    }
}

/// No entry is ordered after the one that follows it.
pub open spec fn sorted_at(s: Seq<EntryView>, i: int) -> bool {
    entry_order(s[i], s[i + 1]) <= 0
}

pub open spec fn is_sorted(s: Seq<EntryView>) -> bool {
    forall|i: int| 0 <= i < s.len() - 1 ==> #[trigger] sorted_at(s, i)
}

pub open spec fn entry_views(s: Seq<ModConfigEntry>) -> Seq<EntryView> {
    s.map_values(|e: ModConfigEntry| e@)
}

/// The display name `names` gives a mod id, if any.
pub open spec fn mapped_name(names: Option<Map<Seq<char>, String>>, id: Seq<char>) -> Option<Seq<char>> {
    match names {
        Some(m) => if m.dom().contains(id) {
            Some(m[id]@)
        } else {
            None
        },
        None => None,
    }
}

pub open spec fn opt_map_view(names: Option<StrMap<String>>) -> Option<Map<Seq<char>, String>> {
    match names {
        Some(m) => Some(m@),
        None => None,
    }
}

/// The priority a profile gives `key`: 0 when it gives none.
pub open spec fn priority_of(priorities: Map<Seq<char>, i32>, key: Seq<char>) -> i32 {
    if priorities.dom().contains(key) {
        priorities[key]
    } else {
        0
    }
}

/// The entry a profile lists for `key`: the key split at its first `@` into id
/// and version, the name `names` gives the id, the key's priority and whether
/// it is enabled.
pub open spec fn entry_for(
    key: Seq<char>,
    enabled: bool,
    priority: i32,
    names: Option<Map<Seq<char>, String>>,
) -> EntryView {
    match split_once(key, '@') {
        Some((id, ver)) => (id, semver_parse(ver), mapped_name(names, id), priority, enabled),
        None => (key, None, mapped_name(names, key), priority, enabled),
    }
}

/// Every key with an `@` has a version after it that `semver` accepts.
pub open spec fn versions_parse(enabled: Map<Seq<char>, bool>) -> bool {
    forall|k: Seq<char>| #[trigger]
        enabled.dom().contains(k) ==> (split_once(k, '@') matches Some((_, ver)) ==> semver_parse(
            ver,
        ) is Some)
}

/// `res` lists the entries of the keys of `enabled` and nothing else, as
/// many as there are keys, in order.
pub open spec fn lists_profile(
    enabled: Map<Seq<char>, bool>,
    priorities: Map<Seq<char>, i32>,
    names: Option<Map<Seq<char>, String>>,
    res: Seq<EntryView>,
) -> bool {
    &&& res.len() == enabled.len()
    &&& forall|k: Seq<char>| #[trigger]
        enabled.dom().contains(k) ==> res.contains(
            entry_for(k, enabled[k], priority_of(priorities, k), names),
        )
    &&& forall|i: int|
        0 <= i < res.len() ==> #[trigger] lists_some_key(enabled, priorities, names, res[i])
    &&& is_sorted(res)
}

/// `e` is the entry of some key of `enabled`.
pub open spec fn lists_some_key(
    enabled: Map<Seq<char>, bool>,
    priorities: Map<Seq<char>, i32>,
    names: Option<Map<Seq<char>, String>>,
    e: EntryView,
) -> bool {
    exists|k: Seq<char>|
        #![trigger enabled.dom().contains(k)]
        enabled.dom().contains(k) && e == entry_for(k, enabled[k], priority_of(priorities, k), names)
}

/// What `set_entries` makes of the enabled flags: each entry's key set to its
/// flag, later entries winning.
pub open spec fn enabled_map(es: Seq<EntryView>) -> Map<Seq<char>, bool>
    decreases es.len(),
{
    if es.len() == 0 {
        Map::empty()
    } else {
        enabled_map(es.drop_last()).insert(entry_key(es.last()), es.last().4)
    }
}

/// What `set_entries` makes of the priorities.
pub open spec fn priority_map(es: Seq<EntryView>) -> Map<Seq<char>, i32>
    decreases es.len(),
{
    if es.len() == 0 {
        Map::empty()
    } else {
        priority_map(es.drop_last()).insert(entry_key(es.last()), es.last().3)
    }
}

fn compare_opt_versions(a: &Option<SemVersion>, b: &Option<SemVersion>) -> (res: i8)
    ensures
        res == opt_version_order(opt_version_view(*a), opt_version_view(*b)),
        opt_version_order(opt_version_view(*b), opt_version_view(*a)) == 0 - res,
        (res == 0) == (opt_version_view(*a) == opt_version_view(*b)),
{
    match (a, b) {
        (None, None) => 0,
        (None, Some(_)) => -1,
        (Some(_), None) => 1,
        (Some(x), Some(y)) => x.compare(y),
    }
}

fn compare_opt_texts(a: &Option<String>, b: &Option<String>) -> (res: i8)
    ensures
        res == opt_text_order(opt_text_view(*a), opt_text_view(*b)),
        opt_text_order(opt_text_view(*b), opt_text_view(*a)) == 0 - res,
        (res == 0) == (opt_text_view(*a) == opt_text_view(*b)),
{
    match (a, b) {
        (None, None) => 0,
        (None, Some(_)) => -1,
        (Some(_), None) => 1,
        (Some(x), Some(y)) => compare_strs(x.as_str(), y.as_str()),
    }
}

impl Clone for ModConfigEntry {
    fn clone(&self) -> (res: Self)
        ensures
            res@ == self@,
    {
        let version = match &self.version {
            Some(v) => Some(v.clone()),
            None => None,
        };
        ModConfigEntry {
            id: self.id.clone(),
            version,
            name: self.name.clone(),
            priority: self.priority,
            enabled: self.enabled,
        }
    }
}

impl ModConfigEntry {
    /// The key a profile keeps this entry under: `id`, or `id@version`.
    pub fn name(&self) -> (res: String)
        ensures
            res@ == entry_key(self@),
    {
        match &self.version {
            Some(v) => {
                let mut out = chars_of(self.id.as_str());
                out.push('@');
                let vt = v.to_chars();
                append_chars(&mut out, &vt);
                string_of(&out)
            },
            None => self.id.clone(),
        }
    }

    /// How the entry is shown: its name (or else its id), then its version if
    /// it has one.
    pub fn display_text(&self) -> (res: String)
        ensures
            res@ == ({
                let label = match self.name {
                    Some(n) => n@,
                    None => self.id@,
                };
                match self.version {
                    Some(v) => label + seq![' '] + version_text(v@),
                    None => label,
                }
            }),
    {
        let mut out = match &self.name {
            Some(n) => chars_of(n.as_str()),
            None => chars_of(self.id.as_str()),
        };
        match &self.version {
            Some(v) => {
                out.push(' ');
                let vt = v.to_chars();
                append_chars(&mut out, &vt);
            },
            None => {},
        }
        string_of(&out)
    }

    /// Compares as `derive(Ord)` does: -1, 0 or 1.
    pub fn compare(&self, other: &ModConfigEntry) -> (res: i8)
        ensures
            res == entry_order(self@, other@),
            entry_order(other@, self@) == 0 - res,
            (res == 0) == (self@ == other@),
    {
        let by_id = compare_strs(self.id.as_str(), other.id.as_str());
        if by_id != 0 {
            return by_id;
        }
        let by_version = compare_opt_versions(&self.version, &other.version);
        if by_version != 0 {
            return by_version;
        }
        let by_name = compare_opt_texts(&self.name, &other.name);
        if by_name != 0 {
            return by_name;
        }
        if self.priority != other.priority {
            return if self.priority < other.priority {
                -1
            } else {
                1
            };
        }
        if self.enabled == other.enabled {
            0
        } else if !self.enabled {
            -1
        } else {
            1
        }
    }
}

proof fn lemma_map_insert_view(s: Seq<ModConfigEntry>, j: int, e: ModConfigEntry)
    requires
        0 <= j <= s.len(),
    ensures
        entry_views(s.insert(j, e)) == entry_views(s).insert(j, e@),
{
    assert(entry_views(s.insert(j, e)) =~= entry_views(s).insert(j, e@));
}

/// Sorts entries by their order (insertion sort).
pub fn sort_entries(entries: Vec<ModConfigEntry>) -> (res: Vec<ModConfigEntry>)
    ensures
        entry_views(res@).to_multiset() == entry_views(entries@).to_multiset(),
        is_sorted(entry_views(res@)),
{
    broadcast use vstd::seq_lib::group_to_multiset_ensures;

    let mut rest = entries;
    let mut sorted: Vec<ModConfigEntry> = Vec::new();
    proof {
        assert(entry_views(sorted@) =~= Seq::<EntryView>::empty());
    }
    while rest.len() > 0
        invariant
            entry_views(sorted@).to_multiset().add(entry_views(rest@).to_multiset())
                == entry_views(entries@).to_multiset(),
            is_sorted(entry_views(sorted@)),
        decreases rest.len(),
    {
        let ghost before_rest = rest@;
        let e = rest.pop().unwrap();
        proof {
            assert(before_rest == rest@.push(e));
            assert(entry_views(before_rest) =~= entry_views(rest@).push(e@));
            vstd::seq_lib::to_multiset_build(entry_views(rest@), e@);
        }
        let mut j = sorted.len();
        loop
            invariant_except_break
                j <= sorted@.len(),
                forall|k: int| j <= k < sorted@.len() ==> entry_order(e@, #[trigger] sorted@[k]@) < 0,
            ensures
                j <= sorted@.len(),
                forall|k: int| j <= k < sorted@.len() ==> entry_order(e@, #[trigger] sorted@[k]@) < 0,
                j > 0 ==> entry_order(sorted@[j - 1]@, e@) <= 0,
            decreases j,
        {
            if j == 0 {
                break;
            }
            let c = e.compare(&sorted[j - 1]);
            if c >= 0 {
                break;
            }
            j = j - 1;
        }
        let ghost old_sorted = sorted@;
        sorted.insert(j, e);
        proof {
            lemma_map_insert_view(old_sorted, j as int, e);
            vstd::seq_lib::to_multiset_insert(entry_views(old_sorted), j as int, e@);
            let s = entry_views(sorted@);
            let o = entry_views(old_sorted);
            assert forall|i: int| 0 <= i < s.len() - 1 implies #[trigger] sorted_at(s, i) by {
                if i < j - 1 {
                    assert(sorted_at(o, i));
                } else if i == j - 1 {
                } else if i == j {
                    assert(s[i + 1] == old_sorted[j as int]@);
                } else {
                    assert(sorted_at(o, i - 1));
                }
            }
            assert(entry_views(sorted@).to_multiset() == entry_views(old_sorted).to_multiset().insert(e@));
            assert(entry_views(before_rest).to_multiset() == entry_views(rest@).to_multiset().insert(e@));
        }
    }
    proof {
        assert(entry_views(rest@) =~= Seq::<EntryView>::empty());
    }
    sorted
}

impl Default for ModConfigProfile {
    fn default() -> (res: Self)
        ensures
            res.enabled@ == Map::<Seq<char>, bool>::empty(),
            res.priority@ == Map::<Seq<char>, i32>::empty(),
    {
        ModConfigProfile { enabled: StrMap::new(), priority: StrMap::new() }
    }
}

impl ModConfigProfile {
    /// Forgets every mod of the profile.
    pub fn clear(&mut self)
        ensures
            final(self).enabled@ == Map::<Seq<char>, bool>::empty(),
            final(self).priority@ == Map::<Seq<char>, i32>::empty(),
    {
        self.enabled.clear();
        self.priority.clear();
    }
}


impl ModConfigProfile {
    /// Lists the profile's mods, sorted; `id_map` gives display names by mod id.
    /// Every versioned key must carry a version `semver` accepts.
    pub fn to_entries(&self, id_map: Option<StrMap<String>>) -> (res: Vec<ModConfigEntry>)
        requires
            versions_parse(self.enabled@),
        ensures
            lists_profile(self.enabled@, self.priority@, opt_map_view(id_map), entry_views(res@)),
            entry_views(res@).no_duplicates(),
    {
        self.list_entries(&id_map)
    }

    /// Lists the profile's mods as `to_entries` does, or `None` when a
    /// versioned key carries a version that `semver` rejects.
    pub fn try_to_entries(&self, id_map: Option<StrMap<String>>) -> (res: Option<Vec<ModConfigEntry>>)
        ensures
            res is Some <==> versions_parse(self.enabled@),
            res matches Some(r) ==> lists_profile(
                self.enabled@,
                self.priority@,
                opt_map_view(id_map),
                entry_views(r@),
            ),
            res matches Some(r) ==> entry_views(r@).no_duplicates(),
    {
        let n = self.enabled.len();
        for i in 0..n
            invariant
                n == self.enabled.key_seq().len(),
                forall|k: Seq<char>| #[trigger]
                    self.enabled@.dom().contains(k) <==> self.enabled.key_seq().contains(k),
                forall|j: int|
                    0 <= j < i ==> (split_once(#[trigger] self.enabled.key_seq()[j], '@') matches Some(
                        (_, ver),
                    ) ==> semver_parse(ver) is Some),
        {
            let (k, _) = self.enabled.entry_at(i);
            let kc = chars_of(k.as_str());
            match split_once_chars(&kc, '@') {
                Some((_, ver)) => {
                    let vs = string_of(&ver);
                    if SemVersion::parse(vs.as_str()).is_none() {
                        proof {
                            assert(self.enabled@.dom().contains(k@));
                        }
                        return None;
                    }
                },
                None => {},
            }
        }
        proof {
            assert forall|k: Seq<char>| #[trigger] self.enabled@.dom().contains(k) implies (split_once(
                k,
                '@',
            ) matches Some((_, ver)) ==> semver_parse(ver) is Some) by {
                assert(self.enabled.key_seq().contains(k));
                let j = choose|j: int| 0 <= j < n && self.enabled.key_seq()[j] == k;
                assert(self.enabled.key_seq()[j] == k);
            }
        }
        Some(self.list_entries(&id_map))
    }

    fn list_entries(&self, id_map: &Option<StrMap<String>>) -> (res: Vec<ModConfigEntry>)
        ensures
            lists_profile(self.enabled@, self.priority@, opt_map_view(*id_map), entry_views(res@)),
            versions_parse(self.enabled@) ==> entry_views(res@).no_duplicates(),
    {
        broadcast use vstd::seq_lib::group_to_multiset_ensures;

        let ghost names = opt_map_view(*id_map);
        let ghost vp = versions_parse(self.enabled@);
        let n = self.enabled.len();
        let ghost ks = self.enabled.key_seq();
        let mut unsorted: Vec<ModConfigEntry> = Vec::new();
        for i in 0..n
            invariant
                n == ks.len(),
                ks == self.enabled.key_seq(),
                names == opt_map_view(*id_map),
                unsorted@.len() == i,
                forall|j: int|
                    0 <= j < i ==> #[trigger] unsorted@[j]@ == entry_for(
                        ks[j],
                        self.enabled@[ks[j]],
                        priority_of(self.priority@, ks[j]),
                        names,
                    ),
                vp == versions_parse(self.enabled@),
                forall|k: Seq<char>| #[trigger]
                    self.enabled@.dom().contains(k) <==> ks.contains(k),
                vp ==> forall|j: int| 0 <= j < i ==> entry_key(#[trigger] unsorted@[j]@) == ks[j],
        {
            let (k, en) = self.enabled.entry_at(i);
            let p: i32 = match self.priority.get(k.as_str()) {
                Some(p) => *p,
                None => 0,
            };
            let kc = chars_of(k.as_str());
            let mut entry = match split_once_chars(&kc, '@') {
                Some((id, ver)) => {
                    let vs = string_of(&ver);
                    let v = SemVersion::parse(vs.as_str());
                    proof {
                        if vp {
                            assert(ks.contains(ks[i as int]));
                            assert(v is Some);
                            crate::text::lemma_find_char_range(kc@, '@');
                            let at = crate::text::find_char(kc@, '@')->0;
                            assert(kc@ =~= id@ + seq!['@'] + ver@) by {
                                assert(kc@ =~= kc@.take(at) + seq![kc@[at]] + kc@.skip(at + 1));
                            }
                        }
                    }
                    ModConfigEntry { id: string_of(&id), version: v, name: None, priority: p, enabled: *en }
                },
                None => ModConfigEntry {
                    id: k.clone(),
                    version: None,
                    name: None,
                    priority: p,
                    enabled: *en,
                },
            };
            match id_map {
                Some(map) => {
                    match map.get(entry.id.as_str()) {
                        Some(nm) => {
                            entry.name = Some(nm.clone());
                        },
                        None => {},
                    }
                },
                None => {},
            }
            assert(entry@ == entry_for(
                ks[i as int],
                self.enabled@[ks[i as int]],
                priority_of(self.priority@, ks[i as int]),
                names,
            ));
            unsorted.push(entry);
        }
        let ghost u = entry_views(unsorted@);
        let sorted = sort_entries(unsorted);
        proof {
            let r = entry_views(sorted@);
            vstd::seq_lib::to_multiset_len(r);
            vstd::seq_lib::to_multiset_len(u);
            assert(u.len() == n);
            assert(r.len() == self.enabled@.len());
            assert(is_sorted(r));
            assert forall|k: Seq<char>| #[trigger] self.enabled@.dom().contains(k) implies r.contains(
                entry_for(k, self.enabled@[k], priority_of(self.priority@, k), names),
            ) by {
                assert(ks.contains(k));
                let j = choose|j: int| 0 <= j < ks.len() && ks[j] == k;
                assert(u[j] == unsorted@[j]@);
                assert(u.contains(u[j]));
                assert(u.to_multiset().count(u[j]) > 0);
                assert(r.to_multiset().count(u[j]) > 0);
            }
            assert forall|i: int| 0 <= i < r.len() implies #[trigger] lists_some_key(
                self.enabled@,
                self.priority@,
                names,
                r[i],
            ) by {
                assert(r.contains(r[i]));
                assert(r.to_multiset().count(r[i]) > 0);
                assert(u.to_multiset().count(r[i]) > 0);
                assert(u.contains(r[i]));
                let j = choose|j: int| 0 <= j < u.len() && u[j] == r[i];
                assert(u[j] == unsorted@[j]@);
                assert(ks.contains(ks[j]));
                assert(self.enabled@.dom().contains(ks[j]));
            }
            assert(lists_profile(self.enabled@, self.priority@, names, r));
            if vp {
                assert(u.no_duplicates()) by {
                    assert forall|a: int, b: int| 0 <= a < u.len() && 0 <= b < u.len() && a != b
                        implies u[a] != u[b] by {
                        assert(u[a] == unsorted@[a]@);
                        assert(u[b] == unsorted@[b]@);
                        assert(entry_key(unsorted@[a]@) == ks[a]);
                        assert(entry_key(unsorted@[b]@) == ks[b]);
                        if a < b {
                            assert(ks[a] != ks[b]);
                        } else {
                            assert(ks[b] != ks[a]);
                        }
                    }
                }
                u.lemma_multiset_has_no_duplicates();
                assert forall|x: EntryView| r.to_multiset().contains(x) implies r.to_multiset().count(x)
                    == 1 by {
                    assert(u.to_multiset().contains(x));
                }
                r.lemma_multiset_has_no_duplicates_conv();
            }
        }
        sorted
    }

    /// Replaces the profile's mods by `entries`: each entry's key (`id` or
    /// `id@version`) gets its enabled flag and its priority.
    pub fn set_entries(&mut self, entries: Vec<ModConfigEntry>)
        ensures
            final(self).enabled@ == enabled_map(entry_views(entries@)),
            final(self).priority@ == priority_map(entry_views(entries@)),
    {
        self.clear();
        self.clear();
        let ghost es = entry_views(entries@);
        for i in 0..entries.len()
            invariant
                es == entry_views(entries@),
                self.enabled@ == enabled_map(es.take(i as int)),
                self.priority@ == priority_map(es.take(i as int)),
        {
            let e = &entries[i];
            assert(es.take(i + 1).drop_last() == es.take(i as int));
            assert(es.take(i + 1).last() == e@);
            self.enabled.insert(e.name(), e.enabled);
            self.priority.insert(e.name(), e.priority);
        }
        assert(es.take(entries@.len() as int) == es);
    }
}

impl Default for ModConfigSettings {
    fn default() -> (res: Self)
        ensures
            !res.developer_mode,
            res.active_profile@ == "Default"@,
            res.rest@ == Map::<Seq<char>, toml::Value>::empty(),
    {
        ModConfigSettings {
            developer_mode: false,
            active_profile: String::from_str("Default"),
            rest: StrMap::new(),
        }
    }
}

impl ModConfig {
    /// The name of the active profile and the profile itself, to change in
    /// place; `None` when no profile is active or the active one does not exist.
    pub fn active_profile(&mut self) -> (res: Option<(String, &mut ModConfigProfile)>)
        ensures
            res is Some <==> (old(self).settings.active_profile@.len() > 0
                && old(self).profile@.dom().contains(old(self).settings.active_profile@)),
            res matches Some((name, p)) ==> {
                &&& name@ == old(self).settings.active_profile@
                &&& *p == old(self).profile@[name@]
                &&& final(self).profile@ == old(self).profile@.insert(name@, *final(p))
            },
            res is None ==> final(self).profile@ == old(self).profile@,
            final(self).settings == old(self).settings,
    {
        if self.settings.active_profile.as_str().is_empty() {
            return None;
        }
        let active = self.settings.active_profile.clone();
        match self.profile.get_mut(active.as_str()) {
            Some(p) => Some((active, p)),
            None => None,
        }
    }
}


// ---------------------------------------------------------------------------
// Laws
// ---------------------------------------------------------------------------

pub open spec fn keys_of_entries_distinct(es: Seq<EntryView>) -> bool {
    forall|i: int, j: int|
        0 <= i < j < es.len() ==> entry_key(#[trigger] es[i]) != entry_key(#[trigger] es[j])
}

proof fn lemma_entry_maps(es: Seq<EntryView>, i: int)
    requires
        keys_of_entries_distinct(es),
        0 <= i < es.len(),
    ensures
        enabled_map(es).dom().contains(entry_key(es[i])),
        enabled_map(es)[entry_key(es[i])] == es[i].4,
        priority_map(es).dom().contains(entry_key(es[i])),
        priority_map(es)[entry_key(es[i])] == es[i].3,
    decreases es.len(),
{
    if i < es.len() - 1 {
        let d = es.drop_last();
        assert(d[i] == es[i]);
        assert(keys_of_entries_distinct(d)) by {
            assert forall|a: int, b: int| 0 <= a < b < d.len() implies entry_key(#[trigger] d[a])
                != entry_key(#[trigger] d[b]) by {
                assert(d[a] == es[a] && d[b] == es[b]);
            }
        }
        lemma_entry_maps(d, i);
        assert(entry_key(es[i]) != entry_key(es[es.len() - 1]));
    }
}

proof fn lemma_entry_maps_dom(es: Seq<EntryView>, k: Seq<char>)
    ensures
        enabled_map(es).dom().contains(k) <==> exists|i: int|
            0 <= i < es.len() && #[trigger] entry_key(es[i]) == k,
        priority_map(es).dom() == enabled_map(es).dom(),
    decreases es.len(),
{
    if es.len() > 0 {
        let d = es.drop_last();
        lemma_entry_maps_dom(d, k);
        if exists|i: int| 0 <= i < es.len() && #[trigger] entry_key(es[i]) == k {
            let i = choose|i: int| 0 <= i < es.len() && #[trigger] entry_key(es[i]) == k;
            if i < es.len() - 1 {
                assert(d[i] == es[i]);
            }
        }
        if exists|i: int| 0 <= i < d.len() && #[trigger] entry_key(d[i]) == k {
            let i = choose|i: int| 0 <= i < d.len() && #[trigger] entry_key(d[i]) == k;
            assert(d[i] == es[i]);
        }
        assert(priority_map(es).dom() =~= enabled_map(es).dom());
    }
}

proof fn lemma_entry_maps_len(es: Seq<EntryView>)
    requires
        keys_of_entries_distinct(es),
    ensures
        enabled_map(es).dom().finite(),
        enabled_map(es).len() == es.len(),
    decreases es.len(),
{
    if es.len() > 0 {
        let d = es.drop_last();
        assert(keys_of_entries_distinct(d)) by {
            assert forall|a: int, b: int| 0 <= a < b < d.len() implies entry_key(#[trigger] d[a])
                != entry_key(#[trigger] d[b]) by {
                assert(d[a] == es[a] && d[b] == es[b]);
            }
        }
        lemma_entry_maps_len(d);
        lemma_entry_maps_dom(d, entry_key(es.last()));
        if enabled_map(d).dom().contains(entry_key(es.last())) {
            let i = choose|i: int| 0 <= i < d.len() && #[trigger] entry_key(d[i]) == entry_key(es.last());
            assert(d[i] == es[i]);
            assert(entry_key(es[i]) != entry_key(es[es.len() - 1]));
        }
    }
}

/// The key of an entry whose id has no `@` splits back into that id and the
/// version's text.
proof fn lemma_split_entry_key(e: EntryView)
    requires
        forall|j: int| 0 <= j < e.0.len() ==> e.0[j] != '@',
    ensures
        e.1 is None ==> split_once(entry_key(e), '@') is None,
        e.1 matches Some(v) ==> split_once(entry_key(e), '@') == Some((e.0, version_text(v))),
{
    match e.1 {
        None => {
            crate::text::lemma_find_char_none(e.0, '@');
        },
        Some(v) => {
            let key = entry_key(e);
            assert(key[e.0.len() as int] == '@');
            assert forall|j: int| 0 <= j < e.0.len() implies key[j] != '@' by {
                assert(key[j] == e.0[j]);
            }
            crate::text::lemma_find_char_some(key, '@', e.0.len() as int);
            assert(key.take(e.0.len() as int) =~= e.0);
            assert(key.skip(e.0.len() as int + 1) =~= version_text(v));
        },
    }
}

/// Writing entries into a profile with `set_entries` and listing the profile
/// again with `to_entries` (without display names) gives back each written
/// entry, with no display name: for entries with distinct keys, ids without
/// `@`, and versions that `semver` reads back from their own text, every key
/// the profile holds carries a version `semver` accepts, the profile holds
/// exactly the entries' keys, and the entry listed for each key is the entry
/// that was written under it.
pub proof fn law_set_then_list(es: Seq<EntryView>)
    requires
        keys_of_entries_distinct(es),
        forall|i: int, j: int| 0 <= i < es.len() && 0 <= j < es[i].0.len() ==> #[trigger] es[i].0[j] != '@',
        forall|i: int|
            0 <= i < es.len() ==> (#[trigger] es[i].1 matches Some(v) ==> semver_parse(
                version_text(v),
            ) == Some(v)),
    ensures
        versions_parse(enabled_map(es)),
        enabled_map(es).len() == es.len(),
        forall|k: Seq<char>|
            enabled_map(es).dom().contains(k) <==> exists|i: int|
                0 <= i < es.len() && #[trigger] entry_key(es[i]) == k,
        forall|i: int|
            0 <= i < es.len() ==> entry_for(
                entry_key(#[trigger] es[i]),
                enabled_map(es)[entry_key(es[i])],
                priority_of(priority_map(es), entry_key(es[i])),
                None,
            ) == (es[i].0, es[i].1, None::<Seq<char>>, es[i].3, es[i].4),
{
    lemma_entry_maps_len(es);
    assert forall|k: Seq<char>|
        enabled_map(es).dom().contains(k) <==> exists|i: int|
            0 <= i < es.len() && #[trigger] entry_key(es[i]) == k by {
        lemma_entry_maps_dom(es, k);
    }
    assert forall|i: int|
        0 <= i < es.len() implies entry_for(
        entry_key(#[trigger] es[i]),
        enabled_map(es)[entry_key(es[i])],
        priority_of(priority_map(es), entry_key(es[i])),
        None,
    ) == (es[i].0, es[i].1, None::<Seq<char>>, es[i].3, es[i].4) by {
        lemma_entry_maps(es, i);
        lemma_split_entry_key(es[i]);
    }
    assert forall|k: Seq<char>| #[trigger] enabled_map(es).dom().contains(k) implies (split_once(
        k,
        '@',
    ) matches Some((_, ver)) ==> semver_parse(ver) is Some) by {
        lemma_entry_maps_dom(es, k);
        let i = choose|i: int| 0 <= i < es.len() && #[trigger] entry_key(es[i]) == k;
        lemma_split_entry_key(es[i]);
    }
}


/// Every versioned key carries a version that `semver` reads and writes back
/// as the same text.
pub open spec fn versions_canonical(enabled: Map<Seq<char>, bool>) -> bool {
    forall|k: Seq<char>| #[trigger]
        enabled.dom().contains(k) ==> (split_once(k, '@') matches Some((_, ver)) ==> (semver_parse(
            ver,
        ) matches Some(v) && version_text(v) == ver))
}

/// The key of a key's entry is the key, where its version is canonical.
proof fn lemma_key_of_entry(k: Seq<char>, enabled: bool, priority: i32, names: Option<Map<Seq<char>, String>>)
    requires
        split_once(k, '@') matches Some((_, ver)) ==> (semver_parse(ver) matches Some(v)
            && version_text(v) == ver),
    ensures
        entry_key(entry_for(k, enabled, priority, names)) == k,
{
    match split_once(k, '@') {
        Some((id, ver)) => {
            crate::text::lemma_find_char_range(k, '@');
            let at = crate::text::find_char(k, '@')->0;
            assert(k =~= k.take(at) + seq![k[at]] + k.skip(at + 1));
        },
        None => {},
    }
}

/// Listing a profile with `to_entries` and writing the list into a profile
/// with `set_entries` gives back the profile's enabled flags, and a priority
/// for each of its keys (the one it had, or 0): for profiles whose versions
/// are written as `semver` writes them.
pub proof fn law_list_then_set(
    enabled: Map<Seq<char>, bool>,
    priorities: Map<Seq<char>, i32>,
    names: Option<Map<Seq<char>, String>>,
    es: Seq<EntryView>,
)
    requires
        versions_canonical(enabled),
        lists_profile(enabled, priorities, names, es),
        es.no_duplicates(),
    ensures
        enabled_map(es) == enabled,
        priority_map(es) == Map::new(
            |k: Seq<char>| enabled.dom().contains(k),
            |k: Seq<char>| priority_of(priorities, k),
        ),
{
    assert forall|k: Seq<char>| #[trigger] enabled.dom().contains(k) implies entry_key(
        entry_for(k, enabled[k], priority_of(priorities, k), names),
    ) == k by {
        lemma_key_of_entry(k, enabled[k], priority_of(priorities, k), names);
    }
    assert forall|i: int| 0 <= i < es.len() implies enabled.dom().contains(entry_key(#[trigger] es[i]))
        && es[i] == entry_for(
        entry_key(es[i]),
        enabled[entry_key(es[i])],
        priority_of(priorities, entry_key(es[i])),
        names,
    ) by {
        assert(lists_some_key(enabled, priorities, names, es[i]));
        let k = choose|k: Seq<char>|
            enabled.dom().contains(k) && es[i] == entry_for(k, enabled[k], priority_of(priorities, k), names);
        assert(entry_key(es[i]) == k);
    }
    assert(keys_of_entries_distinct(es)) by {
        assert forall|a: int, b: int| 0 <= a < b < es.len() implies entry_key(#[trigger] es[a])
            != entry_key(#[trigger] es[b]) by {
            assert(es[a] != es[b]);
        }
    }
    let pm = Map::new(
        |k: Seq<char>| enabled.dom().contains(k),
        |k: Seq<char>| priority_of(priorities, k),
    );
    assert forall|k: Seq<char>| enabled_map(es).dom().contains(k) <==> enabled.dom().contains(k) by {
        lemma_entry_maps_dom(es, k);
        if enabled.dom().contains(k) {
            let e = entry_for(k, enabled[k], priority_of(priorities, k), names);
            assert(es.contains(e));
            let i = choose|i: int| 0 <= i < es.len() && es[i] == e;
            assert(entry_key(es[i]) == k);
        }
    }
    assert forall|k: Seq<char>| #[trigger] enabled.dom().contains(k) implies enabled_map(es)[k] == enabled[k]
        && priority_map(es)[k] == priority_of(priorities, k) by {
        let e = entry_for(k, enabled[k], priority_of(priorities, k), names);
        assert(es.contains(e));
        let i = choose|i: int| 0 <= i < es.len() && es[i] == e;
        assert(entry_key(es[i]) == k);
        lemma_entry_maps(es, i);
    }
    assert(enabled_map(es) =~= enabled);
    assert forall|k: Seq<char>| priority_map(es).dom().contains(k) <==> pm.dom().contains(k) by {
        lemma_entry_maps_dom(es, k);
    }
    assert(priority_map(es) =~= pm);
}

} // verus!
