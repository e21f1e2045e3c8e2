//! The profile store: named profiles, an optional default, and the contents
//! of the store's file as last loaded or as they are to be written.
//!
//! Reading and writing the file, and its TOML form, happen outside this
//! library. Each operation here takes the loaded contents, changes them in
//! memory, and leaves in the store what is to be saved.
use vstd::prelude::*;
use crate::text::concat;

verus! {

/// One Git identity.
#[derive(Debug, Clone)]
pub struct Profile {
    pub name: String,
    pub email: String,
    pub ssh_host: String,
}

pub struct ProfileModel {
    pub name: Seq<char>,
    pub email: Seq<char>,
    pub ssh_host: Seq<char>,
}

impl View for Profile {
    type V = ProfileModel;

    open spec fn view(&self) -> ProfileModel {
        ProfileModel { name: self.name@, email: self.email@, ssh_host: self.ssh_host@ }
    }
}

impl Profile {
    /// A copy with the same fields.
    pub fn copy(&self) -> (r: Profile)
        ensures
            r@ == self@,
    {
        Profile { name: self.name.clone(), email: self.email.clone(), ssh_host: self.ssh_host.clone() }
    }
}

pub type KeyedModel = Seq<(Seq<char>, ProfileModel)>;

pub open spec fn pairs_view(s: Seq<(String, Profile)>) -> KeyedModel {
    s.map_values(|e: (String, Profile)| (e.0@, e.1@))
}

pub open spec fn keys_unique(s: KeyedModel) -> bool {
    forall|i: int, j: int|
        0 <= i < s.len() && 0 <= j < s.len() && #[trigger] s[i].0 == #[trigger] s[j].0 ==> i == j
}

pub open spec fn key_at(s: KeyedModel, k: Seq<char>, i: int) -> bool {
    0 <= i < s.len() && s[i].0 == k
}

/// The map that a list of keyed profiles with distinct keys stands for.
pub open spec fn map_of(s: KeyedModel) -> Map<Seq<char>, ProfileModel> {
    Map::new(
        |k: Seq<char>| exists|i: int| key_at(s, k, i),
        |k: Seq<char>| s[choose|i: int| key_at(s, k, i)].1,
    )
}

proof fn lemma_map_of_at(s: KeyedModel, i: int)
    requires
        keys_unique(s),
        0 <= i < s.len(),
    ensures
        map_of(s).contains_key(s[i].0),
        map_of(s)[s[i].0] == s[i].1,
{
    assert(key_at(s, s[i].0, i));
    let j = choose|j: int| key_at(s, s[i].0, j);
    assert(s[j].0 == s[i].0);
}

proof fn lemma_map_of_absent(s: KeyedModel, k: Seq<char>)
    requires
        forall|i: int| 0 <= i < s.len() ==> s[i].0 != k,
    ensures
        !map_of(s).contains_key(k),
{
}

/// A list with distinct keys stands for `m` when each of its pairs is in
/// `m` and each key of `m` is in it.
proof fn lemma_map_of_ext(t: KeyedModel, m: Map<Seq<char>, ProfileModel>)
    requires
        keys_unique(t),
        forall|i: int| 0 <= i < t.len() ==> #[trigger] m.contains_key(t[i].0) && m[t[i].0] == t[i].1,
        forall|k: Seq<char>| #[trigger] m.contains_key(k) ==> exists|i: int| key_at(t, k, i),
    ensures
        map_of(t) == m,
{
    assert forall|k: Seq<char>| #[trigger] map_of(t).dom().contains(k) <==> m.dom().contains(k) by {
        if map_of(t).dom().contains(k) {
            let i = choose|i: int| key_at(t, k, i);
            assert(m.contains_key(t[i].0));
        }
    }
    assert forall|k: Seq<char>| #[trigger] map_of(t).dom().contains(k) implies map_of(t)[k] == m[k] by {
        let i = choose|i: int| key_at(t, k, i);
        lemma_map_of_at(t, i);
        assert(m.contains_key(t[i].0));
    }
    assert(map_of(t) =~= m);
}

/// Profiles by key. Keys are distinct; their order carries no meaning.
pub struct ProfileMap {
    entries: Vec<(String, Profile)>,
}

impl View for ProfileMap {
    type V = Map<Seq<char>, ProfileModel>;

    closed spec fn view(&self) -> Map<Seq<char>, ProfileModel> {
        map_of(pairs_view(self.entries@))
    }
}

impl ProfileMap {
    #[verifier::type_invariant]
    closed spec fn wf(&self) -> bool {
        keys_unique(pairs_view(self.entries@))
    }

    pub fn new() -> (r: Self)
        ensures
            r@ == Map::<Seq<char>, ProfileModel>::empty(),
    {
        let r = ProfileMap { entries: Vec::new() };
        assert(pairs_view(r.entries@) =~= Seq::<(Seq<char>, ProfileModel)>::empty());
        assert(r@ =~= Map::<Seq<char>, ProfileModel>::empty());
        r
    }

    fn index_of(&self, key: &str) -> (r: Option<usize>)
        ensures
            match r {
                Some(i) => i < self.entries@.len() && self.entries@[i as int].0@ == key@,
                None => forall|i: int|
                    0 <= i < self.entries@.len() ==> self.entries@[i].0@ != key@,
            },
    {
        let wanted = key.to_owned();
        let mut i: usize = 0;
        while i < self.entries.len()
            invariant
                wanted@ == key@,
                i <= self.entries@.len(),
                forall|j: int| 0 <= j < i ==> self.entries@[j].0@ != key@,
            decreases self.entries@.len() - i,
        {
            if self.entries[i].0 == wanted {
                return Some(i);
            }
            i = i + 1;
        }
        None
    }

    /// Number of profiles.
    pub fn len(&self) -> (r: usize)
        ensures
            r == self@.len(),
    {
        proof {
            use_type_invariant(self);
            self.lemma_len();
        }
        self.entries.len()
    }

    pub fn is_empty(&self) -> (r: bool)
        ensures
            r == (self@.len() == 0),
    {
        self.len() == 0
    }

    proof fn lemma_len(&self)
        requires
            self.wf(),
        ensures
            self@.len() == self.entries@.len(),
        decreases self.entries@.len(),
    {
        let s = pairs_view(self.entries@);
        assert forall|i: int| 0 <= i < s.len() implies self@.contains_key(#[trigger] s[i].0) by {
            lemma_map_of_at(s, i);
        }
        lemma_keys_len(s);
    }

    pub fn contains_key(&self, key: &str) -> (r: bool)
        ensures
            r == self@.contains_key(key@),
    {
        proof {
            use_type_invariant(self);
        }
        match self.index_of(key) {
            Some(i) => {
                proof {
                    lemma_map_of_at(pairs_view(self.entries@), i as int);
                }
                true
            },
            None => false,
        }
    }

    pub fn get(&self, key: &str) -> (r: Option<&Profile>)
        ensures
            r is Some == self@.contains_key(key@),
            r is Some ==> r->Some_0@ == self@[key@],
    {
        proof {
            use_type_invariant(self);
        }
        match self.index_of(key) {
            Some(i) => {
                proof {
                    lemma_map_of_at(pairs_view(self.entries@), i as int);
                }
                Some(&self.entries[i].1)
            },
            None => None,
        }
    }

    /// Sets the profile under `key`, replacing one that was there.
    pub fn insert(&mut self, key: String, profile: Profile)
        ensures
            final(self)@ == old(self)@.insert(key@, profile@),
    {
        proof {
            use_type_invariant(&*self);
        }
        let ghost s = pairs_view(self.entries@);
        let ghost kv = key@;
        let ghost pv = profile@;
        let found = self.index_of(key.as_str());
        let mut entries: Vec<(String, Profile)> = Vec::new();
        std::mem::swap(&mut entries, &mut self.entries);
        match found {
            Some(j) => {
                entries.set(j, (key, profile));
                let ghost t = pairs_view(entries@);
                proof {
                    assert(t =~= s.update(j as int, (kv, pv)));
                    assert forall|a: int| 0 <= a < t.len() implies #[trigger] t[a].0 == s[a].0 by {}
                    assert forall|a: int, b: int|
                        0 <= a < t.len() && 0 <= b < t.len() && #[trigger] t[a].0
                            == #[trigger] t[b].0 implies a == b by {
                        assert(s[a].0 == s[b].0);
                    }
                    let m = map_of(s).insert(kv, pv);
                    assert forall|i: int| 0 <= i < t.len() implies #[trigger] m.contains_key(t[i].0)
                        && m[t[i].0] == t[i].1 by {
                        if i != j {
                            assert(t[i] == s[i]);
                            if s[i].0 == kv {
                                assert(s[i].0 == s[j as int].0);
                            }
                            lemma_map_of_at(s, i);
                        }
                    }
                    assert forall|k: Seq<char>| #[trigger] m.contains_key(k) implies exists|i: int|
                        key_at(t, k, i) by {
                        if k == kv {
                            assert(key_at(t, k, j as int));
                        } else {
                            let i = choose|i: int| key_at(s, k, i);
                            assert(key_at(t, k, i));
                        }
                    }
                    lemma_map_of_ext(t, m);
                }
            },
            None => {
                entries.push((key, profile));
                let ghost t = pairs_view(entries@);
                proof {
                    assert(t =~= s.push((kv, pv)));
                    assert forall|a: int, b: int|
                        0 <= a < t.len() && 0 <= b < t.len() && #[trigger] t[a].0
                            == #[trigger] t[b].0 implies a == b by {
                        if a < s.len() && b < s.len() {
                            assert(s[a].0 == s[b].0);
                        }
                    }
                    let m = map_of(s).insert(kv, pv);
                    assert forall|i: int| 0 <= i < t.len() implies #[trigger] m.contains_key(t[i].0)
                        && m[t[i].0] == t[i].1 by {
                        if i < s.len() {
                            lemma_map_of_at(s, i);
                        }
                    }
                    assert forall|k: Seq<char>| #[trigger] m.contains_key(k) implies exists|i: int|
                        key_at(t, k, i) by {
                        if k == kv {
                            assert(key_at(t, k, s.len() as int));
                        } else {
                            let i = choose|i: int| key_at(s, k, i);
                            assert(key_at(t, k, i));
                        }
                    }
                    lemma_map_of_ext(t, m);
                }
            },
        }
        self.entries = entries;
    }

    /// Takes out the profile under `key`, if there is one.
    pub fn remove(&mut self, key: &str) -> (r: Option<Profile>)
        ensures
            final(self)@ == old(self)@.remove(key@),
            r is Some == old(self)@.contains_key(key@),
            r is Some ==> r->Some_0@ == old(self)@[key@],
    {
        proof {
            use_type_invariant(&*self);
        }
        let ghost s = pairs_view(self.entries@);
        let ghost kv = key@;
        match self.index_of(key) {
            Some(j) => {
                let mut entries: Vec<(String, Profile)> = Vec::new();
                std::mem::swap(&mut entries, &mut self.entries);
                let (_, p) = entries.remove(j);
                let ghost t = pairs_view(entries@);
                assert(t =~= s.remove(j as int));
                assert forall|a: int, b: int|
                    0 <= a < t.len() && 0 <= b < t.len() && #[trigger] t[a].0 == #[trigger] t[b].0
                    implies a == b by {
                    let a2 = if a < j { a } else { a + 1 };
                    let b2 = if b < j { b } else { b + 1 };
                    assert(t[a] == s[a2]);
                    assert(t[b] == s[b2]);
                }
                proof {
                    lemma_map_of_at(s, j as int);
                    let m = map_of(s).remove(kv);
                    assert forall|i: int| 0 <= i < t.len() implies #[trigger] m.contains_key(t[i].0)
                        && m[t[i].0] == t[i].1 by {
                        let i2 = if i < j { i } else { i + 1 };
                        assert(t[i] == s[i2]);
                        if s[i2].0 == kv {
                            assert(s[i2].0 == s[j as int].0);
                        }
                        lemma_map_of_at(s, i2);
                    }
                    assert forall|k: Seq<char>| #[trigger] m.contains_key(k) implies exists|i: int|
                        key_at(t, k, i) by {
                        let i = choose|i: int| key_at(s, k, i);
                        let i2 = if i < j { i } else { i - 1 };
                        assert(t[i2] == s[i]);
                        assert(key_at(t, k, i2));
                    }
                    lemma_map_of_ext(t, m);
                }
                self.entries = entries;
                Some(p)
            },
            None => {
                proof {
                    lemma_map_of_absent(s, kv);
                    assert(map_of(s).remove(kv) =~= map_of(s));
                }
                None
            },
        }
    }

    /// The keys, each once, in the map's own order.
    pub fn keys(&self) -> (r: Vec<String>)
        ensures
            r@.len() == self@.len(),
            forall|i: int| 0 <= i < r@.len() ==> self@.contains_key(#[trigger] r@[i]@),
            forall|k: Seq<char>|
                self@.contains_key(k) ==> exists|i: int| 0 <= i < r@.len() && #[trigger] r@[i]@ == k,
            forall|i: int, j: int|
                0 <= i < r@.len() && 0 <= j < r@.len() && #[trigger] r@[i]@ == #[trigger] r@[j]@
                    ==> i == j,
    {
        proof {
            use_type_invariant(self);
            self.lemma_len();
        }
        let ghost s = pairs_view(self.entries@);
        let mut r: Vec<String> = Vec::new();
        let mut i: usize = 0;
        while i < self.entries.len()
            invariant
                s == pairs_view(self.entries@),
                keys_unique(s),
                i <= self.entries@.len(),
                r@.len() == i,
                forall|j: int| 0 <= j < i ==> #[trigger] r@[j]@ == s[j].0,
            decreases self.entries@.len() - i,
        {
            r.push(self.entries[i].0.clone());
            i = i + 1;
        }
        proof {
            assert forall|j: int| 0 <= j < r@.len() implies self@.contains_key(#[trigger] r@[j]@) by {
                lemma_map_of_at(s, j);
            }
            assert forall|k: Seq<char>| self@.contains_key(k) implies exists|j: int|
                0 <= j < r@.len() && #[trigger] r@[j]@ == k by {
                let j = choose|j: int| key_at(s, k, j);
                assert(r@[j]@ == k);
            }
            assert forall|a: int, b: int|
                0 <= a < r@.len() && 0 <= b < r@.len() && #[trigger] r@[a]@ == #[trigger] r@[b]@
                implies a == b by {
                assert(s[a].0 == s[b].0);
            }
        }
        r
    }

    /// A copy with the same profiles.
    pub fn copy(&self) -> (r: Self)
        ensures
            r@ == self@,
    {
        proof {
            use_type_invariant(self);
        }
        let ghost s = pairs_view(self.entries@);
        let mut entries: Vec<(String, Profile)> = Vec::new();
        let mut i: usize = 0;
        while i < self.entries.len()
            invariant
                s == pairs_view(self.entries@),
                keys_unique(s),
                i <= self.entries@.len(),
                pairs_view(entries@) == s.subrange(0, i as int),
            decreases self.entries@.len() - i,
        {
            let pair = &self.entries[i];
            let item = (pair.0.clone(), pair.1.copy());
            let ghost before = entries@;
            entries.push(item);
            proof {
                assert(entries@ =~= before.push(item));
                assert(pairs_view(entries@) =~= pairs_view(before).push((item.0@, item.1@)));
                assert(s[i as int] == (self.entries@[i as int].0@, self.entries@[i as int].1@));
            }
            i = i + 1;
            assert(pairs_view(entries@) =~= s.subrange(0, i as int));
        }
        assert(s.subrange(0, i as int) =~= s);
        ProfileMap { entries }
    }
}

proof fn lemma_keys_len(s: KeyedModel)
    requires
        keys_unique(s),
    ensures
        map_of(s).dom().finite(),
        map_of(s).len() == s.len(),
    decreases s.len(),
{
    if s.len() == 0 {
        assert(map_of(s) =~= Map::<Seq<char>, ProfileModel>::empty());
    } else {
        let p = s.drop_last();
        assert forall|i: int, j: int|
            0 <= i < p.len() && 0 <= j < p.len() && #[trigger] p[i].0 == #[trigger] p[j].0
            implies i == j by {
            assert(s[i].0 == s[j].0);
        }
        lemma_keys_len(p);
        let last = s.last();
        assert forall|k: Seq<char>| #![auto]
            map_of(s).contains_key(k) == map_of(p).insert(last.0, last.1).contains_key(k) by {
            if map_of(s).contains_key(k) && k != last.0 {
                let i = choose|i: int| key_at(s, k, i);
                assert(key_at(p, k, i));
            }
            if map_of(p).contains_key(k) {
                let i = choose|i: int| key_at(p, k, i);
                assert(key_at(s, k, i));
            }
            if k == last.0 {
                assert(key_at(s, k, s.len() - 1));
            }
        }
        assert(map_of(s).dom() =~= map_of(p).dom().insert(last.0));
        assert(!map_of(p).contains_key(last.0)) by {
            if map_of(p).contains_key(last.0) {
                let i = choose|i: int| key_at(p, last.0, i);
                assert(s[i].0 == s[s.len() - 1].0);
            }
        }
        assert(map_of(s).dom().len() == map_of(p).dom().len() + 1);
    }
}

/// Why a store operation failed.
#[derive(Debug)]
pub enum ConfigError {
    /// No profile under this key.
    NotFound(String),
    /// Reading, copying or writing the file failed.
    Io(String),
    /// The file is not a valid store.
    Parse(String),
    /// The contents could not be turned into text.
    Serialize(String),
}

pub enum ConfigErrorModel {
    NotFound(Seq<char>),
    Io(Seq<char>),
    Parse(Seq<char>),
    Serialize(Seq<char>),
}

impl View for ConfigError {
    type V = ConfigErrorModel;

    open spec fn view(&self) -> ConfigErrorModel {
        match self {
            ConfigError::NotFound(k) => ConfigErrorModel::NotFound(k@),
            ConfigError::Io(m) => ConfigErrorModel::Io(m@),
            ConfigError::Parse(m) => ConfigErrorModel::Parse(m@),
            ConfigError::Serialize(m) => ConfigErrorModel::Serialize(m@),
        }
    }
}

pub open spec fn config_error_text(e: ConfigErrorModel) -> Seq<char> {
    match e {
        ConfigErrorModel::NotFound(k) => "Profile '"@ + k + "' does not exist."@,
        ConfigErrorModel::Io(m) => "IO Error: "@ + m,
        ConfigErrorModel::Parse(m) => "TOML Parsing Error: "@ + m,
        ConfigErrorModel::Serialize(m) => "TOML Serialization Error: "@ + m,
    }
}

impl ConfigError {
    /// A copy of this error.
    pub fn copy(&self) -> (r: ConfigError)
        ensures
            r@ == self@,
    {
        match self {
            ConfigError::NotFound(k) => ConfigError::NotFound(k.clone()),
            ConfigError::Io(m) => ConfigError::Io(m.clone()),
            ConfigError::Parse(m) => ConfigError::Parse(m.clone()),
            ConfigError::Serialize(m) => ConfigError::Serialize(m.clone()),
        }
    }

    /// The text shown for this error.
    pub fn message(&self) -> (r: String)
        ensures
            r@ == config_error_text(self@),
    {
        match self {
            ConfigError::NotFound(k) => {
                let mut r = concat("Profile '", k.as_str());
                r.append("' does not exist.");
                r
            },
            ConfigError::Io(m) => concat("IO Error: ", m.as_str()),
            ConfigError::Parse(m) => concat("TOML Parsing Error: ", m.as_str()),
            ConfigError::Serialize(m) => concat("TOML Serialization Error: ", m.as_str()),
        }
    }
}

/// The contents of the store's file.
pub struct ConfigFile {
    pub default_profile: Option<String>,
    pub profiles: ProfileMap,
}

pub struct FileModel {
    pub default_profile: Option<Seq<char>>,
    pub profiles: Map<Seq<char>, ProfileModel>,
}

pub open spec fn opt_view(o: Option<String>) -> Option<Seq<char>> {
    match o {
        Some(s) => Some(s@),
        None => None,
    }
}

impl View for ConfigFile {
    type V = FileModel;

    open spec fn view(&self) -> FileModel {
        FileModel { default_profile: opt_view(self.default_profile), profiles: self.profiles@ }
    }
}

impl Default for ConfigFile {
    /// The contents of a store that has no file yet: no profiles, no default.
    fn default() -> (r: ConfigFile)
        ensures
            r@ == (FileModel {
                default_profile: None,
                profiles: Map::<Seq<char>, ProfileModel>::empty(),
            }),
    {
        ConfigFile { default_profile: None, profiles: ProfileMap::new() }
    }
}

fn copy_opt(o: &Option<String>) -> (r: Option<String>)
    ensures
        opt_view(r) == opt_view(*o),
{
    match o {
        Some(s) => Some(s.clone()),
        None => None,
    }
}

/// The store as a whole: where it lives, the default profile in memory,
/// and the file's contents (or why they could not be loaded).
pub struct ConfigModel {
    pub path: Seq<char>,
    pub default_profile: Option<Seq<char>>,
    pub stored: Result<FileModel, ConfigErrorModel>,
}

pub open spec fn loaded_view(r: Result<ConfigFile, ConfigError>) -> Result<FileModel, ConfigErrorModel> {
    match r {
        Ok(f) => Ok(f@),
        Err(e) => Err(e@),
    }
}

pub open spec fn outcome_view(r: Result<(), ConfigError>) -> Result<(), ConfigErrorModel> {
    match r {
        Ok(()) => Ok(()),
        Err(e) => Err(e@),
    }
}

/// The store after its profiles are saved along with the default in memory.
pub open spec fn saved(c: ConfigModel, profiles: Map<Seq<char>, ProfileModel>) -> ConfigModel {
    ConfigModel {
        stored: Ok(FileModel { default_profile: c.default_profile, profiles }),
        ..c
    }
}

/// Adding sets the profile under the key, whether or not one was there.
pub open spec fn add_result(c: ConfigModel, key: Seq<char>, p: ProfileModel) -> (
    Result<(), ConfigErrorModel>,
    ConfigModel,
) {
    match c.stored {
        Ok(f) => (Ok(()), saved(c, f.profiles.insert(key, p))),
        Err(e) => (Err(e), c),
    }
}

/// Updating replaces the profile under a key that is there.
pub open spec fn update_result(c: ConfigModel, key: Seq<char>, p: ProfileModel) -> (
    Result<(), ConfigErrorModel>,
    ConfigModel,
) {
    match c.stored {
        Ok(f) => if f.profiles.contains_key(key) {
            (Ok(()), saved(c, f.profiles.insert(key, p)))
        } else {
            (Err(ConfigErrorModel::NotFound(key)), c)
        },
        Err(e) => (Err(e), c),
    }
}

/// Deleting takes out the profile under a key that is there.
pub open spec fn delete_result(c: ConfigModel, key: Seq<char>) -> (
    Result<(), ConfigErrorModel>,
    ConfigModel,
) {
    match c.stored {
        Ok(f) => if f.profiles.contains_key(key) {
            (Ok(()), saved(c, f.profiles.remove(key)))
        } else {
            (Err(ConfigErrorModel::NotFound(key)), c)
        },
        Err(e) => (Err(e), c),
    }
}

/// Setting the default changes it in memory, then saves it with the profiles.
pub open spec fn set_default_result(c: ConfigModel, d: Option<Seq<char>>) -> (
    Result<(), ConfigErrorModel>,
    ConfigModel,
) {
    let c2 = ConfigModel { default_profile: d, ..c };
    match c.stored {
        Ok(f) => (Ok(()), saved(c2, f.profiles)),
        Err(e) => (Err(e), c2),
    }
}

/// The profile store.
pub struct Config {
    pub path: String,
    pub default_profile: Option<String>,
    stored: Result<ConfigFile, ConfigError>,
}

impl View for Config {
    type V = ConfigModel;

    closed spec fn view(&self) -> ConfigModel {
        ConfigModel {
            path: self.path@,
            default_profile: opt_view(self.default_profile),
            stored: loaded_view(self.stored),
        }
    }
}

impl Config {
    /// The store at `path`, from the outcome of loading its file. The
    /// default profile starts as the file's, or as none when it could not
    /// be loaded.
    pub fn new(path: String, loaded: Result<ConfigFile, ConfigError>) -> (r: Config)
        ensures
            r@ == (ConfigModel {
                path: path@,
                default_profile: match loaded {
                    Ok(f) => opt_view(f.default_profile),
                    Err(_) => None,
                },
                stored: loaded_view(loaded),
            }),
    {
        let default_profile = match &loaded {
            Ok(f) => copy_opt(&f.default_profile),
            Err(_) => None,
        };
        Config { path, default_profile, stored: loaded }
    }

    /// The file's contents as loaded or as they are to be written next.
    pub fn contents(&self) -> (r: &Result<ConfigFile, ConfigError>)
        ensures
            loaded_view(*r) == self@.stored,
    {
        &self.stored
    }

    pub fn load_profiles(&self) -> (r: Result<ProfileMap, ConfigError>)
        ensures
            match self@.stored {
                Ok(f) => r is Ok && r->Ok_0@ == f.profiles,
                Err(e) => r is Err && r->Err_0@ == e,
            },
    {
        match &self.stored {
            Ok(f) => Ok(f.profiles.copy()),
            Err(e) => Err(e.copy()),
        }
    }

    /// The default profile that a save writes.
    pub fn get_current_default_profile_for_saving(&self) -> (r: Option<String>)
        ensures
            opt_view(r) == self@.default_profile,
    {
        copy_opt(&self.default_profile)
    }

    /// Makes `profiles`, with the default profile in memory, the contents
    /// to be written.
    pub fn save_profiles(&mut self, profiles: ProfileMap)
        ensures
            final(self)@ == saved(old(self)@, profiles@),
    {
        let default_profile = self.get_current_default_profile_for_saving();
        self.stored = Ok(ConfigFile { default_profile, profiles });
    }

    pub fn add_profile(&mut self, name: String, profile: Profile) -> (r: Result<(), ConfigError>)
        ensures
            (outcome_view(r), final(self)@) == add_result(old(self)@, name@, profile@),
    {
        match self.load_profiles() {
            Ok(profiles) => {
                let mut profiles = profiles;
                profiles.insert(name, profile);
                self.save_profiles(profiles);
                Ok(())
            },
            Err(e) => Err(e),
        }
    }

    pub fn update_profile(&mut self, name: &str, profile: Profile) -> (r: Result<(), ConfigError>)
        ensures
            (outcome_view(r), final(self)@) == update_result(old(self)@, name@, profile@),
    {
        match self.load_profiles() {
            Ok(profiles) => {
                let mut profiles = profiles;
                if !profiles.contains_key(name) {
                    return Err(ConfigError::NotFound(name.to_owned()));
                }
                profiles.insert(name.to_owned(), profile);
                self.save_profiles(profiles);
                Ok(())
            },
            Err(e) => Err(e),
        }
    }

    pub fn delete_profile(&mut self, name: &str) -> (r: Result<(), ConfigError>)
        ensures
            (outcome_view(r), final(self)@) == delete_result(old(self)@, name@),
    {
        match self.load_profiles() {
            Ok(profiles) => {
                let mut profiles = profiles;
                if !profiles.contains_key(name) {
                    return Err(ConfigError::NotFound(name.to_owned()));
                }
                profiles.remove(name);
                self.save_profiles(profiles);
                Ok(())
            },
            Err(e) => Err(e),
        }
    }

    pub fn set_default_profile(&mut self, profile_name: Option<String>) -> (r: Result<(), ConfigError>)
        ensures
            (outcome_view(r), final(self)@) == set_default_result(old(self)@, opt_view(profile_name)),
    {
        self.default_profile = profile_name;
        match self.load_profiles() {
            Ok(profiles) => {
                self.save_profiles(profiles);
                Ok(())
            },
            Err(e) => Err(e),
        }
    }

    pub fn get_default_profile(&self) -> (r: Option<String>)
        ensures
            opt_view(r) == self@.default_profile,
    {
        copy_opt(&self.default_profile)
    }
}

/// Updating a key that is not in a loaded store fails as not found and
/// leaves the store, and so what is written, as it was.
pub proof fn lemma_update_missing_key(c: ConfigModel, key: Seq<char>, p: ProfileModel)
    requires
        c.stored is Ok,
        !c.stored->Ok_0.profiles.contains_key(key),
    ensures
        update_result(c, key, p).0 == Err::<(), ConfigErrorModel>(ConfigErrorModel::NotFound(key)),
        update_result(c, key, p).1 == c,
{
}

/// Adding under the same key twice succeeds both times, and the second
/// profile is the one kept.
pub proof fn lemma_add_twice_overwrites(
    c: ConfigModel,
    key: Seq<char>,
    first: ProfileModel,
    second: ProfileModel,
)
    requires
        c.stored is Ok,
    ensures
        add_result(c, key, first).0 is Ok,
        add_result(add_result(c, key, first).1, key, second).0 is Ok,
        add_result(add_result(c, key, first).1, key, second).1 == add_result(c, key, second).1,
        add_result(add_result(c, key, first).1, key, second).1.stored->Ok_0.profiles[key] == second,
{
    let f = c.stored->Ok_0;
    assert(f.profiles.insert(key, first).insert(key, second) =~= f.profiles.insert(key, second));
}

/// Unsetting the default of a loaded store leaves no default in what is
/// to be written, and the profiles as they were.
pub proof fn lemma_unset_default_saved(c: ConfigModel)
    requires
        c.stored is Ok,
    ensures
        set_default_result(c, None).0 is Ok,
        set_default_result(c, None).1.stored->Ok_0.default_profile is None,
        set_default_result(c, None).1.stored->Ok_0.profiles == c.stored->Ok_0.profiles,
{
}

} // verus!
