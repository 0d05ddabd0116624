//! The persisted user preferences: a set of starred model names, three
//! boolean feature flags, and a last-updated timestamp.  The store models
//! the single per-user preference file; reading and writing the actual
//! file is left to the caller, which hands the stored value in and out.

use vstd::prelude::*;
use vstd::string::*;
use crate::text::str_eq;

verus! {

/// A set of model names with no repeated entries, kept in insertion order.
pub struct NameSet {
    names: Vec<String>,
}

impl View for NameSet {
    type V = Set<Seq<char>>;

    closed spec fn view(&self) -> Set<Seq<char>> {
        Set::new(
            |x: Seq<char>|
                exists|i: int| 0 <= i < self.names@.len() && (#[trigger] self.names@[i])@ == x,
        )
    }
}

impl NameSet {
    /// No two entries hold the same text.
    pub closed spec fn wf(&self) -> bool {
        forall|i: int, j: int|
            0 <= i < j < self.names@.len() ==> (#[trigger] self.names@[i])@ != (
            #[trigger] self.names@[j])@
    }

    /// An empty set.
    pub fn new() -> (r: NameSet)
        ensures
            r@ == Set::<Seq<char>>::empty(),
            r.wf(),
    {
        let r = NameSet { names: Vec::new() };
        proof {
            assert(r@ =~= Set::<Seq<char>>::empty());
        }
        r
    }

    /// Membership test.
    pub fn contains_name(&self, name: &str) -> (r: bool)
        ensures
            r == self@.contains(name@),
    {
        let mut i: usize = 0;
        while i < self.names.len()
            invariant
                0 <= i <= self.names@.len(),
                forall|j: int| 0 <= j < i ==> (#[trigger] self.names@[j])@ != name@,
            decreases self.names@.len() - i,
        {
            if str_eq(self.names[i].as_str(), name) {
                return true;
            }
            i += 1;
        }
        false
    }

    /// Adds a name; nothing changes when it is already present.
    pub fn insert(&mut self, name: String)
        requires
            old(self).wf(),
        ensures
            final(self).wf(),
            final(self)@ == old(self)@.insert(name@),
    {
        if self.contains_name(name.as_str()) {
            proof {
                assert(self@ =~= old(self)@.insert(name@));
            }
        } else {
            self.names.push(name);
            proof {
                assert forall|x: Seq<char>|
                    self@.contains(x) == old(self)@.insert(name@).contains(x) by {
                    if self@.contains(x) {
                        let k = choose|k: int|
                            0 <= k < self.names@.len() && (#[trigger] self.names@[k])@ == x;
                        if k < old(self).names@.len() {
                            assert(old(self).names@[k]@ == x);
                        }
                    }
                    if old(self)@.contains(x) {
                        let k = choose|k: int|
                            0 <= k < old(self).names@.len() && (#[trigger] old(self).names@[k])@
                                == x;
                        assert(self.names@[k]@ == x);
                    }
                    if x == name@ {
                        assert(self.names@[self.names@.len() - 1]@ == x);
                    }
                }
                assert(self@ =~= old(self)@.insert(name@));
            }
        }
    }

    /// Removes a name; nothing changes when it is absent.
    pub fn remove(&mut self, name: &str)
        requires
            old(self).wf(),
        ensures
            final(self).wf(),
            final(self)@ == old(self)@.remove(name@),
    {
        let mut i: usize = 0;
        while i < self.names.len()
            invariant
                0 <= i <= self.names@.len(),
                self == old(self),
                old(self).wf(),
                forall|j: int| 0 <= j < i ==> (#[trigger] self.names@[j])@ != name@,
            decreases self.names@.len() - i,
        {
            if str_eq(self.names[i].as_str(), name) {
                self.names.remove(i);
                proof {
                    assert(self.names@ == old(self).names@.remove(i as int));
                    assert(forall|k: int|
                        0 <= k < i ==> #[trigger] self.names@[k] == old(self).names@[k]);
                    assert(forall|k: int|
                        i <= k < self.names@.len() ==> #[trigger] self.names@[k] == old(
                            self,
                        ).names@[k + 1]);
                    assert forall|a: int, b: int|
                        0 <= a < b < self.names@.len() implies (#[trigger] self.names@[a])@ != (
                    #[trigger] self.names@[b])@ by {
                        let oa: int = if a < i {
                            a
                        } else {
                            a + 1
                        };
                        let ob: int = if b < i {
                            b
                        } else {
                            b + 1
                        };
                        assert(self.names@[a] == old(self).names@[oa]);
                        assert(self.names@[b] == old(self).names@[ob]);
                    }
                    assert forall|x: Seq<char>|
                        self@.contains(x) == old(self)@.remove(name@).contains(x) by {
                        if self@.contains(x) {
                            let k = choose|k: int|
                                0 <= k < self.names@.len() && (#[trigger] self.names@[k])@ == x;
                            if k < i {
                                assert(old(self).names@[k]@ == x);
                            } else {
                                assert(old(self).names@[k + 1]@ == x);
                            }
                        }
                        if old(self)@.remove(name@).contains(x) {
                            let k = choose|k: int|
                                0 <= k < old(self).names@.len() && (#[trigger] old(
                                    self,
                                ).names@[k])@ == x;
                            if k < i {
                                assert(self.names@[k]@ == x);
                            } else if k > i {
                                assert(self.names@[k - 1]@ == x);
                            }
                        }
                    }
                    assert(self@ =~= old(self)@.remove(name@));
                }
                return ;
            }
            i += 1;
        }
        proof {
            assert(!self@.contains(name@));
            assert(self@ =~= old(self)@.remove(name@));
        }
    }

    /// The names, one entry each, in insertion order.
    pub fn to_vec(&self) -> (r: Vec<String>)
        requires
            self.wf(),
        ensures
            forall|i: int| 0 <= i < r@.len() ==> self@.contains((#[trigger] r@[i])@),
            forall|x: Seq<char>|
                self@.contains(x) ==> exists|i: int| 0 <= i < r@.len() && (#[trigger] r@[i])@ == x,
            forall|i: int, j: int|
                0 <= i < j < r@.len() ==> (#[trigger] r@[i])@ != (#[trigger] r@[j])@,
    {
        let mut r: Vec<String> = Vec::new();
        let mut i: usize = 0;
        while i < self.names.len()
            invariant
                0 <= i <= self.names@.len(),
                r@.len() == i,
                forall|j: int| 0 <= j < i ==> (#[trigger] r@[j])@ == self.names@[j]@,
            decreases self.names@.len() - i,
        {
            r.push(self.names[i].clone());
            i += 1;
        }
        proof {
            assert forall|x: Seq<char>|
                self@.contains(x) implies exists|k: int|
                0 <= k < r@.len() && (#[trigger] r@[k])@ == x by {
                let k = choose|k: int|
                    0 <= k < self.names@.len() && (#[trigger] self.names@[k])@ == x;
                assert(r@[k]@ == x);
            }
            assert forall|k: int| 0 <= k < r@.len() implies self@.contains(
                (#[trigger] r@[k])@,
            ) by {
                assert(self.names@[k]@ == r@[k]@);
            }
        }
        r
    }

    /// A deep copy with the same contents.
    pub fn duplicate(&self) -> (r: NameSet)
        requires
            self.wf(),
        ensures
            r@ == self@,
            r.wf(),
    {
        let names = self.to_vec();
        let r = NameSet { names };
        proof {
            assert forall|x: Seq<char>| r@.contains(x) == self@.contains(x) by {
                if r@.contains(x) {
                    let k = choose|k: int|
                        0 <= k < r.names@.len() && (#[trigger] r.names@[k])@ == x;
                    assert(self@.contains(r.names@[k]@));
                }
            }
            assert(r@ =~= self@);
        }
        r
    }
}

/// The persisted preferences.
pub struct AppConfig {
    pub starred_models: NameSet,
    pub privacy_mode: bool,
    pub encrypt_database: bool,
    pub openwebui_integration: bool,
    pub last_updated: Option<String>,
}

/// The view of `AppConfig`.
#[verifier::ext_equal]
pub ghost struct ConfigView {
    pub starred: Set<Seq<char>>,
    pub privacy_mode: bool,
    pub encrypt_database: bool,
    pub openwebui_integration: bool,
    pub last_updated: Option<Seq<char>>,
}

impl View for AppConfig {
    type V = ConfigView;

    open spec fn view(&self) -> ConfigView {
        ConfigView {
            starred: self.starred_models@,
            privacy_mode: self.privacy_mode,
            encrypt_database: self.encrypt_database,
            openwebui_integration: self.openwebui_integration,
            last_updated: match self.last_updated {
                Some(s) => Some(s@),
                None => None,
            },
        }
    }
}

impl AppConfig {
    /// The starred-name set holds no repeated entries.
    pub open spec fn wf(&self) -> bool {
        self.starred_models.wf()
    }

    /// A deep copy with the same contents.
    pub fn duplicate(&self) -> (r: AppConfig)
        requires
            self.wf(),
        ensures
            r@ == self@,
            r.wf(),
    {
        AppConfig {
            starred_models: self.starred_models.duplicate(),
            privacy_mode: self.privacy_mode,
            encrypt_database: self.encrypt_database,
            openwebui_integration: self.openwebui_integration,
            last_updated: match &self.last_updated {
                Some(s) => Some(s.clone()),
                None => None,
            },
        }
    }
}

/// The first-run preferences: privacy on, encryption on, integration on,
/// nothing starred, never written yet.
pub open spec fn default_config_view() -> ConfigView {
    ConfigView {
        starred: Set::empty(),
        privacy_mode: true,
        encrypt_database: true,
        openwebui_integration: true,
        last_updated: None,
    }
}

/// Builds the first-run preferences.
pub fn default_config() -> (r: AppConfig)
    ensures
        r@ == default_config_view(),
        r.wf(),
{
    AppConfig {
        starred_models: NameSet::new(),
        privacy_mode: true,
        encrypt_database: true,
        openwebui_integration: true,
        last_updated: None,
    }
}

/// What a save writes: the given starred set overlaid on the config and a
/// fresh timestamp stamped on.
pub open spec fn saved_config(c: ConfigView, starred: Set<Seq<char>>, ts: Seq<char>) -> ConfigView {
    ConfigView { starred: starred, last_updated: Some(ts), ..c }
}

/// What a load returns: the stored config, or the first-run preferences
/// when nothing is stored yet.
pub open spec fn loaded_config(file: Option<ConfigView>) -> ConfigView {
    match file {
        Some(c) => c,
        None => default_config_view(),
    }
}

/// The three recognised setting keys.
pub open spec fn is_known_key(key: Seq<char>) -> bool {
    key == "privacy_mode"@ || key == "encrypt_database"@ || key == "openwebui_integration"@
}

/// The config with the named flag set; unchanged for an unknown key.
pub open spec fn with_flag(c: ConfigView, key: Seq<char>, value: bool) -> ConfigView {
    if key == "privacy_mode"@ {
        ConfigView { privacy_mode: value, ..c }
    } else if key == "encrypt_database"@ {
        ConfigView { encrypt_database: value, ..c }
    } else if key == "openwebui_integration"@ {
        ConfigView { openwebui_integration: value, ..c }
    } else {
        c
    }
}

/// What the stored file holds after a setting update: for a known key the
/// loaded config with that flag changed, re-saved; for an unknown key the
/// stored file is untouched, except that a first load persists the
/// defaults.
pub open spec fn updated_file(
    file: Option<ConfigView>,
    key: Seq<char>,
    value: bool,
    ts: Seq<char>,
) -> Option<ConfigView> {
    if is_known_key(key) {
        let c = with_flag(loaded_config(file), key, value);
        Some(saved_config(c, c.starred, ts))
    } else {
        match file {
            Some(c) => Some(c),
            None => Some(saved_config(default_config_view(), Set::empty(), ts)),
        }
    }
}

/// The failure of a preference operation.
pub enum ConfigError {
    UnknownKey(String),
}

impl ConfigError {
    /// A human-readable description.
    pub fn message(&self) -> (r: String)
        ensures
            (self matches ConfigError::UnknownKey(k) ==> r@ == "Unknown configuration key: "@
                + k@),
    {
        match self {
            ConfigError::UnknownKey(k) => {
                let mut r = String::from_str("Unknown configuration key: ");
                r.append(k.as_str());
                r
            },
        }
    }
}

/// Relies on chrono::Utc::now and chrono::DateTime::to_rfc3339: the current
/// UTC time as an RFC 3339 timestamp.  A fresh value on every call, so
/// nothing is promised of its text.
#[verifier::external_body]
fn now_rfc3339() -> (r: String) {
    chrono::Utc::now().to_rfc3339()
}

/// The stored preference file, as a value.  The caller keeps it in step
/// with the file on disk: it hands the parsed file in at startup and
/// writes the held value back out after every mutating call.
pub struct ConfigStore {
    file: Option<AppConfig>,
}

impl View for ConfigStore {
    type V = Option<ConfigView>;

    closed spec fn view(&self) -> Option<ConfigView> {
        match self.file {
            Some(c) => Some(c@),
            None => None,
        }
    }
}

impl ConfigStore {
    /// The stored config is well formed, when there is one.
    pub closed spec fn wf(&self) -> bool {
        match self.file {
            Some(c) => c.wf(),
            None => true,
        }
    }

    /// A store with nothing persisted yet.
    pub fn new() -> (r: ConfigStore)
        ensures
            r@ is None,
            r.wf(),
    {
        ConfigStore { file: None }
    }

    /// A store holding a previously persisted config.
    pub fn from_config(c: AppConfig) -> (r: ConfigStore)
        requires
            c.wf(),
        ensures
            r@ == Some(c@),
            r.wf(),
    {
        ConfigStore { file: Some(c) }
    }

    /// The stored value, for the caller to write out.
    pub fn current(&self) -> (r: Option<&AppConfig>)
        ensures
            match r {
                Some(c) => self@ == Some(c@),
                None => self@ is None,
            },
    {
        match &self.file {
            Some(c) => Some(c),
            None => None,
        }
    }

    /// Loads the preferences: the stored config, or the defaults on first
    /// run, in which case a stamped copy of the defaults is persisted
    /// before the defaults are returned.
    pub fn load(&mut self) -> (c: AppConfig)
        requires
            old(self).wf(),
        ensures
            final(self).wf(),
            c.wf(),
            c@ == loaded_config(old(self)@),
            old(self)@ is Some ==> final(self)@ == old(self)@,
            old(self)@ is None ==> exists|ts: Seq<char>|
                final(self)@ == Some(
                    #[trigger] saved_config(default_config_view(), Set::empty(), ts),
                ),
    {
        match &self.file {
            Some(c) => c.duplicate(),
            None => {
                let ts = now_rfc3339();
                let stamped = AppConfig {
                    starred_models: NameSet::new(),
                    privacy_mode: true,
                    encrypt_database: true,
                    openwebui_integration: true,
                    last_updated: Some(ts),
                };
                proof {
                    assert(stamped@.starred =~= Set::<Seq<char>>::empty());
                }
                let ghost tsv = stamped@.last_updated->0;
                self.file = Some(stamped);
                proof {
                    assert(self@ == Some(saved_config(default_config_view(), Set::empty(), tsv)));
                }
                default_config()
            },
        }
    }

    /// Saves the preferences: overlays the given starred set, stamps the
    /// current time, and replaces the stored file wholesale.
    pub fn save(&mut self, config: &AppConfig, starred: &NameSet)
        requires
            config.wf(),
            starred.wf(),
        ensures
            final(self).wf(),
            exists|ts: Seq<char>| final(self)@ == Some(
                #[trigger] saved_config(config@, starred@, ts),
            ),
    {
        let ts = now_rfc3339();
        let ghost tsv = ts@;
        let updated = AppConfig {
            starred_models: starred.duplicate(),
            privacy_mode: config.privacy_mode,
            encrypt_database: config.encrypt_database,
            openwebui_integration: config.openwebui_integration,
            last_updated: Some(ts),
        };
        self.file = Some(updated);
        proof {
            assert(self@ == Some(saved_config(config@, starred@, tsv)));
        }
    }

    /// Changes exactly one of the three boolean flags by name and saves;
    /// an unknown key is an error and leaves the stored config untouched.
    pub fn update_setting(&mut self, key: &str, value: bool) -> (r: Result<(), ConfigError>)
        requires
            old(self).wf(),
        ensures
            final(self).wf(),
            r is Ok <==> is_known_key(key@),
            exists|ts: Seq<char>| final(self)@ == #[trigger] updated_file(
                old(self)@,
                key@,
                value,
                ts,
            ),
            r matches Err(e) ==> e matches ConfigError::UnknownKey(k) && k@ == key@,
    {
        let cfg = self.load();
        let is_privacy = str_eq(key, "privacy_mode");
        let is_encrypt = str_eq(key, "encrypt_database");
        let is_webui = str_eq(key, "openwebui_integration");
        if !is_privacy && !is_encrypt && !is_webui {
            proof {
                if old(self)@ is Some {
                    let ts0 = ""@;
                    assert(self@ == updated_file(old(self)@, key@, value, ts0));
                } else {
                    let ts0 = choose|ts: Seq<char>|
                        self@ == Some(
                            #[trigger] saved_config(default_config_view(), Set::empty(), ts),
                        );
                    assert(self@ == updated_file(old(self)@, key@, value, ts0));
                }
            }
            return Err(ConfigError::UnknownKey(String::from_str(key)));
        }
        let updated = AppConfig {
            privacy_mode: if is_privacy {
                value
            } else {
                cfg.privacy_mode
            },
            encrypt_database: if is_encrypt {
                value
            } else {
                cfg.encrypt_database
            },
            openwebui_integration: if is_webui {
                value
            } else {
                cfg.openwebui_integration
            },
            ..cfg
        };
        self.save(&updated, &updated.starred_models);
        proof {
            reveal_strlit("privacy_mode");
            reveal_strlit("encrypt_database");
            reveal_strlit("openwebui_integration");
            assert("privacy_mode"@.len() == 12);
            assert("encrypt_database"@.len() == 16);
            assert("openwebui_integration"@.len() == 21);
            let target = with_flag(loaded_config(old(self)@), key@, value);
            assert(updated@ =~= target);
            let ts = choose|ts: Seq<char>|
                self@ == Some(#[trigger] saved_config(updated@, updated.starred_models@, ts));
            assert(self@ == updated_file(old(self)@, key@, value, ts));
        }
        Ok(())
    }
}

/// Saving a config and then loading it back yields the same three boolean
/// flags and the same starred set; only the timestamp differs.
pub proof fn lemma_save_load_round_trip(c: ConfigView, st: Set<Seq<char>>, ts: Seq<char>)
    ensures
        loaded_config(Some(saved_config(c, st, ts))).privacy_mode == c.privacy_mode,
        loaded_config(Some(saved_config(c, st, ts))).encrypt_database == c.encrypt_database,
        loaded_config(Some(saved_config(c, st, ts))).openwebui_integration
            == c.openwebui_integration,
        loaded_config(Some(saved_config(c, st, ts))).starred == st,
{
}

/// Setting the privacy flag to false twice in a row succeeds both times,
/// leaves the flag false, and changes nothing else between the two calls.
pub proof fn lemma_update_privacy_idempotent(
    file: Option<ConfigView>,
    ts1: Seq<char>,
    ts2: Seq<char>,
)
    ensures
        is_known_key("privacy_mode"@),
        ({
            let f1 = updated_file(file, "privacy_mode"@, false, ts1);
            let f2 = updated_file(f1, "privacy_mode"@, false, ts2);
            loaded_config(f1).privacy_mode == false && loaded_config(f2).privacy_mode == false
                && loaded_config(f2).starred == loaded_config(f1).starred && loaded_config(
                f2,
            ).encrypt_database == loaded_config(f1).encrypt_database && loaded_config(
                f2,
            ).openwebui_integration == loaded_config(f1).openwebui_integration
        }),
{
}

/// An update with an unknown key leaves an existing stored config exactly
/// as it was.
pub proof fn lemma_unknown_key_preserves(
    file: ConfigView,
    key: Seq<char>,
    value: bool,
    ts: Seq<char>,
)
    requires
        !is_known_key(key),
    ensures
        updated_file(Some(file), key, value, ts) == Some(file),
{
}

} // verus!
