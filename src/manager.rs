//! The reconciliation engine: keeps the registry up to date with what is
//! installed, switches the current JDK, and classifies what is active.
use vstd::prelude::*;
use crate::config::{
    Config, Entries, JdkInfo, JdkInfoView, added_if_absent, current_record, key_index, keys_unique,
    lemma_key_index, lemma_path_key, lemma_unique_index, lookup, path_key,
};
use crate::detector::{JdkDetector, JdkLayout, infos_view, parsed_probe, probed_record, version_key_of};
use crate::text::find_from;
use crate::error::JdkError;
use crate::text::{chars_of, lemma_lex_total, lemma_lex_transitive, lex_less, lex_lt, parse_u32, parsed_u32};

verus! {

broadcast use vstd::string::group_string_axioms;

/// How the two notions of "current" relate: the live `JAVA_HOME` and the
/// registry's pointer.
#[derive(Debug, Clone, Copy, PartialEq, Eq, Structural)]
pub enum CurrentState {
    /// Both are set and name the same installation.
    ActiveAndSynced,
    /// `JAVA_HOME` is set, and either names no registered installation or
    /// the registry names none.
    ActiveFromEnvOnly,
    /// `JAVA_HOME` is unset and the registry names an installation.
    ActiveFromRegistryOnly,
    /// Both name registered installations, and they differ.
    Mismatch,
    /// Neither names anything.
    Inactive,
}

/// How one listed installation relates to the two notions of "current".
#[derive(Debug, Clone, Copy, PartialEq, Eq, Structural)]
pub enum EntryStatus {
    /// Named by both `JAVA_HOME` and the registry pointer.
    Active,
    /// Named by `JAVA_HOME` only.
    ActiveEnvOnly,
    /// Named by the registry pointer while `JAVA_HOME` names another path.
    ConfigMismatch,
    /// Named by the registry pointer while `JAVA_HOME` is unset.
    ConfigEnvNotSet,
    /// Named by neither.
    Listed,
}

/// The status of the entry keyed `key` at `path`, given the registry
/// pointer and the live `JAVA_HOME` value.
pub open spec fn entry_status_of(
    key: Seq<char>,
    path: Seq<char>,
    pointer: Option<Seq<char>>,
    java_home: Option<Seq<char>>,
) -> EntryStatus {
    let in_config = pointer == Some(key);
    let in_env = java_home == Some(path);
    if in_env && in_config {
        EntryStatus::Active
    } else if in_env {
        EntryStatus::ActiveEnvOnly
    } else if in_config && java_home is Some {
        EntryStatus::ConfigMismatch
    } else if in_config {
        EntryStatus::ConfigEnvNotSet
    } else {
        EntryStatus::Listed
    }
}

/// The classification of registry `c` against the live `JAVA_HOME` value.
pub open spec fn current_state(c: Config, java_home: Option<Seq<char>>) -> CurrentState {
    match java_home {
        None => if current_record(&c) is Some {
            CurrentState::ActiveFromRegistryOnly
        } else {
            CurrentState::Inactive
        },
        Some(h) => match (path_key(c.entries(), h), current_record(&c)) {
            (Some(_), Some(r)) => if r.path == h {
                CurrentState::ActiveAndSynced
            } else {
                CurrentState::Mismatch
            },
            _ => CurrentState::ActiveFromEnvOnly,
        },
    }
}

/// The one current JDK when a single answer is needed: the live `JAVA_HOME`
/// when it names a registered installation, else the registry's pointer.
pub open spec fn effective_current(c: Config, java_home: Option<Seq<char>>) -> Option<
    (Seq<char>, JdkInfoView),
> {
    let es = c.entries();
    let from_env = match java_home {
        Some(h) => path_key(es, h),
        None => None,
    };
    match from_env {
        Some(k) => Some((k, lookup(es, k)->0)),
        None => match c.current_key() {
            Some(k) => match lookup(es, k) {
                Some(info) => Some((k, info)),
                None => None,
            },
            None => None,
        },
    }
}

/// `es` after registering each found record, in order, under its version
/// key unless that key is present.
pub open spec fn registered(es: Entries, found: Seq<JdkInfoView>) -> Entries
    decreases found.len(),
{
    if found.len() == 0 {
        es
    } else {
        let last = found.last();
        added_if_absent(registered(es, found.drop_last()), last.version, last)
    }
}

proof fn lemma_push_index(es: Entries, e: (Seq<char>, JdkInfoView), k: Seq<char>)
    ensures
        e.0 != k ==> key_index(es.push(e), k) == key_index(es, k),
        e.0 == k ==> key_index(es.push(e), k) == Some(es.len() as int),
{
    assert(es.push(e).drop_last() =~= es);
}

/// Registering keeps every key present, and the record under a key that
/// was present before.
proof fn lemma_registered_keeps(es: Entries, found: Seq<JdkInfoView>, k: Seq<char>)
    requires
        key_index(es, k) is Some,
    ensures
        key_index(registered(es, found), k) == key_index(es, k),
        lookup(registered(es, found), k) == lookup(es, k),
    decreases found.len(),
{
    if found.len() > 0 {
        let r = registered(es, found.drop_last());
        lemma_registered_keeps(es, found.drop_last(), k);
        let last = found.last();
        if key_index(r, last.version) is None {
            lemma_push_index(r, (last.version, last), k);
            lemma_key_index(r, k);
            assert(r.push((last.version, last))[key_index(r, k)->0] == r[key_index(r, k)->0]);
        }
    }
}

/// After registering `found`, every key it holds is present.
proof fn lemma_registered_present(es: Entries, found: Seq<JdkInfoView>, i: int)
    requires
        0 <= i < found.len(),
    ensures
        key_index(registered(es, found), found[i].version) is Some,
    decreases found.len(),
{
    let r = registered(es, found.drop_last());
    let last = found.last();
    if i < found.len() - 1 {
        lemma_registered_present(es, found.drop_last(), i);
        assert(found.drop_last()[i] == found[i]);
        if key_index(r, last.version) is None {
            lemma_push_index(r, (last.version, last), found[i].version);
        }
    } else if key_index(r, last.version) is None {
        lemma_push_index(r, (last.version, last), last.version);
    }
}

/// Registering records whose keys are all present changes nothing.
proof fn lemma_registered_present_noop(es: Entries, found: Seq<JdkInfoView>)
    requires
        forall|i: int| 0 <= i < found.len() ==> key_index(es, #[trigger] found[i].version) is Some,
    ensures
        registered(es, found) == es,
    decreases found.len(),
{
    if found.len() > 0 {
        let d = found.drop_last();
        assert forall|i: int| 0 <= i < d.len() implies key_index(es, #[trigger] d[i].version) is Some by {
            assert(d[i] == found[i]);
        }
        lemma_registered_present_noop(es, d);
        assert(key_index(es, found[found.len() - 1].version) is Some);
    }
}

/// Detection never overwrites: a key registered before a scan keeps its
/// record, whatever the scan finds.
pub proof fn lemma_scan_never_overwrites(es: Entries, found: Seq<JdkInfoView>, k: Seq<char>)
    requires
        lookup(es, k) is Some,
    ensures
        lookup(registered(es, found), k) == lookup(es, k),
{
    lemma_registered_keeps(es, found, k);
}

/// Scanning is idempotent: a second scan that finds the same records
/// leaves the registry's entries exactly as the first left them.
pub proof fn lemma_scan_idempotent(es: Entries, found: Seq<JdkInfoView>)
    ensures
        registered(registered(es, found), found) == registered(es, found),
{
    let r = registered(es, found);
    assert forall|i: int| 0 <= i < found.len() implies key_index(r, #[trigger] found[i].version) is Some by {
        lemma_registered_present(es, found, i);
    }
    lemma_registered_present_noop(r, found);
}

/// Scanning an empty registry that finds one JDK, whose version probe
/// announces a full version, registers exactly that JDK under the key that
/// full version gives.
pub proof fn lemma_scan_single_jdk(path: Seq<char>, output: Seq<char>)
    requires
        parsed_probe(output).2 is Some,
    ensures
        registered(Seq::empty(), seq![probed_record(path, output)]) == seq![
            (version_key_of(parsed_probe(output).2->0), probed_record(path, output)),
        ],
{
    let rec = probed_record(path, output);
    let found = seq![rec];
    assert(found.drop_last() =~= Seq::<JdkInfoView>::empty());
    assert(registered(Seq::empty(), found.drop_last()) == Seq::<(Seq<char>, JdkInfoView)>::empty());
    assert(found.last() == rec);
    assert(rec.version == version_key_of(parsed_probe(output).2->0));
    assert(key_index(Seq::<(Seq<char>, JdkInfoView)>::empty(), rec.version) is None);
    assert(Seq::<(Seq<char>, JdkInfoView)>::empty().push((rec.version, rec)) =~= seq![(rec.version, rec)]);
}

/// The full version `17.0.2` has key `17`.
pub proof fn lemma_key_of_17_0_2()
    ensures
        version_key_of("17.0.2"@) == "17"@,
{
    reveal_strlit("17.0.2");
    reveal_strlit("17");
    reveal_with_fuel(find_from, 4);
    assert(find_from("17.0.2"@, '.', 0) == Some(2int));
    assert("17.0.2"@.subrange(0, 2) =~= "17"@);
}

/// Whether every key of `es` spells a `u32`.
pub open spec fn keys_numeric(es: Entries) -> bool {
    forall|i: int| 0 <= i < es.len() ==> parsed_u32(#[trigger] es[i].0) is Some
}

/// Display order of keys: by number when all keys are numbers (ties by
/// text), else by text.
#[verifier::opaque]
pub open spec fn key_before(a: Seq<char>, b: Seq<char>, numeric: bool) -> bool {
    if numeric {
        let x = parsed_u32(a)->0;
        let y = parsed_u32(b)->0;
        x < y || (x == y && lex_lt(a, b))
    } else {
        lex_lt(a, b)
    }
}

/// `r` holds the entries of `es`, each once, in display order.
pub open spec fn in_display_order(es: Entries, r: Entries) -> bool {
    &&& r.len() == es.len()
    &&& forall|i: int|
        #![trigger r[i]]
        0 <= i < r.len() ==> exists|j: int| #![trigger es[j]] 0 <= j < es.len() && r[i] == es[j]
    &&& forall|i: int, j: int|
        0 <= i < j < r.len() ==> key_before(r[i].0, r[j].0, keys_numeric(es))
}

/// The views of a vector of (key, record) pairs.
pub open spec fn pairs_view(v: Seq<(String, JdkInfo)>) -> Entries {
    v.map_values(|e: (String, JdkInfo)| (e.0@, e.1@))
}

proof fn lemma_key_before_transitive(a: Seq<char>, b: Seq<char>, c: Seq<char>, numeric: bool)
    requires
        key_before(a, b, numeric),
        key_before(b, c, numeric),
    ensures
        key_before(a, c, numeric),
{
    reveal(key_before);
    if numeric {
        if parsed_u32(a)->0 == parsed_u32(b)->0 && parsed_u32(b)->0 == parsed_u32(c)->0 {
            lemma_lex_transitive(a, b, c);
        }
    } else {
        lemma_lex_transitive(a, b, c);
    }
}

proof fn lemma_key_before_total(a: Seq<char>, b: Seq<char>, numeric: bool)
    requires
        a != b,
    ensures
        key_before(a, b, numeric) || key_before(b, a, numeric),
{
    reveal(key_before);
    lemma_lex_total(a, b);
}

/// Compares two keys in display order.
fn key_less(a: &String, b: &String, numeric: bool) -> (r: bool)
    requires
        numeric ==> parsed_u32(a@) is Some && parsed_u32(b@) is Some,
    ensures
        r == key_before(a@, b@, numeric),
{
    reveal(key_before);
    let av = chars_of(a.as_str());
    let bv = chars_of(b.as_str());
    if numeric {
        let x = parse_u32(a.as_str()).unwrap();
        let y = parse_u32(b.as_str()).unwrap();
        x < y || (x == y && lex_less(&av, &bv))
    } else {
        lex_less(&av, &bv)
    }
}

/// The JDK manager: the registry, and the operations that reconcile it
/// with the installations on disk and with the live environment.
pub struct JdkManager {
    config: Config,
}

impl JdkManager {
    /// The registry this manager holds.
    pub closed spec fn registry(&self) -> Config {
        self.config
    }

    /// The registry's keys are unique.
    pub open spec fn wf(&self) -> bool {
        self.registry().wf()
    }

    /// A manager over a loaded registry.
    pub fn new(config: Config) -> (r: JdkManager)
        requires
            config.wf(),
        ensures
            r.wf(),
            r.registry() == config,
    {
        JdkManager { config }
    }

    /// The registry.
    pub fn config(&self) -> (r: &Config)
        ensures
            *r == self.registry(),
    {
        &self.config
    }

    /// The registry, for changes.
    pub fn config_mut(&mut self) -> (r: &mut Config)
        ensures
            *r == old(self).registry(),
            final(self).registry() == *final(r),
    {
        &mut self.config
    }

    /// Adds each detected record under its version key unless the key is
    /// already registered; existing records are never replaced. Returns the
    /// detected records.
    pub fn scan_jdks(&mut self, detected: Vec<JdkInfo>) -> (r: Vec<JdkInfo>)
        requires
            old(self).wf(),
        ensures
            final(self).wf(),
            final(self).registry().entries() == registered(
                old(self).registry().entries(),
                infos_view(detected@),
            ),
            final(self).registry().current_key() == old(self).registry().current_key(),
            final(self).registry().download() == old(self).registry().download(),
            infos_view(r@) == infos_view(detected@),
    {
        let ghost found = infos_view(detected@);
        let ghost es0 = self.config.entries();
        let mut i: usize = 0;
        while i < detected.len()
            invariant
                found == infos_view(detected@),
                i <= detected@.len(),
                self.config.wf(),
                self.config.entries() == registered(es0, found.take(i as int)),
                self.config.current_key() == old(self).registry().current_key(),
                self.config.download() == old(self).registry().download(),
            decreases detected@.len() - i,
        {
            assert(found.take(i + 1).drop_last() =~= found.take(i as int));
            let jdk = &detected[i];
            self.config.add_if_absent(jdk.version.clone(), jdk.duplicate());
            i = i + 1;
        }
        assert(found.take(detected@.len() as int) =~= found);
        detected
    }

    /// The record the registry's pointer names, if it is registered.
    pub fn get_current(&self) -> (r: Option<&JdkInfo>)
        ensures
            match r {
                Some(x) => current_record(&self.registry()) == Some(x@),
                None => current_record(&self.registry()) is None,
            },
    {
        self.config.get_current()
    }

    /// The key the registry's pointer holds.
    pub fn get_current_version(&self) -> (r: Option<&String>)
        ensures
            match r {
                Some(k) => self.registry().current_key() == Some(k@),
                None => self.registry().current_key() is None,
            },
    {
        self.config.current_version()
    }

    /// Makes `version` current. Fails with `JdkNotFound` when it is not
    /// registered, and with `InvalidPath` when `layout` does not show a JDK at
    /// its registered path (`layout` is what the filesystem shows there now);
    /// on failure the registry is unchanged. On success the pointer names
    /// `version` and its record is returned. Persisting the registry and
    /// changing the environment are the caller's next steps.
    pub fn switch_jdk(&mut self, version: &str, layout: &JdkLayout) -> (r: Result<JdkInfo, JdkError>)
        requires
            old(self).wf(),
        ensures
            final(self).wf(),
            final(self).registry().entries() == old(self).registry().entries(),
            final(self).registry().download() == old(self).registry().download(),
            match lookup(old(self).registry().entries(), version@) {
                None => r matches Err(JdkError::JdkNotFound(v)) && v@ == version@
                    && final(self).registry() == old(self).registry(),
                Some(info) => if layout.path@ == info.path && layout.is_dir && layout.has_java
                    && layout.has_lib {
                    r matches Ok(x) && x@ == info && final(self).registry().current_key() == Some(
                        version@,
                    )
                } else {
                    r matches Err(JdkError::InvalidPath(m)) && m@ == "JDK path no longer valid: "@
                        + info.path && final(self).registry() == old(self).registry()
                },
            },
    {
        let info = match self.config.get_jdk(version) {
            Some(x) => x.duplicate(),
            None => {
                return Err(JdkError::JdkNotFound(version.to_owned()));
            },
        };
        if !(crate::text::str_eq(layout.path.as_str(), info.path.as_str())
            && JdkDetector::is_valid_jdk(layout)) {
            let mut m = "JDK path no longer valid: ".to_owned();
            m.append(info.path.as_str());
            return Err(JdkError::InvalidPath(m));
        }
        self.config.set_current(version.to_owned());
        Ok(info)
    }

    /// Classifies what is active, given the live `JAVA_HOME` value.
    pub fn resolve_current(&self, java_home: Option<&str>) -> (r: CurrentState)
        requires
            self.wf(),
        ensures
            r == current_state(
                self.registry(),
                match java_home {
                    Some(h) => Some(h@),
                    None => None,
                },
            ),
    {
        let reg = self.config.get_current();
        match java_home {
            None => if reg.is_some() {
                CurrentState::ActiveFromRegistryOnly
            } else {
                CurrentState::Inactive
            },
            Some(h) => {
                let env_key = self.config.key_for_path(h);
                match (env_key, reg) {
                    (Some(_), Some(r)) => if crate::text::str_eq(r.path.as_str(), h) {
                        CurrentState::ActiveAndSynced
                    } else {
                        CurrentState::Mismatch
                    },
                    _ => CurrentState::ActiveFromEnvOnly,
                }
            },
        }
    }

    /// The current JDK when one answer is needed: the live `JAVA_HOME` when
    /// it names a registered installation, else the registry's pointer.
    pub fn effective_current(&self, java_home: Option<&str>) -> (r: Option<(String, JdkInfo)>)
        requires
            self.wf(),
        ensures
            match r {
                Some((k, info)) => effective_current(
                    self.registry(),
                    match java_home {
                        Some(h) => Some(h@),
                        None => None,
                    },
                ) == Some((k@, info@)),
                None => effective_current(
                    self.registry(),
                    match java_home {
                        Some(h) => Some(h@),
                        None => None,
                    },
                ) is None,
            },
    {
        let ghost es = self.config.entries();
        if let Some(h) = java_home {
            if let Some(k) = self.config.key_for_path(h) {
                proof {
                    lemma_path_key(es, h@);
                    let i = choose|i: int|
                        0 <= i < es.len() && es[i].1.path == h@ && es[i].0 == k@ && forall|j: int|
                            i < j < es.len() ==> es[j].1.path != h@;
                    lemma_unique_index(es, i);
                }
                let info = self.config.get_jdk(k.as_str()).unwrap().duplicate();
                return Some((k, info));
            }
        }
        match self.config.current_version() {
            Some(k) => match self.config.get_jdk(k.as_str()) {
                Some(info) => Some((k.clone(), info.duplicate())),
                None => None,
            },
            None => None,
        }
    }

    /// Points the registry at the installation the live `JAVA_HOME` names,
    /// when it names a registered one the pointer does not already hold.
    /// Tells whether the pointer changed.
    pub fn adopt_env_current(&mut self, java_home: &str) -> (r: bool)
        requires
            old(self).wf(),
        ensures
            final(self).wf(),
            final(self).registry().entries() == old(self).registry().entries(),
            final(self).registry().download() == old(self).registry().download(),
            r == (path_key(old(self).registry().entries(), java_home@) is Some
                && old(self).registry().current_key() != path_key(
                old(self).registry().entries(),
                java_home@,
            )),
            r ==> final(self).registry().current_key() == path_key(
                old(self).registry().entries(),
                java_home@,
            ),
            !r ==> final(self).registry() == old(self).registry(),
    {
        match self.config.key_for_path(java_home) {
            Some(k) => {
                let differs = match self.config.current_version() {
                    Some(c) => !crate::text::str_eq(c.as_str(), k.as_str()),
                    None => true,
                };
                if differs {
                    self.config.set_current(k);
                }
                differs
            },
            None => false,
        }
    }

    /// How the entry keyed `key` at `path` relates to the registry pointer
    /// and the live `JAVA_HOME`; `JAVA_HOME` decides which entry is marked
    /// current when it is set.
    pub fn entry_status(&self, key: &str, path: &str, java_home: Option<&str>) -> (r: EntryStatus)
        ensures
            r == entry_status_of(
                key@,
                path@,
                self.registry().current_key(),
                match java_home {
                    Some(h) => Some(h@),
                    None => None,
                },
            ),
    {
        let in_config = match self.config.current_version() {
            Some(c) => crate::text::str_eq(c.as_str(), key),
            None => false,
        };
        let in_env = match java_home {
            Some(h) => crate::text::str_eq(h, path),
            None => false,
        };
        if in_env && in_config {
            EntryStatus::Active
        } else if in_env {
            EntryStatus::ActiveEnvOnly
        } else if in_config && java_home.is_some() {
            EntryStatus::ConfigMismatch
        } else if in_config {
            EntryStatus::ConfigEnvNotSet
        } else {
            EntryStatus::Listed
        }
    }

    /// Whether the entry keyed `key` is the one current JDK: the
    /// installation `JAVA_HOME` names when it is registered, else the one
    /// the registry's pointer names.
    pub fn is_current_entry(&self, key: &str, java_home: Option<&str>) -> (r: bool)
        requires
            self.wf(),
        ensures
            r == match effective_current(
                self.registry(),
                match java_home {
                    Some(h) => Some(h@),
                    None => None,
                },
            ) {
                Some((k, _)) => k == key@,
                None => false,
            },
    {
        match self.effective_current(java_home) {
            Some((k, _)) => crate::text::str_eq(k.as_str(), key),
            None => false,
        }
    }

    /// Whether every registered key is a number.
    fn keys_are_numeric(&self) -> (r: bool)
        ensures
            r == keys_numeric(self.registry().entries()),
    {
        let ghost es = self.config.entries();
        let n = self.config.len();
        let mut i: usize = 0;
        while i < n
            invariant
                n == es.len(),
                es == self.config.entries(),
                i <= n,
                forall|k: int| 0 <= k < i ==> parsed_u32(#[trigger] es[k].0) is Some,
            decreases n - i,
        {
            let (key, _) = self.config.entry(i);
            assert(key@ == es[i as int].0);
            if parse_u32(key.as_str()).is_none() {
                return false;
            }
            i = i + 1;
        }
        true
    }

    /// All registered (key, record) pairs, in display order: by number when
    /// every key is a number, by text otherwise.
    pub fn list_jdks(&self) -> (r: Vec<(String, JdkInfo)>)
        requires
            self.wf(),
        ensures
            in_display_order(self.registry().entries(), pairs_view(r@)),
    {
        let ghost es = self.config.entries();
        let n = self.config.len();
        let numeric = self.keys_are_numeric();
        let mut out: Vec<(String, JdkInfo)> = Vec::new();
        let mut i: usize = 0;
        proof {
            reveal(sorted_prefix);
        }
        while i < n
            invariant
                n == es.len(),
                es == self.config.entries(),
                keys_unique(es),
                numeric == keys_numeric(es),
                i <= n,
                sorted_prefix(es, pairs_view(out@), i as int, numeric),
            decreases n - i,
        {
            let (key, info) = self.config.entry(i);
            let ghost ov = pairs_view(out@);
            assert(key@ == es[i as int].0 && info@ == es[i as int].1);
            proof {
                if numeric {
                    assert(parsed_u32(es[i as int].0) is Some);
                    lemma_prefix_numeric(es, out@, i as int);
                }
            }
            let pos = insertion_point(&out, key, numeric);
            out.insert(pos, (key.clone(), info.duplicate()));
            proof {
                assert(pairs_view(out@) =~= ov.insert(pos as int, es[i as int]));
                lemma_insert_sorted(es, ov, i as int, pos as int, numeric);
            }
            i = i + 1;
        }
        proof {
            reveal(sorted_prefix);
        }
        out
    }
}

/// When every key is a number, so is every key already placed.
proof fn lemma_prefix_numeric(es: Entries, out: Seq<(String, JdkInfo)>, i: int)
    requires
        keys_numeric(es),
        0 <= i <= es.len(),
        sorted_prefix(es, pairs_view(out), i, true) || sorted_prefix(es, pairs_view(out), i, false),
    ensures
        forall|a: int| 0 <= a < out.len() ==> parsed_u32(#[trigger] out[a].0@) is Some,
{
    reveal(sorted_prefix);
    let ov = pairs_view(out);
    assert forall|a: int| 0 <= a < out.len() implies parsed_u32(#[trigger] out[a].0@) is Some by {
        assert(ov[a].0 == out[a].0@);
        let j = choose|j: int| 0 <= j < i && ov[a] == es[j];
        assert(parsed_u32(es[j].0) is Some);
    }
}

/// `r` holds the first `i` entries of `es`, each once, in display order.
#[verifier::opaque]
pub open spec fn sorted_prefix(es: Entries, r: Entries, i: int, numeric: bool) -> bool {
    &&& r.len() == i
    &&& forall|a: int|
        #![trigger r[a]]
        0 <= a < i ==> exists|j: int| #![trigger es[j]] 0 <= j < i && r[a] == es[j]
    &&& forall|a: int, b: int| 0 <= a < b < i ==> key_before(r[a].0, r[b].0, numeric)
}

/// Where a key goes among keys already in display order: after every key
/// that comes before it.
fn insertion_point(out: &Vec<(String, JdkInfo)>, key: &String, numeric: bool) -> (pos: usize)
    requires
        numeric ==> parsed_u32(key@) is Some,
        numeric ==> forall|a: int| 0 <= a < out@.len() ==> parsed_u32(#[trigger] out@[a].0@) is Some,
    ensures
        pos <= out@.len(),
        forall|a: int| 0 <= a < pos ==> key_before(#[trigger] out@[a].0@, key@, numeric),
        pos < out@.len() ==> !key_before(out@[pos as int].0@, key@, numeric),
{
    let mut pos: usize = 0;
    while pos < out.len()
        invariant
            pos <= out@.len(),
            numeric ==> parsed_u32(key@) is Some,
            numeric ==> forall|a: int| 0 <= a < out@.len() ==> parsed_u32(#[trigger] out@[a].0@) is Some,
            forall|a: int| 0 <= a < pos ==> key_before(#[trigger] out@[a].0@, key@, numeric),
        decreases out@.len() - pos,
    {
        if !key_less(&out[pos].0, key, numeric) {
            return pos;
        }
        pos = pos + 1;
    }
    pos
}

/// Inserting entry `i` where [`insertion_point`] puts it extends the
/// sorted prefix by one.
proof fn lemma_insert_sorted(es: Entries, ov: Entries, i: int, pos: int, numeric: bool)
    requires
        keys_unique(es),
        0 <= i < es.len(),
        sorted_prefix(es, ov, i, numeric),
        0 <= pos <= ov.len(),
        forall|a: int| 0 <= a < pos ==> key_before(#[trigger] ov[a].0, es[i].0, numeric),
        pos < ov.len() ==> !key_before(ov[pos].0, es[i].0, numeric),
    ensures
        sorted_prefix(es, ov.insert(pos, es[i]), i + 1, numeric),
{
    let nv = ov.insert(pos, es[i]);
    lemma_insert_ordered(es, ov, i, pos, numeric);
    lemma_insert_members(es, ov, i, pos, numeric);
    reveal(sorted_prefix);
    assert(nv.len() == i + 1);
    assert(forall|a: int, b: int| 0 <= a < b < i + 1 ==> key_before(nv[a].0, nv[b].0, numeric));
}

/// Inserting entry `i` where [`insertion_point`] puts it keeps the prefix
/// in display order.
proof fn lemma_insert_ordered(es: Entries, ov: Entries, i: int, pos: int, numeric: bool)
    requires
        keys_unique(es),
        0 <= i < es.len(),
        sorted_prefix(es, ov, i, numeric),
        0 <= pos <= ov.len(),
        forall|a: int| 0 <= a < pos ==> key_before(#[trigger] ov[a].0, es[i].0, numeric),
        pos < ov.len() ==> !key_before(ov[pos].0, es[i].0, numeric),
    ensures
        forall|a: int, b: int|
            0 <= a < b < i + 1 ==> key_before(
                ov.insert(pos, es[i])[a].0,
                ov.insert(pos, es[i])[b].0,
                numeric,
            ),
{
    reveal(sorted_prefix);
    let e = es[i];
    let nv = ov.insert(pos, e);
    if pos < ov.len() {
        let j = choose|j: int| 0 <= j < i && ov[pos] == es[j];
        assert(es[j].0 != es[i].0);
        lemma_key_before_total(ov[pos].0, e.0, numeric);
    }
    assert forall|a: int, b: int| 0 <= a < b < i + 1 implies key_before(
        nv[a].0,
        nv[b].0,
        numeric,
    ) by {
        if b == pos {
            assert(nv[a] == ov[a]);
        } else if a == pos {
            assert(nv[b] == ov[b - 1]);
            if b - 1 > pos {
                lemma_key_before_transitive(e.0, ov[pos].0, ov[b - 1].0, numeric);
            }
        } else if a < pos && b < pos {
            assert(nv[a] == ov[a] && nv[b] == ov[b]);
        } else if a < pos {
            assert(nv[a] == ov[a] && nv[b] == ov[b - 1]);
        } else {
            assert(nv[a] == ov[a - 1] && nv[b] == ov[b - 1]);
        }
    }
}

/// Inserting entry `i` keeps every element drawn from the prefix of `es`.
proof fn lemma_insert_members(es: Entries, ov: Entries, i: int, pos: int, numeric: bool)
    requires
        0 <= i < es.len(),
        sorted_prefix(es, ov, i, numeric),
        0 <= pos <= ov.len(),
    ensures
        forall|a: int|
            #![trigger ov.insert(pos, es[i])[a]]
            0 <= a < i + 1 ==> exists|j: int|
                #![trigger es[j]]
                0 <= j < i + 1 && ov.insert(pos, es[i])[a] == es[j],
{
    reveal(sorted_prefix);
    let nv = ov.insert(pos, es[i]);
    assert forall|a: int| #![trigger nv[a]] 0 <= a < i + 1 implies exists|j: int|
        #![trigger es[j]]
        0 <= j < i + 1 && nv[a] == es[j] by {
        if a < pos {
            let j = choose|j: int| 0 <= j < i && ov[a] == es[j];
            assert(nv[a] == es[j]);
        } else if a == pos {
            assert(nv[a] == es[i]);
        } else {
            let j = choose|j: int| 0 <= j < i && ov[a - 1] == es[j];
            assert(nv[a] == es[j]);
        }
    }
}

} // verus!
