//! The registry: version keys mapped to installation records, plus the
//! pointer to the version selected as current.
use vstd::prelude::*;
use crate::platform::{Platform, join_path, joined};

verus! {

/// One installed JDK, as recorded in the registry.
#[derive(Debug)]
pub struct JdkInfo {
    /// Installation root: the directory that holds `bin` and `lib`.
    pub path: String,
    /// The registry key: the major version, e.g. `17`.
    pub version: String,
    /// Vendor inferred from the version probe, if recognised.
    pub vendor: Option<String>,
    /// Full version string reported by the runtime, e.g. `17.0.2`.
    pub java_version: Option<String>,
}

/// Mathematical model of a [`JdkInfo`].
pub struct JdkInfoView {
    pub path: Seq<char>,
    pub version: Seq<char>,
    pub vendor: Option<Seq<char>>,
    pub java_version: Option<Seq<char>>,
}

impl View for JdkInfo {
    type V = JdkInfoView;

    open spec fn view(&self) -> JdkInfoView {
        JdkInfoView {
            path: self.path@,
            version: self.version@,
            vendor: self.vendor.deep_view(),
            java_version: self.java_version.deep_view(),
        }
    }
}

/// A copy of an optional string.
pub fn copy_opt_string(o: &Option<String>) -> (r: Option<String>)
    ensures
        r.deep_view() == o.deep_view(),
{
    match o {
        Some(s) => Some(s.clone()),
        None => None,
    }
}

impl JdkInfo {
    /// A record with the given fields.
    pub fn new(path: String, version: String, vendor: Option<String>, java_version: Option<String>) -> (r: JdkInfo)
        ensures
            r.path@ == path@,
            r.version@ == version@,
            r.vendor.deep_view() == vendor.deep_view(),
            r.java_version.deep_view() == java_version.deep_view(),
    {
        JdkInfo { path, version, vendor, java_version }
    }

    /// A field-by-field copy.
    pub fn duplicate(&self) -> (r: JdkInfo)
        ensures
            r@ == self@,
    {
        JdkInfo {
            path: self.path.clone(),
            version: self.version.clone(),
            vendor: copy_opt_string(&self.vendor),
            java_version: copy_opt_string(&self.java_version),
        }
    }
}


/// The registry's entries in storage order: (version key, record).
pub type Entries = Seq<(Seq<char>, JdkInfoView)>;

/// The position of the entry keyed `k`, searching from the end.
pub open spec fn key_index(es: Entries, k: Seq<char>) -> Option<int>
    decreases es.len(),
{
    if es.len() == 0 {
        None
    } else if es.last().0 == k {
        Some(es.len() - 1)
    } else {
        key_index(es.drop_last(), k)
    }
}

/// The record stored under `k`.
pub open spec fn lookup(es: Entries, k: Seq<char>) -> Option<JdkInfoView> {
    match key_index(es, k) {
        Some(i) => Some(es[i].1),
        None => None,
    }
}

/// The key of the last entry whose record has installation root `p`.
pub open spec fn path_key(es: Entries, p: Seq<char>) -> Option<Seq<char>>
    decreases es.len(),
{
    if es.len() == 0 {
        None
    } else if es.last().1.path == p {
        Some(es.last().0)
    } else {
        path_key(es.drop_last(), p)
    }
}

/// No key is stored twice.
pub open spec fn keys_unique(es: Entries) -> bool {
    forall|i: int, j: int| 0 <= i < j < es.len() ==> es[i].0 != es[j].0
}

/// `es` with `info` stored under `k` only if `k` is absent.
pub open spec fn added_if_absent(es: Entries, k: Seq<char>, info: JdkInfoView) -> Entries {
    if key_index(es, k) is Some {
        es
    } else {
        es.push((k, info))
    }
}

pub proof fn lemma_key_index(es: Entries, k: Seq<char>)
    ensures
        match key_index(es, k) {
            Some(i) => 0 <= i < es.len() && es[i].0 == k && forall|j: int|
                i < j < es.len() ==> es[j].0 != k,
            None => forall|j: int| 0 <= j < es.len() ==> es[j].0 != k,
        },
    decreases es.len(),
{
    if es.len() > 0 && es.last().0 != k {
        let d = es.drop_last();
        lemma_key_index(d, k);
        assert forall|j: int| 0 <= j < d.len() implies d[j] == es[j] by {}
    }
}

pub proof fn lemma_path_key(es: Entries, p: Seq<char>)
    ensures
        match path_key(es, p) {
            Some(k) => exists|i: int|
                0 <= i < es.len() && es[i].1.path == p && es[i].0 == k && forall|j: int|
                    i < j < es.len() ==> es[j].1.path != p,
            None => forall|j: int| 0 <= j < es.len() ==> es[j].1.path != p,
        },
    decreases es.len(),
{
    if es.len() > 0 {
        if es.last().1.path == p {
            assert(es[es.len() - 1].1.path == p);
        } else {
            let d = es.drop_last();
            lemma_path_key(d, p);
            assert forall|j: int| 0 <= j < d.len() implies d[j] == es[j] by {}
            if let Some(k) = path_key(d, p) {
                let i = choose|i: int|
                    0 <= i < d.len() && d[i].1.path == p && d[i].0 == k && forall|j: int|
                        i < j < d.len() ==> d[j].1.path != p;
                assert(es[i].1.path == p && es[i].0 == k);
            }
        }
    }
}

/// In a registry with unique keys, the entry found for a key is its only one.
pub proof fn lemma_unique_index(es: Entries, i: int)
    requires
        keys_unique(es),
        0 <= i < es.len(),
    ensures
        key_index(es, es[i].0) == Some(i),
{
    lemma_key_index(es, es[i].0);
}

/// The persisted registry: records by version key, the current pointer and
/// the directory that downloads go to.
pub struct Config {
    current_jdk: Option<String>,
    jdks: Vec<(String, JdkInfo)>,
    download_dir: String,
}

impl Config {
    /// The entries, in storage order.
    pub closed spec fn entries(&self) -> Entries {
        self.jdks@.map_values(|e: (String, JdkInfo)| (e.0@, e.1@))
    }

    /// Keys are unique.
    pub open spec fn wf(&self) -> bool {
        keys_unique(self.entries())
    }

    /// The current pointer as a character sequence.
    pub closed spec fn current_key(&self) -> Option<Seq<char>> {
        self.current_jdk.deep_view()
    }

    /// Where downloads go, as a character sequence.
    pub closed spec fn download(&self) -> Seq<char> {
        self.download_dir@
    }

    /// Where downloaded archives are kept.
    pub fn download_dir(&self) -> (r: &String)
        ensures
            r@ == self.download(),
    {
        &self.download_dir
    }

    /// Key of the version selected as current, if any.
    pub fn current_version(&self) -> (r: Option<&String>)
        ensures
            match r {
                Some(k) => self.current_key() == Some(k@),
                None => self.current_key() is None,
            },
    {
        self.current_jdk.as_ref()
    }

    /// An empty registry whose downloads go to `download_dir`.
    pub fn new(download_dir: String) -> (r: Config)
        ensures
            r.wf(),
            r.entries() == Seq::<(Seq<char>, JdkInfoView)>::empty(),
            r.current_key() is None,
            r.download() == download_dir@,
    {
        let r = Config { current_jdk: None, jdks: Vec::new(), download_dir };
        assert(r.entries() =~= Seq::<(Seq<char>, JdkInfoView)>::empty());
        r
    }

    /// Where the registry file lives in the directory `config_dir`.
    pub fn config_path(config_dir: &str, p: Platform) -> (r: String)
        ensures
            r@ == joined(config_dir@, "config.json"@, p),
    {
        join_path(config_dir, "config.json", p)
    }

    /// An empty registry for the directory `config_dir`, with downloads kept
    /// in its `downloads` subdirectory.
    pub fn default_in(config_dir: &str, p: Platform) -> (r: Config)
        ensures
            r.wf(),
            r.entries() == Seq::<(Seq<char>, JdkInfoView)>::empty(),
            r.current_key() is None,
            r.download() == joined(config_dir@, "downloads"@, p),
    {
        Config::new(join_path(config_dir, "downloads", p))
    }

    /// The number of entries.
    pub fn len(&self) -> (r: usize)
        ensures
            r == self.entries().len(),
    {
        self.jdks.len()
    }

    /// The key and record of entry `i`, in storage order.
    pub fn entry(&self, i: usize) -> (r: (&String, &JdkInfo))
        requires
            i < self.entries().len(),
        ensures
            (r.0@, r.1@) == self.entries()[i as int],
    {
        let e = &self.jdks[i];
        (&e.0, &e.1)
    }

    /// Position of the entry keyed `key`.
    fn index_of(&self, key: &str) -> (r: Option<usize>)
        ensures
            r matches Some(i) ==> key_index(self.entries(), key@) == Some(i as int) && i
                < self.entries().len(),
            r is None ==> key_index(self.entries(), key@) is None,
    {
        let ghost es = self.entries();
        let mut i = self.jdks.len();
        assert(es.take(i as int) =~= es);
        while i > 0
            invariant
                i <= self.jdks@.len() == es.len(),
                es == self.entries(),
                key_index(es, key@) == key_index(es.take(i as int), key@),
            decreases i,
        {
            let ghost t = es.take(i as int);
            assert(t.drop_last() =~= es.take(i - 1));
            if crate::text::str_eq(self.jdks[i - 1].0.as_str(), key) {
                return Some(i - 1);
            }
            i = i - 1;
        }
        None
    }

    /// Whether an entry is keyed `key`.
    pub fn contains_key(&self, key: &str) -> (r: bool)
        ensures
            r == (key_index(self.entries(), key@) is Some),
    {
        self.index_of(key).is_some()
    }

    /// Stores `info` under `key` unless `key` is present: an existing
    /// record is never replaced.
    pub fn add_jdk(&mut self, key: String, info: JdkInfo)
        requires
            old(self).wf(),
        ensures
            final(self).wf(),
            final(self).entries() == added_if_absent(old(self).entries(), key@, info@),
            final(self).current_key() == old(self).current_key(),
            final(self).download() == old(self).download(),
    {
        self.add_if_absent(key, info);
    }

    /// Stores `info` under `key` unless `key` is present; tells whether it did.
    pub fn add_if_absent(&mut self, key: String, info: JdkInfo) -> (r: bool)
        requires
            old(self).wf(),
        ensures
            final(self).wf(),
            r == (key_index(old(self).entries(), key@) is None),
            final(self).entries() == added_if_absent(old(self).entries(), key@, info@),
            final(self).current_key() == old(self).current_key(),
            final(self).download() == old(self).download(),
    {
        let ghost es = self.entries();
        proof {
            lemma_key_index(es, key@);
        }
        if self.contains_key(key.as_str()) {
            false
        } else {
            let ghost e = (key@, info@);
            self.jdks.push((key, info));
            assert(self.entries() =~= es.push(e));
            true
        }
    }

    /// The record stored under `key`.
    pub fn get_jdk(&self, key: &str) -> (r: Option<&JdkInfo>)
        ensures
            match r {
                Some(x) => lookup(self.entries(), key@) == Some(x@),
                None => lookup(self.entries(), key@) is None,
            },
    {
        match self.index_of(key) {
            Some(i) => Some(&self.jdks[i].1),
            None => None,
        }
    }

    /// Points the current selection at `key`.
    pub fn set_current(&mut self, key: String)
        requires
            old(self).wf(),
        ensures
            final(self).wf(),
            final(self).current_key() == Some(key@),
            final(self).entries() == old(self).entries(),
            final(self).download() == old(self).download(),
    {
        self.current_jdk = Some(key);
    }

    /// The record the current pointer names, if it names a stored one.
    pub fn get_current(&self) -> (r: Option<&JdkInfo>)
        ensures
            match r {
                Some(x) => current_record(self) == Some(x@),
                None => current_record(self) is None,
            },
    {
        match &self.current_jdk {
            Some(k) => self.get_jdk(k.as_str()),
            None => None,
        }
    }

    /// The key of the last entry installed at `path`.
    pub fn key_for_path(&self, path: &str) -> (r: Option<String>)
        ensures
            r.deep_view() == path_key(self.entries(), path@),
    {
        let ghost es = self.entries();
        let mut i = self.jdks.len();
        assert(es.take(i as int) =~= es);
        while i > 0
            invariant
                i <= self.jdks@.len() == es.len(),
                es == self.entries(),
                path_key(es, path@) == path_key(es.take(i as int), path@),
            decreases i,
        {
            let ghost t = es.take(i as int);
            assert(t.drop_last() =~= es.take(i - 1));
            if crate::text::str_eq(self.jdks[i - 1].1.path.as_str(), path) {
                return Some(self.jdks[i - 1].0.clone());
            }
            i = i - 1;
        }
        None
    }
}

/// The record the registry's current pointer names.
pub open spec fn current_record(c: &Config) -> Option<JdkInfoView> {
    match c.current_key() {
        Some(k) => lookup(c.entries(), k),
        None => None,
    }
}

} // verus!
