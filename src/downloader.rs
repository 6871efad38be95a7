//! The parts of downloading a JDK that decide: which package, which file
//! type, which archive format.
use vstd::prelude::*;
use crate::error::JdkError;
use crate::platform::{Arch, Platform};
use crate::text::{decimal, decimal_of, has_infix, lower_of, lowercase, parse_u32, parsed_u32, str_eq, str_has_infix};

verus! {

broadcast use vstd::string::group_string_axioms;

/// A downloadable JDK build, as the package index describes it.
#[derive(Debug)]
pub struct JdkPackage {
    /// Full version, e.g. `17.0.9+9`.
    pub version: String,
    /// Major version, e.g. 17.
    pub major_version: u32,
    /// Vendor name, e.g. `temurin`.
    pub vendor: String,
    /// Operating system: `windows`, `linux` or `mac`.
    pub os: String,
    /// Architecture: `x64` or `aarch64`.
    pub arch: String,
    pub download_url: String,
    /// Size in bytes.
    pub size: u64,
    /// Archive type: `zip` or `tar.gz`.
    pub file_type: String,
    pub is_lts: bool,
    /// SHA-256 checksum, if published.
    pub checksum: Option<String>,
}

impl JdkPackage {
    /// A field-by-field copy.
    pub fn duplicate(&self) -> (r: JdkPackage)
        ensures
            r == *self,
    {
        JdkPackage {
            version: self.version.clone(),
            major_version: self.major_version,
            vendor: self.vendor.clone(),
            os: self.os.clone(),
            arch: self.arch.clone(),
            download_url: self.download_url.clone(),
            size: self.size,
            file_type: self.file_type.clone(),
            is_lts: self.is_lts,
            checksum: match &self.checksum {
                Some(c) => Some(c.clone()),
                None => None,
            },
        }
    }
}

/// The releases the package index offers, and which of them are LTS.
#[derive(Debug)]
pub struct AvailableReleases {
    available_releases: Vec<u32>,
    available_lts_releases: Vec<u32>,
}

impl AvailableReleases {
    pub fn new(available_releases: Vec<u32>, available_lts_releases: Vec<u32>) -> (r: AvailableReleases)
        ensures
            r.releases() == available_releases@,
            r.lts_releases() == available_lts_releases@,
    {
        AvailableReleases { available_releases, available_lts_releases }
    }

    pub closed spec fn releases(&self) -> Seq<u32> {
        self.available_releases@
    }

    pub closed spec fn lts_releases(&self) -> Seq<u32> {
        self.available_lts_releases@
    }

    /// The major versions on offer.
    pub fn available(&self) -> (r: &Vec<u32>)
        ensures
            r@ == self.releases(),
    {
        &self.available_releases
    }

    /// Whether `version` is a long-term-support release.
    pub fn is_lts(&self, version: u32) -> (r: bool)
        ensures
            r == self.lts_releases().contains(version),
    {
        let mut i: usize = 0;
        while i < self.available_lts_releases.len()
            invariant
                i <= self.lts_releases().len(),
                forall|k: int| 0 <= k < i ==> self.lts_releases()[k] != version,
            decreases self.lts_releases().len() - i,
        {
            if self.available_lts_releases[i] == version {
                assert(self.lts_releases()[i as int] == version);
                return true;
            }
            i = i + 1;
        }
        false
    }
}

/// The name the package index uses for an operating system.
pub open spec fn os_name(p: Platform) -> Seq<char> {
    match p {
        Platform::Windows => "windows"@,
        Platform::Linux => "linux"@,
        Platform::MacOs => "mac"@,
    }
}

/// The name the package index uses for an architecture.
pub open spec fn arch_name(a: Arch) -> Seq<char> {
    match a {
        Arch::X64 => "x64"@,
        Arch::Aarch64 => "aarch64"@,
    }
}

/// The index's name for platform `p`.
pub fn detect_os(p: Platform) -> (r: String)
    ensures
        r@ == os_name(p),
{
    match p {
        Platform::Windows => "windows".to_owned(),
        Platform::Linux => "linux".to_owned(),
        Platform::MacOs => "mac".to_owned(),
    }
}

/// The index's name for architecture `a`.
pub fn detect_arch(a: Arch) -> (r: String)
    ensures
        r@ == arch_name(a),
{
    match a {
        Arch::X64 => "x64".to_owned(),
        Arch::Aarch64 => "aarch64".to_owned(),
    }
}

/// The archive type published for an operating system name.
pub open spec fn file_type_for(os: Seq<char>) -> Seq<char> {
    if os == "linux"@ || os == "mac"@ {
        "tar.gz"@
    } else {
        "zip"@
    }
}

/// The archive type published for an operating system name: `tar.gz` for
/// `linux` and `mac`, `zip` otherwise.
pub fn get_file_type(os: &str) -> (r: &'static str)
    ensures
        r@ == file_type_for(os@),
{
    if str_eq(os, "linux") || str_eq(os, "mac") {
        "tar.gz"
    } else {
        "zip"
    }
}

/// The first package of major version `major_version`; `JdkNotFound` with
/// the version when there is none.
pub fn find_package(packages: &Vec<JdkPackage>, major_version: u32) -> (r: Result<JdkPackage, JdkError>)
    ensures
        match r {
            Ok(p) => exists|i: int|
                0 <= i < packages@.len() && p == packages@[i] && p.major_version == major_version
                    && forall|j: int| 0 <= j < i ==> packages@[j].major_version != major_version,
            Err(e) => {
                &&& forall|j: int|
                    0 <= j < packages@.len() ==> packages@[j].major_version != major_version
                &&& e matches JdkError::JdkNotFound(v) && v@ == decimal_of(major_version as nat)
            },
        },
{
    let mut i: usize = 0;
    while i < packages.len()
        invariant
            i <= packages@.len(),
            forall|j: int| 0 <= j < i ==> packages@[j].major_version != major_version,
        decreases packages@.len() - i,
    {
        if packages[i].major_version == major_version {
            return Ok(packages[i].duplicate());
        }
        i = i + 1;
    }
    Err(JdkError::JdkNotFound(decimal(major_version)))
}

/// The major version a download request names; `InvalidVersion` when it
/// is not a number.
pub fn parse_major_version(version: &str) -> (r: Result<u32, JdkError>)
    ensures
        match parsed_u32(version@) {
            Some(n) => r == Ok::<u32, JdkError>(n),
            None => r matches Err(JdkError::InvalidVersion(v)) && v@ == version@,
        },
{
    match parse_u32(version) {
        Some(n) => Ok(n),
        None => Err(JdkError::InvalidVersion(version.to_owned())),
    }
}

/// Whether a package matches a search keyword, given the lowercased
/// version, vendor and keyword: the keyword occurs in the version or the
/// vendor, or spells the major version exactly.
pub open spec fn keyword_match(
    version_lower: Seq<char>,
    vendor_lower: Seq<char>,
    major_version: u32,
    keyword_lower: Seq<char>,
    keyword: Seq<char>,
) -> bool {
    has_infix(version_lower, keyword_lower) || has_infix(vendor_lower, keyword_lower)
        || decimal_of(major_version as nat) == keyword
}

/// Whether a package matches a search keyword, given the lowercased
/// version, vendor and keyword.
pub fn matches_keyword(
    version_lower: &str,
    vendor_lower: &str,
    major_version: u32,
    keyword_lower: &str,
    keyword: &str,
) -> (r: bool)
    ensures
        r == keyword_match(version_lower@, vendor_lower@, major_version, keyword_lower@, keyword@),
{
    if str_has_infix(version_lower, keyword_lower) || str_has_infix(vendor_lower, keyword_lower) {
        return true;
    }
    let m = decimal(major_version);
    str_eq(m.as_str(), keyword)
}

/// Whether package `p` matches `keyword`, case-insensitively for the text
/// fields.
pub open spec fn package_matches(p: JdkPackage, keyword: Seq<char>) -> bool {
    keyword_match(lower_of(p.version@), lower_of(p.vendor@), p.major_version, lower_of(keyword), keyword)
}

/// The packages that match `keyword`, in order.
pub open spec fn matching_packages(ps: Seq<JdkPackage>, keyword: Seq<char>) -> Seq<JdkPackage> {
    ps.filter(|p: JdkPackage| package_matches(p, keyword))
}

/// Keeps the packages that match `keyword`, in order.
pub fn filter_packages(packages: Vec<JdkPackage>, keyword: &str) -> (r: Vec<JdkPackage>)
    ensures
        r@ == matching_packages(packages@, keyword@),
{
    let keyword_lower = lowercase(keyword);
    let mut out: Vec<JdkPackage> = Vec::new();
    proof {
        reveal(Seq::filter);
    }
    let mut i: usize = 0;
    while i < packages.len()
        invariant
            i <= packages@.len(),
            keyword_lower@ == lower_of(keyword@),
            out@ == matching_packages(packages@.take(i as int), keyword@),
        decreases packages@.len() - i,
    {
        let p = &packages[i];
        assert(packages@.take(i + 1).drop_last() =~= packages@.take(i as int));
        proof {
            reveal(Seq::filter);
        }
        let v = lowercase(p.version.as_str());
        let d = lowercase(p.vendor.as_str());
        if matches_keyword(v.as_str(), d.as_str(), p.major_version, keyword_lower.as_str(), keyword) {
            out.push(p.duplicate());
        }
        i = i + 1;
    }
    assert(packages@.take(packages@.len() as int) =~= packages@);
    out
}

/// The packages of `ps` with major version `m`, in order.
pub open spec fn of_major(ps: Seq<JdkPackage>, m: u32) -> Seq<JdkPackage> {
    ps.filter(|p: JdkPackage| p.major_version == m)
}

/// The views of groups of packages.
pub open spec fn groups_view(gs: Seq<(u32, Vec<JdkPackage>)>) -> Seq<(u32, Seq<JdkPackage>)> {
    gs.map_values(|g: (u32, Vec<JdkPackage>)| (g.0, g.1@))
}

/// `gs` groups `ps` by major version: majors strictly descending, each
/// group the packages of its major in their order, every package's major
/// present.
pub open spec fn grouped_by_major(ps: Seq<JdkPackage>, gs: Seq<(u32, Seq<JdkPackage>)>) -> bool {
    &&& forall|a: int, b: int| 0 <= a < b < gs.len() ==> gs[a].0 > gs[b].0
    &&& forall|a: int|
        0 <= a < gs.len() ==> #[trigger] gs[a].1 == of_major(ps, gs[a].0) && gs[a].1.len() > 0
    &&& forall|k: int|
        0 <= k < ps.len() ==> exists|a: int|
            0 <= a < gs.len() && #[trigger] gs[a].0 == #[trigger] ps[k].major_version
}

proof fn lemma_of_major_step(ps: Seq<JdkPackage>, i: int, m: u32)
    requires
        0 <= i < ps.len(),
    ensures
        of_major(ps.take(i + 1), m) == if ps[i].major_version == m {
            of_major(ps.take(i), m).push(ps[i])
        } else {
            of_major(ps.take(i), m)
        },
{
    reveal(Seq::filter);
    assert(ps.take(i + 1).drop_last() =~= ps.take(i));
}

proof fn lemma_of_major_none(ps: Seq<JdkPackage>, m: u32)
    requires
        forall|k: int| 0 <= k < ps.len() ==> ps[k].major_version != m,
    ensures
        of_major(ps, m) == Seq::<JdkPackage>::empty(),
    decreases ps.len(),
{
    reveal(Seq::filter);
    if ps.len() > 0 {
        lemma_of_major_none(ps.drop_last(), m);
    }
}

/// Groups packages by major version, newest major first, each group in
/// the order the packages came.
pub fn group_by_major(packages: &Vec<JdkPackage>) -> (r: Vec<(u32, Vec<JdkPackage>)>)
    ensures
        grouped_by_major(packages@, groups_view(r@)),
{
    let ghost ps = packages@;
    let mut groups: Vec<(u32, Vec<JdkPackage>)> = Vec::new();
    let mut i: usize = 0;
    while i < packages.len()
        invariant
            ps == packages@,
            i <= ps.len(),
            grouped_by_major(ps.take(i as int), groups_view(groups@)),
        decreases ps.len() - i,
    {
        let p = packages[i].duplicate();
        let m = p.major_version;
        let ghost gv = groups_view(groups@);
        let ghost t = ps.take(i as int);
        let ghost t1 = ps.take(i + 1);
        assert(t1[i as int] == ps[i as int]);
        assert forall|k: int| 0 <= k < i implies t1[k] == #[trigger] t[k] by {}
        let mut a: usize = 0;
        while a < groups.len() && groups[a].0 > m
            invariant
                a <= groups@.len(),
                gv == groups_view(groups@),
                forall|b: int| 0 <= b < a ==> gv[b].0 > m,
            decreases groups@.len() - a,
        {
            a = a + 1;
        }
        if a < groups.len() && groups[a].0 == m {
            let mut g = groups.remove(a);
            g.1.push(p);
            groups.insert(a, g);
            proof {
                let nv = groups_view(groups@);
                assert(nv =~= gv.update(a as int, (m, gv[a as int].1.push(ps[i as int]))));
                assert forall|c: int| 0 <= c < nv.len() implies #[trigger] nv[c].1 == of_major(
                    t1,
                    nv[c].0,
                ) && nv[c].1.len() > 0 by {
                    lemma_of_major_step(ps, i as int, nv[c].0);
                    assert(gv[c].1 == of_major(t, gv[c].0));
                }
                assert forall|k: int| 0 <= k < t1.len() implies exists|c: int|
                    0 <= c < nv.len() && #[trigger] nv[c].0 == #[trigger] t1[k].major_version by {
                    if k < i {
                        let c = choose|c: int| 0 <= c < gv.len() && gv[c].0 == t[k].major_version;
                        assert(nv[c].0 == t1[k].major_version);
                    } else {
                        assert(nv[a as int].0 == t1[k].major_version);
                    }
                }
            }
        } else {
            let mut g: Vec<JdkPackage> = Vec::new();
            g.push(p);
            groups.insert(a, (m, g));
            proof {
                assert forall|k: int| 0 <= k < t.len() implies t[k].major_version != m by {
                    let c = choose|c: int| 0 <= c < gv.len() && gv[c].0 == t[k].major_version;
                    if c < a {
                        assert(gv[c].0 > m);
                    } else if c > a {
                        assert(gv[a as int].0 > gv[c].0);
                    }
                }
                lemma_of_major_none(t, m);
                let nv = groups_view(groups@);
                assert(nv =~= gv.insert(a as int, (m, seq![ps[i as int]])));
                assert forall|c: int| 0 <= c < nv.len() implies #[trigger] nv[c].1 == of_major(
                    t1,
                    nv[c].0,
                ) && nv[c].1.len() > 0 by {
                    lemma_of_major_step(ps, i as int, nv[c].0);
                    if c < a {
                        assert(nv[c] == gv[c]);
                        assert(gv[c].1 == of_major(t, gv[c].0));
                    } else if c == a {
                        assert(Seq::<JdkPackage>::empty().push(ps[i as int]) =~= seq![ps[i as int]]);
                    } else {
                        assert(nv[c] == gv[c - 1]);
                        assert(gv[c - 1].1 == of_major(t, gv[c - 1].0));
                    }
                }
                assert forall|b: int, c: int| 0 <= b < c < nv.len() implies nv[b].0 > nv[c].0 by {
                    if c == a {
                        assert(nv[b] == gv[b]);
                    } else if b == a {
                        assert(nv[c] == gv[c - 1]);
                    } else if b < a && c < a {
                        assert(nv[b] == gv[b] && nv[c] == gv[c]);
                    } else if b < a {
                        assert(nv[b] == gv[b] && nv[c] == gv[c - 1]);
                    } else {
                        assert(nv[b] == gv[b - 1] && nv[c] == gv[c - 1]);
                    }
                }
                assert forall|k: int| 0 <= k < t1.len() implies exists|c: int|
                    0 <= c < nv.len() && #[trigger] nv[c].0 == #[trigger] t1[k].major_version by {
                    if k < i {
                        let c = choose|c: int| 0 <= c < gv.len() && gv[c].0 == t[k].major_version;
                        if c < a {
                            assert(nv[c].0 == t1[k].major_version);
                        } else {
                            assert(nv[c + 1].0 == t1[k].major_version);
                        }
                    } else {
                        assert(nv[a as int].0 == t1[k].major_version);
                    }
                }
            }
        }
        i = i + 1;
    }
    assert(ps.take(ps.len() as int) =~= ps);
    groups
}

/// The archive formats the extractor unpacks.
#[derive(Debug, Clone, Copy, PartialEq, Eq, Structural)]
pub enum ArchiveFormat {
    Zip,
    TarGz,
}

/// Unpacks downloaded archives.
pub struct Extractor;

impl Extractor {
    pub fn new() -> (r: Extractor) {
        Extractor
    }

    /// The format of an archive with file extension `extension`: `zip`, or
    /// a gzip-compressed tar for `gz` (as in `.tar.gz`), `tgz` or `tar`; no
    /// extension or another one is an `ExtractionError`.
    pub fn archive_format(&self, extension: Option<&str>) -> (r: Result<ArchiveFormat, JdkError>)
        ensures
            match extension {
                None => r matches Err(JdkError::ExtractionError(m)) && m@ == "Unknown file type"@,
                Some(e) => if e@ == "zip"@ {
                    r == Ok::<ArchiveFormat, JdkError>(ArchiveFormat::Zip)
                } else if e@ == "tar"@ || e@ == "gz"@ || e@ == "tgz"@ {
                    r == Ok::<ArchiveFormat, JdkError>(ArchiveFormat::TarGz)
                } else {
                    r matches Err(JdkError::ExtractionError(m)) && m@ == "Unsupported format: "@ + e@
                },
            },
    {
        match extension {
            None => Err(JdkError::ExtractionError("Unknown file type".to_owned())),
            Some(e) => {
                if str_eq(e, "zip") {
                    Ok(ArchiveFormat::Zip)
                } else if str_eq(e, "tar") || str_eq(e, "gz") || str_eq(e, "tgz") {
                    Ok(ArchiveFormat::TarGz)
                } else {
                    let mut m = "Unsupported format: ".to_owned();
                    m.append(e);
                    Err(JdkError::ExtractionError(m))
                }
            },
        }
    }
}

/// The file name a downloaded package is stored under:
/// `jdk-<major>-<vendor>.<file type>`.
pub fn archive_file_name(p: &JdkPackage) -> (r: String)
    ensures
        r@ == "jdk-"@ + decimal_of(p.major_version as nat) + "-"@ + p.vendor@ + "."@ + p.file_type@,
{
    let mut s = "jdk-".to_owned();
    let m = decimal(p.major_version);
    s.append(m.as_str());
    s.append("-");
    s.append(p.vendor.as_str());
    s.append(".");
    s.append(p.file_type.as_str());
    s
}

} // verus!
