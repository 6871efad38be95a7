//! Recognising a JDK installation and reading its version probe.
use vstd::prelude::*;
use crate::config::{JdkInfo, JdkInfoView};
use crate::platform::{Platform, join_path, joined};
use crate::text::{
    chars_of, find_char_from, find_from, find_infix_from, has_infix, lemma_find_from_range,
    vec_find_infix,
    string_of_range, vec_has_infix,
};

verus! {

broadcast use vstd::string::group_string_axioms;

/// `line` without one trailing carriage return.
pub open spec fn strip_cr(line: Seq<char>) -> Seq<char> {
    if line.len() > 0 && line.last() == '\r' {
        line.drop_last()
    } else {
        line
    }
}

/// Reading `s` left to right: the lines ended so far, and the text of the
/// line not yet ended.
pub open spec fn split_state(s: Seq<char>) -> (Seq<Seq<char>>, Seq<char>)
    decreases s.len(),
{
    if s.len() == 0 {
        (Seq::empty(), Seq::empty())
    } else {
        let (done, cur) = split_state(s.drop_last());
        if s.last() == '\n' {
            (done.push(strip_cr(cur)), Seq::empty())
        } else {
            (done, cur.push(s.last()))
        }
    }
}

/// The lines of `s`: split at `\n`, one carriage return before it dropped,
/// and no empty line after a final `\n`.
pub open spec fn lines_of(s: Seq<char>) -> Seq<Seq<char>> {
    let (done, cur) = split_state(s);
    if cur.len() == 0 {
        done
    } else {
        done.push(cur)
    }
}

/// The text between the first two double quotes of `line`.
pub open spec fn quoted(line: Seq<char>) -> Option<Seq<char>> {
    match find_from(line, '"', 0) {
        Some(a) => match find_from(line, '"', a + 1) {
            Some(b) => Some(line.subrange(a + 1, b)),
            None => None,
        },
        None => None,
    }
}

/// The dot-separated component of `full` that starts at `start`.
pub open spec fn component_from(full: Seq<char>, start: int) -> Seq<char> {
    match find_from(full, '.', start) {
        Some(e) => full.subrange(start, e),
        None => full.subrange(start, full.len() as int),
    }
}

/// Whether `full` follows the legacy `1.x` numbering.
pub open spec fn legacy_numbering(full: Seq<char>) -> bool {
    full.len() >= 2 && full[0] == '1' && full[1] == '.'
}

/// The version key of a full version string: the second dot-separated
/// component under legacy numbering, the first otherwise.
pub open spec fn version_key_of(full: Seq<char>) -> Seq<char> {
    if legacy_numbering(full) {
        component_from(full, 2)
    } else {
        component_from(full, 0)
    }
}

/// The vendor a text names, by fixed precedence: the first of the known
/// signatures that occurs in it.
pub open spec fn vendor_named(line: Seq<char>) -> Option<Seq<char>> {
    if has_infix(line, "OpenJDK"@) {
        Some("OpenJDK"@)
    } else if has_infix(line, "Oracle"@) {
        Some("Oracle"@)
    } else if has_infix(line, "Temurin"@) || has_infix(line, "Eclipse"@) {
        Some("Eclipse Temurin"@)
    } else if has_infix(line, "Zulu"@) {
        Some("Azul Zulu"@)
    } else if has_infix(line, "Microsoft"@) {
        Some("Microsoft"@)
    } else {
        None
    }
}

/// The full version a probe line announces: the first double-quoted token
/// after the first occurrence of the word `version`.
pub open spec fn announced_version(line: Seq<char>) -> Option<Seq<char>> {
    match find_infix_from(line, "version"@, 0) {
        Some(w) => match find_from(line, '"', w + "version"@.len()) {
            Some(a) => match find_from(line, '"', a + 1) {
                Some(b) => Some(line.subrange(a + 1, b)),
                None => None,
            },
            None => None,
        },
        None => None,
    }
}

/// The full version announced by the first line of `lines` that announces one.
pub open spec fn first_announced(lines: Seq<Seq<char>>) -> Option<Seq<char>>
    decreases lines.len(),
{
    if lines.len() == 0 {
        None
    } else {
        match first_announced(lines.drop_last()) {
            Some(full) => Some(full),
            None => announced_version(lines.last()),
        }
    }
}

/// What the probe output says: (version key, vendor, full version).
pub type ProbeFacts = (Seq<char>, Option<Seq<char>>, Option<Seq<char>>);

/// The facts read from a whole probe output: the first announced full
/// version and its key (`unknown` when no line announces one), and the
/// vendor by fixed precedence over the whole output.
pub open spec fn parsed_probe(output: Seq<char>) -> ProbeFacts {
    let full = first_announced(lines_of(output));
    (
        match full {
            Some(f) => version_key_of(f),
            None => "unknown"@,
        },
        vendor_named(output),
        full,
    )
}

/// Detection of JDK installations.
pub struct JdkDetector;

/// What the filesystem showed of a candidate directory.
#[derive(Debug)]
pub struct JdkLayout {
    /// The candidate installation root.
    pub path: String,
    /// The path is a directory.
    pub is_dir: bool,
    /// The platform's java executable exists under `bin`.
    pub has_java: bool,
    /// A `lib` directory exists beneath it.
    pub has_lib: bool,
}

/// The well-known installation roots searched on each platform.
pub open spec fn search_roots(p: Platform) -> Seq<Seq<char>> {
    match p {
        Platform::Windows => seq!["C:\\"@, "D:\\"@, "E:\\"@, "F:\\"@, "G:\\"@],
        Platform::MacOs => seq![
            "/Library/Java/JavaVirtualMachines"@,
            "/System/Library/Java/JavaVirtualMachines"@,
        ],
        Platform::Linux => seq!["/usr/lib/jvm"@, "/usr/java"@, "/opt/java"@],
    }
}

/// The file name of the java executable.
pub open spec fn java_exe_name(p: Platform) -> Seq<char> {
    if p is Windows {
        "java.exe"@
    } else {
        "java"@
    }
}

/// Where the java executable of the JDK rooted at `root` lies.
pub open spec fn java_executable(root: Seq<char>, p: Platform) -> Seq<char> {
    joined(joined(root, "bin"@, p), java_exe_name(p), p)
}

/// The record a successful probe of `path` gives.
pub open spec fn probed_record(path: Seq<char>, output: Seq<char>) -> JdkInfoView {
    let facts = parsed_probe(output);
    JdkInfoView { path, version: facts.0, vendor: facts.1, java_version: facts.2 }
}

/// Whether some record of `s` has installation root `p`.
pub open spec fn has_path(s: Seq<JdkInfoView>, p: Seq<char>) -> bool {
    exists|i: int| 0 <= i < s.len() && s[i].path == p
}

/// `s` with every record dropped whose root an earlier record already has.
pub open spec fn first_by_path(s: Seq<JdkInfoView>) -> Seq<JdkInfoView>
    decreases s.len(),
{
    if s.len() == 0 {
        s
    } else {
        let d = first_by_path(s.drop_last());
        if has_path(d, s.last().path) {
            d
        } else {
            d.push(s.last())
        }
    }
}

/// The views of a vector of records.
pub open spec fn infos_view(v: Seq<JdkInfo>) -> Seq<JdkInfoView> {
    v.map_values(|x: JdkInfo| x@)
}

/// The version key of `full` (as a character vector).
fn key_of_chars(full: &Vec<char>) -> (r: String)
    ensures
        r@ == version_key_of(full@),
{
    let start: usize = if full.len() >= 2 && full[0] == '1' && full[1] == '.' {
        2
    } else {
        0
    };
    proof {
        lemma_find_from_range(full@, '.', start as int);
    }
    match find_char_from(full, '.', start) {
        Some(e) => string_of_range(full, start, e),
        None => string_of_range(full, start, full.len()),
    }
}

/// Whether `line` holds the literal `pat`.
fn line_has(line: &Vec<char>, pat: &str) -> (r: bool)
    ensures
        r == has_infix(line@, pat@),
{
    let p = chars_of(pat);
    vec_has_infix(line, &p)
}

/// The vendor named by one probe line.
fn vendor_of(line: &Vec<char>) -> (r: Option<String>)
    ensures
        r.deep_view() == vendor_named(line@),
{
    if line_has(line, "OpenJDK") {
        Some("OpenJDK".to_owned())
    } else if line_has(line, "Oracle") {
        Some("Oracle".to_owned())
    } else if line_has(line, "Temurin") || line_has(line, "Eclipse") {
        Some("Eclipse Temurin".to_owned())
    } else if line_has(line, "Zulu") {
        Some("Azul Zulu".to_owned())
    } else if line_has(line, "Microsoft") {
        Some("Microsoft".to_owned())
    } else {
        None
    }
}

/// Where the full version announced by one probe line lies in it.
fn announced_span(line: &Vec<char>) -> (r: Option<(usize, usize)>)
    ensures
        r is None <==> announced_version(line@) is None,
        r matches Some((a, b)) ==> a <= b <= line@.len() && announced_version(line@) == Some(
            line@.subrange(a as int, b as int),
        ),
{
    let word = chars_of("version");
    let n = line.len();
    match vec_find_infix(line, &word) {
        Some(w) => {
            let from = w + word.len();
            proof {
                lemma_find_from_range(line@, '"', from as int);
            }
            match find_char_from(line, '"', from) {
                Some(a) => {
                    proof {
                        lemma_find_from_range(line@, '"', a + 1);
                    }
                    match find_char_from(line, '"', a + 1) {
                        Some(b) => Some((a + 1, b)),
                        None => None,
                    }
                },
                None => None,
            }
        },
        None => None,
    }
}

/// Records the full version one probe line announces, unless an earlier
/// line announced one.
fn take_line(line: &Vec<char>, java_version: &mut Option<String>)
    ensures
        final(java_version).deep_view() == match old(java_version).deep_view() {
            Some(f) => Some(f),
            None => announced_version(line@),
        },
{
    if java_version.is_none() {
        match announced_span(line) {
            Some((a, b)) => {
                *java_version = Some(string_of_range(line, a, b));
            },
            None => {},
        }
    }
}

impl JdkDetector {
    /// The well-known installation roots of platform `p`.
    pub fn get_search_paths(p: Platform) -> (r: Vec<String>)
        ensures
            r.deep_view() == search_roots(p),
    {
        let mut paths: Vec<String> = Vec::new();
        match p {
            Platform::Windows => {
                paths.push("C:\\".to_owned());
                paths.push("D:\\".to_owned());
                paths.push("E:\\".to_owned());
                paths.push("F:\\".to_owned());
                paths.push("G:\\".to_owned());
            },
            Platform::MacOs => {
                paths.push("/Library/Java/JavaVirtualMachines".to_owned());
                paths.push("/System/Library/Java/JavaVirtualMachines".to_owned());
            },
            Platform::Linux => {
                paths.push("/usr/lib/jvm".to_owned());
                paths.push("/usr/java".to_owned());
                paths.push("/opt/java".to_owned());
            },
        }
        assert(paths.deep_view() =~= search_roots(p));
        paths
    }

    /// Where the java executable of the JDK rooted at `jdk_path` lies.
    pub fn get_java_executable(jdk_path: &str, p: Platform) -> (r: String)
        ensures
            r@ == java_executable(jdk_path@, p),
    {
        let bin = join_path(jdk_path, "bin", p);
        let exe = if p == Platform::Windows {
            "java.exe"
        } else {
            "java"
        };
        join_path(bin.as_str(), exe, p)
    }

    /// Whether the directory holds the markers of a JDK: it is a directory,
    /// with the java executable under `bin` and a `lib` directory.
    pub fn is_valid_jdk(layout: &JdkLayout) -> (r: bool)
        ensures
            r == (layout.is_dir && layout.has_java && layout.has_lib),
    {
        layout.is_dir && layout.has_java && layout.has_lib
    }

    /// The record for the JDK at `path`, given the diagnostic output of its
    /// version probe; `None` when the probe did not run or its output
    /// announces no version.
    pub fn get_jdk_info(path: &str, probe_output: Option<&str>) -> (r: Option<JdkInfo>)
        ensures
            r is Some <==> (probe_output is Some && parsed_probe(probe_output->0@).2 is Some),
            r matches Some(info) ==> info@ == probed_record(path@, probe_output->0@),
    {
        match probe_output {
            Some(out) => {
                let (version, vendor, java_version) = Self::parse_version_output(out);
                if java_version.is_none() {
                    return None;
                }
                Some(JdkInfo { path: path.to_owned(), version, vendor, java_version })
            },
            None => None,
        }
    }

    /// Keeps the first record found for each installation root, in order.
    pub fn dedup_by_path(found: Vec<JdkInfo>) -> (r: Vec<JdkInfo>)
        ensures
            infos_view(r@) == first_by_path(infos_view(found@)),
    {
        let ghost s = infos_view(found@);
        let mut out: Vec<JdkInfo> = Vec::new();
        let mut rest = found;
        let n = rest.len();
        let mut i: usize = 0;
        while i < n
            invariant
                n == s.len(),
                i <= n,
                rest@.len() + i == n,
                forall|k: int| 0 <= k < rest@.len() ==> rest@[k]@ == s[i + k],
                infos_view(out@) == first_by_path(s.take(i as int)),
            decreases n - i,
        {
            proof {
                assert(s.take(i + 1).drop_last() =~= s.take(i as int));
            }
            let x = rest.remove(0);
            i = i + 1;
            let mut j: usize = 0;
            let mut dup = false;
            while j < out.len() && !dup
                invariant
                    j <= out@.len(),
                    dup ==> has_path(infos_view(out@), x@.path),
                    !dup ==> forall|t: int| 0 <= t < j ==> out@[t]@.path != x@.path,
                decreases out@.len() - j + (if dup { 0int } else { 1int }),
            {
                if crate::text::str_eq(out[j].path.as_str(), x.path.as_str()) {
                    dup = true;
                    assert(infos_view(out@)[j as int].path == x@.path);
                } else {
                    j = j + 1;
                }
            }
            if !dup {
                let ghost before = infos_view(out@);
                out.push(x);
                assert(infos_view(out@) =~= before.push(x@));
            }
        }
        assert(s.take(n as int) =~= s);
        out
    }
    /// The version key of a full version string: `1.8.0_291` gives `8`,
    /// `17.0.2` gives `17`.
    pub fn version_key(full: &str) -> (r: String)
        ensures
            r@ == version_key_of(full@),
    {
        let v = chars_of(full);
        key_of_chars(&v)
    }

    /// Reads the diagnostic output of `java -version`: the version key of
    /// the first announced full version (`unknown` if no line announces
    /// one), the vendor, and that full version.
    pub fn parse_version_output(output: &str) -> (r: (String, Option<String>, Option<String>))
        ensures
            (r.0@, r.1.deep_view(), r.2.deep_view()) == parsed_probe(output@),
    {
        let chars = chars_of(output);
        let n = chars.len();
        let mut java_version: Option<String> = None;
        let mut cur: Vec<char> = Vec::new();
        let mut i: usize = 0;
        assert(chars@.take(0) =~= Seq::<char>::empty());
        while i < n
            invariant
                n == chars@.len(),
                chars@ == output@,
                i <= n,
                split_state(chars@.take(i as int)).1 == cur@,
                first_announced(split_state(chars@.take(i as int)).0) == java_version.deep_view(),
            decreases n - i,
        {
            let c = chars[i];
            assert(chars@.take(i + 1).drop_last() =~= chars@.take(i as int));
            if c == '\n' {
                if cur.len() > 0 && cur[cur.len() - 1] == '\r' {
                    cur.pop();
                }
                let ghost done = split_state(chars@.take(i as int)).0;
                take_line(&cur, &mut java_version);
                assert(split_state(chars@.take(i + 1)).0.drop_last() =~= done);
                cur = Vec::new();
            } else {
                cur.push(c);
            }
            i = i + 1;
        }
        assert(chars@.take(n as int) =~= chars@);
        if cur.len() > 0 {
            let ghost done = split_state(chars@).0;
            take_line(&cur, &mut java_version);
            assert(lines_of(chars@).drop_last() =~= done);
        }
        let version = match &java_version {
            Some(full) => {
                let fv = chars_of(full.as_str());
                key_of_chars(&fv)
            },
            None => "unknown".to_owned(),
        };
        let vendor = vendor_of(&chars);
        (version, vendor, java_version)
    }
}

} // verus!
