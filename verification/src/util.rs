//! Small naming and platform helpers used around the build: executable
//! and library file names, the library directory of a target, which
//! targets use the host linker, which hosts call `make` by another name,
//! and classification of the CI environment from its telltale
//! environment values.

use vstd::prelude::*;
use vstd::string::*;

verus! {

/// `sub` occurs in `s` starting at index `k`.
pub open spec fn matches_at(s: Seq<char>, sub: Seq<char>, k: int) -> bool {
    0 <= k && k + sub.len() <= s.len() && (forall|j: int|
        0 <= j < sub.len() ==> s[k + j] == #[trigger] sub[j])
}

/// `s` ends with `suffix`.
pub open spec fn ends_with_spec(s: Seq<char>, suffix: Seq<char>) -> bool {
    suffix.len() <= s.len() && matches_at(s, suffix, s.len() - suffix.len())
}

/// `sub` occurs somewhere in `s`.
pub open spec fn contains_spec(s: Seq<char>, sub: Seq<char>) -> bool {
    exists|k: int| #[trigger] matches_at(s, sub, k)
}

fn str_matches_at(s: &str, sub: &str, k: usize) -> (r: bool)
    requires
        k + sub@.len() <= s@.len(),
    ensures
        r == matches_at(s@, sub@, k as int),
{
    let n = s.unicode_len();
    let m = sub.unicode_len();
    let mut j: usize = 0;
    while j < m
        invariant
            n == s@.len(),
            m == sub@.len(),
            k + m <= n,
            j <= m,
            forall|t: int| 0 <= t < j ==> s@[k + t] == #[trigger] sub@[t],
        decreases m - j,
    {
        if s.get_char(k + j) != sub.get_char(j) {
            proof {
                if matches_at(s@, sub@, k as int) {
                    assert(s@[k + j] == sub@[j as int]);
                }
            }
            return false;
        }
        j += 1;
    }
    true
}

fn str_ends_with(s: &str, suffix: &str) -> (r: bool)
    ensures
        r == ends_with_spec(s@, suffix@),
{
    let n = s.unicode_len();
    let m = suffix.unicode_len();
    if m > n {
        return false;
    }
    str_matches_at(s, suffix, n - m)
}

fn str_contains(s: &str, sub: &str) -> (r: bool)
    ensures
        r == contains_spec(s@, sub@),
{
    let n = s.unicode_len();
    let m = sub.unicode_len();
    if m > n {
        proof {
            if contains_spec(s@, sub@) {
                let w = choose|w: int| matches_at(s@, sub@, w);
                assert(w + sub@.len() <= s@.len());
            }
        }
        return false;
    }
    let mut k: usize = 0;
    while k <= n - m
        invariant
            n == s@.len(),
            m == sub@.len(),
            m <= n,
            k <= n - m + 1,
            forall|t: int| 0 <= t < k ==> !#[trigger] matches_at(s@, sub@, t),
        decreases n - m + 1 - k,
    {
        if str_matches_at(s, sub, k) {
            proof {
                assert(matches_at(s@, sub@, k as int));
            }
            return true;
        }
        k += 1;
    }
    proof {
        if contains_spec(s@, sub@) {
            let w = choose|w: int| matches_at(s@, sub@, w);
            assert(w + sub@.len() <= s@.len());
            assert(!matches_at(s@, sub@, w));
        }
    }
    false
}

fn str_eq(a: &str, b: &str) -> (r: bool)
    ensures
        r == (a@ == b@),
{
    let n = a.unicode_len();
    let m = b.unicode_len();
    if n != m {
        return false;
    }
    let mut j: usize = 0;
    while j < n
        invariant
            n == a@.len(),
            n == b@.len(),
            j <= n,
            forall|t: int| 0 <= t < j ==> a@[t] == #[trigger] b@[t],
        decreases n - j,
    {
        if a.get_char(j) != b.get_char(j) {
            return false;
        }
        j += 1;
    }
    proof {
        assert(a@ =~= b@);
    }
    true
}

/// A compilation target, carried as its triple.
pub struct TargetSelection {
    pub triple: String,
}

impl TargetSelection {
    pub fn from_triple(triple: String) -> (r: TargetSelection)
        ensures
            r.triple@ == triple@,
    {
        TargetSelection { triple }
    }

    /// Whether the target triple mentions `needle`.
    pub fn contains(&self, needle: &str) -> (r: bool)
        ensures
            r == contains_spec(self.triple@, needle@),
    {
        str_contains(self.triple.as_str(), needle)
    }
}

/// Given an executable called `name`, the filename of that executable on
/// the given target: Windows targets append `.exe`.
pub fn exe(name: &str, target: &TargetSelection) -> (r: String)
    ensures
        r@ == (if contains_spec(target.triple@, "windows"@) {
            name@ + ".exe"@
        } else {
            name@
        }),
{
    if target.contains("windows") {
        let mut s = name.to_owned();
        s.append(".exe");
        s
    } else {
        name.to_owned()
    }
}

/// Whether the file name given looks like a dynamic library.
pub fn is_dylib(name: &str) -> (r: bool)
    ensures
        r == (ends_with_spec(name@, ".dylib"@) || ends_with_spec(name@, ".so"@) || ends_with_spec(
            name@,
            ".dll"@,
        )),
{
    str_ends_with(name, ".dylib") || str_ends_with(name, ".so") || str_ends_with(name, ".dll")
}

/// Whether the file name given looks like a debug info file.
pub fn is_debug_info(name: &str) -> (r: bool)
    ensures
        r == ends_with_spec(name@, ".pdb"@),
{
    str_ends_with(name, ".pdb")
}

/// The relative library directory the compiler's dylibs are found in on
/// the given target.
pub fn libdir(target: &TargetSelection) -> (r: &'static str)
    ensures
        r@ == (if contains_spec(target.triple@, "windows"@) {
            "bin"@
        } else {
            "lib"@
        }),
{
    if target.contains("windows") {
        "bin"
    } else {
        "lib"
    }
}

/// Whether the given target links with the host linker rather than its
/// own.
pub fn use_host_linker(target: &TargetSelection) -> (r: bool)
    ensures
        r == !(contains_spec(target.triple@, "emscripten"@) || contains_spec(
            target.triple@,
            "wasm32"@,
        ) || contains_spec(target.triple@, "nvptx"@) || contains_spec(target.triple@, "fortanix"@)
            || contains_spec(target.triple@, "fuchsia"@) || contains_spec(target.triple@, "bpf"@)),
{
    !(target.contains("emscripten") || target.contains("wasm32") || target.contains("nvptx")
        || target.contains("fortanix") || target.contains("fuchsia") || target.contains("bpf"))
}

/// The name of GNU make on the given host triple.
pub fn make(host: &str) -> (r: String)
    ensures
        r@ == (if contains_spec(host@, "dragonfly"@) || contains_spec(host@, "freebsd"@)
            || contains_spec(host@, "netbsd"@) || contains_spec(host@, "openbsd"@) {
            "gmake"@
        } else {
            "make"@
        }),
{
    if str_contains(host, "dragonfly") || str_contains(host, "freebsd") || str_contains(
        host,
        "netbsd",
    ) || str_contains(host, "openbsd") {
        String::from_str("gmake")
    } else {
        String::from_str("make")
    }
}

/// The CI environment a build is running in.
#[derive(Clone, Copy, Debug, PartialEq, Eq, Structural)]
pub enum CiEnv {
    /// Not a CI environment.
    NotCi,
    /// The Azure Pipelines environment.
    AzurePipelines,
    /// The GitHub Actions environment.
    GitHubActions,
}

/// Which CI environment the telltale environment values betray.
pub open spec fn ci_env_spec(tf_build: Option<&str>, github_actions: Option<&str>) -> CiEnv {
    if tf_build matches Some(v) && v@ == "True"@ {
        CiEnv::AzurePipelines
    } else if github_actions matches Some(v) && v@ == "true"@ {
        CiEnv::GitHubActions
    } else {
        CiEnv::NotCi
    }
}

impl CiEnv {
    /// Classifies the CI environment from the values of the `TF_BUILD`
    /// and `GITHUB_ACTIONS` environment variables, as the caller read
    /// them.
    pub fn current(tf_build: Option<&str>, github_actions: Option<&str>) -> (r: CiEnv)
        ensures
            r == ci_env_spec(tf_build, github_actions),
    {
        if let Some(v) = tf_build {
            if str_eq(v, "True") {
                return CiEnv::AzurePipelines;
            }
        }
        if let Some(v) = github_actions {
            if str_eq(v, "true") {
                return CiEnv::GitHubActions;
            }
        }
        CiEnv::NotCi
    }
}

} // verus!
