use bootstrap::util::{exe, is_debug_info, is_dylib, libdir, make, use_host_linker, CiEnv,
    TargetSelection};

fn target(triple: &str) -> TargetSelection {
    TargetSelection::from_triple(String::from(triple))
}

#[test]
fn exe_appends_suffix_on_windows_only() {
    assert_eq!(exe("cargo", &target("x86_64-pc-windows-msvc")), "cargo.exe");
    assert_eq!(exe("cargo", &target("x86_64-unknown-linux-gnu")), "cargo");
}

#[test]
fn dylib_names_are_recognized() {
    assert!(is_dylib("libstd.so"));
    assert!(is_dylib("libstd.dylib"));
    assert!(is_dylib("std.dll"));
    assert!(!is_dylib("libstd.a"));
    assert!(!is_dylib("libstd.so.1"));
}

#[test]
fn debug_info_names_are_recognized() {
    assert!(is_debug_info("std.pdb"));
    assert!(!is_debug_info("std.dll"));
}

#[test]
fn libdir_depends_on_windows() {
    assert_eq!(libdir(&target("i686-pc-windows-gnu")), "bin");
    assert_eq!(libdir(&target("aarch64-apple-darwin")), "lib");
}

#[test]
fn host_linker_is_skipped_for_special_targets() {
    assert!(use_host_linker(&target("x86_64-unknown-linux-gnu")));
    assert!(!use_host_linker(&target("wasm32-unknown-unknown")));
    assert!(!use_host_linker(&target("bpfel-unknown-none")));
    assert!(!use_host_linker(&target("nvptx64-nvidia-cuda")));
}

#[test]
fn make_is_gmake_on_the_bsds() {
    assert_eq!(make("x86_64-unknown-freebsd"), "gmake");
    assert_eq!(make("x86_64-unknown-netbsd"), "gmake");
    assert_eq!(make("x86_64-unknown-openbsd"), "gmake");
    assert_eq!(make("x86_64-unknown-dragonfly"), "gmake");
    assert_eq!(make("x86_64-unknown-linux-gnu"), "make");
}

#[test]
fn ci_env_is_classified_from_environment_values() {
    assert_eq!(CiEnv::current(Some("True"), None), CiEnv::AzurePipelines);
    assert_eq!(CiEnv::current(None, Some("true")), CiEnv::GitHubActions);
    assert_eq!(CiEnv::current(None, None), CiEnv::NotCi);
    // The Azure value is matched case-sensitively, as `TF_BUILD` sets it.
    assert_eq!(CiEnv::current(Some("true"), None), CiEnv::NotCi);
    // Azure wins when both are set.
    assert_eq!(CiEnv::current(Some("True"), Some("true")), CiEnv::AzurePipelines);
}

#[test]
fn target_contains_looks_anywhere_in_the_triple() {
    let t = target("x86_64-pc-windows-msvc");
    assert!(t.contains("windows"));
    assert!(t.contains("x86_64"));
    assert!(t.contains("msvc"));
    assert!(!t.contains("linux"));
}
