use std::path::PathBuf;

use hermes_os::paths::{
    default_hermes_root, env_root_text, get_sidecar_entry_path, helper_script_path,
    hermes_config_path, hermes_env_path, hermes_logs_dir, hermes_os_root, hermes_skills_dir,
    native_hermes_home, packaged_sidecar_path, profile_home_dir, resolve_hermes_home,
    session_db_path, Anchor, HermesPath, Part,
};

fn on_disk(p: &HermesPath) -> PathBuf {
    let mut path = match &p.anchor {
        Anchor::Given(s) => PathBuf::from(s),
        Anchor::UserHome => dirs::home_dir().unwrap_or_else(|| PathBuf::from("/home/user")),
        Anchor::WorkingDir => PathBuf::new(),
        Anchor::ManifestDir => PathBuf::from("/work/HermesOS/src-tauri"),
    };
    for _ in 0..p.up {
        path.pop();
    }
    for name in &p.names {
        path.push(name);
    }
    path
}

fn parts(s: &str) -> Vec<Part> {
    let mut out = Vec::new();
    if s.starts_with('/') {
        out.push(Part::Root);
    }
    for name in s.split('/') {
        if !name.is_empty() {
            out.push(Part::Name(name.to_string()));
        }
    }
    out
}

#[test]
fn test_resolve_hermes_home_default() {
    let home = resolve_hermes_home(None, true);
    assert!(on_disk(&home).to_string_lossy().contains(".hermes"));
    let homeless = resolve_hermes_home(None, false);
    assert!(on_disk(&homeless).to_string_lossy().contains(".hermes"));
}

#[test]
fn test_config_path_exists() {
    let path = hermes_config_path(resolve_hermes_home(None, true));
    assert!(on_disk(&path).to_string_lossy().ends_with("config.yaml"));
}

#[test]
fn the_given_home_is_taken_as_it_stands() {
    let home = resolve_hermes_home(Some(" /data/hermes ".to_string()), true);
    assert_eq!(home.anchor, Anchor::Given(" /data/hermes ".to_string()));
    assert!(home.names.is_empty());
    let home = || resolve_hermes_home(Some("/data".to_string()), true);
    assert_eq!(on_disk(&hermes_config_path(home())), PathBuf::from("/data/config.yaml"));
    assert_eq!(on_disk(&hermes_env_path(home())), PathBuf::from("/data/.env"));
    assert_eq!(on_disk(&hermes_logs_dir(home())), PathBuf::from("/data/logs"));
    assert_eq!(on_disk(&hermes_skills_dir(home())), PathBuf::from("/data/skills"));
    assert_eq!(on_disk(&session_db_path(home())), PathBuf::from("/data/state.db"));
}

#[test]
fn the_root_of_the_profiles_is_found() {
    let native = "/home/u/.hermes";
    let root = |env: &str| {
        default_hermes_root(
            env,
            &parts(env.trim()),
            HermesPath::from(Anchor::Given(native.to_string())),
            &parts(native),
        )
    };
    assert_eq!(on_disk(&root("")), PathBuf::from(native));
    assert_eq!(on_disk(&root("  ")), PathBuf::from(native));
    assert_eq!(on_disk(&root("/home/u/.hermes/profiles/a")), PathBuf::from(native));
    assert_eq!(on_disk(&root("/home/u/.hermes")), PathBuf::from(native));
    assert_eq!(on_disk(&root("/srv/h/profiles/a")), PathBuf::from("/srv/h"));
    assert_eq!(on_disk(&root(" /srv/h ")), PathBuf::from("/srv/h"));
    assert_eq!(on_disk(&root("profiles/a")), PathBuf::from(""));
    assert_eq!(on_disk(&root("/home/u/.hermes2")), PathBuf::from("/home/u/.hermes2"));
    assert_eq!(env_root_text(" x "), Some("x".to_string()));
    assert_eq!(env_root_text(" "), None);
}

#[test]
fn a_root_directory_is_not_a_profile() {
    let native = native_hermes_home(false);
    let env = vec![Part::Name("profiles".to_string()), Part::Root];
    let r = default_hermes_root("x", &env, native, &vec![Part::Foreign]);
    assert_eq!(r.up, 0);
    assert_eq!(r.anchor, Anchor::Given("x".to_string()));
}

#[test]
fn profiles_have_homes_of_their_own() {
    let root = || HermesPath::from(Anchor::Given("/r".to_string()));
    assert_eq!(on_disk(&profile_home_dir(root(), "default")), PathBuf::from("/r"));
    assert_eq!(on_disk(&profile_home_dir(root(), "work")), PathBuf::from("/r/profiles/work"));
    assert_ne!(profile_home_dir(root(), "a"), profile_home_dir(root(), "b"));
}

#[test]
fn the_files_of_the_program_are_found() {
    assert_eq!(on_disk(&hermes_os_root()), PathBuf::from("/work/HermesOS"));
    assert_eq!(
        on_disk(&get_sidecar_entry_path()),
        PathBuf::from("/work/HermesOS/scripts/sidecar_entry.py")
    );
    assert_eq!(
        on_disk(&packaged_sidecar_path("x.exe")),
        PathBuf::from("/work/HermesOS/src-tauri/binaries/x.exe")
    );
    assert_eq!(
        on_disk(&helper_script_path("h.py")).to_string_lossy(),
        "/work/HermesOS/src-tauri/../scripts/h.py"
    );
}
