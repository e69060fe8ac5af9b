use hermes_os::sidecar::{SidecarIoState, SidecarState};
use hermes_os::status::{
    config_version_of, db_status, get_action_status, get_app_status, get_diagnostics,
    get_sidecar_status, get_toolsets, slashed, DbAccess, SidecarStatus,
};
use hermes_os::updater::{
    cancel_oauth, desktop_updater_error_message, disconnect_oauth, poll_oauth, start_oauth,
    submit_oauth, update_hermes, UpdateOutcome,
};
use hermes_os::value::{integer, text, Fields, Number, Value};

fn status() -> SidecarStatus {
    SidecarStatus { running: true, protocol_version: 3, hermes_version: "1.0".to_string() }
}

#[test]
fn the_sidecar_is_told_of() {
    let state = SidecarState {
        running: true,
        protocol_version: 3,
        hermes_version: "1.0".to_string(),
        io: SidecarIoState::new(),
    };
    assert_eq!(get_sidecar_status(&state), status());
}

#[test]
fn diagnostics_tell_of_the_database() {
    assert_eq!(db_status(&DbAccess::Missing), "missing");
    assert_eq!(db_status(&DbAccess::Accessible), "accessible");
    assert_eq!(db_status(&DbAccess::Failed("x".to_string())), "error: x");
    let d = get_diagnostics("linux", "x86_64", "/h", true, &DbAccess::Missing, &status());
    assert_eq!(d.member("system").unwrap().member_text("os"), Some("linux"));
    assert_eq!(d.member("system").unwrap().member_text("tauri_version"), Some("2.0.0"));
    assert_eq!(d.member("hermes").unwrap().member_text("db_status"), Some("missing"));
    assert_eq!(d.member("hermes").unwrap().member("config_exists"), Some(&Value::Bool(true)));
    assert_eq!(d.member("sidecar").unwrap().member("protocol_version"), Some(&integer(3)));
}

#[test]
fn the_version_of_the_configuration_is_read() {
    let version = |v: Value| config_version_of(Some(&Fields::new().with("_config_version", v).table()));
    assert_eq!(version(integer(12)), 12);
    assert_eq!(version(integer(-1)), u64::MAX);
    assert_eq!(version(integer(i64::MIN)), 1 << 63);
    assert_eq!(version(Value::Number(Number::PosInt(u64::MAX))), u64::MAX);
    assert_eq!(version(text("12")), 0);
    assert_eq!(config_version_of(None), 0);
    assert_eq!(config_version_of(Some(&Value::Null)), 0);
}

#[test]
fn the_status_of_the_program_has_slashes_in_its_paths() {
    assert_eq!(slashed("C:\\a\\b/c"), "C:/a/b/c");
    let cfg = Fields::new().with("_config_version", integer(5)).table();
    let s = get_app_status("C:\\h", Some(&cfg), 2, &status(), "9.9");
    assert_eq!(s.member_text("config_path"), Some("C:/h/config.yaml"));
    assert_eq!(s.member_text("env_path"), Some("C:/h/.env"));
    assert_eq!(s.member_text("hermes_home"), Some("C:/h"));
    assert_eq!(s.member("config_version"), Some(&integer(5)));
    assert_eq!(s.member("latest_config_version"), Some(&integer(5)));
    assert_eq!(s.member("active_sessions"), Some(&integer(2)));
    assert_eq!(s.member("gateway_running"), Some(&Value::Bool(true)));
    assert_eq!(s.member("gateway_platforms"), Some(&Fields::new().table()));
    assert_eq!(s.member("gateway_pid"), Some(&Value::Null));
    assert_eq!(s.member_text("version"), Some("9.9"));
    assert_eq!(s.member_text("sidecar_hermes_version"), Some("1.0"));
}

#[test]
fn actions_are_idle() {
    let s = get_action_status("restart");
    assert_eq!(s.member_text("name"), Some("restart"));
    assert_eq!(s.member_text("status"), Some("idle"));
    assert_eq!(s.member("progress"), Some(&integer(0)));
    assert_eq!(s.member("lines"), Some(&Value::List(Vec::new())));
    assert_eq!(s.member("pid"), Some(&Value::Null));
}

#[test]
fn two_sets_of_tools_are_shown() {
    let t = get_toolsets();
    assert_eq!(t.len(), 2);
    assert_eq!(t[0].name, "terminal");
    assert_eq!(t[0].tools, vec!["execute_code"]);
    assert_eq!(t[1].label, "File Operations");
    assert_eq!(t[1].tools, vec!["read_file", "write_file"]);
    assert!(t[0].enabled && t[1].configured);
    assert!(t[0].description.starts_with("Voorbeeld — desktop toont"));
}

#[test]
fn complaints_of_the_updater_are_explained() {
    let raw = "x: Could not fetch a valid release JSON from the remote";
    let m = desktop_updater_error_message(raw);
    assert!(m.starts_with("Desktop-update niet beschikbaar\n\nDeze knop zoekt een bestand \"latest.json\""));
    assert!(m.contains("hermes update\nDocumentatie: https://hermes-agent.nousresearch.com"));
    assert!(m.ends_with(&format!("Technische melding: {raw}")));
    assert_eq!(
        desktop_updater_error_message("boom"),
        "Desktop-update mislukt.\n\nProbeer voor de Hermes-installatie zelf: hermes update (in een terminal).\n\nTechnische melding: boom"
    );
    assert_eq!(
        update_hermes(UpdateOutcome::UpToDate),
        Ok("Je gebruikt al de nieuwste versie van deze desktop-app.".to_string())
    );
    assert_eq!(
        update_hermes(UpdateOutcome::Installed("2.1".to_string())),
        Ok("Desktop-update geïnstalleerd (v2.1). Start de app opnieuw om te voltooien.".to_string())
    );
    assert_eq!(
        update_hermes(UpdateOutcome::NotChecked("boom".to_string())),
        Err(desktop_updater_error_message("boom"))
    );
    assert_eq!(
        update_hermes(UpdateOutcome::NotInstalled("boom".to_string())),
        Err(desktop_updater_error_message("download/install: boom"))
    );
}

#[test]
fn signing_in_is_not_possible() {
    let no = "OAuth is nog niet beschikbaar in HermesOS desktop.".to_string();
    assert_eq!(
        disconnect_oauth(),
        Err("OAuth afmelden is nog niet beschikbaar in HermesOS desktop.".to_string())
    );
    assert_eq!(
        start_oauth("x"),
        Err("OAuth-login (x) is nog niet beschikbaar in HermesOS desktop.".to_string())
    );
    assert_eq!(submit_oauth(), Err(no.clone()));
    assert_eq!(poll_oauth(), Err(no.clone()));
    assert_eq!(cancel_oauth(), Err(no));
}
