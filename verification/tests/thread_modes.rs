use codex_web_client::thread_modes::{
    read_mode, set_mode, thread_modes_path, AppModeKind, PersistedThreadMode,
    PersistedThreadModes, ThreadKey, CURRENT_VERSION,
};

fn key() -> ThreadKey {
    ThreadKey {
        server_id: "srv".to_string(),
        thread_id: "thread".to_string(),
    }
}

fn other_key() -> ThreadKey {
    ThreadKey {
        server_id: "srv".to_string(),
        thread_id: "other".to_string(),
    }
}

#[test]
fn plan_mode_round_trips() {
    let mut persisted = PersistedThreadModes::default();
    let key = key();

    set_mode(&mut persisted, &key, AppModeKind::Plan);

    assert_eq!(read_mode(&persisted, &key), Some(AppModeKind::Plan));
}

#[test]
fn default_mode_removes_entry() {
    let mut persisted = PersistedThreadModes::default();
    let key = key();

    set_mode(&mut persisted, &key, AppModeKind::Plan);
    set_mode(&mut persisted, &key, AppModeKind::Default);

    assert_eq!(read_mode(&persisted, &key), None);
}

#[test]
fn empty_document_knows_no_mode() {
    let persisted = PersistedThreadModes::default();
    assert_eq!(persisted.version, 0);
    assert!(persisted.modes.is_empty());
    assert_eq!(read_mode(&persisted, &key()), None);
}

#[test]
fn setting_a_mode_writes_the_current_version() {
    let mut persisted = PersistedThreadModes::default();
    set_mode(&mut persisted, &key(), AppModeKind::Default);
    assert_eq!(persisted.version, CURRENT_VERSION);
    assert_eq!(persisted.version, 1);
    assert!(persisted.modes.is_empty());
}

#[test]
fn setting_a_mode_keeps_other_threads() {
    let mut persisted = PersistedThreadModes::default();
    set_mode(&mut persisted, &other_key(), AppModeKind::Plan);
    set_mode(&mut persisted, &key(), AppModeKind::Plan);
    set_mode(&mut persisted, &key(), AppModeKind::Default);

    assert_eq!(read_mode(&persisted, &other_key()), Some(AppModeKind::Plan));
    assert_eq!(read_mode(&persisted, &key()), None);
    assert_eq!(persisted.modes.len(), 1);
}

#[test]
fn setting_plan_twice_leaves_one_entry_at_the_end() {
    let mut persisted = PersistedThreadModes::default();
    set_mode(&mut persisted, &key(), AppModeKind::Plan);
    set_mode(&mut persisted, &other_key(), AppModeKind::Plan);
    set_mode(&mut persisted, &key(), AppModeKind::Plan);

    assert_eq!(persisted.modes.len(), 2);
    assert_eq!(
        persisted.modes[0],
        PersistedThreadMode {
            server_id: "srv".to_string(),
            thread_id: "other".to_string(),
            mode: AppModeKind::Plan,
        }
    );
    assert_eq!(persisted.modes[1].thread_id, "thread");
}

#[test]
fn the_first_matching_entry_decides_a_read() {
    let persisted = PersistedThreadModes {
        version: 1,
        modes: vec![
            PersistedThreadMode {
                server_id: "srv".to_string(),
                thread_id: "thread".to_string(),
                mode: AppModeKind::Plan,
            },
            PersistedThreadMode {
                server_id: "srv".to_string(),
                thread_id: "thread".to_string(),
                mode: AppModeKind::Default,
            },
        ],
    };
    assert_eq!(read_mode(&persisted, &key()), Some(AppModeKind::Plan));
}

#[test]
fn a_key_on_another_server_is_another_thread() {
    let mut persisted = PersistedThreadModes::default();
    set_mode(&mut persisted, &key(), AppModeKind::Plan);
    let elsewhere = ThreadKey {
        server_id: "srv2".to_string(),
        thread_id: "thread".to_string(),
    };
    assert_eq!(read_mode(&persisted, &elsewhere), None);
}

#[test]
fn modes_file_lies_in_the_preferences_directory() {
    assert_eq!(thread_modes_path("/tmp/prefs"), "/tmp/prefs/thread_modes.json");
    assert_eq!(thread_modes_path("/tmp/prefs/"), "/tmp/prefs/thread_modes.json");
    assert_eq!(thread_modes_path(""), "thread_modes.json");
}

#[test]
fn setting_a_mode_twice_is_setting_it_once() {
    let mut once = PersistedThreadModes::default();
    set_mode(&mut once, &other_key(), AppModeKind::Plan);
    set_mode(&mut once, &key(), AppModeKind::Plan);
    let mut twice = PersistedThreadModes::default();
    set_mode(&mut twice, &other_key(), AppModeKind::Plan);
    set_mode(&mut twice, &key(), AppModeKind::Plan);
    set_mode(&mut twice, &key(), AppModeKind::Plan);
    assert_eq!(once, twice);
}
