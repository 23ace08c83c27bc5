use launcher::connection::{
    find_java_home, get_default_donotcache, get_default_engine_type, get_default_group,
    get_default_notes, sanitize_id, ConnectionEntry, ConnectionStore, ImportOutcome,
};

fn entry(id: &str, name: &str) -> ConnectionEntry {
    let mut ce = ConnectionEntry::default();
    ce.id = id.to_string();
    ce.name = name.to_string();
    ce
}

fn store() -> ConnectionStore {
    ConnectionStore::with_entries(
        "/d/launcher-data.json".to_string(),
        "/d/cache".to_string(),
        "/d/logs".to_string(),
        vec![],
    )
}

#[test]
fn defaults_match_the_saved_data_defaults() {
    assert_eq!(get_default_group(), "Default");
    assert_eq!(get_default_notes(), "");
    assert!(!get_default_donotcache());
    assert_eq!(get_default_engine_type(), "Open Integration Engine");
    let ce = ConnectionEntry::default();
    assert_eq!(ce.heap_size, "512m");
    assert_eq!(ce.java_args.as_deref(), Some(""));
    assert_eq!(ce.id.len(), 36);
    assert_eq!(&ce.id[14..15], "4");
    assert_eq!(ce.group, "Default");
    assert_eq!(ce.engine_type, "Open Integration Engine");
    assert!(ce.pinned_cert_sha256.is_none() && ce.icon_path.is_none());
    assert_ne!(ce.id, ConnectionEntry::default().id);
    let _ = find_java_home();
}

#[test]
fn save_then_get_returns_the_normalized_entry() {
    let mut cs = store();
    assert_eq!(cs.store_path(), "/d/launcher-data.json");
    let mut ce = entry("", "Prod");
    ce.java_home = "  /opt/jdk  ".to_string();
    ce.username = Some("  ".to_string());
    ce.password = Some(" pw ".to_string());
    let id = cs.save(ce);
    assert_eq!(id.len(), 36, "an entry without id gets a fresh uuid");
    let got = cs.get(&id).unwrap();
    assert_eq!(got.id, id);
    assert_eq!(got.name, "Prod");
    assert_eq!(got.java_home, "/opt/jdk");
    assert_eq!(got.username, None, "a blank username is dropped");
    assert_eq!(got.password.as_deref(), Some(" pw "), "a set password is kept as typed");
    assert!(cs.get("missing").is_none());

    let id2 = cs.save(entry("fixed", "Other"));
    assert_eq!(id2, "fixed");
    assert_eq!(cs.entries().len(), 2);
    let again = cs.save(entry("fixed", "Renamed"));
    assert_eq!(again, "fixed");
    assert_eq!(cs.entries().len(), 2);
    assert_eq!(cs.get("fixed").unwrap().name, "Renamed");
}

#[test]
fn with_entries_keeps_the_last_pair_for_a_key() {
    let cs = ConnectionStore::with_entries(
        String::new(),
        String::new(),
        String::new(),
        vec![("k".to_string(), entry("a", "first")), ("k".to_string(), entry("b", "second"))],
    );
    assert_eq!(cs.entries().len(), 1);
    assert_eq!(cs.get("k").unwrap().name, "second");
}

#[test]
fn delete_removes_per_connection_files_but_not_the_shared_cache() {
    let mut cs = store();
    cs.save(entry("1234abcd-0000-1111-2222-333344445555", "x"));
    cs.save(entry("keep", "y"));
    let c = cs.delete("1234abcd-0000-1111-2222-333344445555");
    assert!(cs.get("1234abcd-0000-1111-2222-333344445555").is_none());
    assert!(cs.get("keep").is_some());
    assert_eq!(c.isolated_dir, "1234abcd-0000-1111-2222-333344445555");
    assert_eq!(c.log_file, "1234abcd-0000-1111-2222-333344445555.log");
    assert_eq!(c.icon_file, "1234abcd-0000-1111-2222-333344445555.png");
    for name in [&c.isolated_dir, &c.log_file, &c.icon_file] {
        assert!(
            !name.contains("open-integration-engine") && !name.contains('/'),
            "shared cache must NOT be touched"
        );
    }
    let odd = cs.delete("../Evil id");
    assert_eq!(odd.isolated_dir, "evil-id");
    assert_eq!(odd.log_file, "evil-id.log");
    assert_eq!(odd.icon_file, "___Evil_id.png");
    let empty = cs.delete("..");
    assert_eq!(empty.isolated_dir, "_", "never the whole _isolated directory");
    assert_eq!(empty.log_file, ".log");
    let upper = cs.delete("ABC");
    assert_eq!(upper.log_file, "abc.log", "the log the launch wrote");
    assert_eq!(sanitize_id("a.b"), "a_b");
}

#[test]
fn import_reports_duplicates_unless_overwriting() {
    let mut cs = store();
    cs.save(entry("a", "Alpha"));
    let data = vec![entry("b", "Beta"), entry("a", "Alpha 2")];
    match cs.import(data, false) {
        ImportOutcome::Duplicates { names, total } => {
            assert_eq!(names, vec!["Alpha 2".to_string()]);
            assert_eq!(total, 2);
        }
        ImportOutcome::Imported { .. } => panic!("duplicates must be reported"),
    }
    assert!(cs.get("b").is_none(), "nothing is imported on a duplicate");
    let data = vec![entry("b", "Beta"), entry("a", "Alpha 2")];
    match cs.import(data, true) {
        ImportOutcome::Imported { total } => assert_eq!(total, 2),
        ImportOutcome::Duplicates { .. } => panic!("overwrite imports"),
    }
    assert_eq!(cs.get("a").unwrap().name, "Alpha 2");
    assert_eq!(cs.get("b").unwrap().java_home, cs.get("a").unwrap().java_home);
}

#[test]
fn updates_touch_only_the_named_entry() {
    let mut cs = store();
    cs.save(entry("a", "A"));
    cs.update_last_connected("a", 1700000000000);
    assert_eq!(cs.get("a").unwrap().last_connected, Some(1700000000000));
    cs.update_last_connected("zzz", 5);
    assert!(cs.get("zzz").is_none());
    cs.update_pin("a", Some("ab".to_string()));
    assert_eq!(cs.get("a").unwrap().pinned_cert_sha256.as_deref(), Some("ab"));
    assert_eq!(cs.get("a").unwrap().last_connected, Some(1700000000000));
    cs.update_pin("a", None);
    assert_eq!(cs.get("a").unwrap().pinned_cert_sha256, None);
}

#[test]
fn groups_and_engine_types_include_the_defaults_once() {
    let mut cs = store();
    assert_eq!(cs.get_all_groups(), vec!["Default".to_string()]);
    let mut a = entry("a", "A");
    a.group = "Prod".to_string();
    let mut b = entry("b", "B");
    b.group = "Prod".to_string();
    b.engine_type = "Mirth Connect".to_string();
    cs.save(a);
    cs.save(b);
    cs.save(entry("c", "C"));
    let mut groups = cs.get_all_groups();
    groups.sort();
    assert_eq!(groups, vec!["Default".to_string(), "Prod".to_string()]);
    let mut types = cs.get_all_engine_types();
    types.sort();
    assert_eq!(types, vec!["Mirth Connect".to_string(), "Open Integration Engine".to_string()]);
}

#[test]
fn save_and_import_use_the_given_java_home_for_blank_ones() {
    let mut cs = store();
    let mut ce = entry("j1", "J");
    ce.java_home = "   ".to_string();
    let k = cs.save_with_java_home(ce, "/opt/default".to_string());
    assert_eq!(k, "j1");
    assert_eq!(cs.get("j1").unwrap().java_home, "/opt/default");
    let mut ce = entry("j2", "K");
    ce.java_home = " /opt/own ".to_string();
    cs.save_with_java_home(ce, "/opt/default".to_string());
    assert_eq!(cs.get("j2").unwrap().java_home, "/opt/own");

    let mut first = entry("dup", "first");
    first.java_home = "/x".to_string();
    let second = entry("dup", "second");
    match cs.import_with_java_home(vec![first, second], false, "/opt/jh".to_string()) {
        ImportOutcome::Imported { total } => assert_eq!(total, 2),
        ImportOutcome::Duplicates { .. } => panic!("no saved id is repeated"),
    }
    let got = cs.get("dup").unwrap();
    assert_eq!(got.name, "second", "the last entry with an id wins");
    assert_eq!(got.java_home, "/opt/jh");
    assert_eq!(cs.get("j1").unwrap().java_home, "/opt/default");
}

#[test]
fn strip_line_end_drops_every_trailing_line_break() {
    let mut b = b"line\r\n\n".to_vec();
    launcher::text::strip_line_end(&mut b);
    assert_eq!(b, b"line".to_vec());
    let mut keep = b"a\nb".to_vec();
    launcher::text::strip_line_end(&mut keep);
    assert_eq!(keep, b"a\nb".to_vec());
}
