use launcher::connection::{ConnectionEntry, ConnectionStore};
use launcher::desktop::{
    canonicalize_pin, check_preview_size, console_window_label, data_uri, desktop_entry_content,
    desktop_entry_file_name, icon_mime, icon_source, is_preset_icon, prepare_connection_icon,
    preset_icons, preview_mime, set_pin, IconSource,
};
use launcher::webstart::wm_class;

#[test]
fn desktop_entry_pairs_the_icon_with_the_wm_class() {
    let out = desktop_entry_content(
        "Production East",
        "/home/u/.launcher/icons/abc.png",
        "launcher-abc",
    );
    assert!(out.contains("StartupWMClass=launcher-abc\n"), "{}", out);
    assert!(out.contains("Icon=/home/u/.launcher/icons/abc.png\n"), "{}", out);
    assert!(out.contains("Name=Production East\n"), "{}", out);
    assert!(out.contains("NoDisplay=true\n"), "{}", out);
    assert!(out.starts_with("[Desktop Entry]\n"), "{}", out);
}

#[test]
fn desktop_entry_keeps_a_newline_in_the_name_from_injecting_a_key() {
    let out = desktop_entry_content("Prod\nExec=/bin/sh -c evil", "/tmp/i.png", "launcher-x");
    assert!(!out.contains("\nExec=/bin/sh"), "name injected a key: {}", out);
    assert!(out.contains("Exec=false\n"), "{}", out);
}

#[test]
fn desktop_entry_falls_back_to_a_name_when_the_connection_has_none() {
    let out = desktop_entry_content("   ", "/tmp/i.png", "launcher-x");
    assert!(out.contains("Name=Administrator\n"), "{}", out);
}

#[test]
fn wm_class_is_stable_and_free_of_characters_that_break_matching() {
    let a = wm_class("2f9c-4d1e-8a7b");
    assert_eq!(a, "launcher-2f9c-4d1e-8a7b");
    assert_eq!(a, wm_class("2f9c-4d1e-8a7b"), "must be stable across launches");
    assert_eq!(wm_class("a b/c.d"), "launcher-a-b-c-d");
}

// ---------------------------------------------------------------------------

#[test]
fn desktop_entry_is_exactly_seven_lines() {
    let out = desktop_entry_content(" Lab\r\n ", "/i.png", "launcher-1");
    assert_eq!(
        out,
        "[Desktop Entry]\nType=Application\nName=Lab\nIcon=/i.png\nExec=false\nStartupWMClass=launcher-1\nNoDisplay=true\n"
    );
    assert_eq!(desktop_entry_file_name("a b"), "launcher-a-b.desktop");
}

#[test]
fn console_label_keeps_only_label_characters() {
    assert_eq!(console_window_label("ab-1_2"), "console-ab-1__2");
    assert_eq!(console_window_label("a b/c.d"), "console-a_000020_b_00002f_c_00002e_d");
    assert_ne!(console_window_label("a.b"), console_window_label("a_b"));
    assert_eq!(console_window_label("é"), "console-_0000e9_");
}

#[test]
fn icon_selection_resolves_presets_files_and_default() {
    assert!(matches!(icon_source(None), IconSource::Default));
    assert!(matches!(icon_source(Some("   ")), IconSource::Default));
    match icon_source(Some(" preset:rocket ")) {
        IconSource::Preset(n) => assert_eq!(n, "rocket"),
        _ => panic!("known preset"),
    }
    assert!(matches!(icon_source(Some("preset:../../etc/passwd")), IconSource::Default));
    match icon_source(Some(" /home/u/icon.png ")) {
        IconSource::File(f) => assert_eq!(f, "/home/u/icon.png"),
        _ => panic!("a path is a file"),
    }
    assert_eq!(preset_icons().len(), 12);
    assert!(is_preset_icon("heartbeat") && is_preset_icon("lightning") && !is_preset_icon("Rocket"));
}

#[test]
fn icon_media_types_by_extension() {
    assert_eq!(icon_mime(Some("JPG")), "image/jpeg");
    assert_eq!(icon_mime(Some("jpeg")), "image/jpeg");
    assert_eq!(icon_mime(Some("Gif")), "image/gif");
    assert_eq!(icon_mime(Some("bmp")), "image/png");
    assert_eq!(icon_mime(None), "image/png");
    assert_eq!(preview_mime(Some("PNG")).unwrap(), "image/png");
    assert_eq!(preview_mime(Some("jpeg")).unwrap(), "image/jpeg");
    assert_eq!(
        preview_mime(Some("bmp")).unwrap_err(),
        "unsupported image type (use png, jpg, or gif)"
    );
    assert!(preview_mime(None).is_err());
    assert!(check_preview_size(10 * 1024 * 1024).is_ok());
    assert_eq!(check_preview_size(10 * 1024 * 1024 + 1).unwrap_err(), "image is larger than 10MB");
}

#[test]
fn data_uri_encodes_base64() {
    assert_eq!(data_uri("image/png", b"hi!"), "data:image/png;base64,aGkh");
    assert_eq!(data_uri("image/gif", b""), "data:image/gif;base64,");
}

#[test]
fn composed_icons_are_checked_before_saving() {
    // "iVBORw==" is the PNG signature's first four bytes.
    let (name, bytes) = prepare_connection_icon("a b/c", "  iVBORw==\n").unwrap();
    assert_eq!(name, "a_b_c.png");
    assert_eq!(bytes, vec![0x89, b'P', b'N', b'G']);
    assert_eq!(prepare_connection_icon("", "iVBORw==").unwrap_err(), "bad connection id");
    assert_eq!(prepare_connection_icon("x", "aGkh").unwrap_err(), "not a png");
    assert!(prepare_connection_icon("x", "%%%").is_err());
}

#[test]
fn pins_are_canonical_lowercase_hex() {
    let upper = "  ABCDEF0123456789ABCDEF0123456789ABCDEF0123456789ABCDEF0123456789 ";
    let c = canonicalize_pin(upper).unwrap();
    assert_eq!(c, "abcdef0123456789abcdef0123456789abcdef0123456789abcdef0123456789");
    assert_eq!(canonicalize_pin(&c), Some(c.clone()));
    assert_eq!(canonicalize_pin("abc"), None);
    assert_eq!(canonicalize_pin(&"g".repeat(64)), None);

    let mut cs = ConnectionStore::with_entries(String::new(), String::new(), String::new(), vec![]);
    let mut ce = ConnectionEntry::default();
    ce.id = "c1".to_string();
    cs.save(ce);
    assert_eq!(set_pin(&mut cs, "c1", "nope").unwrap_err(), "invalid certificate fingerprint");
    assert_eq!(cs.get("c1").unwrap().pinned_cert_sha256, None);
    set_pin(&mut cs, "c1", upper).unwrap();
    assert_eq!(cs.get("c1").unwrap().pinned_cert_sha256.as_deref(), Some(c.as_str()));
}
