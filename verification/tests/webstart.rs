use launcher::connection::ConnectionEntry;
use launcher::webstart::{
    build_client_args, cache_folders, classify_cached_jar, get_dir_from_path,
    get_file_name_from_path, is_safe_basename, legacy_cache_folder, normalize_url, plan_downloads,
    parse_jnlp, report_check_progress, sanitize_for_path, sanitize_vm_args, split_jnlp_url,
    wm_class, CacheMismatch, CollectStep, JarCollector, JarOnDisk, JarTask, J2se, WebstartFile,
};
use launcher::codec::sha256_base64;

#[test]
fn classpath_preserves_jnlp_order_and_does_not_sort() {
    let ws = WebstartFile::new(
        "com.example.Main".to_string(),
        vec![],
        None,
        "/tmp/logs".to_string(),
        "test".to_string(),
        vec![
            "/c/core/rhino-mc-modifications.jar".to_string(),
            "/c/core/rhino-1.7.15.1.jar".to_string(),
            "/c/core/mirth-client.jar".to_string(),
        ],
    );
    let cp = ws.classpath(":");
    assert_eq!(
        cp,
        "/c/core/rhino-mc-modifications.jar:/c/core/rhino-1.7.15.1.jar:/c/core/mirth-client.jar"
    );
    assert!(
        cp.find("rhino-mc-modifications").unwrap() < cp.find("rhino-1.7.15.1").unwrap(),
        "patched overlay must precede its stock jar"
    );
}

#[test]
fn sanitize_for_path_strips_traversal() {
    assert_eq!(sanitize_for_path("../../etc"), "etc");
    assert_eq!(sanitize_for_path("..\\..\\x"), "x");
    assert_eq!(sanitize_for_path("Open Integration Engine"), "open-integration-engine");
    assert_eq!(sanitize_for_path("a.b.c"), "a_b_c");
    let s = sanitize_for_path("foo/../bar");
    assert!(!s.contains('/') && !s.contains('\\'));
}

#[test]
fn basename_splits_both_separators() {
    assert_eq!(get_file_name_from_path("a/b/c.jar"), "c.jar");
    assert_eq!(get_file_name_from_path("a\\b\\c.jar"), "c.jar");
    assert_eq!(get_file_name_from_path("plain.jar"), "plain.jar");
}

#[test]
fn is_safe_basename_rejects_traversal() {
    assert!(is_safe_basename("core.jar"));
    assert!(!is_safe_basename(""));
    assert!(!is_safe_basename("."));
    assert!(!is_safe_basename(".."));
    assert!(!is_safe_basename("a/b"));
    assert!(!is_safe_basename("a\\b"));
}

#[test]
fn test_normalize_url() {
    let candidates = [
        ("https://localhost:8443", "https://localhost:8443"),
        ("https://localhost:8443/", "https://localhost:8443"),
        ("https://localhost:8443//", "https://localhost:8443"),
        ("https://localhost:8443//a///bv", "https://localhost:8443/a/bv"),
    ];
    for (src, expected) in candidates {
        let reconstructed_url = normalize_url(src).unwrap();
        assert_eq!(expected, &reconstructed_url);
    }
}

#[test]
fn split_jnlp_url_honours_an_address_that_is_already_a_jnlp() {
    let candidates = [
        ("https://h:8443", "https://h:8443/webstart.jnlp", "https://h:8443"),
        ("https://h:8443/", "https://h:8443/webstart.jnlp", "https://h:8443"),
        ("https://h:8443/webstart.jnlp", "https://h:8443/webstart.jnlp", "https://h:8443"),
        ("https://h:8443/webstart.jnlp/", "https://h:8443/webstart.jnlp", "https://h:8443"),
        ("https://h:8443/WEBSTART.JNLP", "https://h:8443/WEBSTART.JNLP", "https://h:8443"),
        ("https://h:8443/mirth", "https://h:8443/mirth/webstart.jnlp", "https://h:8443/mirth"),
        ("https://h:8443/foo/custom.jnlp", "https://h:8443/foo/custom.jnlp", "https://h:8443/foo"),
        ("https://webstart.jnlp", "https://webstart.jnlp/webstart.jnlp", "https://webstart.jnlp"),
    ];
    for (address, expected_jnlp, expected_base) in candidates {
        let (jnlp, base) = split_jnlp_url(address).unwrap();
        assert_eq!(expected_jnlp, &jnlp, "jnlp url for {}", address);
        assert_eq!(expected_base, &base, "href base for {}", address);
    }
}

#[test]
fn build_client_args_forwards_jnlp_order_then_appends_credentials() {
    let jnlp: Vec<String> = ["server", "version", "-ssl", "p", "c", "-trust", "THUMB"]
        .iter()
        .map(|s| s.to_string())
        .collect();

    let args = build_client_args(&jnlp, Some("admin"), Some("secret"));
    assert_eq!(
        vec!["server", "version", "-ssl", "p", "c", "-trust", "THUMB", "admin", "secret"],
        args,
        "JNLP arguments must keep document order, credentials go last"
    );
    assert_eq!(jnlp, build_client_args(&jnlp, None, None));
    assert_eq!(jnlp, build_client_args(&jnlp, None, Some("secret")));
    let mut expected = jnlp.clone();
    expected.push("admin".to_string());
    assert_eq!(expected, build_client_args(&jnlp, Some("admin"), None));
}

#[test]
fn get_dir_from_path_returns_the_directory_or_empty() {
    assert_eq!("webstart/extensions", get_dir_from_path("webstart/extensions/foo.jnlp"));
    assert_eq!(
        "webstart/extensions/vendor",
        get_dir_from_path("webstart/extensions/vendor/foo.jnlp")
    );
    assert_eq!("", get_dir_from_path("foo.jnlp"));
    assert_eq!("a\\b", get_dir_from_path("a\\b\\foo.jnlp"));
}

// ---------------------------------------------------------------------------

#[test]
fn wm_class_keeps_letters_digits_and_dashes_only() {
    assert_eq!(wm_class(""), "launcher-");
    assert_eq!(wm_class("A_b:9"), "launcher-A-b-9");
}

#[test]
fn classify_cached_jar_detects_foreign_and_missing() {
    let content = b"hello world".to_vec();
    let real = sha256_base64(&content);
    assert_eq!(real, "uU0nuZNNPgilLlLX2n2r+sSE7+N6U4DukIj3rOLvzek=");
    let present = JarOnDisk::Contents(content.clone());
    assert_eq!(classify_cached_jar(&present, Some(&real), true), (false, false));
    assert_eq!(classify_cached_jar(&present, Some("not-the-hash"), true), (true, true));
    assert_eq!(classify_cached_jar(&present, Some("not-the-hash"), false), (true, false));
    assert_eq!(classify_cached_jar(&present, None, true), (false, false));
    assert_eq!(classify_cached_jar(&JarOnDisk::Missing, Some("x"), true), (true, false));
    assert_eq!(classify_cached_jar(&JarOnDisk::Missing, Some("x"), false), (true, false));
    assert_eq!(classify_cached_jar(&JarOnDisk::Unread, Some("x"), true), (false, false));
}

fn task(name: &str, is_core: bool) -> JarTask {
    JarTask {
        url: format!("https://h/{}", name),
        extension: if is_core { None } else { Some("ext".to_string()) },
        file_name: name.to_string(),
        hash: None,
        is_core,
    }
}

#[test]
fn plan_downloads_reports_foreign_core_jars_sorted_unless_acknowledged() {
    let tasks = vec![task("z.jar", true), task("a.jar", true), task("m.jar", true)];
    let classes = vec![(true, true), (false, false), (true, true)];
    match plan_downloads(&tasks, &classes, false, "Open Integration Engine", "4_6_0") {
        Err(CacheMismatch { engine_type, version, jars }) => {
            assert_eq!(engine_type, "Open Integration Engine");
            assert_eq!(version, "4_6_0");
            assert_eq!(jars, vec!["m.jar".to_string(), "z.jar".to_string()]);
        }
        Ok(_) => panic!("a foreign core jar must stop the launch"),
    }
    match plan_downloads(&tasks, &classes, true, "oie", "v") {
        Ok(idx) => assert_eq!(idx, vec![0, 2]),
        Err(_) => panic!("an acknowledged mismatch downloads"),
    }
    let quiet = vec![(true, false), (false, false), (false, false)];
    match plan_downloads(&tasks, &quiet, false, "oie", "v") {
        Ok(idx) => assert_eq!(idx, vec![0]),
        Err(_) => panic!("no foreign jar, no mismatch"),
    }
}

#[test]
fn cache_mismatch_message_counts_the_jars() {
    let m = CacheMismatch {
        engine_type: "oie".to_string(),
        version: "4_6_0".to_string(),
        jars: vec!["a.jar".to_string(), "b.jar".to_string()],
    };
    assert_eq!(m.message(), "cache for oie 4_6_0 holds 2 file(s) that differ from this server");
}

#[test]
fn check_progress_every_twenty_five_and_at_the_end() {
    assert!(!report_check_progress(0, 100));
    assert!(report_check_progress(25, 100));
    assert!(!report_check_progress(26, 100));
    assert!(report_check_progress(99, 100));
    assert!(report_check_progress(0, 1));
}

#[test]
fn sanitize_vm_args_drops_code_running_flags() {
    assert_eq!(
        sanitize_vm_args("  -Xms64m -javaagent:/x.jar\t-XX:OnError=sh -Dx=1 -XBootClassPath/a:y "),
        "-Xms64m -Dx=1"
    );
    assert_eq!(sanitize_vm_args(""), "");
    assert_eq!(sanitize_vm_args("-agentlib:jdwp -agentpath:/p"), "");
}

#[test]
fn cache_folders_isolate_or_share() {
    assert_eq!(cache_folders(true, "ID.1/..", "Open Integration Engine", "4_6_0"), vec!["_isolated", "id_1"]);
    assert_eq!(
        cache_folders(false, "id", "Open Integration Engine", "4_6_0"),
        vec!["open-integration-engine", "4_6_0"]
    );
    assert_eq!(cache_folders(true, "..", "x", "v"), vec!["_isolated", "_"]);
}

#[test]
fn legacy_cache_folder_uses_the_first_eight_bytes_of_the_id() {
    assert_eq!(legacy_cache_folder("My Server!", "1234abcd-0000"), "my-server-_1234abcd");
    assert_eq!(legacy_cache_folder("x", "ab"), "x_ab");
}

const CORE_JNLP: &str = "<?xml version=\"1.0\"?>\n<jnlp version=\"4.6.0\"><resources>\n  <j2se version=\"1.9+\" java-vm-args=\"-Xss2m -javaagent:x.jar\"/>\n  <jar href=\"webstart/client-lib/mirth-client.jar\" sha256=\"Y29yZQ==\"/>\n  <extension href=\"webstart/extensions/vendor/foo.jnlp\"/>\n  <jar href=\"webstart/client-lib/../evil/\"/>\n  <jar href=\"webstart/client-lib/last.jar\"/>\n</resources>\n<application-desc main-class=\"com.mirth.connect.client.ui.Mirth\">\n  <argument>https://h:8443</argument><argument>4.6.0</argument>\n</application-desc></jnlp>";

const EXT_JNLP: &str = "<?xml version=\"1.0\"?>\n<jnlp><resources>\n  <jar href=\"libs/foo/foo-client-1.0.0.jar\" sha256=\"ZXh0\"/>\n</resources></jnlp>";

#[test]
fn parse_jnlp_takes_main_class_arguments_and_version() {
    let doc = parse_jnlp(CORE_JNLP).unwrap();
    let j = &doc.jnlp;
    assert_eq!(j.main_class, "com.mirth.connect.client.ui.Mirth");
    assert_eq!(j.args, vec!["https://h:8443".to_string(), "4.6.0".to_string()]);
    assert_eq!(j.version, "4.6.0");
    assert_eq!(j.version_dir, "4_6_0");
    assert!(j.resources.is_some());
    let j2ses = launcher::webstart::get_j2ses(&doc.nodes, j.resources.unwrap()).unwrap();
    assert_eq!(j2ses.len(), 1);
    assert_eq!(j2ses[0].version, "1.9+");

    match parse_jnlp("<jnlp><resources/></jnlp>") {
        Err(e) => assert_eq!(
            e,
            "Got something from MC that was not an application-desc node in a JNLP XML"
        ),
        Ok(_) => panic!("no application-desc"),
    }
    match parse_jnlp("<jnlp><application-desc/></jnlp>") {
        Err(e) => assert_eq!(e, "missing main-class attribute"),
        Ok(_) => panic!("no main class"),
    }
    let v = parse_jnlp("<jnlp><application-desc main-class=\"M\"/></jnlp>").unwrap();
    assert_eq!(v.jnlp.version, "default");
    assert_eq!(v.jnlp.resources, None);
    assert!(parse_jnlp("<jnlp>").is_err());
}

#[test]
fn jar_collector_walks_core_then_extension_jars_in_document_order() {
    let doc = parse_jnlp(CORE_JNLP).unwrap();
    let base = "https://h:8443";
    let mut c = JarCollector::new(&doc.nodes, doc.jnlp.resources.unwrap(), base);
    match c.next() {
        CollectStep::Fetch { url, name } => {
            assert_eq!(url, "https://h:8443/webstart/extensions/vendor/foo.jnlp");
            assert_eq!(name, "foo");
        }
        CollectStep::Done => panic!("the extension must be fetched"),
    }
    assert!(c.extension_text_fetched("<jnlp><resources>").is_err());
    c.extension_text_fetched(EXT_JNLP).unwrap();
    match c.next() {
        CollectStep::Done => {}
        CollectStep::Fetch { .. } => panic!("no second extension"),
    }
    let tasks = c.into_tasks();
    assert_eq!(tasks.len(), 3, "core jar, extension jar, last core jar; unsafe href skipped");
    assert!(tasks[0].is_core);
    assert_eq!(tasks[0].file_name, "mirth-client.jar");
    assert_eq!(tasks[0].extension, None);
    assert_eq!(tasks[0].hash.as_deref(), Some("Y29yZQ=="));
    assert!(!tasks[1].is_core, "extension jar must not be tagged core");
    assert_eq!(tasks[1].extension.as_deref(), Some("foo"));
    assert_eq!(
        tasks[1].url,
        "https://h:8443/webstart/extensions/vendor/libs/foo/foo-client-1.0.0.jar"
    );
    assert_eq!(tasks[2].file_name, "last.jar");
    assert!(tasks[2].is_core);
}

#[test]
fn launch_plan_orders_heap_jvm_args_classpath_main_and_client_args() {
    let ws = WebstartFile::new(
        "Main".to_string(),
        vec!["server".to_string(), "-trust".to_string(), "T".to_string()],
        Some(vec![J2se { java_vm_args: Some("-Xss2m -javaagent:a.jar".to_string()), version: "1.9+".to_string() }]),
        "/logs".to_string(),
        "conn".to_string(),
        vec!["/a.jar".to_string(), "/b.jar".to_string()],
    );
    let mut ce = ConnectionEntry::default();
    ce.java_home = "  /opt/jdk ".to_string();
    ce.heap_size = " 1g ".to_string();
    ce.java_args = Some("-Dfoo=1 -agentpath:/x".to_string());
    ce.username = Some("admin".to_string());
    ce.password = Some("pw".to_string());
    let plan = ws.launch_plan(&ce, ":");
    assert_eq!(plan.java_home.as_deref(), Some("/opt/jdk"));
    assert_eq!(plan.jdk_java_options.as_deref(), Some("-Xss2m"));
    assert_eq!(
        plan.args,
        vec!["-Xmx1g", "-Dfoo=1", "-cp", "/a.jar:/b.jar", "Main", "server", "-trust", "T", "admin", "pw"]
    );
    assert_eq!(ws.log_file_name(), "conn.log");

    ce.java_home = "   ".to_string();
    ce.heap_size = String::new();
    ce.java_args = None;
    ce.username = None;
    let plan = ws.launch_plan(&ce, ";");
    assert_eq!(plan.java_home, None);
    assert_eq!(plan.args, vec!["-cp", "/a.jar;/b.jar", "Main", "server", "-trust", "T"]);
}

/// Runs a collection over `core`, answering every extension request with
/// `ext`, and returns the jars and the extension urls that were requested.
fn collect_with_extension(core: &str, ext: &str, base_url: &str) -> (Vec<JarTask>, Vec<String>) {
    let doc = parse_jnlp(core).expect("parse core jnlp");
    let resources = doc.jnlp.resources.expect("resources node");
    let mut c = JarCollector::new(&doc.nodes, resources, base_url);
    let mut fetched = Vec::new();
    loop {
        match c.next() {
            CollectStep::Fetch { url, .. } => {
                fetched.push(url);
                c.extension_text_fetched(ext).expect("extension jnlp parses");
            }
            CollectStep::Done => break,
        }
    }
    (c.into_tasks(), fetched)
}

const EXT_ONLY_JNLP: &str = "<?xml version=\"1.0\"?>\n<jnlp><resources>\n  <jar href=\"libs/foo/foo-client-1.0.0.jar\" sha256=\"ZXh0\"/>\n</resources></jnlp>";

#[test]
fn collect_jar_tasks_tags_extension_jars_as_non_core() {
    let core = "<?xml version=\"1.0\"?>\n<jnlp><resources>\n  <jar href=\"webstart/client-lib/mirth-client.jar\" sha256=\"Y29yZQ==\"/>\n  <extension href=\"webstart/extensions/foo.jnlp\"/>\n</resources><application-desc main-class=\"M\"/></jnlp>";
    let (tasks, fetched) = collect_with_extension(core, EXT_ONLY_JNLP, "http://127.0.0.1:10");
    assert_eq!(fetched, vec!["http://127.0.0.1:10/webstart/extensions/foo.jnlp"]);
    assert_eq!(tasks.len(), 2, "one core jar + one extension jar");
    assert!(tasks[0].is_core, "core jar must be tagged is_core");
    assert_eq!(tasks[0].extension, None, "core jar goes in core/");
    assert_eq!(tasks[0].file_name, "mirth-client.jar");
    assert!(
        !tasks[1].is_core,
        "extension jar must NOT be tagged is_core, or an extension upgrade aborts the launch again"
    );
    assert_eq!(tasks[1].extension.as_deref(), Some("foo"), "extension jar goes in extensions/foo/");
    assert_eq!(tasks[1].file_name, "foo-client-1.0.0.jar");
    assert_eq!(
        classify_cached_jar(
            &JarOnDisk::Contents(b"not the declared content".to_vec()),
            tasks[1].hash.as_deref(),
            tasks[1].is_core
        ),
        (true, false),
        "a changed extension jar re-downloads without being called foreign"
    );
}

#[test]
fn extension_jars_resolve_against_the_extension_href_directory() {
    let core = "<?xml version=\"1.0\"?>\n<jnlp><resources>\n  <extension href=\"webstart/extensions/vendor/foo.jnlp\"/>\n</resources><application-desc main-class=\"M\"/></jnlp>";
    let base_url = "http://127.0.0.1:10";
    let (tasks, _) = collect_with_extension(core, EXT_ONLY_JNLP, base_url);
    assert_eq!(tasks.len(), 1, "the extension contributes its one jar");
    assert_eq!(
        format!("{}/webstart/extensions/vendor/libs/foo/foo-client-1.0.0.jar", base_url),
        tasks[0].url,
        "extension jar must resolve under the extension's own directory"
    );
}

#[test]
fn sanitizing_twice_changes_nothing_where_stated() {
    let once = sanitize_vm_args(" -Xmx1g  -javaagent:a.jar -Dx=1 ");
    assert_eq!(sanitize_vm_args(&once), once);
    let p = sanitize_for_path("Open Integration Engine");
    assert_eq!(sanitize_for_path(&p), p);
    assert_eq!(sanitize_for_path(&sanitize_for_path("a.b")), "a-b", "a dot comes back as a dash");
}
