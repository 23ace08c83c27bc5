use launcher::connection::{ConnectionEntry, ConnectionStore};
use launcher::launch::{Launch, LaunchAction, LaunchEvent, LaunchReply, LoadFailure};
use launcher::webstart::CacheMismatch;

fn store_with(pin: Option<&str>, show_console: bool) -> ConnectionStore {
    let mut cs = ConnectionStore::with_entries(String::new(), String::new(), String::new(), vec![]);
    let mut ce = ConnectionEntry::default();
    ce.id = "c 1".to_string();
    ce.address = "https://h:8443".to_string();
    ce.java_home = "/opt/jdk".to_string();
    ce.pinned_cert_sha256 = pin.map(|p| p.to_string());
    ce.show_console = show_console;
    cs.save(ce);
    cs
}

fn reply(a: LaunchAction) -> LaunchReply {
    match a {
        LaunchAction::Reply(r) => r,
        _ => panic!("expected a reply"),
    }
}

#[test]
fn unknown_connection_is_an_error() {
    let cs = store_with(None, false);
    match Launch::start(&cs, "nope") {
        Err(e) => assert_eq!(e, "connection not found: nope"),
        Ok(_) => panic!("unknown id"),
    }
}

#[test]
fn full_launch_with_a_matching_pin() {
    let cs = store_with(Some("ABCD"), true);
    let (mut l, a) = Launch::start(&cs, "c 1").unwrap();
    match a {
        LaunchAction::CheckJava { java_home } => assert_eq!(java_home, "/opt/jdk"),
        _ => panic!("java first"),
    }
    match l.step(LaunchEvent::JavaChecked(Ok(Some(17)))) {
        LaunchAction::CaptureCertificate { address } => assert_eq!(address, "https://h:8443"),
        _ => panic!("certificate next"),
    }
    assert!(matches!(l.step(LaunchEvent::CertificateCaptured(Ok("abcd".to_string()))), LaunchAction::LoadWebstart));
    match l.step(LaunchEvent::WebstartLoaded(Ok(()))) {
        LaunchAction::Run { console_label, icon_bootstrap } => {
            assert_eq!(console_label.as_deref(), Some("console-c_000020_1"));
            assert!(icon_bootstrap);
        }
        _ => panic!("run next"),
    }
    let r = reply(l.step(LaunchEvent::Spawned(Ok(()))));
    assert_eq!(r.code(), 0);
    assert!(!l.expects(&LaunchEvent::Spawned(Ok(()))));
}

#[test]
fn certificate_outcomes() {
    let cs = store_with(None, false);
    let (mut l, _) = Launch::start(&cs, "c 1").unwrap();
    l.step(LaunchEvent::JavaChecked(Ok(None)));
    assert_eq!(reply(l.step(LaunchEvent::CertificateCaptured(Ok("ab".to_string())))).code(), 2);

    let cs = store_with(Some("ab"), false);
    let (mut l, _) = Launch::start(&cs, "c 1").unwrap();
    l.step(LaunchEvent::JavaChecked(Ok(None)));
    assert_eq!(reply(l.step(LaunchEvent::CertificateCaptured(Ok("cd".to_string())))).code(), 3);

    let (mut l, _) = Launch::start(&cs, "c 1").unwrap();
    l.step(LaunchEvent::JavaChecked(Ok(None)));
    match reply(l.step(LaunchEvent::CertificateCaptured(Err("refused".to_string())))) {
        LaunchReply::Failed(m) => assert_eq!(m, "Could not reach https://h:8443: refused"),
        _ => panic!("unreachable server fails"),
    }
}

#[test]
fn failures_and_cache_mismatch_end_the_launch() {
    let cs = store_with(Some("ab"), false);
    let (mut l, _) = Launch::start(&cs, "c 1").unwrap();
    match reply(l.step(LaunchEvent::JavaChecked(Err("no java".to_string())))) {
        LaunchReply::Failed(m) => assert_eq!(m, "no java"),
        _ => panic!(),
    }

    let (mut l, _) = Launch::start(&cs, "c 1").unwrap();
    l.step(LaunchEvent::JavaChecked(Ok(Some(8))));
    l.step(LaunchEvent::CertificateCaptured(Ok("AB".to_string())));
    let m = CacheMismatch { engine_type: "e".to_string(), version: "v".to_string(), jars: vec!["a.jar".to_string()] };
    let r = reply(l.step(LaunchEvent::WebstartLoaded(Err(LoadFailure::Mismatch(m)))));
    assert_eq!(r.code(), 4);

    let (mut l, _) = Launch::start(&cs, "c 1").unwrap();
    l.step(LaunchEvent::JavaChecked(Ok(Some(8))));
    l.step(LaunchEvent::CertificateCaptured(Ok("AB".to_string())));
    match l.step(LaunchEvent::WebstartLoaded(Ok(()))) {
        LaunchAction::Run { console_label, icon_bootstrap } => {
            assert_eq!(console_label, None);
            assert!(!icon_bootstrap, "Java 8 gets no icon bootstrap");
        }
        _ => panic!(),
    }
    match reply(l.step(LaunchEvent::Spawned(Err("spawn failed".to_string())))) {
        LaunchReply::Failed(m) => assert_eq!(m, "spawn failed"),
        _ => panic!(),
    }
}
