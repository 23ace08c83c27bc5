//! The launch of a connection's administrator as a sequence of decisions:
//! check Java, check the server's certificate against the pin, load the Web
//! Start description, spawn. The caller performs each action and reports
//! what came of it; this decides what happens next and what the frontend
//! is told.

use vstd::prelude::*;

use crate::connection::{ConnectionEntry, ConnectionStore};
use crate::desktop::{console_label, console_window_label};
use crate::text::{chars_of, eq_ignore_ascii_case, owned, push_str, vec_eq_ignore_ascii_case};
use crate::webstart::CacheMismatch;

verus! {

/// What the frontend is told at the end of a launch.
pub enum LaunchReply {
    /// The launch failed with this message.
    Failed(String),
    /// First contact with this server: the operator is asked to trust the
    /// certificate it presented.
    TrustCertificate,
    /// The server presented a certificate other than the pinned one.
    CertificateChanged,
    /// The shared cache holds another engine's jars; the operator may
    /// confirm and launch again with the mismatch acknowledged.
    CacheMismatch(CacheMismatch),
    /// The administrator was started.
    Launched,
}

impl LaunchReply {
    /// The reply's code for the frontend: -1 failed, 0 launched, 2 trust the
    /// certificate, 3 certificate changed, 4 cache mismatch.
    pub fn code(&self) -> (c: i32)
        ensures
            c == match self {
                LaunchReply::Failed(_) => -1i32,
                LaunchReply::Launched => 0i32,
                LaunchReply::TrustCertificate => 2i32,
                LaunchReply::CertificateChanged => 3i32,
                LaunchReply::CacheMismatch(_) => 4i32,
            },
    {
        match self {
            LaunchReply::Failed(_) => -1,
            LaunchReply::Launched => 0,
            LaunchReply::TrustCertificate => 2,
            LaunchReply::CertificateChanged => 3,
            LaunchReply::CacheMismatch(_) => 4,
        }
    }
}

/// The next thing to do.
pub enum LaunchAction {
    /// Check that `java` (under this Java home, or on `PATH` when it is
    /// blank) runs.
    CheckJava { java_home: String },
    /// Connect to the server and capture the certificate it presents.
    CaptureCertificate { address: String },
    /// Load the Web Start description (from the cache of loaded ones, or
    /// from the server).
    LoadWebstart,
    /// Spawn the administrator; open the console window with this label
    /// once it runs, and give it the icon bootstrap when asked.
    Run { console_label: Option<String>, icon_bootstrap: bool },
    /// Tell the frontend this; the launch is over.
    Reply(LaunchReply),
}

/// Why loading the Web Start description failed.
pub enum LoadFailure {
    Mismatch(CacheMismatch),
    Other(String),
}

/// What came of the last action.
pub enum LaunchEvent {
    /// Java runs, reporting this major version when it could be read; or
    /// the message why it does not.
    JavaChecked(Result<Option<u32>, String>),
    /// The SHA-256 (hex) of the certificate the server presented, or why
    /// the server could not be reached.
    CertificateCaptured(Result<String, String>),
    /// The description is loaded, or why not.
    WebstartLoaded(Result<(), LoadFailure>),
    /// The administrator was spawned, or why not.
    Spawned(Result<(), String>),
}

/// Where a launch stands.
#[derive(PartialEq, Eq, Structural)]
pub enum LaunchStage {
    CheckingJava,
    CapturingCertificate,
    Loading,
    Running,
    Finished,
}

/// A launch in progress for one connection.
pub struct Launch {
    stage: LaunchStage,
    address: String,
    pin: Option<String>,
    show_console: bool,
    conn_id: String,
    java_major: Option<u32>,
}

/// The error for a launch of an unknown connection.
pub open spec fn not_found_msg(id: Seq<char>) -> Seq<char> {
    "connection not found: "@ + id
}

/// The failure message when the server cannot be reached.
pub open spec fn unreachable_msg(address: Seq<char>, why: Seq<char>) -> Seq<char> {
    "Could not reach "@ + address + ": "@ + why
}

/// Whether the event is the outcome of the action the stage waits on.
pub open spec fn answers(stage: LaunchStage, e: LaunchEvent) -> bool {
    match stage {
        LaunchStage::CheckingJava => e is JavaChecked,
        LaunchStage::CapturingCertificate => e is CertificateCaptured,
        LaunchStage::Loading => e is WebstartLoaded,
        LaunchStage::Running => e is Spawned,
        LaunchStage::Finished => false,
    }
}

/// Whether a Java of this major version can run the icon bootstrap (Java 9
/// or later; an unknown version gets none, since no icon beats a broken
/// launch).
pub open spec fn bootstrap_ok(java_major: Option<u32>) -> bool {
    match java_major {
        Some(v) => v >= 9,
        None => false,
    }
}

impl Launch {
    pub closed spec fn stage(&self) -> LaunchStage {
        self.stage
    }

    pub closed spec fn address(&self) -> Seq<char> {
        self.address@
    }

    pub closed spec fn pin(&self) -> Option<Seq<char>> {
        match self.pin {
            Some(p) => Some(p@),
            None => None,
        }
    }

    pub closed spec fn show_console(&self) -> bool {
        self.show_console
    }

    pub closed spec fn conn_id(&self) -> Seq<char> {
        self.conn_id@
    }

    pub closed spec fn java_major(&self) -> Option<u32> {
        self.java_major
    }

    /// Starts the launch of the connection saved under `id`: first Java is
    /// checked. An unknown id is an error.
    pub fn start(cs: &ConnectionStore, id: &str) -> (r: Result<(Launch, LaunchAction), String>)
        ensures
            match r {
                Ok((l, a)) => {
                    &&& cs@.dom().contains(id@)
                    &&& l.stage() == LaunchStage::CheckingJava
                    &&& l.address() == cs@[id@].address
                    &&& l.pin() == cs@[id@].pinned_cert_sha256
                    &&& l.show_console() == cs@[id@].show_console
                    &&& l.conn_id() == cs@[id@].id
                    &&& l.java_major() is None
                    &&& a matches LaunchAction::CheckJava { java_home }
                    &&& java_home@ == cs@[id@].java_home
                },
                Err(e) => !cs@.dom().contains(id@) && e@ == not_found_msg(id@),
            },
    {
        let ce: &ConnectionEntry = match cs.get(id) {
            Some(ce) => ce,
            None => {
                let mut e = owned("connection not found: ");
                push_str(&mut e, id);
                return Err(e);
            },
        };
        let pin = match &ce.pinned_cert_sha256 {
            Some(p) => Some(p.clone()),
            None => None,
        };
        let l = Launch {
            stage: LaunchStage::CheckingJava,
            address: ce.address.clone(),
            pin,
            show_console: ce.show_console,
            conn_id: ce.id.clone(),
            java_major: None,
        };
        Ok((l, LaunchAction::CheckJava { java_home: ce.java_home.clone() }))
    }

    /// Whether `e` is the outcome of the action this launch waits on.
    pub fn expects(&self, e: &LaunchEvent) -> (b: bool)
        ensures
            b == answers(self.stage(), *e),
    {
        match (&self.stage, e) {
            (LaunchStage::CheckingJava, LaunchEvent::JavaChecked(_)) => true,
            (LaunchStage::CapturingCertificate, LaunchEvent::CertificateCaptured(_)) => true,
            (LaunchStage::Loading, LaunchEvent::WebstartLoaded(_)) => true,
            (LaunchStage::Running, LaunchEvent::Spawned(_)) => true,
            _ => false,
        }
    }

    /// Decides what follows the outcome `e` of the last action:
    /// a missing Java fails the launch; an unreachable server fails it; a
    /// server with no pin asks the operator to trust its certificate, and one
    /// whose certificate differs from the pin (ignoring ASCII case) reports
    /// the change, both before anything is downloaded; a cache mismatch is
    /// reported as such and any other load error fails the launch; once
    /// loaded the administrator is run (with its console when the
    /// connection shows one, and the icon bootstrap on Java 9 or later);
    /// a failed spawn fails the launch and a successful one ends it.
    pub fn step(&mut self, e: LaunchEvent) -> (a: LaunchAction)
        requires
            answers(old(self).stage(), e),
        ensures
            final(self).address() == old(self).address(),
            final(self).pin() == old(self).pin(),
            final(self).show_console() == old(self).show_console(),
            final(self).conn_id() == old(self).conn_id(),
            // Nothing is downloaded before the server's certificate matched the pin.
            a is LoadWebstart ==> {
                &&& old(self).stage() == LaunchStage::CapturingCertificate
                &&& e matches LaunchEvent::CertificateCaptured(Ok(sha))
                &&& old(self).pin() matches Some(p)
                &&& eq_ignore_ascii_case(p, sha@)
            },
            match e {
                LaunchEvent::JavaChecked(Err(msg)) => {
                    &&& final(self).stage() == LaunchStage::Finished
                    &&& a matches LaunchAction::Reply(LaunchReply::Failed(m))
                    &&& m@ == msg@
                },
                LaunchEvent::JavaChecked(Ok(v)) => {
                    &&& final(self).stage() == LaunchStage::CapturingCertificate
                    &&& final(self).java_major() == v
                    &&& a matches LaunchAction::CaptureCertificate { address }
                    &&& address@ == old(self).address()
                },
                LaunchEvent::CertificateCaptured(Err(why)) => {
                    &&& final(self).stage() == LaunchStage::Finished
                    &&& a matches LaunchAction::Reply(LaunchReply::Failed(m))
                    &&& m@ == unreachable_msg(old(self).address(), why@)
                },
                LaunchEvent::CertificateCaptured(Ok(sha)) => match old(self).pin() {
                    None => {
                        &&& final(self).stage() == LaunchStage::Finished
                        &&& a matches LaunchAction::Reply(LaunchReply::TrustCertificate)
                    },
                    Some(p) => if eq_ignore_ascii_case(p, sha@) {
                        &&& final(self).stage() == LaunchStage::Loading
                        &&& a is LoadWebstart
                        &&& final(self).java_major() == old(self).java_major()
                    } else {
                        &&& final(self).stage() == LaunchStage::Finished
                        &&& a matches LaunchAction::Reply(LaunchReply::CertificateChanged)
                    },
                },
                LaunchEvent::WebstartLoaded(Err(LoadFailure::Mismatch(m))) => {
                    &&& final(self).stage() == LaunchStage::Finished
                    &&& a matches LaunchAction::Reply(LaunchReply::CacheMismatch(x))
                    &&& x == m
                },
                LaunchEvent::WebstartLoaded(Err(LoadFailure::Other(msg))) => {
                    &&& final(self).stage() == LaunchStage::Finished
                    &&& a matches LaunchAction::Reply(LaunchReply::Failed(m))
                    &&& m@ == msg@
                },
                LaunchEvent::WebstartLoaded(Ok(())) => {
                    &&& final(self).stage() == LaunchStage::Running
                    &&& a matches LaunchAction::Run { console_label: label, icon_bootstrap }
                    &&& icon_bootstrap == bootstrap_ok(old(self).java_major())
                    &&& match label {
                        Some(l) => old(self).show_console() && l@ == console_label(
                            old(self).conn_id(),
                        ),
                        None => !old(self).show_console(),
                    }
                },
                LaunchEvent::Spawned(Err(msg)) => {
                    &&& final(self).stage() == LaunchStage::Finished
                    &&& a matches LaunchAction::Reply(LaunchReply::Failed(m))
                    &&& m@ == msg@
                },
                LaunchEvent::Spawned(Ok(())) => {
                    &&& final(self).stage() == LaunchStage::Finished
                    &&& a matches LaunchAction::Reply(LaunchReply::Launched)
                },
            },
    {
        match e {
            LaunchEvent::JavaChecked(Err(msg)) => {
                self.stage = LaunchStage::Finished;
                LaunchAction::Reply(LaunchReply::Failed(msg))
            },
            LaunchEvent::JavaChecked(Ok(v)) => {
                self.java_major = v;
                self.stage = LaunchStage::CapturingCertificate;
                LaunchAction::CaptureCertificate { address: self.address.clone() }
            },
            LaunchEvent::CertificateCaptured(Err(why)) => {
                self.stage = LaunchStage::Finished;
                let mut m = owned("Could not reach ");
                push_str(&mut m, self.address.as_str());
                push_str(&mut m, ": ");
                push_str(&mut m, why.as_str());
                LaunchAction::Reply(LaunchReply::Failed(m))
            },
            LaunchEvent::CertificateCaptured(Ok(sha)) => {
                let same = match &self.pin {
                    None => {
                        self.stage = LaunchStage::Finished;
                        return LaunchAction::Reply(LaunchReply::TrustCertificate);
                    },
                    Some(p) => vec_eq_ignore_ascii_case(&chars_of(p.as_str()), &chars_of(sha.as_str())),
                };
                if same {
                    self.stage = LaunchStage::Loading;
                    LaunchAction::LoadWebstart
                } else {
                    self.stage = LaunchStage::Finished;
                    LaunchAction::Reply(LaunchReply::CertificateChanged)
                }
            },
            LaunchEvent::WebstartLoaded(Err(LoadFailure::Mismatch(m))) => {
                self.stage = LaunchStage::Finished;
                LaunchAction::Reply(LaunchReply::CacheMismatch(m))
            },
            LaunchEvent::WebstartLoaded(Err(LoadFailure::Other(msg))) => {
                self.stage = LaunchStage::Finished;
                LaunchAction::Reply(LaunchReply::Failed(msg))
            },
            LaunchEvent::WebstartLoaded(Ok(())) => {
                self.stage = LaunchStage::Running;
                let label = if self.show_console {
                    Some(console_window_label(self.conn_id.as_str()))
                } else {
                    None
                };
                let icon_bootstrap = match self.java_major {
                    Some(v) => v >= 9,
                    None => false,
                };
                LaunchAction::Run { console_label: label, icon_bootstrap }
            },
            LaunchEvent::Spawned(Err(msg)) => {
                self.stage = LaunchStage::Finished;
                LaunchAction::Reply(LaunchReply::Failed(msg))
            },
            LaunchEvent::Spawned(Ok(())) => {
                self.stage = LaunchStage::Finished;
                LaunchAction::Reply(LaunchReply::Launched)
            },
        }
    }
}

} // verus!
