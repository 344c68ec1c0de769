//! The host that the relay runs on.

use crate::config::{ServiceManager, SupportedPlatform};
use crate::git::{render_status, status_text};
use crate::text::{concat3, concat4, concat5, same, texts};
use vstd::prelude::*;

verus! {

/// What a host says of itself and of its file systems.
pub trait PlatformProbe {
    fn current_platform(&self) -> Result<SupportedPlatform, PlatformProbeError>;

    fn filesystem_type(&self, path: &str) -> Result<String, PlatformProbeError>;

    fn service_manager_supported(
        &self,
        platform: SupportedPlatform,
        service_manager: ServiceManager,
    ) -> bool;
}

#[derive(Debug, Clone)]
pub enum PlatformProbeError {
    UnsupportedPlatform(String),
    Spawn { program: String, error: String },
    CommandFailed { program: String, path: String, status: Option<i32>, stderr: String },
}

impl PlatformProbeError {
    pub open spec fn message_text(self) -> Seq<char> {
        match self {
            PlatformProbeError::UnsupportedPlatform(name) => "unsupported platform "@ + name@ + "; only macOS and Linux are supported"@,
            PlatformProbeError::Spawn { program, error } => "failed to spawn "@ + program@ + ": "@ + error@,
            PlatformProbeError::CommandFailed { program, path, status, stderr } => program@ + " failed for "@ + path@ + " with status "@ + status_text(status) + ": "@ + stderr@,
        }
    }

    /// The error in words.
    pub fn message(&self) -> (r: String)
        ensures
            r@ == self.message_text(),
    {
        match self {
            PlatformProbeError::UnsupportedPlatform(name) => concat3("unsupported platform ", name, "; only macOS and Linux are supported"),
            PlatformProbeError::Spawn { program, error } => concat4("failed to spawn ", program, ": ", error),
            PlatformProbeError::CommandFailed { program, path, status, stderr } => {
                let head = concat5(program, " failed for ", path, " with status ", &render_status(*status));
                concat3(&head, ": ", stderr)
            },
        }
    }
}

/// Whether `answer` is one that `probe` may give for the file system under `path`.
pub open spec fn may_report_filesystem<P: PlatformProbe>(
    probe: &P,
    path: Seq<char>,
    answer: Result<String, PlatformProbeError>,
) -> bool {
    exists|p: &str|
        p@ == path && #[trigger] call_ensures(P::filesystem_type, (probe, p), answer)
}

/// Asks `probe` for the file system under `path`.
pub fn ask_filesystem<P: PlatformProbe>(probe: &P, path: &str) -> (r: Result<
    String,
    PlatformProbeError,
>)
    ensures
        may_report_filesystem(probe, path@, r),
{
    let answer = probe.filesystem_type(path);
    assert(call_ensures(P::filesystem_type, (probe, path), answer));
    answer
}

/// The platform that the name of an operating system stands for.
pub fn platform_named(os: &str) -> (r: Result<SupportedPlatform, PlatformProbeError>)
    ensures
        match r {
            Ok(SupportedPlatform::Macos) => os@ == "macos"@,
            Ok(SupportedPlatform::Linux) => os@ == "linux"@,
            Err(PlatformProbeError::UnsupportedPlatform(name)) => {
                &&& os@ != "macos"@
                &&& os@ != "linux"@
                &&& name@ == os@
            },
            Err(_) => false,
        },
{
    if same(os, "macos") {
        Ok(SupportedPlatform::Macos)
    } else if same(os, "linux") {
        Ok(SupportedPlatform::Linux)
    } else {
        Err(PlatformProbeError::UnsupportedPlatform(os.to_owned()))
    }
}

/// The program, with its leading arguments, that prints the type of a file system.
pub fn filesystem_command(platform: SupportedPlatform) -> (r: (&'static str, Vec<String>))
    ensures
        match platform {
            SupportedPlatform::Macos => r.0@ == "/usr/bin/stat"@ && texts(r.1@) == seq![
                "-f"@,
                "%T"@,
            ],
            SupportedPlatform::Linux => r.0@ == "stat"@ && texts(r.1@) == seq![
                "-f"@,
                "-c"@,
                "%T"@,
            ],
        },
{
    match platform {
        SupportedPlatform::Macos => ("/usr/bin/stat", vec!["-f".to_owned(), "%T".to_owned()]),
        SupportedPlatform::Linux => (
            "stat",
            vec!["-f".to_owned(), "-c".to_owned(), "%T".to_owned()],
        ),
    }
}

/// The platforms with the service manager that each is supported with.
pub open spec fn supported_pair(platform: SupportedPlatform, manager: ServiceManager) -> bool {
    ||| (platform == SupportedPlatform::Macos && manager == ServiceManager::Launchd)
    ||| (platform == SupportedPlatform::Linux && manager == ServiceManager::Systemd)
}

/// Whether a platform is supported with a service manager.
pub fn service_manager_supported(platform: SupportedPlatform, manager: ServiceManager) -> (r: bool)
    ensures
        r == supported_pair(platform, manager),
{
    match (platform, manager) {
        (SupportedPlatform::Macos, ServiceManager::Launchd) => true,
        (SupportedPlatform::Linux, ServiceManager::Systemd) => true,
        _ => false,
    }
}

/// Each platform is supported with one service manager: macOS with launchd, Linux with systemd.
pub proof fn law_supported_pairs(platform: SupportedPlatform, manager: ServiceManager)
    ensures
        supported_pair(platform, manager) <==> (platform == SupportedPlatform::Macos <==> manager
            == ServiceManager::Launchd),
{
}

} // verus!
