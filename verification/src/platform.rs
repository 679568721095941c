//! Platform boundary.
//!
//! Core never talks to the host OS directly: everything OS-specific goes
//! through [`Platform`]. The host process reads what the machine reports
//! (the OS and architecture it was built for, the number of logical CPUs)
//! and an adapter turns that into [`SystemInfo`].

use vstd::prelude::*;
use vstd::string::*;

use crate::text::same_text;

verus! {

#[derive(Debug, Clone, PartialEq, Eq)]
pub enum PlatformError {
    Unsupported(&'static str),
    Query(String),
}

/// Operating system family.
#[derive(Debug, Clone, Copy, PartialEq, Eq, Structural)]
pub enum OsFamily {
    Windows,
    Linux,
    MacOs,
    Other,
}

impl OsFamily {
    /// The family named by an OS identifier such as `std::env::consts::OS` reports.
    pub open spec fn named(name: Seq<char>) -> OsFamily {
        if name == "windows"@ {
            OsFamily::Windows
        } else if name == "linux"@ {
            OsFamily::Linux
        } else if name == "macos"@ {
            OsFamily::MacOs
        } else {
            OsFamily::Other
        }
    }

    pub open spec fn label(self) -> Seq<char> {
        match self {
            OsFamily::Windows => "Windows"@,
            OsFamily::Linux => "Linux"@,
            OsFamily::MacOs => "macOS"@,
            OsFamily::Other => "other"@,
        }
    }

    /// The family of the OS identifier `name` (`"windows"`, `"linux"`, `"macos"`, ...).
    pub fn from_os_name(name: &str) -> (f: OsFamily)
        ensures
            f == OsFamily::named(name@),
    {
        if same_text(name, "windows") {
            OsFamily::Windows
        } else if same_text(name, "linux") {
            OsFamily::Linux
        } else if same_text(name, "macos") {
            OsFamily::MacOs
        } else {
            OsFamily::Other
        }
    }

    /// The name of the family, as it is displayed.
    pub fn as_str(self) -> (r: &'static str)
        ensures
            r@ == self.label(),
    {
        match self {
            OsFamily::Windows => "Windows",
            OsFamily::Linux => "Linux",
            OsFamily::MacOs => "macOS",
            OsFamily::Other => "other",
        }
    }
}

/// Basic host information.
#[derive(Debug, Clone, PartialEq, Eq)]
pub struct SystemInfo {
    pub os: OsFamily,
    pub arch: &'static str,
    pub logical_cpus: usize,
}

/// What the host process read about the machine: the OS and architecture
/// identifiers it was built for, and the logical CPU count or the reason the
/// query failed.
#[derive(Debug, PartialEq, Eq)]
pub struct HostReport {
    pub os: &'static str,
    pub arch: &'static str,
    pub logical_cpus: Result<usize, String>,
}

/// The host-platform boundary.
pub trait Platform {
    /// Adapter identifier, e.g. `"portable"` or `"windows"`.
    fn adapter_name(&self) -> &'static str;

    fn system_info(&self, host: &HostReport) -> Result<SystemInfo, PlatformError>;
}

/// Adapter that knows only what the standard library reports.
#[derive(Debug, Default, Clone, Copy)]
pub struct PortablePlatform;

impl Platform for PortablePlatform {
    fn adapter_name(&self) -> (r: &'static str)
        ensures
            r@ == "portable"@,
    {
        "portable"
    }

    fn system_info(&self, host: &HostReport) -> (r: Result<SystemInfo, PlatformError>)
        ensures
            host.logical_cpus matches Ok(n) ==> r == Ok::<SystemInfo, PlatformError>(
                SystemInfo { os: OsFamily::named(host.os@), arch: host.arch, logical_cpus: n },
            ),
            host.logical_cpus matches Err(e) ==> (r matches Err(PlatformError::Query(m))
                && m@ == "cpu count: "@ + e@),
    {
        match &host.logical_cpus {
            Ok(n) => Ok(SystemInfo { os: OsFamily::from_os_name(host.os), arch: host.arch, logical_cpus: *n }),
            Err(e) => {
                let mut message = String::from_str("cpu count: ");
                message.append(e.as_str());
                Err(PlatformError::Query(message))
            },
        }
    }
}

/// Best available adapter for the current host: the portable one, the only
/// adapter there is.
pub fn detect() -> (p: PortablePlatform)
    ensures
        p == PortablePlatform,
{
    PortablePlatform
}

} // verus!
