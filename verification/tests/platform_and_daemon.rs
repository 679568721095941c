use refx_core::daemon::{parse_args, smoke_test, Command};
use refx_core::platform::{detect, HostReport, OsFamily, Platform, PlatformError, PortablePlatform, SystemInfo};
use refx_core::{RefxConfig, Runtime, TaskId, TaskState};

fn args(list: &[&str]) -> Vec<String> {
    list.iter().map(|s| s.to_string()).collect()
}

#[test]
fn detect_returns_an_adapter() {
    assert_eq!(detect().adapter_name(), "portable");
}

#[test]
fn os_names_map_to_families() {
    assert_eq!(OsFamily::from_os_name("windows"), OsFamily::Windows);
    assert_eq!(OsFamily::from_os_name("linux"), OsFamily::Linux);
    assert_eq!(OsFamily::from_os_name("macos"), OsFamily::MacOs);
    assert_eq!(OsFamily::from_os_name("freebsd"), OsFamily::Other);
    assert_eq!(OsFamily::from_os_name("Linux"), OsFamily::Other);
    let labels: Vec<&str> =
        [OsFamily::Windows, OsFamily::Linux, OsFamily::MacOs, OsFamily::Other].iter().map(|f| f.as_str()).collect();
    assert_eq!(labels, ["Windows", "Linux", "macOS", "other"]);
}

#[test]
fn portable_adapter_interprets_the_host_report() {
    let report = HostReport { os: "linux", arch: "x86_64", logical_cpus: Ok(8) };
    assert_eq!(
        PortablePlatform.system_info(&report),
        Ok(SystemInfo { os: OsFamily::Linux, arch: "x86_64", logical_cpus: 8 })
    );
    let failed = HostReport { os: "linux", arch: "x86_64", logical_cpus: Err("denied".into()) };
    assert_eq!(PortablePlatform.system_info(&failed), Err(PlatformError::Query("cpu count: denied".into())));
}

#[test]
fn command_line_defaults_and_options() {
    assert_eq!(parse_args(&args(&[])), Ok(Command::Run { config: "refx.toml".into(), smoke: false }));
    assert_eq!(
        parse_args(&args(&["--smoke", "--config", "x.toml"])),
        Ok(Command::Run { config: "x.toml".into(), smoke: true })
    );
    assert_eq!(
        parse_args(&args(&["--config", "a.toml", "--config", "b.toml"])),
        Ok(Command::Run { config: "b.toml".into(), smoke: false })
    );
    assert_eq!(parse_args(&args(&["--help", "--bogus"])), Ok(Command::Help));
    assert_eq!(parse_args(&args(&["-h"])), Ok(Command::Help));
}

#[test]
fn command_line_errors() {
    assert_eq!(parse_args(&args(&["--config"])), Err("--config requires a path".to_string()));
    assert_eq!(parse_args(&args(&["--verbose", "--help"])), Err("unknown argument `--verbose`".to_string()));
}

#[test]
fn smoke_run_completes_one_task() {
    let mut rt = Runtime::new(RefxConfig::default());
    assert_eq!(smoke_test(&mut rt), Ok(()));
    let t = rt.context().tasks.get(TaskId(1)).expect("smoke task");
    assert_eq!(t.state, TaskState::Completed);
    assert_eq!(t.user_request, "smoke test");
    assert_eq!(t.history.len(), 3);
    assert!(t.history.iter().all(|r| r.reason.as_deref() == Some("smoke")));
}
