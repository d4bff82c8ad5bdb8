use desktop_mcp::session::{
    accessibility_variables, bus_address, desktop_variables, failure_report, foreground_socket,
    launcher_paths, mcp_url, monitor_url, runtime_dir, shell_quoted, startup_failure,
    startup_succeeded, x11_display_name, Readiness, Session, Variable,
};

fn session() -> Session {
    Session {
        socket_name: "wayland-1".to_string(),
        x11_display: None,
        runtime_dir: "/tmp/it's here".to_string(),
        bus_address: None,
        port: 8080,
        pid: 4711,
    }
}

fn pairs(vars: &[Variable]) -> Vec<(&str, &str)> {
    vars.iter().map(|v| (v.name.as_str(), v.value.as_str())).collect()
}

#[test]
fn exports_without_accessibility() {
    assert_eq!(
        session().exports(),
        "export WAYLAND_DISPLAY='wayland-1'\n\
         export XDG_RUNTIME_DIR='/tmp/it'\\''s here'\n\
         export GDK_BACKEND='wayland'\n\
         export QT_QPA_PLATFORM='wayland'\n\
         export SDL_VIDEODRIVER='wayland'\n\
         export GTK_CSD='1'\n\
         export XKB_DEFAULT_LAYOUT='us'\n\
         export DESKTOP_MCP_URL='http://127.0.0.1:8080/mcp'\n\
         export DESKTOP_MCP_MONITOR_URL='http://127.0.0.1:8080/'\n\
         export DESKTOP_MCP_PID='4711'\n"
    );
}

#[test]
fn exports_with_accessibility_and_x11() {
    let s = Session {
        x11_display: Some(12),
        bus_address: Some("unix:path=/tmp/bus".to_string()),
        ..session()
    };
    let vars = s.variables();
    let vars = pairs(&vars);
    assert_eq!(vars[2], ("DISPLAY", ":12"));
    assert_eq!(vars[8], ("DBUS_SESSION_BUS_ADDRESS", "unix:path=/tmp/bus"));
    assert_eq!(vars[9], ("GTK_A11Y", "atspi"));
    assert_eq!(vars[10], ("QT_LINUX_ACCESSIBILITY_ALWAYS_ON", "1"));
    assert_eq!(vars[11], ("ASSISTIVE_TECHNOLOGIES", "org.GNOME.Accessibility.AtkWrapper"));
    assert_eq!(vars.len(), 15);
    assert_eq!(x11_display_name(12), ":12");
}

#[test]
fn programs_are_pointed_at_the_desktop() {
    let vars = desktop_variables("wayland-mcp");
    assert_eq!(
        pairs(&vars),
        vec![
            ("WAYLAND_DISPLAY", "wayland-mcp"),
            ("GDK_BACKEND", "wayland"),
            ("QT_QPA_PLATFORM", "wayland"),
            ("SDL_VIDEODRIVER", "wayland"),
            ("GTK_CSD", "1"),
            ("XKB_DEFAULT_LAYOUT", "us"),
        ]
    );
    let vars = accessibility_variables("addr");
    assert_eq!(pairs(&vars)[0], ("DBUS_SESSION_BUS_ADDRESS", "addr"));
    assert_eq!(vars.len(), 4);
}

#[test]
fn quotes_are_escaped_for_the_shell() {
    assert_eq!(shell_quoted(""), "''");
    assert_eq!(shell_quoted("a b$c"), "'a b$c'");
    assert_eq!(shell_quoted("'"), "''\\'''");
    assert_eq!(shell_quoted("x'y'z"), "'x'\\''y'\\''z'");
}

#[test]
fn reports_tell_success_from_failure() {
    assert!(startup_succeeded(&session().exports()));
    let report = failure_report("bind port 8080: in use");
    assert_eq!(report, "# desktop-mcp startup failed: bind port 8080: in use\n");
    assert!(!startup_succeeded(&report));
    assert!(!startup_succeeded(""));
}

#[test]
fn startup_fails_if_the_server_does() {
    assert_eq!(startup_failure(Readiness::Up), None);
    assert_eq!(startup_failure(Readiness::Failed("boom".to_string())), Some("boom".to_string()));
    assert_eq!(
        startup_failure(Readiness::Silent),
        Some("http thread did not report readiness".to_string())
    );
}

#[test]
fn runtime_directory_is_the_given_one_if_usable() {
    let d = runtime_dir(Some("/run/user/1000".to_string()), true, 1000);
    assert_eq!((d.path.as_str(), d.private), ("/run/user/1000", false));
    let d = runtime_dir(Some("/run/user/1000".to_string()), false, 1000);
    assert_eq!((d.path.as_str(), d.private), ("/tmp/desktop-mcp-1000", true));
    let d = runtime_dir(None, true, 0);
    assert_eq!((d.path.as_str(), d.private), ("/tmp/desktop-mcp-0", true));
}

#[test]
fn foreground_socket_has_a_fixed_name() {
    assert_eq!(foreground_socket(None), "wayland-mcp");
    assert_eq!(foreground_socket(Some("mine".to_string())), "mine");
}

#[test]
fn addresses_name_the_port() {
    assert_eq!(mcp_url(65535), "http://127.0.0.1:65535/mcp");
    assert_eq!(monitor_url(80), "http://127.0.0.1:80/");
}

#[test]
fn bus_address_is_the_first_line() {
    assert_eq!(bus_address("unix:abstract=x\n"), Some("unix:abstract=x".to_string()));
    assert_eq!(bus_address(" \n"), None);
    assert_eq!(bus_address(""), None);
    assert_eq!(
        launcher_paths(),
        vec!["/usr/libexec/at-spi-bus-launcher", "/usr/lib/at-spi2-core/at-spi-bus-launcher"]
    );
}
