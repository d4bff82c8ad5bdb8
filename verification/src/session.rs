//! Startup: the runtime directory, the environment that programs on the
//! desktop need, and the report that tells the caller about it.

use vstd::prelude::*;
use vstd::string::*;

use crate::text::{chars_of, contains, decimal_u64, trim};

verus! {

/// An environment variable.
#[derive(Debug)]
pub struct Variable {
    pub name: String,
    pub value: String,
}

/// The mathematical content of a [`Variable`].
pub struct VariableView {
    pub name: Seq<char>,
    pub value: Seq<char>,
}

impl View for Variable {
    type V = VariableView;

    open spec fn view(&self) -> VariableView {
        VariableView { name: self.name@, value: self.value@ }
    }
}

pub open spec fn variable_views(vars: Seq<Variable>) -> Seq<VariableView> {
    vars.map_values(|v: Variable| v@)
}

/// A variable with this name and value.
pub open spec fn var(name: Seq<char>, value: Seq<char>) -> VariableView {
    VariableView { name, value }
}

/// Points every toolkit at the desktop. Without these, Qt defaults to X11,
/// SDL prefers it, and GTK could pick a foreign X server. Clients draw their
/// own decorations, and their keymap matches the injected input.
pub open spec fn toolkit() -> Seq<VariableView> {
    seq![
        var("GDK_BACKEND"@, "wayland"@),
        var("QT_QPA_PLATFORM"@, "wayland"@),
        var("SDL_VIDEODRIVER"@, "wayland"@),
        var("GTK_CSD"@, "1"@),
        var("XKB_DEFAULT_LAYOUT"@, "us"@),
    ]
}

/// Makes programs publish their accessible trees on this session bus. Java
/// does so only with the ATK wrapper.
pub open spec fn accessibility(address: Seq<char>) -> Seq<VariableView> {
    seq![
        var("DBUS_SESSION_BUS_ADDRESS"@, address),
        var("GTK_A11Y"@, "atspi"@),
        var("QT_LINUX_ACCESSIBILITY_ALWAYS_ON"@, "1"@),
        var("ASSISTIVE_TECHNOLOGIES"@, "org.GNOME.Accessibility.AtkWrapper"@),
    ]
}

fn add_var(vars: &mut Vec<Variable>, name: &str, value: &str)
    ensures
        variable_views(final(vars)@) == variable_views(old(vars)@).push(var(name@, value@)),
{
    let v = Variable { name: name.to_owned(), value: value.to_owned() };
    vars.push(v);
    assert(variable_views(vars@) =~= variable_views(old(vars)@).push(v@));
}

fn add_toolkit(vars: &mut Vec<Variable>)
    ensures
        variable_views(final(vars)@) == variable_views(old(vars)@) + toolkit(),
{
    add_var(vars, "GDK_BACKEND", "wayland");
    add_var(vars, "QT_QPA_PLATFORM", "wayland");
    add_var(vars, "SDL_VIDEODRIVER", "wayland");
    add_var(vars, "GTK_CSD", "1");
    add_var(vars, "XKB_DEFAULT_LAYOUT", "us");
    assert(variable_views(vars@) =~= variable_views(old(vars)@) + toolkit());
}

fn add_accessibility(vars: &mut Vec<Variable>, address: &str)
    ensures
        variable_views(final(vars)@) == variable_views(old(vars)@) + accessibility(address@),
{
    add_var(vars, "DBUS_SESSION_BUS_ADDRESS", address);
    add_var(vars, "GTK_A11Y", "atspi");
    add_var(vars, "QT_LINUX_ACCESSIBILITY_ALWAYS_ON", "1");
    add_var(vars, "ASSISTIVE_TECHNOLOGIES", "org.GNOME.Accessibility.AtkWrapper");
    assert(variable_views(vars@) =~= variable_views(old(vars)@) + accessibility(address@));
}

/// The variables that let programs find the desktop of this socket.
pub fn desktop_variables(socket_name: &str) -> (r: Vec<Variable>)
    ensures
        variable_views(r@) == seq![var("WAYLAND_DISPLAY"@, socket_name@)] + toolkit(),
{
    let mut vars: Vec<Variable> = Vec::new();
    add_var(&mut vars, "WAYLAND_DISPLAY", socket_name);
    add_toolkit(&mut vars);
    assert(variable_views(vars@) =~= seq![var("WAYLAND_DISPLAY"@, socket_name@)] + toolkit());
    vars
}

/// The variables that let programs find the accessibility bus.
pub fn accessibility_variables(address: &str) -> (r: Vec<Variable>)
    ensures
        variable_views(r@) == accessibility(address@),
{
    let mut vars: Vec<Variable> = Vec::new();
    add_accessibility(&mut vars, address);
    assert(variable_views(vars@) =~= accessibility(address@));
    vars
}

/// The X display of this number.
pub open spec fn display_name(display: u32) -> Seq<char> {
    ":"@ + crate::text::decimal(display as nat)
}

/// The value of `DISPLAY` for an X display.
pub fn x11_display_name(display: u32) -> (r: String)
    ensures
        r@ == display_name(display),
{
    ":".to_owned().concat(&decimal_u64(display as u64))
}

/// Where the tools are served on this port.
pub open spec fn tools_address(port: u16) -> Seq<char> {
    "http://127.0.0.1:"@ + crate::text::decimal(port as nat) + "/mcp"@
}

/// Where the monitor is served on this port.
pub open spec fn monitor_address(port: u16) -> Seq<char> {
    "http://127.0.0.1:"@ + crate::text::decimal(port as nat) + "/"@
}

pub fn mcp_url(port: u16) -> (r: String)
    ensures
        r@ == tools_address(port),
{
    "http://127.0.0.1:".to_owned().concat(&decimal_u64(port as u64)).concat("/mcp")
}

pub fn monitor_url(port: u16) -> (r: String)
    ensures
        r@ == monitor_address(port),
{
    "http://127.0.0.1:".to_owned().concat(&decimal_u64(port as u64)).concat("/")
}

/// A running desktop.
#[derive(Debug)]
pub struct Session {
    pub socket_name: String,
    /// The number of the X display, if X11 programs are served.
    pub x11_display: Option<u32>,
    pub runtime_dir: String,
    /// The address of the private session bus, if there is one.
    pub bus_address: Option<String>,
    pub port: u16,
    pub pid: u32,
}

impl Session {
    /// The environment of programs on this desktop.
    pub open spec fn environment(self) -> Seq<VariableView> {
        let bus = match self.bus_address {
            Some(address) => accessibility(address@),
            None => Seq::empty(),
        };
        let x11 = match self.x11_display {
            Some(n) => seq![var("DISPLAY"@, display_name(n))],
            None => Seq::empty(),
        };
        seq![
            var("WAYLAND_DISPLAY"@, self.socket_name@),
            var("XDG_RUNTIME_DIR"@, self.runtime_dir@),
        ] + x11 + toolkit() + bus + seq![
            var("DESKTOP_MCP_URL"@, tools_address(self.port)),
            var("DESKTOP_MCP_MONITOR_URL"@, monitor_address(self.port)),
            var("DESKTOP_MCP_PID"@, crate::text::decimal(self.pid as nat)),
        ]
    }

    /// The environment of programs on this desktop.
    pub fn variables(&self) -> (r: Vec<Variable>)
        ensures
            variable_views(r@) == self.environment(),
    {
        let mut vars: Vec<Variable> = Vec::new();
        add_var(&mut vars, "WAYLAND_DISPLAY", &self.socket_name);
        add_var(&mut vars, "XDG_RUNTIME_DIR", &self.runtime_dir);
        if let Some(n) = self.x11_display {
            add_var(&mut vars, "DISPLAY", &x11_display_name(n));
        }
        add_toolkit(&mut vars);
        if let Some(address) = &self.bus_address {
            add_accessibility(&mut vars, address);
        }
        add_var(&mut vars, "DESKTOP_MCP_URL", &mcp_url(self.port));
        add_var(&mut vars, "DESKTOP_MCP_MONITOR_URL", &monitor_url(self.port));
        add_var(&mut vars, "DESKTOP_MCP_PID", &decimal_u64(self.pid as u64));
        assert(variable_views(vars@) =~= self.environment());
        vars
    }

    /// Shell commands that set the environment, one per line.
    pub fn exports(&self) -> (r: String)
        ensures
            r@ == export_lines(self.environment()),
    {
        let vars = self.variables();
        let ghost all = variable_views(vars@);
        let mut out = String::new();
        for i in 0..vars.len()
            invariant
                all == variable_views(vars@),
                out@ == export_lines(all.take(i as int)),
        {
            assert(all.take(i + 1).drop_last() == all.take(i as int));
            assert(all.take(i + 1).last() == vars@[i as int]@);
            out.append(&export_line_text(&vars[i]));
        }
        assert(all.take(all.len() as int) == all);
        out
    }
}

/// A text as it stands between single quotes: the quote itself ends the
/// quotation, stands escaped, and starts a new one.
pub open spec fn escaped(s: Seq<char>) -> Seq<char>
    decreases s.len(),
{
    if s.len() == 0 {
        Seq::empty()
    } else if s.last() == '\'' {
        escaped(s.drop_last()) + "'\\''"@
    } else {
        escaped(s.drop_last()).push(s.last())
    }
}

/// A text in single quotes.
pub open spec fn quoted(s: Seq<char>) -> Seq<char> {
    "'"@ + escaped(s) + "'"@
}

/// The shell command that sets and exports a variable.
pub open spec fn export_line(v: VariableView) -> Seq<char> {
    "export "@ + v.name + "="@ + quoted(v.value) + "\n"@
}

/// The shell commands that set and export variables.
pub open spec fn export_lines(vars: Seq<VariableView>) -> Seq<char>
    decreases vars.len(),
{
    if vars.len() == 0 {
        Seq::empty()
    } else {
        export_lines(vars.drop_last()) + export_line(vars.last())
    }
}

fn escape(s: &str) -> (r: String)
    ensures
        r@ == escaped(s@),
{
    let chars = chars_of(s);
    let mut out = String::new();
    for i in 0..chars.len()
        invariant
            chars@ == s@,
            out@ == escaped(s@.take(i as int)),
    {
        assert(s@.take(i + 1).drop_last() == s@.take(i as int));
        if chars[i] == '\'' {
            out.append("'\\''");
        } else {
            out.push(chars[i]);
        }
    }
    assert(s@.take(s@.len() as int) == s@);
    out
}

/// A text in single quotes, as a shell reads it.
pub fn shell_quoted(s: &str) -> (r: String)
    ensures
        r@ == quoted(s@),
{
    "'".to_owned().concat(&escape(s)).concat("'")
}

fn export_line_text(v: &Variable) -> (r: String)
    ensures
        r@ == export_line(v@),
{
    "export ".to_owned().concat(&v.name).concat("=").concat(&shell_quoted(&v.value)).concat("\n")
}

/// What a POSIX shell makes of a word of quoted and escaped parts; `inside`
/// tells whether a quotation is open. None for an open quotation at the end
/// and for characters that are neither quoted nor escaped.
pub open spec fn unquoted(s: Seq<char>, inside: bool) -> Option<Seq<char>>
    decreases s.len(),
{
    if s.len() == 0 {
        if inside {
            None
        } else {
            Some(Seq::empty())
        }
    } else if s[0] == '\'' {
        unquoted(s.drop_first(), !inside)
    } else if inside {
        match unquoted(s.drop_first(), true) {
            Some(rest) => Some(seq![s[0]] + rest),
            None => None,
        }
    } else if s[0] == '\\' && s.len() > 1 {
        match unquoted(s.skip(2), false) {
            Some(rest) => Some(seq![s[1]] + rest),
            None => None,
        }
    } else {
        None
    }
}

proof fn lemma_unquoted_quote(tail: Seq<char>)
    ensures
        unquoted("'\\''"@ + tail, true) == match unquoted(tail, true) {
            Some(rest) => Some(seq!['\''] + rest),
            None => None,
        },
{
    reveal_strlit("'\\''");
    let t = "'\\''"@ + tail;
    let t1 = t.drop_first();
    let t2 = t1.skip(2);
    assert(t2.drop_first() =~= tail);
    assert(unquoted(t2, false) == unquoted(tail, true));
    assert(unquoted(t1, false) == match unquoted(t2, false) {
        Some(rest) => Some(seq!['\''] + rest),
        None => None,
    });
    assert(unquoted(t, true) == unquoted(t1, false));
}

proof fn lemma_unquoted_plain(c: char, tail: Seq<char>)
    requires
        c != '\'',
    ensures
        unquoted(seq![c] + tail, true) == match unquoted(tail, true) {
            Some(rest) => Some(seq![c] + rest),
            None => None,
        },
{
    assert((seq![c] + tail).drop_first() =~= tail);
}

proof fn lemma_unquoted_escaped(s: Seq<char>, tail: Seq<char>)
    ensures
        unquoted(escaped(s) + tail, true) == match unquoted(tail, true) {
            Some(rest) => Some(s + rest),
            None => None,
        },
    decreases s.len(),
{
    if s.len() == 0 {
        assert(escaped(s) + tail =~= tail);
        if let Some(rest) = unquoted(tail, true) {
            assert(s + rest =~= rest);
        }
    } else {
        let before = s.drop_last();
        let c = s.last();
        let t = if c == '\'' {
            "'\\''"@ + tail
        } else {
            seq![c] + tail
        };
        assert(escaped(s) + tail =~= escaped(before) + t);
        if c == '\'' {
            lemma_unquoted_quote(tail);
        } else {
            lemma_unquoted_plain(c, tail);
        }
        lemma_unquoted_escaped(before, t);
        if let Some(rest) = unquoted(tail, true) {
            assert(before + (seq![c] + rest) =~= s + rest);
        }
    }
}

/// Law: a shell reads a quoted text back as it was, whatever it contains.
pub proof fn law_quoting_is_undone_by_the_shell(s: Seq<char>)
    ensures
        unquoted(quoted(s), false) == Some(s),
{
    reveal_strlit("'");
    let q = quoted(s);
    assert(q.drop_first() =~= escaped(s) + "'"@);
    lemma_unquoted_escaped(s, "'"@);
    assert("'"@.drop_first() =~= Seq::<char>::empty());
    assert(unquoted("'"@, true) == unquoted(Seq::<char>::empty(), false));
    assert(s + Seq::<char>::empty() =~= s);
}

/// The directory for sockets, and whether it is to be created for this user
/// alone.
#[derive(Debug)]
pub struct RuntimeDir {
    pub path: String,
    pub private: bool,
}

/// Where sockets go: the directory that the environment names if it is a
/// writable directory, else one of the user's own.
pub fn runtime_dir(named: Option<String>, usable: bool, uid: u32) -> (r: RuntimeDir)
    ensures
        match named {
            Some(path) if usable => r.path == path && !r.private,
            _ => r.path@ == "/tmp/desktop-mcp-"@ + crate::text::decimal(uid as nat) && r.private,
        },
{
    match named {
        Some(path) if usable => RuntimeDir { path, private: false },
        _ => RuntimeDir {
            path: "/tmp/desktop-mcp-".to_owned().concat(&decimal_u64(uid as u64)),
            private: true,
        },
    }
}

/// The socket name in the foreground: a fixed one unless told otherwise.
pub fn foreground_socket(name: Option<String>) -> (r: String)
    ensures
        match name {
            Some(n) => r == n,
            None => r@ == "wayland-mcp"@,
        },
{
    match name {
        Some(n) => n,
        None => "wayland-mcp".to_owned(),
    }
}

/// How the start of the HTTP server went.
pub enum Readiness {
    Up,
    Failed(String),
    Silent,
}

/// Why the desktop cannot be started, if it cannot.
pub fn startup_failure(readiness: Readiness) -> (r: Option<String>)
    ensures
        match readiness {
            Readiness::Up => r is None,
            Readiness::Failed(reason) => r == Some(reason),
            Readiness::Silent => r matches Some(text) && text@
                == "http thread did not report readiness"@,
        },
{
    match readiness {
        Readiness::Up => None,
        Readiness::Failed(reason) => Some(reason),
        Readiness::Silent => Some("http thread did not report readiness".to_owned()),
    }
}

/// What a waiting parent is told of a failure; a comment to the shell.
pub open spec fn failure(reason: Seq<char>) -> Seq<char> {
    "# desktop-mcp startup failed: "@ + reason + "\n"@
}

pub fn failure_report(reason: &str) -> (r: String)
    ensures
        r@ == failure(reason@),
{
    "# desktop-mcp startup failed: ".to_owned().concat(reason).concat("\n")
}

/// Whether a report is one of success.
pub open spec fn succeeded(report: Seq<char>) -> bool {
    crate::text::occurs(report, "export "@)
}

/// Whether the daemon started, from what it reported.
pub fn startup_succeeded(report: &str) -> (r: bool)
    ensures
        r == succeeded(report@),
{
    contains(report, "export ")
}

/// Law: the exports of a session are taken for success.
pub proof fn law_exports_report_success(session: Session)
    ensures
        succeeded(export_lines(session.environment())),
{
    reveal_strlit("export ");
    let vars = session.environment();
    let last = export_line(vars.last());
    let before = export_lines(vars.drop_last());
    let all = export_lines(vars);
    let at = before.len() as int;
    assert(all.subrange(at, at + 7) =~= "export "@);
    assert(crate::text::occurs_at(all, "export "@, at));
}

/// Law: a failure is not taken for success, unless its reason reads like an
/// export.
pub proof fn law_failure_reports_no_success(reason: Seq<char>)
    requires
        !crate::text::occurs(reason, "export "@),
    ensures
        !succeeded(failure(reason)),
{
    reveal_strlit("export ");
    reveal_strlit("# desktop-mcp startup failed: ");
    reveal_strlit("\n");
    let head = "# desktop-mcp startup failed: "@;
    let all = failure(reason);
    if succeeded(all) {
        let at = choose|at: int| crate::text::occurs_at(all, "export "@, at);
        let found = all.subrange(at, at + 7);
        assert(found[0] == 'e' && found[1] == 'x' && found[6] == ' ');
        assert(all[at] == 'e' && all[at + 1] == 'x' && all[at + 6] == ' ');
        if at + 1 < head.len() {
            assert(head[at + 1] == 'x');
            assert(false);
        } else if at < head.len() {
            assert(head[at] == 'e');
            assert(false);
        } else if at + 7 == all.len() {
            assert(all[at + 6] == '\n');
            assert(false);
        } else {
            let k = at - head.len();
            assert(reason.subrange(k, k + 7) =~= found);
            assert(crate::text::occurs_at(reason, "export "@, k));
        }
    }
}

/// The address that a session bus reports on its first line, if any.
pub fn bus_address(line: &str) -> (r: Option<String>)
    ensures
        ({
            let address = crate::text::trimmed(line@);
            if address.len() == 0 {
                r is None
            } else {
                r matches Some(a) && a@ == address
            }
        }),
{
    let address = trim(line);
    if address.as_str().is_empty() {
        None
    } else {
        Some(address)
    }
}

/// Where distributions put the launcher of the accessibility bus.
pub fn launcher_paths() -> (r: Vec<String>)
    ensures
        crate::text::texts(r@) == seq![
            "/usr/libexec/at-spi-bus-launcher"@,
            "/usr/lib/at-spi2-core/at-spi-bus-launcher"@,
        ],
{
    let mut paths: Vec<String> = Vec::new();
    paths.push("/usr/libexec/at-spi-bus-launcher".to_owned());
    paths.push("/usr/lib/at-spi2-core/at-spi-bus-launcher".to_owned());
    assert(crate::text::texts(paths@) =~= seq![
        "/usr/libexec/at-spi-bus-launcher"@,
        "/usr/lib/at-spi2-core/at-spi-bus-launcher"@,
    ]);
    paths
}

/// Law: programs on the desktop are told its sockets, how to draw on it, how to
/// publish their accessible trees if there is a bus for that, and where its
/// tools are. The X display is named exactly if there is one.
pub proof fn law_environment_points_at_the_desktop(session: Session)
    ensures
        ({
            let front = seq![
                VariableView { name: "WAYLAND_DISPLAY"@, value: session.socket_name@ },
                VariableView { name: "XDG_RUNTIME_DIR"@, value: session.runtime_dir@ },
            ];
            let x11 = if session.x11_display is Some {
                seq![
                    VariableView {
                        name: "DISPLAY"@,
                        value: ":"@ + crate::text::decimal(session.x11_display->Some_0 as nat),
                    },
                ]
            } else {
                seq![]
            };
            let drawing = seq![
                VariableView { name: "GDK_BACKEND"@, value: "wayland"@ },
                VariableView { name: "QT_QPA_PLATFORM"@, value: "wayland"@ },
                VariableView { name: "SDL_VIDEODRIVER"@, value: "wayland"@ },
                VariableView { name: "GTK_CSD"@, value: "1"@ },
                VariableView { name: "XKB_DEFAULT_LAYOUT"@, value: "us"@ },
            ];
            let bus = if session.bus_address is Some {
                seq![
                    VariableView {
                        name: "DBUS_SESSION_BUS_ADDRESS"@,
                        value: session.bus_address->Some_0@,
                    },
                    VariableView { name: "GTK_A11Y"@, value: "atspi"@ },
                    VariableView { name: "QT_LINUX_ACCESSIBILITY_ALWAYS_ON"@, value: "1"@ },
                    VariableView {
                        name: "ASSISTIVE_TECHNOLOGIES"@,
                        value: "org.GNOME.Accessibility.AtkWrapper"@,
                    },
                ]
            } else {
                seq![]
            };
            let port = crate::text::decimal(session.port as nat);
            let own = seq![
                VariableView {
                    name: "DESKTOP_MCP_URL"@,
                    value: "http://127.0.0.1:"@ + port + "/mcp"@,
                },
                VariableView {
                    name: "DESKTOP_MCP_MONITOR_URL"@,
                    value: "http://127.0.0.1:"@ + port + "/"@,
                },
                VariableView {
                    name: "DESKTOP_MCP_PID"@,
                    value: crate::text::decimal(session.pid as nat),
                },
            ];
            &&& session.environment() == front + x11 + drawing + bus + own
            &&& toolkit() == drawing
            &&& session.bus_address matches Some(address) ==> accessibility(address@) == bus
            &&& tools_address(session.port) == own[0].value
            &&& monitor_address(session.port) == own[1].value
            &&& session.x11_display matches Some(n) ==> display_name(n) == x11[0].value
        }),
{
}

/// Law: the exports are one line per variable, in their order: `export`, the
/// name, an equals sign and a word that a shell reads as the value.
pub proof fn law_exports_are_one_line_per_variable(
    a: Seq<VariableView>,
    b: Seq<VariableView>,
    v: VariableView,
) -> (word: Seq<char>)
    ensures
        export_lines(a + b) == export_lines(a) + export_lines(b),
        export_lines(seq![v]) == "export "@ + v.name + "="@ + word + "\n"@,
        unquoted(word, false) == Some(v.value),
        word.len() >= 2,
        word[0] == '\'',
        word[word.len() - 1] == '\'',
    decreases b.len(),
{
    let one = seq![v];
    let word = quoted(v.value);
    assert(one.drop_last() =~= Seq::<VariableView>::empty());
    assert(export_lines(one.drop_last()) =~= Seq::<char>::empty());
    assert(export_lines(one) =~= export_line(v));
    law_quoting_is_undone_by_the_shell(v.value);
    reveal_strlit("'");
    if b.len() == 0 {
        assert(a + b =~= a);
        assert(export_lines(a) + export_lines(b) =~= export_lines(a));
    } else {
        law_exports_are_one_line_per_variable(a, b.drop_last(), v);
        assert((a + b).drop_last() =~= a + b.drop_last());
        assert((a + b).last() == b.last());
        assert(export_lines(a + b) =~= export_lines(a) + export_lines(b));
    }
    word
}

/// Law: inside its quotes a text without quotes stands as it is.
pub proof fn law_texts_without_quotes_are_only_enclosed(s: Seq<char>)
    requires
        !s.contains('\''),
    ensures
        quoted(s) == seq!['\''] + s + seq!['\''],
    decreases s.len(),
{
    lemma_escaped_plain(s);
    reveal_strlit("'");
    assert("'"@ =~= seq!['\'']);
}

proof fn lemma_escaped_plain(s: Seq<char>)
    requires
        !s.contains('\''),
    ensures
        escaped(s) == s,
    decreases s.len(),
{
    if s.len() > 0 {
        let rest = s.drop_last();
        assert(!rest.contains('\'')) by {
            if rest.contains('\'') {
                let i = rest.index_of('\'');
                assert(s[i] == '\'');
            }
        }
        assert(s[s.len() - 1] == s.last());
        lemma_escaped_plain(rest);
        assert(escaped(s) =~= s);
    } else {
        assert(escaped(s) =~= s);
    }
}

/// Law: a failure is reported as a comment to the shell with its reason, and a
/// report is one of success exactly if it exports something.
pub proof fn law_reports_tell_success_from_failure(reason: Seq<char>, report: Seq<char>)
    ensures
        failure(reason) == "# desktop-mcp startup failed: "@ + reason + "\n"@,
        failure(reason)[0] == '#',
        succeeded(report) <==> exists|before: Seq<char>, after: Seq<char>|
            report == #[trigger] (before + "export "@ + after),
{
    reveal_strlit("# desktop-mcp startup failed: ");
    crate::text::law_occurring_is_standing_somewhere(report, "export "@);
}

/// Law: the views of variables keep names and values, in their order.
pub proof fn law_variables_keep_names_and_values(vars: Seq<Variable>, k: int)
    ensures
        variable_views(vars).len() == vars.len(),
        0 <= k < vars.len() ==> variable_views(vars)[k].name == vars[k].name@
            && variable_views(vars)[k].value == vars[k].value@,
        forall|name: Seq<char>, value: Seq<char>|
            #![trigger var(name, value)]
            var(name, value).name == name && var(name, value).value == value,
{
}

proof fn lemma_escaped_sum(a: Seq<char>, b: Seq<char>)
    ensures
        escaped(a + b) == escaped(a) + escaped(b),
    decreases b.len(),
{
    if b.len() == 0 {
        assert(a + b =~= a);
        assert(escaped(a) + escaped(b) =~= escaped(a));
    } else {
        lemma_escaped_sum(a, b.drop_last());
        assert((a + b).drop_last() =~= a + b.drop_last());
        assert((a + b).last() == b.last());
        assert(escaped(a + b) =~= escaped(a) + escaped(b));
    }
}

/// Law: a quote in a text ends the quotation, stands behind a backslash and
/// opens the quotation again.
pub proof fn law_quotes_stand_behind_a_backslash(a: Seq<char>, b: Seq<char>)
    ensures
        quoted(a.push('\'') + b) == quoted(a) + seq!['\\', '\''] + quoted(b),
{
    reveal_strlit("'");
    reveal_strlit("'\\''");
    lemma_escaped_sum(a.push('\''), b);
    assert(a.push('\'').drop_last() =~= a);
    assert("'\\''"@ =~= seq!['\'', '\\', '\'', '\'']);
    assert(quoted(a.push('\'') + b) =~= quoted(a) + seq!['\\', '\''] + quoted(b));
}

} // verus!
