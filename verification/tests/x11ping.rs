use desktop_mcp::x11ping::{Atoms, ClientMessage, X11Ping};

fn ping() -> X11Ping {
    X11Ping::new(Atoms { wm_protocols: 300, net_wm_ping: 301 })
}

#[test]
fn ping_carries_serial_and_window() {
    let m = ping().ping_message(7, 42);
    assert_eq!(
        m,
        ClientMessage { window: 7, type_: 300, format: 32, data: [301, 42, 7, 0, 0] }
    );
    assert_eq!(ping().wakeup_atom(), 300);
}

#[test]
fn echoed_ping_is_a_pong() {
    let mut m = ping().ping_message(7, 42);
    m.window = 1;
    assert_eq!(ping().parse_pong(&m), Some((7, 42)));
}

#[test]
fn other_messages_are_no_pongs() {
    let m = ping().ping_message(7, 42);
    assert_eq!(ping().parse_pong(&ClientMessage { type_: 299, ..m }), None);
    assert_eq!(ping().parse_pong(&ClientMessage { format: 8, ..m }), None);
    assert_eq!(ping().parse_pong(&ClientMessage { data: [300, 42, 7, 0, 0], ..m }), None);
}

#[test]
fn ping_support_is_advertised() {
    assert!(ping().supports_ping(Some(&vec![5, 301])));
    assert!(!ping().supports_ping(Some(&vec![5, 300])));
    assert!(!ping().supports_ping(Some(&vec![])));
    assert!(!ping().supports_ping(None));
}
