//! `_NET_WM_PING` messages of X11 windows.
//!
//! Only windows that advertise `_NET_WM_PING` in `WM_PROTOCOLS` are pinged;
//! others are simply never marked frozen. A client answers by sending the
//! message back to the root window.

use vstd::prelude::*;

verus! {

/// The atoms of the ping protocol, as interned by the X server.
#[derive(Debug, Clone, Copy, PartialEq, Eq, Structural)]
pub struct Atoms {
    pub wm_protocols: u32,
    pub net_wm_ping: u32,
}

/// A client message of the X protocol with its data as 32-bit words.
#[derive(Debug, Clone, Copy, PartialEq, Eq)]
pub struct ClientMessage {
    pub window: u32,
    pub type_: u32,
    pub format: u8,
    pub data: [u32; 5],
}

/// Writes and recognises ping messages.
#[derive(Debug, Clone, Copy, PartialEq, Eq, Structural)]
pub struct X11Ping {
    pub atoms: Atoms,
}

impl X11Ping {
    pub fn new(atoms: Atoms) -> (r: Self)
        ensures
            r.atoms == atoms,
    {
        X11Ping { atoms }
    }

    /// Atom used as the message type that wakes up the connection's reader.
    pub fn wakeup_atom(&self) -> (r: u32)
        ensures
            r == self.atoms.wm_protocols,
    {
        self.atoms.wm_protocols
    }

    /// Whether a window takes part in pings. `protocols` is what it advertises
    /// in `WM_PROTOCOLS`; None if that could not be read.
    pub fn supports_ping(&self, protocols: Option<&Vec<u32>>) -> (r: bool)
        ensures
            r == (protocols matches Some(p) && p@.contains(self.atoms.net_wm_ping)),
    {
        match protocols {
            None => false,
            Some(p) => {
                for i in 0..p.len()
                    invariant
                        protocols == Some(p),
                        forall|j: int| 0 <= j < i ==> p@[j] != self.atoms.net_wm_ping,
                {
                    if p[i] == self.atoms.net_wm_ping {
                        assert(p@[i as int] == self.atoms.net_wm_ping);
                        return true;
                    }
                }
                false
            },
        }
    }

    /// What a ping says: the serial serves as its timestamp so that the reply
    /// can be correlated.
    pub open spec fn is_ping(self, m: ClientMessage, window: u32, serial: u32) -> bool {
        &&& m.type_ == self.atoms.wm_protocols
        &&& m.format == 32
        &&& m.data@ == seq![self.atoms.net_wm_ping, serial, window, 0u32, 0u32]
    }

    /// The ping to send to a window.
    pub fn ping_message(&self, window: u32, serial: u32) -> (r: ClientMessage)
        ensures
            r.window == window,
            self.is_ping(r, window, serial),
    {
        let data: [u32; 5] = [self.atoms.net_wm_ping, serial, window, 0, 0];
        assert(data@ =~= seq![self.atoms.net_wm_ping, serial, window, 0u32, 0u32]);
        ClientMessage { window, type_: self.atoms.wm_protocols, format: 32, data }
    }

    /// The window and the serial that a message answers for, if it is the
    /// reply to a ping.
    pub open spec fn pong(self, m: ClientMessage) -> Option<(u32, u32)> {
        if m.type_ == self.atoms.wm_protocols && m.format == 32 && m.data@[0]
            == self.atoms.net_wm_ping {
            Some((m.data@[2], m.data@[1]))
        } else {
            None
        }
    }

    /// If a message is a ping reply, the window that replies and the serial.
    pub fn parse_pong(&self, message: &ClientMessage) -> (r: Option<(u32, u32)>)
        ensures
            r == self.pong(*message),
    {
        if message.type_ == self.atoms.wm_protocols && message.format == 32 && message.data[0]
            == self.atoms.net_wm_ping {
            Some((message.data[2], message.data[1]))
        } else {
            None
        }
    }
}

/// Law: a client that sends a ping back, to whatever window, is recognised
/// with the window and the serial of the ping.
pub proof fn law_echoed_ping_is_recognised(
    ping: X11Ping,
    sent: ClientMessage,
    window: u32,
    serial: u32,
    back_to: u32,
)
    requires
        ping.is_ping(sent, window, serial),
    ensures
        ping.pong(ClientMessage { window: back_to, ..sent }) == Some((window, serial)),
{
}

/// Law: a ping is a protocol message in 32-bit words: the ping atom, the serial,
/// the window and two zeros. A message is a reply exactly if it is such a
/// message with the ping atom in front, and it answers for the window and the
/// serial that it carries.
pub proof fn law_pings_and_replies_carry_window_and_serial(
    ping: X11Ping,
    m: ClientMessage,
    window: u32,
    serial: u32,
)
    ensures
        ping.is_ping(m, window, serial) <==> {
            &&& m.type_ == ping.atoms.wm_protocols
            &&& m.format == 32
            &&& m.data@[0] == ping.atoms.net_wm_ping
            &&& m.data@[1] == serial
            &&& m.data@[2] == window
            &&& m.data@[3] == 0
            &&& m.data@[4] == 0
        },
        ping.pong(m) == Some((window, serial)) <==> {
            &&& m.type_ == ping.atoms.wm_protocols
            &&& m.format == 32
            &&& m.data@[0] == ping.atoms.net_wm_ping
            &&& m.data@[1] == serial
            &&& m.data@[2] == window
        },
        ping.pong(m) is None <==> !(m.type_ == ping.atoms.wm_protocols && m.format == 32
            && m.data@[0] == ping.atoms.net_wm_ping),
{
    let words = seq![ping.atoms.net_wm_ping, serial, window, 0u32, 0u32];
    if m.data@[0] == ping.atoms.net_wm_ping && m.data@[1] == serial && m.data@[2] == window
        && m.data@[3] == 0 && m.data@[4] == 0 {
        assert(m.data@ =~= words);
    }
}

} // verus!
