//! The registration handshake: binding an inbound connection to an SN.
//!
//! Each accepted device connection must open with one handshake frame
//! carrying its SN, within a bounded timeout enforced by the transport
//! layer. A well-formed handshake registers the connection as the
//! device's link — replacing, and handing back for closing, any previous
//! link under the same SN. A malformed or overdue handshake rejects the
//! connection without touching the registry.

use vstd::prelude::*;

use crate::frames::parse_handshake;
use crate::frames::spec_parse_handshake;
use crate::registry::fresh_link;
use crate::registry::ConnectionRegistry;

verus! {

/// What the transport layer observed while awaiting the handshake.
pub enum HandshakeEvent {
    /// The first complete frame of the connection.
    Frame(Vec<u8>),
    /// No complete frame arrived within the handshake timeout.
    TimedOut,
}

/// Spec-level value of a handshake event.
pub enum HandshakeEventModel {
    Frame(Seq<u8>),
    TimedOut,
}

impl View for HandshakeEvent {
    type V = HandshakeEventModel;

    open spec fn view(&self) -> HandshakeEventModel {
        match self {
            HandshakeEvent::Frame(f) => HandshakeEventModel::Frame(f@),
            HandshakeEvent::TimedOut => HandshakeEventModel::TimedOut,
        }
    }
}

/// The terminal state the handshake reaches for one connection.
pub enum HandshakeResult {
    /// The connection is now the registered link of `sn`. If a previous
    /// link held that SN, its connection handle is returned so the
    /// caller closes it.
    Registered { sn: Vec<u8>, evicted: Option<u64> },
    /// Malformed or overdue handshake: the caller closes the connection;
    /// nothing was registered.
    Rejected,
}

/// Drives one inbound connection through the handshake: either the event
/// is a frame carrying a well-formed SN and the connection becomes that
/// SN's registered link (latest registration wins), or the connection is
/// rejected and the registry is left exactly as it was.
pub fn process_handshake(reg: &mut ConnectionRegistry, conn: u64, ev: HandshakeEvent) -> (r:
    HandshakeResult)
    requires
        old(reg).wf(),
    ensures
        final(reg).wf(),
        match r {
            HandshakeResult::Registered { sn, evicted } => {
                &&& ev@ matches HandshakeEventModel::Frame(f) && spec_parse_handshake(f) == Some(
                    sn@,
                )
                &&& final(reg).lookup(sn@) == Some(fresh_link(conn))
                &&& forall|t: Seq<u8>|
                    t != sn@ ==> #[trigger] final(reg).lookup(t) == old(reg).lookup(t)
                &&& match evicted {
                    Some(c) => old(reg).lookup(sn@) matches Some(m) && m.conn == c,
                    None => old(reg).lookup(sn@) is None,
                }
            },
            HandshakeResult::Rejected => {
                &&& *final(reg) == *old(reg)
                &&& match ev@ {
                    HandshakeEventModel::Frame(f) => spec_parse_handshake(f) is None,
                    HandshakeEventModel::TimedOut => true,
                }
            },
        },
{
    match ev {
        HandshakeEvent::TimedOut => HandshakeResult::Rejected,
        HandshakeEvent::Frame(f) => {
            match parse_handshake(&f) {
                None => HandshakeResult::Rejected,
                Some(sn) => {
                    let sn_key = crate::frames::copy_range(&sn, 0, sn.len());
                    assert(sn_key@ =~= sn@);
                    let evicted = reg.register(sn_key, conn);
                    HandshakeResult::Registered { sn, evicted }
                },
            }
        },
    }
}

} // verus!
