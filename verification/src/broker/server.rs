//! The plain TCP broker: it listens on the configured port of the loopback
//! address, acknowledges every chunk of text that a client sends, and stops
//! serving a connection at its end, at a failed read, or at bytes that are
//! not UTF-8.
use vstd::prelude::*;
use vstd::string::*;
use crate::rafka_core::Config;
use crate::text::{decimal, u64_to_string};

verus! {

/// What one read from a client's socket gave.
#[derive(Debug)]
pub enum ReadOutcome {
    /// The peer closed the connection (a read of zero bytes).
    Closed,
    /// These bytes arrived.
    Data(Vec<u8>),
    /// The read failed.
    Failed,
}

/// What the broker does next on a connection.
#[derive(Clone, Copy, Debug, PartialEq, Eq, Structural)]
pub enum ConnectionAction {
    /// Write `ACK` and read again.
    Acknowledge,
    /// Stop serving the connection.
    Close,
}

/// `std::str::from_utf8(bytes).is_ok()`: whether the bytes are well-formed
/// UTF-8, in vstd's model of UTF-8.
#[verifier::external_body]
pub(crate) fn is_utf8(bytes: &[u8]) -> (r: bool)
    ensures
        r == vstd::utf8::valid_utf8(bytes@),
{
    std::str::from_utf8(bytes).is_ok()
}

/// The three bytes `ACK` of an acknowledgement.
pub open spec fn ack_spec() -> Seq<u8> {
    seq![65u8, 67u8, 75u8]
}

/// The acknowledgement that the broker writes back.
pub fn ack_bytes() -> (r: Vec<u8>)
    ensures
        r@ == ack_spec(),
{
    let r: Vec<u8> = vec![65u8, 67u8, 75u8];
    assert(r@ =~= ack_spec());
    r
}

/// `127.0.0.1:` followed by the port in decimal.
pub open spec fn loopback_address(port: u16) -> Seq<char> {
    "127.0.0.1:"@ + decimal(port as nat)
}

/// The address on the loopback interface for `port`.
pub fn loopback_address_of(port: u16) -> (r: String)
    ensures
        r@ == loopback_address(port),
{
    let mut s = String::from_str("127.0.0.1:");
    let digits = u64_to_string(port as u64);
    s.append(digits.as_str());
    proof { reveal_strlit("127.0.0.1:"); }
    s
}

pub struct Broker {
    pub config: Config,
}

impl Broker {
    pub fn new(config: Config) -> (b: Broker)
        ensures
            b.config == config,
    {
        Broker { config }
    }

    /// Where the broker listens: the loopback address at the broker port.
    pub fn listen_address(&self) -> (r: String)
        ensures
            r@ == loopback_address(self.config.broker_port),
    {
        loopback_address_of(self.config.broker_port)
    }

    /// The decision after a read: text is acknowledged; the end of the
    /// stream, a failed read and bytes that are not UTF-8 close the
    /// connection.
    pub fn on_read(&self, read: &ReadOutcome) -> (a: ConnectionAction)
        ensures
            a == (match read {
                ReadOutcome::Data(b) => if vstd::utf8::valid_utf8(b@) {
                    ConnectionAction::Acknowledge
                } else {
                    ConnectionAction::Close
                },
                _ => ConnectionAction::Close,
            }),
    {
        match read {
            ReadOutcome::Data(b) => {
                if is_utf8(b.as_slice()) {
                    ConnectionAction::Acknowledge
                } else {
                    ConnectionAction::Close
                }
            },
            _ => ConnectionAction::Close,
        }
    }
}

} // verus!
