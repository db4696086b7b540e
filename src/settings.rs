//! The tool's settings: the port to open, the filters on received packets,
//! and the packet being composed for sending.
use crate::protocol::PACKET;
use crate::transport::{BaudRate, ComPort};
use vstd::prelude::*;

verus! {

/// Settings of the serial tool.
pub struct SerialApp {
    pub baud_rate: BaudRate,
    pub com_port: ComPort,
    /// Text of the filter on the id of received packets.
    pub id_filter: String,
    /// Text of the filter on the command of received packets.
    pub cmd_filter: String,
    /// Milliseconds between two sent packets.
    pub send_delay: u32,
    /// How many times a packet is sent.
    pub send_count: u32,
    /// The packet being composed.
    pub packet: PACKET,
}

impl Default for SerialApp {
    /// 9600 baud on COM1, no filters, one packet sent every 100 ms, and an
    /// empty packet.
    fn default() -> (r: SerialApp)
        ensures
            r.baud_rate == BaudRate::B9600,
            r.com_port == ComPort::COM1,
            r.id_filter@ == Seq::<char>::empty(),
            r.cmd_filter@ == Seq::<char>::empty(),
            r.send_delay == 100,
            r.send_count == 1,
            r.packet == PACKET::idle(),
    {
        SerialApp {
            baud_rate: BaudRate::B9600,
            com_port: ComPort::COM1,
            id_filter: String::new(),
            cmd_filter: String::new(),
            send_delay: 100,
            send_count: 1,
            packet: PACKET::new(),
        }
    }
}

} // verus!
