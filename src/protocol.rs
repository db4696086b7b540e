//! The packet framer: an incremental parser that takes one byte at a time,
//! and the serializer that turns a packet back into its wire bytes.
//!
//! Wire layout: `STX ID LENGTH COMMAND SEQUENCE DATA.. CHECKSUM`, where
//! `LENGTH` counts every byte of the frame, so the payload holds
//! `LENGTH - 6` bytes.
use vstd::array::{spec_array_fill_for_copy_type, spec_array_update};
use vstd::prelude::*;

verus! {

/// Start-of-frame marker.
pub const STX: u8 = 0x02;

/// Bytes of a frame that are not payload: five header bytes and the checksum.
pub const FRAME_OVERHEAD: u8 = 6;

/// The longest payload: the length byte counts the whole frame.
pub const MAX_PAYLOAD: u8 = 249;

/// One step of the checksum: XOR the byte in, then add one, wrapping.
pub open spec fn checksum_step(acc: u8, b: u8) -> u8 {
    if acc ^ b == 255u8 {
        0
    } else {
        ((acc ^ b) + 1) as u8
    }
}

/// The checksum of the bytes that follow the marker: the accumulator starts
/// at the marker value and takes every byte in order.
pub open spec fn checksum_of(body: Seq<u8>) -> u8
    decreases body.len(),
{
    if body.len() == 0 {
        STX
    } else {
        checksum_step(checksum_of(body.drop_last()), body.last())
    }
}

/// Computes the checksum of `body`, the frame bytes between the marker and
/// the checksum byte.
pub fn compute_checksum(body: &[u8]) -> (r: u8)
    ensures
        r == checksum_of(body@),
{
    let mut acc: u8 = STX;
    let mut i: usize = 0;
    while i < body.len()
        invariant
            i <= body@.len(),
            acc == checksum_of(body@.subrange(0, i as int)),
        decreases body@.len() - i,
    {
        proof {
            assert(body@.subrange(0, i + 1).drop_last() =~= body@.subrange(0, i as int));
        }
        acc = (acc ^ body[i]).wrapping_add(1);
        i = i + 1;
    }
    proof {
        assert(body@.subrange(0, body@.len() as int) =~= body@);
    }
    acc
}

/// Where the parser stands within the frame it is reading.
#[derive(Debug, Clone, Copy, PartialEq, Eq, Structural)]
pub enum Step {
    Stx,
    Id,
    Length,
    Command,
    Sequence,
    Data,
}

/// A field of the frame that the parser records a byte into.
#[derive(Debug, Clone, Copy, PartialEq, Eq, Structural)]
enum Field {
    Stx,
    Id,
    Length,
    Command,
    Sequence,
    Data,
    Checksum,
}

/// Why a frame was refused.
#[derive(Debug, Clone, Copy, PartialEq, Eq, Structural)]
pub enum FrameError {
    /// The frame declares a length below [`FRAME_OVERHEAD`], or a payload
    /// too long for the length byte.
    InvalidFrame,
}

/// The fixed five-byte header of a frame.
#[derive(Debug, Clone, Copy, PartialEq, Eq, Structural)]
pub struct HEADER {
    pub stx: u8,
    pub id: u8,
    pub length: u8,
    pub command: u8,
    pub sequence: u8,
}

impl HEADER {
    /// The header bytes that the checksum covers: all but the marker.
    pub open spec fn checked_bytes(self) -> Seq<u8> {
        seq![self.id, self.length, self.command, self.sequence]
    }
}

/// A packet, and at the same time the parser that assembles one from a
/// byte stream: `step` and `len_check` are the parser's cursor, the step it
/// stands at and the payload bytes it has received of the current frame.
#[derive(Debug, Clone, Copy)]
pub struct PACKET {
    pub header: HEADER,
    pub data: [u8; 256],
    pub checksum: u8,
    pub step: Step,
    pub len_check: u8,
}

impl PACKET {
    /// The meaningful part of the payload buffer (for `length >= 6`).
    pub open spec fn payload(self) -> Seq<u8> {
        self.data@.subrange(0, self.header.length - FRAME_OVERHEAD)
    }

    /// The bytes between the marker and the checksum.
    pub open spec fn body(self) -> Seq<u8> {
        self.header.checked_bytes() + self.payload()
    }

    /// The frame as it goes on the wire.
    pub open spec fn wire(self) -> Seq<u8> {
        seq![self.header.stx] + self.body() + seq![self.checksum]
    }

    pub open spec fn checksum_ok(self) -> bool {
        self.checksum == checksum_of(self.body())
    }

    /// A frame that a parser accepts: it starts with the marker, declares a
    /// length of at least six and carries the right checksum.
    pub open spec fn is_valid_frame(self) -> bool {
        &&& self.header.stx == STX
        &&& self.header.length >= FRAME_OVERHEAD
        &&& self.checksum_ok()
    }

    /// The two packets describe the same frame: header, payload and checksum.
    pub open spec fn same_frame(self, other: PACKET) -> bool {
        &&& self.header == other.header
        &&& self.payload() == other.payload()
        &&& self.checksum == other.checksum
    }

    /// A parser waiting for a frame, with every field reset.
    pub open spec fn idle() -> PACKET {
        PACKET {
            header: HEADER { stx: STX, id: 0, length: 0, command: 0, sequence: 0 },
            data: spec_array_fill_for_copy_type::<u8, 256>(0),
            checksum: 0,
            step: Step::Stx,
            len_check: 0,
        }
    }

    /// The frame is complete: the next byte is its checksum.
    pub open spec fn at_checksum(self) -> bool {
        &&& self.step == Step::Data
        &&& self.header.length >= FRAME_OVERHEAD
        &&& self.len_check >= self.header.length - FRAME_OVERHEAD
    }

    /// The parser's state after it takes byte `b`.
    pub open spec fn next(self, b: u8) -> PACKET {
        match self.step {
            Step::Stx => if b == STX {
                PACKET { header: HEADER { stx: b, ..self.header }, step: Step::Id, ..self }
            } else {
                self
            },
            Step::Id => PACKET { header: HEADER { id: b, ..self.header }, step: Step::Length, ..self },
            Step::Length => if b < FRAME_OVERHEAD {
                Self::idle()
            } else {
                PACKET {
                    header: HEADER { length: b, ..self.header },
                    len_check: 0,
                    step: Step::Command,
                    ..self
                }
            },
            Step::Command => PACKET {
                header: HEADER { command: b, ..self.header },
                step: Step::Sequence,
                ..self
            },
            Step::Sequence => PACKET {
                header: HEADER { sequence: b, ..self.header },
                step: Step::Data,
                ..self
            },
            Step::Data => if self.header.length < FRAME_OVERHEAD || self.at_checksum() {
                Self::idle()
            } else {
                PACKET {
                    data: spec_array_update(self.data, self.len_check as int, b),
                    len_check: (self.len_check + 1) as u8,
                    ..self
                }
            },
        }
    }

    /// The packet that the parser hands out when it takes byte `b`: the
    /// completed frame, when `b` is its checksum and the checksum is right.
    pub open spec fn emitted(self, b: u8) -> Option<PACKET> {
        if self.at_checksum() && checksum_of(self.body()) == b {
            Some(PACKET { checksum: b, ..self })
        } else {
            None
        }
    }

    /// Taking byte `b` meets a declared length below the minimum: either
    /// `b` is such a length byte, or the frame in progress already holds one.
    pub open spec fn rejects(self, b: u8) -> bool {
        ||| self.step == Step::Length && b < FRAME_OVERHEAD
        ||| self.step == Step::Data && self.header.length < FRAME_OVERHEAD
    }

    /// An empty packet, which is also a parser waiting for a frame.
    pub fn new() -> (r: PACKET)
        ensures
            r == PACKET::idle(),
    {
        PACKET {
            header: HEADER { stx: STX, id: 0x00, length: 0x00, command: 0x00, sequence: 0x00 },
            data: [0u8; 256],
            checksum: 0x00,
            step: Step::Stx,
            len_check: 0x00,
        }
    }

    /// Resets every field, so that the parser waits for the next marker.
    fn clear(&mut self)
        ensures
            *final(self) == PACKET::idle(),
    {
        self.header.stx = STX;
        self.header.id = 0x00;
        self.header.length = 0x00;
        self.header.command = 0x00;
        self.header.sequence = 0x00;
        self.data = [0u8; 256];
        self.checksum = 0x00;
        self.step = Step::Stx;
        self.len_check = 0x00;
    }

    /// Records `value` into field `t`; payload bytes go to the position
    /// given by the payload count.
    fn update(&mut self, t: Field, value: u8)
        requires
            t == Field::Data ==> old(self).len_check < 256,
        ensures
            match t {
                Field::Stx => *final(self) == (PACKET { header: HEADER { stx: value, ..old(self).header }, ..*old(self) }),
                Field::Id => *final(self) == (PACKET { header: HEADER { id: value, ..old(self).header }, ..*old(self) }),
                Field::Length => *final(self) == (PACKET { header: HEADER { length: value, ..old(self).header }, ..*old(self) }),
                Field::Command => *final(self) == (PACKET { header: HEADER { command: value, ..old(self).header }, ..*old(self) }),
                Field::Sequence => *final(self) == (PACKET { header: HEADER { sequence: value, ..old(self).header }, ..*old(self) }),
                Field::Data => *final(self) == (PACKET {
                    data: spec_array_update(old(self).data, old(self).len_check as int, value),
                    ..*old(self)
                }),
                Field::Checksum => *final(self) == (PACKET { checksum: value, ..*old(self) }),
            },
    {
        match t {
            Field::Stx => self.header.stx = value,
            Field::Id => self.header.id = value,
            Field::Length => self.header.length = value,
            Field::Command => self.header.command = value,
            Field::Sequence => self.header.sequence = value,
            Field::Data => {
                let i = self.len_check as usize;
                self.data[i] = value;
            },
            Field::Checksum => self.checksum = value,
        }
    }
}


impl PACKET {
    /// The bytes between the marker and the checksum.
    fn body_bytes(&self) -> (r: Vec<u8>)
        requires
            self.header.length >= FRAME_OVERHEAD,
        ensures
            r@ == self.body(),
    {
        let mut bytes: Vec<u8> = Vec::new();
        bytes.push(self.header.id);
        bytes.push(self.header.length);
        bytes.push(self.header.command);
        bytes.push(self.header.sequence);
        let n: u8 = self.header.length - FRAME_OVERHEAD;
        let mut i: u8 = 0;
        while i < n
            invariant
                n == self.header.length - FRAME_OVERHEAD,
                i <= n,
                bytes@ == self.header.checked_bytes() + self.data@.subrange(0, i as int),
            decreases n - i,
        {
            bytes.push(self.data[i as usize]);
            i = i + 1;
            proof {
                assert(self.data@.subrange(0, i as int) =~= self.data@.subrange(0, i - 1).push(
                    self.data@[i - 1],
                ));
            }
        }
        proof {
            assert(bytes@ =~= self.body());
        }
        bytes
    }

    /// The frame's wire bytes: marker, id, length, command, sequence, the
    /// first `length - 6` payload bytes, then the checksum. A declared length
    /// below six is refused.
    pub fn serialize(&self) -> (r: Result<Vec<u8>, FrameError>)
        ensures
            match r {
                Ok(bytes) => self.header.length >= FRAME_OVERHEAD && bytes@ == self.wire(),
                Err(e) => self.header.length < FRAME_OVERHEAD && e == FrameError::InvalidFrame,
            },
    {
        if self.header.length < FRAME_OVERHEAD {
            return Err(FrameError::InvalidFrame);
        }
        let mut packet: Vec<u8> = Vec::new();
        packet.push(self.header.stx);
        let mut body = self.body_bytes();
        packet.append(&mut body);
        packet.push(self.checksum);
        proof {
            assert(packet@ =~= self.wire());
        }
        Ok(packet)
    }

    /// Whether the checksum byte matches the one computed over the frame; a
    /// frame that declares a length below six is never right.
    fn check_cs(&self) -> (r: bool)
        ensures
            r == (self.header.length >= FRAME_OVERHEAD && self.checksum_ok()),
    {
        if self.header.length < FRAME_OVERHEAD {
            return false;
        }
        let body = self.body_bytes();
        let calc_cs = compute_checksum(body.as_slice());
        calc_cs == self.checksum
    }

    /// Takes one byte of the stream. Returns `(true, packet)` when the byte
    /// completes a frame whose checksum is right, and `(false, PACKET::new())`
    /// otherwise. After a frame's last byte, right or wrong, the parser waits
    /// for the next marker; so it does after a declared length below six.
    pub fn parse(&mut self, value: u8) -> (r: (bool, PACKET))
        ensures
            *final(self) == old(self).next(value),
            r.0 == old(self).emitted(value) is Some,
            r.0 ==> old(self).emitted(value) == Some(r.1),
            !r.0 ==> r.1 == PACKET::idle(),
    {
        let mut ret_packet: PACKET = PACKET::new();
        let mut parse_rslt: bool = false;

        match self.step {
            Step::Stx => {
                if value == STX {
                    self.update(Field::Stx, value);
                    self.step = Step::Id;
                }
            },
            Step::Id => {
                self.update(Field::Id, value);
                self.step = Step::Length;
            },
            Step::Length => {
                if value < FRAME_OVERHEAD {
                    self.clear();
                } else {
                    self.update(Field::Length, value);
                    self.len_check = 0x00;
                    self.step = Step::Command;
                }
            },
            Step::Command => {
                self.update(Field::Command, value);
                self.step = Step::Sequence;
            },
            Step::Sequence => {
                self.update(Field::Sequence, value);
                self.step = Step::Data;
            },
            Step::Data => {
                if self.header.length < FRAME_OVERHEAD {
                    self.clear();
                } else if self.len_check >= self.header.length - FRAME_OVERHEAD {
                    self.update(Field::Checksum, value);
                    if self.check_cs() {
                        ret_packet = *self;
                        parse_rslt = true;
                    }
                    self.clear();
                } else {
                    self.update(Field::Data, value);
                    self.len_check = self.len_check + 1;
                }
            },
        }

        (parse_rslt, ret_packet)
    }

    /// Whether the next byte is the checksum of a complete frame. A caller
    /// that then gets no packet from that byte knows the checksum was wrong.
    pub fn awaits_checksum(&self) -> (r: bool)
        ensures
            r == self.at_checksum(),
    {
        self.step == Step::Data && self.header.length >= FRAME_OVERHEAD && self.len_check
            >= self.header.length - FRAME_OVERHEAD
    }

    /// Takes one byte of the stream, as [`PACKET::parse`] does, and reports a
    /// declared length below six as [`FrameError::InvalidFrame`].
    pub fn feed(&mut self, value: u8) -> (r: Result<Option<PACKET>, FrameError>)
        ensures
            *final(self) == old(self).next(value),
            r == (if old(self).rejects(value) {
                Err(FrameError::InvalidFrame)
            } else {
                Ok(old(self).emitted(value))
            }),
    {
        let invalid = (self.step == Step::Length && value < FRAME_OVERHEAD) || (self.step
            == Step::Data && self.header.length < FRAME_OVERHEAD);
        let (complete, packet) = self.parse(value);
        if invalid {
            Err(FrameError::InvalidFrame)
        } else if complete {
            Ok(Some(packet))
        } else {
            Ok(None)
        }
    }
}


impl PACKET {
    /// A packet ready to send, from its fields: the length and the checksum
    /// are computed, the cursor is at rest. A payload longer than
    /// [`MAX_PAYLOAD`] does not fit the length byte and is refused.
    pub fn build(id: u8, command: u8, sequence: u8, payload: &[u8]) -> (r: Result<
        PACKET,
        FrameError,
    >)
        ensures
            match r {
                Ok(p) => {
                    &&& payload@.len() <= MAX_PAYLOAD
                    &&& p.header == (HEADER {
                        stx: STX,
                        id,
                        length: (payload@.len() + FRAME_OVERHEAD) as u8,
                        command,
                        sequence,
                    })
                    &&& p.payload() == payload@
                    &&& p.is_valid_frame()
                    &&& p.step == Step::Stx
                    &&& p.len_check == 0
                },
                Err(e) => payload@.len() > MAX_PAYLOAD && e == FrameError::InvalidFrame,
            },
    {
        if payload.len() > MAX_PAYLOAD as usize {
            return Err(FrameError::InvalidFrame);
        }
        let n: usize = payload.len();
        let mut p = PACKET::new();
        p.header.id = id;
        p.header.length = n as u8 + FRAME_OVERHEAD;
        p.header.command = command;
        p.header.sequence = sequence;
        let mut i: usize = 0;
        while i < n
            invariant
                n == payload@.len(),
                n <= MAX_PAYLOAD,
                i <= n,
                p.header == (HEADER {
                    stx: STX,
                    id,
                    length: (n + FRAME_OVERHEAD) as u8,
                    command,
                    sequence,
                }),
                p.step == Step::Stx,
                p.len_check == 0,
                p.data@.len() == 256,
                p.data@.subrange(0, i as int) == payload@.subrange(0, i as int),
            decreases n - i,
        {
            p.data[i] = payload[i];
            i = i + 1;
            proof {
                assert(p.data@.subrange(0, i as int) =~= payload@.subrange(0, i as int));
            }
        }
        proof {
            assert(payload@.subrange(0, n as int) =~= payload@);
        }
        let body = p.body_bytes();
        p.checksum = compute_checksum(body.as_slice());
        Ok(p)
    }
}

} // verus!
