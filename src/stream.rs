//! The parser run over whole byte sequences, and the laws that hold of it.
use crate::protocol::{Step, FRAME_OVERHEAD, PACKET, STX};
use vstd::prelude::*;

verus! {

/// The parser's state after it takes every byte of `bytes` in order.
pub open spec fn run(p: PACKET, bytes: Seq<u8>) -> PACKET
    decreases bytes.len(),
{
    if bytes.len() == 0 {
        p
    } else {
        run(p.next(bytes[0]), bytes.drop_first())
    }
}

/// The packets that the parser hands out while it takes `bytes`, in order.
pub open spec fn run_emitted(p: PACKET, bytes: Seq<u8>) -> Seq<PACKET>
    decreases bytes.len(),
{
    if bytes.len() == 0 {
        Seq::empty()
    } else {
        let rest = run_emitted(p.next(bytes[0]), bytes.drop_first());
        match p.emitted(bytes[0]) {
            Some(q) => seq![q] + rest,
            None => rest,
        }
    }
}

/// Running over `a` then `b` is running over `a + b`.
pub proof fn lemma_run_concat(p: PACKET, a: Seq<u8>, b: Seq<u8>)
    ensures
        run(p, a + b) == run(run(p, a), b),
        run_emitted(p, a + b) == run_emitted(p, a) + run_emitted(run(p, a), b),
    decreases a.len(),
{
    if a.len() == 0 {
        assert(a + b =~= b);
    } else {
        assert((a + b).drop_first() =~= a.drop_first() + b);
        lemma_run_concat(p.next(a[0]), a.drop_first(), b);
        match p.emitted(a[0]) {
            Some(q) => {
                assert(seq![q] + run_emitted(p.next(a[0]), a.drop_first()) + run_emitted(
                    run(p, a),
                    b,
                ) =~= seq![q] + (run_emitted(p.next(a[0]), a.drop_first()) + run_emitted(
                    run(p, a),
                    b,
                )));
            },
            None => {},
        }
    }
}

/// Payload bytes that fit the declared length go to the buffer in order,
/// and no packet comes out.
proof fn lemma_fill_payload(q: PACKET, m: Seq<u8>)
    requires
        q.step == Step::Data,
        q.header.length >= FRAME_OVERHEAD,
        q.len_check + m.len() <= q.header.length - FRAME_OVERHEAD,
    ensures
        run(q, m).step == Step::Data,
        run(q, m).header == q.header,
        run(q, m).checksum == q.checksum,
        run(q, m).len_check == q.len_check + m.len(),
        run(q, m).data@ == q.data@.subrange(0, q.len_check as int) + m + q.data@.subrange(
            q.len_check + m.len(),
            256,
        ),
        run_emitted(q, m) == Seq::<PACKET>::empty(),
    decreases m.len(),
{
    let k = q.len_check as int;
    if m.len() == 0 {
        assert(q.data@ =~= q.data@.subrange(0, k) + m + q.data@.subrange(k, 256));
    } else {
        let q1 = q.next(m[0]);
        assert(q1.data@ == q.data@.update(k, m[0]));
        lemma_fill_payload(q1, m.drop_first());
        assert(q1.data@.subrange(0, k + 1) + m.drop_first() + q1.data@.subrange(
            k + 1 + m.drop_first().len(),
            256,
        ) =~= q.data@.subrange(0, k) + m + q.data@.subrange(k + m.len(), 256));
    }
}

/// A frame that starts with the marker and declares a length of at least
/// six takes the parser from rest back to rest; it comes out as one packet
/// carrying the same frame when its checksum is right, and as none when not.
pub proof fn lemma_frame(f: PACKET)
    requires
        f.header.stx == STX,
        f.header.length >= FRAME_OVERHEAD,
    ensures
        run(PACKET::idle(), f.wire()) == PACKET::idle(),
        run_emitted(PACKET::idle(), f.wire().drop_last()) == Seq::<PACKET>::empty(),
        f.checksum_ok() ==> run_emitted(PACKET::idle(), f.wire()).len() == 1
            && run_emitted(PACKET::idle(), f.wire())[0].same_frame(f),
        !f.checksum_ok() ==> run_emitted(PACKET::idle(), f.wire()) == Seq::<PACKET>::empty(),
{
    let h = f.header;
    let idle = PACKET::idle();
    let head = seq![h.stx, h.id, h.length, h.command, h.sequence];
    let pay = f.payload();
    let tail = seq![f.checksum];
    assert(f.wire() =~= head + pay + tail);

    let s1 = idle.next(h.stx);
    let s2 = s1.next(h.id);
    let s3 = s2.next(h.length);
    let s4 = s3.next(h.command);
    let s5 = s4.next(h.sequence);
    assert(s5.header == h);
    assert(s5.step == Step::Data && s5.len_check == 0);
    let t4 = seq![h.sequence];
    let t3 = seq![h.command, h.sequence];
    let t2 = seq![h.length, h.command, h.sequence];
    let t1 = seq![h.id, h.length, h.command, h.sequence];
    assert(t4.drop_first() =~= Seq::<u8>::empty());
    assert(t3.drop_first() =~= t4);
    assert(t2.drop_first() =~= t3);
    assert(t1.drop_first() =~= t2);
    assert(head.drop_first() =~= t1);
    assert(run(s5, Seq::<u8>::empty()) == s5);
    assert(run_emitted(s5, Seq::<u8>::empty()) == Seq::<PACKET>::empty());
    assert(run(s4, t4) == s5 && run_emitted(s4, t4) == Seq::<PACKET>::empty());
    assert(run(s3, t3) == s5 && run_emitted(s3, t3) == Seq::<PACKET>::empty());
    assert(run(s2, t2) == s5 && run_emitted(s2, t2) == Seq::<PACKET>::empty());
    assert(run(s1, t1) == s5 && run_emitted(s1, t1) == Seq::<PACKET>::empty());
    assert(run(idle, head) == s5);
    assert(run_emitted(idle, head) == Seq::<PACKET>::empty());

    lemma_fill_payload(s5, pay);
    let sd = run(s5, pay);
    assert(sd.data@.subrange(0, h.length - FRAME_OVERHEAD) =~= pay);
    assert(sd.payload() == f.payload());
    assert(sd.body() == f.body());
    assert(tail.drop_first() =~= Seq::<u8>::empty());
    assert(run(idle, Seq::<u8>::empty()) == idle);
    assert(run_emitted(idle, Seq::<u8>::empty()) == Seq::<PACKET>::empty());
    assert(run(sd, tail) == idle);

    lemma_run_concat(idle, head, pay);
    lemma_run_concat(idle, head + pay, tail);
    assert(f.wire().drop_last() =~= head + pay);
    assert(run_emitted(idle, head + pay) =~= Seq::<PACKET>::empty());
    if f.checksum_ok() {
        let q = PACKET { checksum: f.checksum, ..sd };
        assert(run_emitted(sd, tail) =~= seq![q]);
        assert(run_emitted(idle, head + pay) =~= Seq::<PACKET>::empty());
        assert(run_emitted(idle, f.wire()) =~= seq![q]);
    } else {
        assert(run_emitted(sd, tail) =~= Seq::<PACKET>::empty());
        assert(run_emitted(idle, f.wire()) =~= Seq::<PACKET>::empty());
    }
}


/// Round trip: the wire bytes of a valid frame, fed to a parser at rest,
/// come out as exactly one packet, handed out on the checksum byte, which
/// carries the same frame; the parser is left at rest.
pub proof fn lemma_round_trip(f: PACKET)
    requires
        f.is_valid_frame(),
    ensures
        run(PACKET::idle(), f.wire()) == PACKET::idle(),
        run_emitted(PACKET::idle(), f.wire().drop_last()) == Seq::<PACKET>::empty(),
        run_emitted(PACKET::idle(), f.wire()).len() == 1,
        run_emitted(PACKET::idle(), f.wire())[0].same_frame(f),
{
    lemma_frame(f);
}

/// A valid frame whose checksum byte is replaced by any wrong value yields
/// no packet and leaves the parser at rest, so that a valid frame right
/// after it comes out as exactly one packet carrying that frame.
pub proof fn lemma_bad_checksum_then_resync(f: PACKET, c: u8, g: PACKET)
    requires
        f.is_valid_frame(),
        c != f.checksum,
        g.is_valid_frame(),
    ensures
        run(PACKET::idle(), (PACKET { checksum: c, ..f }).wire()) == PACKET::idle(),
        run_emitted(PACKET::idle(), (PACKET { checksum: c, ..f }).wire()) == Seq::<PACKET>::empty(),
        run_emitted(PACKET::idle(), (PACKET { checksum: c, ..f }).wire() + g.wire()).len() == 1,
        run_emitted(PACKET::idle(), (PACKET { checksum: c, ..f }).wire() + g.wire())[0].same_frame(
            g,
        ),
{
    let bad = PACKET { checksum: c, ..f };
    assert(bad.body() == f.body());
    lemma_frame(bad);
    lemma_frame(g);
    lemma_run_concat(PACKET::idle(), bad.wire(), g.wire());
    assert(run_emitted(PACKET::idle(), bad.wire() + g.wire()) =~= run_emitted(
        PACKET::idle(),
        g.wire(),
    ));
}

/// A stream without the marker byte never moves the parser from rest, at
/// any point of it, and yields no packet.
pub proof fn lemma_no_marker(bytes: Seq<u8>)
    requires
        forall|i: int| 0 <= i < bytes.len() ==> bytes[i] != STX,
    ensures
        forall|i: int|
            0 <= i <= bytes.len() ==> #[trigger] run(PACKET::idle(), bytes.subrange(0, i))
                == PACKET::idle(),
        run_emitted(PACKET::idle(), bytes) == Seq::<PACKET>::empty(),
    decreases bytes.len(),
{
    if bytes.len() > 0 {
        let rest = bytes.drop_first();
        lemma_no_marker(rest);
        assert forall|i: int| 0 <= i <= bytes.len() implies #[trigger] run(
            PACKET::idle(),
            bytes.subrange(0, i),
        ) == PACKET::idle() by {
            if i > 0 {
                assert(bytes.subrange(0, i).drop_first() =~= rest.subrange(0, i - 1));
                assert(run(PACKET::idle(), rest.subrange(0, i - 1)) == PACKET::idle());
            } else {
                assert(bytes.subrange(0, i) =~= Seq::<u8>::empty());
            }
        }
    }
}

/// A frame that declares a length below six is dropped at its length byte:
/// the parser is back at rest there, and a stream that goes on without the
/// marker yields no packet and leaves it at rest.
pub proof fn lemma_short_length(id: u8, length: u8, rest: Seq<u8>)
    requires
        length < FRAME_OVERHEAD,
        forall|i: int| 0 <= i < rest.len() ==> rest[i] != STX,
    ensures
        run(PACKET::idle(), seq![STX, id, length]) == PACKET::idle(),
        run(PACKET::idle(), seq![STX, id, length] + rest) == PACKET::idle(),
        run_emitted(PACKET::idle(), seq![STX, id, length] + rest) == Seq::<PACKET>::empty(),
{
    let idle = PACKET::idle();
    let s1 = idle.next(STX);
    let s2 = s1.next(id);
    assert(s2.next(length) == idle);
    let h = seq![STX, id, length];
    assert(h.drop_first() =~= seq![id, length]);
    assert(seq![id, length].drop_first() =~= seq![length]);
    assert(seq![length].drop_first() =~= Seq::<u8>::empty());
    assert(run(idle, Seq::<u8>::empty()) == idle);
    assert(run_emitted(idle, Seq::<u8>::empty()) == Seq::<PACKET>::empty());
    assert(run(s2, seq![length]) == idle && run_emitted(s2, seq![length]) == Seq::<PACKET>::empty());
    assert(run(s1, seq![id, length]) == idle && run_emitted(s1, seq![id, length]) == Seq::<
        PACKET,
    >::empty());
    assert(run(idle, h) == idle && run_emitted(idle, h) == Seq::<PACKET>::empty());
    lemma_no_marker(rest);
    assert(rest.subrange(0, rest.len() as int) =~= rest);
    lemma_run_concat(idle, h, rest);
    assert(run_emitted(idle, h + rest) =~= Seq::<PACKET>::empty());
}

impl PACKET {
    /// Takes every byte of `bytes` in order and returns the packets that
    /// came out, in order.
    pub fn parse_all(&mut self, bytes: &[u8]) -> (r: Vec<PACKET>)
        ensures
            *final(self) == run(*old(self), bytes@),
            r@ == run_emitted(*old(self), bytes@),
    {
        let mut out: Vec<PACKET> = Vec::new();
        let mut i: usize = 0;
        assert(bytes@.skip(0) =~= bytes@);
        assert(out@ + run_emitted(*self, bytes@) =~= run_emitted(*self, bytes@));
        while i < bytes.len()
            invariant
                i <= bytes@.len(),
                run(*old(self), bytes@) == run(*self, bytes@.skip(i as int)),
                out@ + run_emitted(*self, bytes@.skip(i as int)) == run_emitted(*old(self), bytes@),
            decreases bytes@.len() - i,
        {
            let ghost old_out = out@;
            assert(bytes@.skip(i as int).drop_first() =~= bytes@.skip(i + 1));
            let (complete, packet) = self.parse(bytes[i]);
            if complete {
                out.push(packet);
                assert(out@ + run_emitted(*self, bytes@.skip(i + 1)) =~= old_out + (seq![packet]
                    + run_emitted(*self, bytes@.skip(i + 1))));
            }
            i = i + 1;
        }
        assert(bytes@.skip(i as int) =~= Seq::<u8>::empty());
        assert(out@ + Seq::<PACKET>::empty() =~= out@);
        out
    }
}

} // verus!
