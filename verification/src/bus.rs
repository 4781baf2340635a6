//! The linear message buses shared with the host page: a fixed buffer whose first four
//! bytes hold, little-endian, the offset at which the next message goes, and whose
//! messages start at byte 8. A message is a little-endian `u16` type, a little-endian
//! `u16` payload length, and the payload.

use vstd::prelude::*;

verus! {

/// Size in bytes of each bus buffer.
pub const BUS_CAPACITY: usize = 65536;

/// Offset of the first message; bytes 0..4 hold the write offset, 4..8 are reserved.
pub const BUS_FIRST_MESSAGE: usize = 8;

/// The little-endian `u16` at `at`.
pub open spec fn u16_at(b: Seq<u8>, at: int) -> int {
    b[at] + 256 * b[at + 1]
}

/// The little-endian `u32` at `at`.
pub open spec fn u32_at(b: Seq<u8>, at: int) -> int {
    u16_at(b, at) + 65536 * u16_at(b, at + 2)
}

/// The two little-endian bytes of `v` (taken modulo 2^16).
pub open spec fn le16(v: int) -> Seq<u8> {
    seq![(v % 256) as u8, ((v / 256) % 256) as u8]
}

/// The four little-endian bytes of `v` (taken modulo 2^32).
pub open spec fn le32(v: int) -> Seq<u8> {
    le16(v % 65536) + le16(v / 65536)
}

/// `b` with the bytes from `at` on replaced by `x`.
pub open spec fn splice(b: Seq<u8>, at: int, x: Seq<u8>) -> Seq<u8> {
    b.subrange(0, at) + x + b.subrange(at + x.len(), b.len() as int)
}

/// `b` with its write offset set to `off`.
pub open spec fn with_offset(b: Seq<u8>, off: int) -> Seq<u8> {
    splice(b, 0, le32(off))
}

/// The bytes of one message.
pub open spec fn frame(m: (u16, Seq<u8>)) -> Seq<u8> {
    le16(m.0 as int) + le16(m.1.len() as int) + m.1
}

/// The bytes of a run of messages, one after another.
pub open spec fn frames(ms: Seq<(u16, Seq<u8>)>) -> Seq<u8>
    decreases ms.len(),
{
    if ms.len() == 0 {
        Seq::empty()
    } else {
        frame(ms[0]) + frames(ms.drop_first())
    }
}

/// Every payload's length fits in the `u16` that frames it.
pub open spec fn payloads_fit(ms: Seq<(u16, Seq<u8>)>) -> bool {
    forall|i: int| 0 <= i < ms.len() ==> #[trigger] ms[i].1.len() < 65536
}

/// The messages read from `b` at `pos`: one more while a message header fits before
/// `end` and before the buffer's end, stopping at a payload that would run past the
/// buffer's end.
pub open spec fn messages_from(b: Seq<u8>, pos: int, end: int) -> Seq<(u16, Seq<u8>)>
    decreases b.len() - pos,
{
    if 0 <= pos && pos + 4 <= end && pos + 4 <= b.len() {
        let n = u16_at(b, pos + 2);
        if pos + 4 + n > b.len() {
            Seq::empty()
        } else {
            seq![(u16_at(b, pos) as u16, b.subrange(pos + 4, pos + 4 + n))]
                + messages_from(b, pos + 4 + n, end)
        }
    } else {
        Seq::empty()
    }
}

/// The messages of a drain, as plain values.
pub open spec fn messages_view(v: Seq<(u16, Vec<u8>)>) -> Seq<(u16, Seq<u8>)> {
    v.map_values(|m: (u16, Vec<u8>)| (m.0, m.1@))
}

proof fn lemma_le16(v: int)
    requires
        0 <= v < 65536,
    ensures
        u16_at(le16(v), 0) == v,
        le16(v).len() == 2,
{
    assert((v % 256) + 256 * ((v / 256) % 256) == v) by (nonlinear_arith)
        requires
            0 <= v < 65536,
    ;
}

proof fn lemma_le32(v: int)
    requires
        0 <= v < 0x1_0000_0000,
    ensures
        u32_at(le32(v), 0) == v,
        le32(v).len() == 4,
{
    assert(0 <= v / 65536 < 65536 && 0 <= v % 65536 < 65536 && v == (v % 65536) + 65536 * (v / 65536))
        by (nonlinear_arith)
        requires
            0 <= v < 0x1_0000_0000,
    ;
    lemma_le16(v % 65536);
    lemma_le16(v / 65536);
    let b = le32(v);
    assert(b.subrange(0, 2) =~= le16(v % 65536));
    assert(b.subrange(2, 4) =~= le16(v / 65536));
    assert(u16_at(b, 0) == u16_at(le16(v % 65536), 0));
    assert(u16_at(b, 2) == u16_at(le16(v / 65536), 0));
}

proof fn lemma_frames_push(ms: Seq<(u16, Seq<u8>)>, m: (u16, Seq<u8>))
    ensures
        frames(ms.push(m)) == frames(ms) + frame(m),
    decreases ms.len(),
{
    if ms.len() == 0 {
        assert(ms.push(m).drop_first() =~= Seq::<(u16, Seq<u8>)>::empty());
        assert(frames(ms.push(m)) =~= frame(m) + frames(Seq::<(u16, Seq<u8>)>::empty()));
        assert(frames(ms) + frame(m) =~= frame(m));
    } else {
        assert(ms.push(m).drop_first() =~= ms.drop_first().push(m));
        lemma_frames_push(ms.drop_first(), m);
        assert(frames(ms.push(m)) =~= frame(ms[0]) + (frames(ms.drop_first()) + frame(m)));
    }
}

proof fn lemma_messages_fit(b: Seq<u8>, pos: int, end: int)
    ensures
        payloads_fit(messages_from(b, pos, end)),
    decreases b.len() - pos,
{
    if 0 <= pos && pos + 4 <= end && pos + 4 <= b.len() {
        let n = u16_at(b, pos + 2);
        if pos + 4 + n <= b.len() {
            lemma_messages_fit(b, pos + 4 + n, end);
            let ms = messages_from(b, pos, end);
            let rest = messages_from(b, pos + 4 + n, end);
            assert forall|i: int| 0 <= i < ms.len() implies #[trigger] ms[i].1.len() < 65536 by {
                if i > 0 {
                    assert(ms[i] == rest[i - 1]);
                }
            }
        }
    }
}

/// Framing reads back: messages laid out one after another from `pos`, with the read
/// bounded by the end of their bytes, are read back as the same messages in the same
/// order.
pub proof fn law_framed_messages_read_back(b: Seq<u8>, pos: int, ms: Seq<(u16, Seq<u8>)>)
    requires
        0 <= pos,
        payloads_fit(ms),
        pos + frames(ms).len() <= b.len(),
        b.subrange(pos, pos + frames(ms).len()) == frames(ms),
    ensures
        messages_from(b, pos, pos + frames(ms).len()) == ms,
    decreases ms.len(),
{
    let end = pos + frames(ms).len();
    if ms.len() == 0 {
        assert(messages_from(b, pos, end) =~= ms);
    } else {
        let m = ms[0];
        let rest = ms.drop_first();
        assert(payloads_fit(rest)) by {
            assert forall|i: int| 0 <= i < rest.len() implies #[trigger] rest[i].1.len() < 65536 by {
                assert(rest[i] == ms[i + 1]);
            }
        }
        assert(m.1.len() < 65536);
        lemma_le16(m.0 as int);
        lemma_le16(m.1.len() as int);
        let f = frame(m);
        assert(frames(ms) == f + frames(rest));
        let n = m.1.len() as int;
        assert(f.len() == 4 + n);
        assert(b.subrange(pos, pos + f.len()) =~= f) by {
            assert forall|k: int| 0 <= k < f.len() implies b.subrange(pos, pos + f.len())[k] == f[k] by {
                assert(b.subrange(pos, end)[k] == frames(ms)[k]);
            }
        }
        assert(b[pos] == f[0]);
        assert(b[pos + 1] == f[1]);
        assert(b[pos + 2] == f[2]);
        assert(b[pos + 3] == f[3]);
        assert(u16_at(b, pos) == u16_at(le16(m.0 as int), 0));
        assert(u16_at(b, pos + 2) == u16_at(le16(n), 0));
        assert(b.subrange(pos + 4, pos + 4 + n) =~= m.1) by {
            assert forall|k: int| 0 <= k < n implies b.subrange(pos + 4, pos + 4 + n)[k] == m.1[k] by {
                assert(b.subrange(pos, pos + f.len())[4 + k] == f[4 + k]);
            }
        }
        assert(b.subrange(pos + f.len(), pos + f.len() + frames(rest).len()) =~= frames(rest)) by {
            assert forall|k: int| 0 <= k < frames(rest).len() implies b.subrange(
                pos + f.len(),
                pos + f.len() + frames(rest).len(),
            )[k] == frames(rest)[k] by {
                assert(b.subrange(pos, end)[f.len() + k] == frames(ms)[f.len() + k]);
            }
        }
        law_framed_messages_read_back(b, pos + f.len(), rest);
        assert(ms =~= seq![m] + rest);
    }
}

/// One message bus: the host writes commands into one and the engine writes events into
/// the other; each side drains what the other wrote.
pub struct LinearBus {
    buffer: Vec<u8>,
}

impl LinearBus {
    /// The bytes of the buffer.
    pub closed spec fn bytes(&self) -> Seq<u8> {
        self.buffer@
    }

    /// The offset at which the next message goes.
    pub open spec fn write_offset(&self) -> int {
        u32_at(self.bytes(), 0)
    }

    /// The messages that a drain would hand out now.
    pub open spec fn pending(&self) -> Seq<(u16, Seq<u8>)> {
        messages_from(self.bytes(), BUS_FIRST_MESSAGE as int, self.write_offset())
    }

    /// The buffer has its fixed size.
    pub open spec fn wf(&self) -> bool {
        self.bytes().len() == BUS_CAPACITY
    }

    /// The bytes between the first message and the write offset are exactly the
    /// pending messages, one after another.
    pub open spec fn well_framed(&self) -> bool {
        &&& self.wf()
        &&& BUS_FIRST_MESSAGE <= self.write_offset() <= BUS_CAPACITY
        &&& frames(self.pending()) == self.bytes().subrange(
            BUS_FIRST_MESSAGE as int,
            self.write_offset(),
        )
    }

    /// An empty bus: a zeroed buffer whose write offset is the first message's.
    pub fn new() -> (r: LinearBus)
        ensures
            r.wf(),
            r.well_framed(),
            r.write_offset() == BUS_FIRST_MESSAGE,
            r.pending().len() == 0,
            forall|i: int| 4 <= i < BUS_CAPACITY ==> r.bytes()[i] == 0,
    {
        let mut buffer: Vec<u8> = Vec::new();
        let mut i: usize = 0;
        while i < BUS_CAPACITY
            invariant
                i <= BUS_CAPACITY,
                buffer@.len() == i,
                forall|k: int| 0 <= k < i ==> buffer@[k] == 0,
            decreases BUS_CAPACITY - i,
        {
            buffer.push(0u8);
            i += 1;
        }
        set_offset(&mut buffer, BUS_FIRST_MESSAGE);
        let r = LinearBus { buffer };
        proof {
            lemma_le32(8);
            assert(r.bytes().subrange(0, 4) =~= le32(8));
            assert(u32_at(r.bytes(), 0) == u32_at(le32(8), 0));
            assert(r.pending() =~= Seq::<(u16, Seq<u8>)>::empty());
            assert(frames(r.pending()) =~= r.bytes().subrange(8, 8));
        }
        r
    }

    /// The buffer's bytes, for the host to read and write in place.
    pub fn as_bytes(&self) -> (r: &[u8])
        ensures
            r@ == self.bytes(),
    {
        self.buffer.as_slice()
    }

    /// The buffer's size in bytes.
    pub fn len(&self) -> (r: u32)
        requires
            self.wf(),
        ensures
            r == BUS_CAPACITY,
    {
        self.buffer.len() as u32
    }

    /// Hand out the pending messages in order and empty the bus.
    pub fn drain(&mut self) -> (r: Vec<(u16, Vec<u8>)>)
        requires
            old(self).wf(),
        ensures
            messages_view(r@) == old(self).pending(),
            final(self).bytes() == with_offset(old(self).bytes(), BUS_FIRST_MESSAGE as int),
            final(self).wf(),
            final(self).well_framed(),
            final(self).write_offset() == BUS_FIRST_MESSAGE,
            final(self).pending().len() == 0,
    {
        let ghost b = self.buffer@;
        let end = read_u32(&self.buffer, 0);
        let mut result: Vec<(u16, Vec<u8>)> = Vec::new();
        let mut pos: usize = BUS_FIRST_MESSAGE;
        let len = self.buffer.len();
        loop
            invariant
                b == self.buffer@,
                len == b.len(),
                len == BUS_CAPACITY,
                end == u32_at(b, 0),
                BUS_FIRST_MESSAGE <= pos <= len,
                messages_view(result@) + messages_from(b, pos as int, end as int)
                    == messages_from(b, BUS_FIRST_MESSAGE as int, end as int),
            ensures
                b == self.buffer@,
                messages_view(result@) == messages_from(b, BUS_FIRST_MESSAGE as int, end as int),
            decreases len - pos,
        {
            if !(pos + 4 <= end && pos + 4 <= len) {
                proof {
                    assert(messages_from(b, pos as int, end as int) =~= Seq::<(u16, Seq<u8>)>::empty());
                    assert(messages_view(result@) =~= messages_view(result@) + Seq::<(u16, Seq<u8>)>::empty());
                }
                break;
            }
            let kind = read_u16(&self.buffer, pos);
            let n = read_u16(&self.buffer, pos + 2);
            if pos + 4 + n > len {
                proof {
                    assert(messages_from(b, pos as int, end as int) =~= Seq::<(u16, Seq<u8>)>::empty());
                    assert(messages_view(result@) =~= messages_view(result@) + Seq::<(u16, Seq<u8>)>::empty());
                }
                break;
            }
            let payload = copy_range(&self.buffer, pos + 4, pos + 4 + n);
            let ghost before = messages_view(result@);
            result.push((kind as u16, payload));
            proof {
                assert(messages_view(result@) =~= before.push((kind as u16, b.subrange(pos + 4, pos + 4 + n))));
                let rest = messages_from(b, (pos + 4 + n) as int, end as int);
                assert(messages_from(b, pos as int, end as int)
                    =~= seq![(u16_at(b, pos as int) as u16, b.subrange(pos + 4, pos + 4 + n))] + rest);
                assert(messages_view(result@) + rest =~= before + messages_from(b, pos as int, end as int));
            }
            pos = pos + 4 + n;
        }
        set_offset(&mut self.buffer, BUS_FIRST_MESSAGE);
        proof {
            self.lemma_reset_is_empty();
        }
        result
    }

    proof fn lemma_reset_is_empty(&self)
        requires
            self.wf(),
            self.bytes().subrange(0, 4) == le32(8),
        ensures
            self.write_offset() == BUS_FIRST_MESSAGE,
            self.pending().len() == 0,
            self.well_framed(),
    {
        lemma_le32(8);
        assert(u32_at(self.bytes(), 0) == u32_at(le32(8), 0)) by {
            assert(self.bytes()[0] == self.bytes().subrange(0, 4)[0]);
            assert(self.bytes()[1] == self.bytes().subrange(0, 4)[1]);
            assert(self.bytes()[2] == self.bytes().subrange(0, 4)[2]);
            assert(self.bytes()[3] == self.bytes().subrange(0, 4)[3]);
        }
        assert(self.pending() =~= Seq::<(u16, Seq<u8>)>::empty());
        assert(frames(self.pending()) =~= self.bytes().subrange(8, 8));
    }

    /// Drop every pending message.
    pub fn reset(&mut self)
        requires
            old(self).wf(),
        ensures
            final(self).bytes() == with_offset(old(self).bytes(), BUS_FIRST_MESSAGE as int),
            final(self).wf(),
            final(self).well_framed(),
            final(self).write_offset() == BUS_FIRST_MESSAGE,
            final(self).pending().len() == 0,
    {
        set_offset(&mut self.buffer, BUS_FIRST_MESSAGE);
        proof {
            self.lemma_reset_is_empty();
        }
    }

    /// Append a message of type `kind` with `payload` at the write offset, when it fits
    /// before the end of the buffer; `false`, with the bus unchanged, when it does not.
    pub fn write(&mut self, kind: u16, payload: &[u8]) -> (r: bool)
        requires
            old(self).wf(),
        ensures
            r == (old(self).write_offset() + 4 + payload@.len() <= BUS_CAPACITY),
            final(self).wf(),
            r ==> final(self).bytes() == with_offset(
                splice(old(self).bytes(), old(self).write_offset(), frame((kind, payload@))),
                old(self).write_offset() + 4 + payload@.len(),
            ),
            r ==> final(self).bytes() == after_write(old(self).bytes(), (kind, payload@)),
            !r ==> final(self).bytes() == old(self).bytes(),
            old(self).well_framed() ==> final(self).well_framed(),
            old(self).well_framed() && r ==> final(self).pending() == old(self).pending().push(
                (kind, payload@),
            ),
            !r ==> final(self).pending() == old(self).pending(),
    {
        let ghost b0 = self.buffer@;
        let off = read_u32(&self.buffer, 0);
        if payload.len() > BUS_CAPACITY - 4 {
            return false;
        }
        let slot = 4 + payload.len();
        if off > BUS_CAPACITY - slot {
            return false;
        }
        let n = payload.len();
        put_u16(&mut self.buffer, off, kind as usize);
        put_u16(&mut self.buffer, off + 2, n);
        let ghost w = self.buffer@;
        let mut i: usize = 0;
        while i < n
            invariant
                i <= n,
                n == payload@.len(),
                off + 4 + n <= BUS_CAPACITY,
                w.len() == BUS_CAPACITY,
                self.buffer@.len() == BUS_CAPACITY,
                forall|k: int|
                    0 <= k < BUS_CAPACITY ==> #[trigger] self.buffer@[k] == (if off + 4 <= k < off + 4 + i {
                        payload@[k - off - 4]
                    } else {
                        w[k]
                    }),
            decreases n - i,
        {
            self.buffer[off + 4 + i] = payload[i];
            i += 1;
        }
        let ghost spliced = splice(b0, off as int, frame((kind, payload@)));
        proof {
            assert(self.buffer@ =~= spliced) by {
                assert forall|k: int| 0 <= k < BUS_CAPACITY implies self.buffer@[k] == spliced[k] by {
                    if k < off {
                        assert(w[k] == b0[k]);
                    } else if k < off + 2 {
                        assert(w[k] == le16(kind as int)[k - off]);
                    } else if k < off + 4 {
                        assert(w[k] == le16(n as int)[k - off - 2]);
                    } else if k >= off + 4 + n {
                        assert(w[k] == b0[k]);
                    }
                }
            }
        }
        set_offset(&mut self.buffer, off + slot);
        proof {
            self.lemma_write_framed(b0, spliced, kind, payload@);
            reveal(after_write);
        }
        true
    }

    proof fn lemma_write_framed(&self, b0: Seq<u8>, spliced: Seq<u8>, kind: u16, p: Seq<u8>)
        requires
            b0.len() == BUS_CAPACITY,
            u32_at(b0, 0) + 4 + p.len() <= BUS_CAPACITY,
            spliced == splice(b0, u32_at(b0, 0), frame((kind, p))),
            self.bytes() == with_offset(spliced, u32_at(b0, 0) + 4 + p.len()),
        ensures
            self.wf(),
            ({
                let old_bus_framed = BUS_FIRST_MESSAGE <= u32_at(b0, 0) && frames(
                    messages_from(b0, 8, u32_at(b0, 0)),
                ) == b0.subrange(8, u32_at(b0, 0));
                old_bus_framed ==> self.well_framed() && self.pending() == messages_from(
                    b0,
                    8,
                    u32_at(b0, 0),
                ).push((kind, p))
            }),
    {
        lemma_after_write(b0, (kind, p));
        reveal(after_write);
    }
}

/// The bytes of a buffer after message `m` is written at its write offset.
#[verifier::opaque]
pub open spec fn after_write(b: Seq<u8>, m: (u16, Seq<u8>)) -> Seq<u8> {
    with_offset(splice(b, u32_at(b, 0), frame(m)), u32_at(b, 0) + 4 + m.1.len())
}

/// The bytes between the first message and the write offset are exactly the messages
/// read from them.
pub open spec fn framed(b: Seq<u8>) -> bool {
    &&& BUS_FIRST_MESSAGE <= u32_at(b, 0) <= b.len()
    &&& frames(messages_from(b, 8, u32_at(b, 0))) == b.subrange(8, u32_at(b, 0))
}

proof fn lemma_after_write(b0: Seq<u8>, m: (u16, Seq<u8>))
    requires
        b0.len() == BUS_CAPACITY,
        u32_at(b0, 0) + 4 + m.1.len() <= BUS_CAPACITY,
    ensures
        after_write(b0, m).len() == BUS_CAPACITY,
        u32_at(after_write(b0, m), 0) == u32_at(b0, 0) + 4 + m.1.len(),
        BUS_FIRST_MESSAGE <= u32_at(b0, 0) && frames(messages_from(b0, 8, u32_at(b0, 0))) == b0.subrange(8, u32_at(b0, 0))
            ==> framed(after_write(b0, m)) && messages_from(after_write(b0, m), 8, u32_at(after_write(b0, m), 0))
            == messages_from(b0, 8, u32_at(b0, 0)).push(m),
{
    reveal(after_write);
    let o = u32_at(b0, 0);
    let n = m.1.len() as int;
    let f = frame(m);
    let o2 = o + 4 + n;
    let spliced = splice(b0, o, f);
    let b = after_write(b0, m);
    assert(f.len() == 4 + n);
    assert(spliced.len() == b0.len());
    assert(b.len() == b0.len());
    lemma_le32(o2);
    assert(u32_at(b, 0) == o2) by {
        assert(b.subrange(0, 4) =~= le32(o2));
        assert(b[0] == le32(o2)[0]);
        assert(b[1] == le32(o2)[1]);
        assert(b[2] == le32(o2)[2]);
        assert(b[3] == le32(o2)[3]);
    }
    let ms = messages_from(b0, 8, o);
    if BUS_FIRST_MESSAGE <= o && frames(ms) == b0.subrange(8, o) {
        lemma_messages_fit(b0, 8, o);
        let q = ms.push(m);
        assert(payloads_fit(q)) by {
            assert forall|i: int| 0 <= i < q.len() implies #[trigger] q[i].1.len() < 65536 by {
                if i < ms.len() {
                    assert(q[i] == ms[i]);
                }
            }
        }
        lemma_frames_push(ms, m);
        assert(frames(ms).len() == o - 8);
        assert(b.subrange(8, o2) =~= frames(q)) by {
            assert forall|k: int| 0 <= k < o2 - 8 implies b.subrange(8, o2)[k] == frames(q)[k] by {
                assert(b[8 + k] == spliced[8 + k]);
                if k < o - 8 {
                    assert(spliced[8 + k] == b0[8 + k]);
                    assert(b0.subrange(8, o)[k] == b0[8 + k]);
                } else {
                    assert(spliced[8 + k] == f[8 + k - o]);
                }
            }
        }
        law_framed_messages_read_back(b, 8, q);
    }
}

proof fn lemma_first_write(b: Seq<u8>, m: (u16, Seq<u8>))
    requires
        b.len() == BUS_CAPACITY,
        u32_at(b, 0) == BUS_FIRST_MESSAGE,
        BUS_FIRST_MESSAGE + 4 + m.1.len() <= BUS_CAPACITY,
    ensures
        after_write(b, m).len() == BUS_CAPACITY,
        u32_at(after_write(b, m), 0) == BUS_FIRST_MESSAGE + 4 + m.1.len(),
        framed(after_write(b, m)),
        messages_from(after_write(b, m), 8, u32_at(after_write(b, m), 0)) == seq![m],
{
    let e = Seq::<(u16, Seq<u8>)>::empty();
    assert(messages_from(b, 8, 8) =~= e);
    assert(frames(e) =~= b.subrange(8, 8));
    lemma_after_write(b, m);
    assert(e.push(m) =~= seq![m]);
}

/// Two messages written one after the other into an empty bus are drained back, both
/// and in order, when they fit.
pub proof fn law_two_writes_then_drain(b: Seq<u8>, m1: (u16, Seq<u8>), m2: (u16, Seq<u8>))
    requires
        b.len() == BUS_CAPACITY,
        u32_at(b, 0) == BUS_FIRST_MESSAGE,
        BUS_FIRST_MESSAGE + 4 + m1.1.len() + 4 + m2.1.len() <= BUS_CAPACITY,
    ensures
        messages_from(after_write(after_write(b, m1), m2), 8, u32_at(after_write(after_write(b, m1), m2), 0))
            == seq![m1, m2],
{
    lemma_first_write(b, m1);
    let b1 = after_write(b, m1);
    lemma_after_write(b1, m2);
    assert(seq![m1].push(m2) =~= seq![m1, m2]);
}

fn read_u16(b: &Vec<u8>, at: usize) -> (r: usize)
    requires
        b@.len() == BUS_CAPACITY,
        at + 2 <= b@.len(),
    ensures
        r == u16_at(b@, at as int),
        r < 65536,
{
    (b[at] as usize) + (b[at + 1] as usize) * 256
}

fn read_u32(b: &Vec<u8>, at: usize) -> (r: usize)
    requires
        b@.len() == BUS_CAPACITY,
        at + 4 <= b@.len(),
    ensures
        r == u32_at(b@, at as int),
{
    read_u16(b, at) + read_u16(b, at + 2) * 65536
}

fn copy_range(b: &Vec<u8>, from: usize, to: usize) -> (r: Vec<u8>)
    requires
        from <= to <= b@.len(),
    ensures
        r@ == b@.subrange(from as int, to as int),
{
    let mut r: Vec<u8> = Vec::new();
    let mut i = from;
    while i < to
        invariant
            from <= i <= to,
            to <= b@.len(),
            r@ == b@.subrange(from as int, i as int),
        decreases to - i,
    {
        r.push(b[i]);
        i += 1;
    }
    r
}

fn put_u16(b: &mut Vec<u8>, at: usize, v: usize)
    requires
        old(b)@.len() == BUS_CAPACITY,
        at + 2 <= old(b)@.len(),
        v < 65536,
    ensures
        final(b)@ == splice(old(b)@, at as int, le16(v as int)),
{
    b[at] = (v % 256) as u8;
    b[at + 1] = ((v / 256) % 256) as u8;
    assert(b@ =~= splice(old(b)@, at as int, le16(v as int)));
}

fn set_offset(b: &mut Vec<u8>, off: usize)
    requires
        old(b)@.len() == BUS_CAPACITY,
        off < 0x1_0000_0000,
    ensures
        final(b)@ == with_offset(old(b)@, off as int),
        final(b)@.subrange(0, 4) == le32(off as int),
{
    put_u16(b, 0, off % 65536);
    put_u16(b, 2, off / 65536);
    assert(b@ =~= with_offset(old(b)@, off as int));
    assert(b@.subrange(0, 4) =~= le32(off as int));
}

} // verus!
