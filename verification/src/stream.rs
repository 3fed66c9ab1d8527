//! Streams: independent data channels inside one connection, with
//! stream-level and connection-level flow control.
//!
//! Stream 0 is the control stream; clients open even ids, servers odd ones.
//!
//! ```text
//! IDLE → (StreamOpen) → OPEN → (Data/Ack) → OPEN
//! OPEN → (StreamClose FIN) → HALF_CLOSED → (StreamClose ACK) → CLOSED
//! ```

use vstd::prelude::*;

use crate::error::{Error, Result};
use std::collections::HashMap;
use vstd::std_specs::iter::IteratorSpec;

verus! {

broadcast use vstd::std_specs::hash::group_hash_axioms;

/// Stream id (18 bits, 0 to 262143).
pub type StreamId = u32;

/// Largest stream id.
pub const MAX_STREAM_ID: StreamId = 0x3FFFF;

/// Id of the control stream.
pub const CONTROL_STREAM_ID: StreamId = 0;

/// State of a stream.
#[derive(Debug, Clone, Copy, PartialEq, Eq, Structural)]
pub enum StreamState {
    /// Not opened.
    Idle,
    /// Open for reading and writing.
    Open,
    /// We sent FIN: writing is closed.
    HalfClosedLocal,
    /// The peer sent FIN: reading is closed.
    HalfClosedRemote,
    /// Fully closed.
    Closed,
}

impl StreamState {
    /// Only an open stream can be written.
    pub open spec fn spec_can_write(self) -> bool {
        self == StreamState::Open
    }

    /// An open stream, or one whose writing side we closed, can be read.
    pub open spec fn spec_can_read(self) -> bool {
        self == StreamState::Open || self == StreamState::HalfClosedLocal
    }

    /// Can the stream be written in this state?
    pub fn can_write(&self) -> (res: bool)
        ensures
            res == self.spec_can_write(),
    {
        match self {
            StreamState::Open => true,
            _ => false,
        }
    }

    /// Can the stream be read in this state?
    pub fn can_read(&self) -> (res: bool)
        ensures
            res == self.spec_can_read(),
    {
        match self {
            StreamState::Open | StreamState::HalfClosedLocal => true,
            _ => false,
        }
    }

    /// Is the stream fully closed?
    pub fn is_closed(&self) -> (res: bool)
        ensures
            res == (*self == StreamState::Closed),
    {
        match self {
            StreamState::Closed => true,
            _ => false,
        }
    }

    /// State after closing the writing side (sending FIN).
    pub open spec fn after_close_write(self) -> StreamState {
        match self {
            StreamState::Open => StreamState::HalfClosedLocal,
            StreamState::HalfClosedRemote => StreamState::Closed,
            _ => self,
        }
    }

    /// State after closing the reading side (receiving FIN).
    pub open spec fn after_close_read(self) -> StreamState {
        match self {
            StreamState::Open => StreamState::HalfClosedRemote,
            StreamState::HalfClosedLocal => StreamState::Closed,
            _ => self,
        }
    }
}

/// Closing both sides of an open or half-closed stream, in either order,
/// closes it; closing a side twice changes nothing more.
pub proof fn lemma_close_both_sides(s: StreamState)
    requires
        s != StreamState::Idle,
    ensures
        s.after_close_write().after_close_read() == StreamState::Closed,
        s.after_close_read().after_close_write() == StreamState::Closed,
        s.after_close_write().after_close_write() == s.after_close_write(),
        s.after_close_read().after_close_read() == s.after_close_read(),
{
}

/// Flow-control window of one direction of a stream.
#[derive(Debug, Clone, Copy, PartialEq, Eq, Structural)]
pub struct FlowControl {
    /// Largest offset the receiver allows us to send up to.
    pub max_offset: u64,
    /// Offset up to which data has been received.
    pub received_offset: u64,
    /// Offset up to which data has been sent.
    pub sent_offset: u64,
    /// Initial window.
    pub max_window: u64,
}

impl FlowControl {
    /// A fresh window of `max_window` bytes.
    pub open spec fn spec_new(max_window: u64) -> FlowControl {
        FlowControl { max_offset: max_window, received_offset: 0, sent_offset: 0, max_window }
    }

    /// A fresh window of `max_window` bytes.
    pub fn new(max_window: u64) -> (res: Self)
        ensures
            res == FlowControl::spec_new(max_window),
    {
        FlowControl { max_offset: max_window, received_offset: 0, sent_offset: 0, max_window }
    }

    /// May `data_len` more bytes be sent?
    pub fn can_send(&self, data_len: usize) -> (res: bool)
        requires
            self.sent_offset + data_len <= u64::MAX,
        ensures
            res == (self.sent_offset + data_len <= self.max_offset),
    {
        (self.sent_offset + data_len as u64) <= self.max_offset
    }

    /// Reserve `data_len` bytes; returns the offset they start at (truncated
    /// to 32 bits).
    pub fn reserve_send(&mut self, data_len: usize) -> (res: u32)
        requires
            old(self).sent_offset + data_len <= u64::MAX,
        ensures
            res == old(self).sent_offset as u32,
            *final(self) == (FlowControl {
                sent_offset: (old(self).sent_offset + data_len) as u64,
                ..*old(self)
            }),
    {
        let offset = self.sent_offset as u32;
        self.sent_offset = self.sent_offset + data_len as u64;
        offset
    }

    /// The receiver allows up to `new_max`: the limit only grows.
    pub fn update_window(&mut self, new_max: u64)
        ensures
            *final(self) == (FlowControl {
                max_offset: if new_max > old(self).max_offset {
                    new_max
                } else {
                    old(self).max_offset
                },
                ..*old(self)
            }),
    {
        if new_max > self.max_offset {
            self.max_offset = new_max;
        }
    }

    /// Record data received at `offset`: the received offset grows to its
    /// end.
    pub fn received(&mut self, offset: u32, length: u32)
        ensures
            *final(self) == (FlowControl {
                received_offset: if offset + length > old(self).received_offset {
                    (offset + length) as u64
                } else {
                    old(self).received_offset
                },
                ..*old(self)
            }),
    {
        let end = offset as u64 + length as u64;
        if end > self.received_offset {
            self.received_offset = end;
        }
    }

    /// How many more bytes may be sent (0 when over the limit).
    pub fn available_window(&self) -> (res: u64)
        ensures
            res == if self.max_offset >= self.sent_offset {
                self.max_offset - self.sent_offset
            } else {
                0
            },
    {
        self.max_offset.saturating_sub(self.sent_offset)
    }
}

/// Reserving bytes shrinks the available window by as much; raising the
/// limit never shrinks it.
pub proof fn lemma_window_accounting(fc: FlowControl, n: u64, new_max: u64)
    requires
        fc.sent_offset + n <= fc.max_offset,
    ensures
        ({
            let after = FlowControl { sent_offset: (fc.sent_offset + n) as u64, ..fc };
            after.max_offset - after.sent_offset == (fc.max_offset - fc.sent_offset) - n
        }),
        ({
            let raised = FlowControl {
                max_offset: if new_max > fc.max_offset {
                    new_max
                } else {
                    fc.max_offset
                },
                ..fc
            };
            raised.max_offset - raised.sent_offset >= fc.max_offset - fc.sent_offset
        }),
{
}

/// A received fragment: its offset and its bytes.
pub type Fragment = (u32, Seq<u8>);

/// Insert `x` into a sequence sorted by offset, after every fragment whose
/// offset is not greater.
pub open spec fn insert_sorted(s: Seq<Fragment>, x: Fragment) -> Seq<Fragment>
    decreases s.len(),
{
    if s.len() == 0 {
        seq![x]
    } else if s.last().0 <= x.0 {
        s.push(x)
    } else {
        insert_sorted(s.drop_last(), x).push(s.last())
    }
}

/// The fragments sorted by offset, stably: fragments with equal offsets
/// keep their order.
pub open spec fn sort_fragments(s: Seq<Fragment>) -> Seq<Fragment>
    decreases s.len(),
{
    if s.len() == 0 {
        s
    } else {
        insert_sorted(sort_fragments(s.drop_last()), s.last())
    }
}

/// How many fragments a read takes from the sorted buffer: consecutive
/// fragments, each starting where the previous one ended (the first at
/// `expected`), stopping after the one that brings the total to `max_len`.
pub open spec fn fragments_taken(s: Seq<Fragment>, expected: int, got: int, max_len: int) -> nat
    decreases s.len(),
{
    if s.len() == 0 || s[0].0 != expected {
        0
    } else if got + s[0].1.len() >= max_len {
        1
    } else {
        1 + fragments_taken(s.drop_first(), expected + s[0].1.len(), got + s[0].1.len(), max_len)
    }
}

/// The fragments' bytes, one after another.
pub open spec fn fragments_data(s: Seq<Fragment>) -> Seq<u8>
    decreases s.len(),
{
    if s.len() == 0 {
        Seq::empty()
    } else {
        fragments_data(s.drop_last()) + s.last().1
    }
}

/// Whether the fragments are in order of their offsets.
pub open spec fn offsets_sorted(s: Seq<Fragment>) -> bool {
    forall|i: int, j: int| 0 <= i <= j < s.len() ==> s[i].0 <= s[j].0
}

proof fn lemma_insert_sorted(s: Seq<Fragment>, x: Fragment)
    requires
        offsets_sorted(s),
    ensures
        offsets_sorted(insert_sorted(s, x)),
        insert_sorted(s, x).len() == s.len() + 1,
        insert_sorted(s, x).last().0 == if s.len() > 0 && x.0 < s.last().0 {
            s.last().0
        } else {
            x.0
        },
    decreases s.len(),
{
    if s.len() > 0 && x.0 < s.last().0 {
        let t = s.drop_last();
        assert(offsets_sorted(t));
        lemma_insert_sorted(t, x);
        let r = insert_sorted(t, x);
        assert forall|i: int| 0 <= i < r.len() implies r[i].0 <= s.last().0 by {
            assert(r[i].0 <= r.last().0);
            if t.len() > 0 {
                assert(t.last() == s[s.len() - 2]);
            }
        }
    }
}

/// Sorting puts the fragments in order of their offsets.
pub proof fn lemma_sort_fragments_sorted(s: Seq<Fragment>)
    ensures
        offsets_sorted(sort_fragments(s)),
        sort_fragments(s).len() == s.len(),
    decreases s.len(),
{
    if s.len() > 0 {
        lemma_sort_fragments_sorted(s.drop_last());
        lemma_insert_sorted(sort_fragments(s.drop_last()), s.last());
    }
}

proof fn lemma_data_prepend(x: Fragment, t: Seq<Fragment>)
    ensures
        fragments_data(seq![x] + t) == x.1 + fragments_data(t),
    decreases t.len(),
{
    let u = seq![x] + t;
    if t.len() == 0 {
        assert(u =~= seq![x]);
        assert(u.drop_last() =~= Seq::<Fragment>::empty());
        assert(fragments_data(u) =~= x.1 + fragments_data(t));
    } else {
        assert(u.drop_last() =~= seq![x] + t.drop_last());
        assert(u.last() == t.last());
        lemma_data_prepend(x, t.drop_last());
        assert(fragments_data(u) == fragments_data(u.drop_last()) + u.last().1);
        assert(fragments_data(t) == fragments_data(t.drop_last()) + t.last().1);
        assert(fragments_data(u) =~= x.1 + fragments_data(t));
    }
}

/// Taking fragments stops short of `max_len` only where the buffer runs
/// out or the next fragment does not start where the bytes taken end:
/// contiguous data is never left behind while room remains.
pub proof fn lemma_taken_stops_only_at_gap(s: Seq<Fragment>, expected: int, got: int, max_len: int)
    ensures
        ({
            let n = fragments_taken(s, expected, got, max_len) as int;
            let d = fragments_data(s.take(n)).len();
            &&& n <= s.len()
            &&& got + d < max_len ==> (n == s.len() || s[n].0 != expected + d)
        }),
    decreases s.len(),
{
    if s.len() == 0 || s[0].0 != expected {
        assert(s.take(0) =~= Seq::<Fragment>::empty());
    } else if got + s[0].1.len() >= max_len {
        assert(s.take(1) =~= seq![s[0]] + Seq::<Fragment>::empty());
        lemma_data_prepend(s[0], Seq::<Fragment>::empty());
    } else {
        let t = s.drop_first();
        let l = s[0].1.len() as int;
        lemma_taken_stops_only_at_gap(t, expected + l, got + l, max_len);
        let n2 = fragments_taken(t, expected + l, got + l, max_len) as int;
        assert(s.take(n2 + 1) =~= seq![s[0]] + t.take(n2));
        lemma_data_prepend(s[0], t.take(n2));
        if n2 < t.len() {
            assert(s[n2 + 1] == t[n2]);
        }
    }
}

/// A read stops short of `max_len` bytes only at a gap: when it gives
/// fewer than `max_len` bytes, the fragments left are in offset order and
/// the earliest of them does not start at the new read offset, so no
/// contiguous data that fits was held back.
pub proof fn lemma_read_stops_only_at_gap(buffer: Seq<Fragment>, read_offset: int, max_len: int)
    ensures
        ({
            let sorted = sort_fragments(buffer);
            let n = fragments_taken(sorted, read_offset, 0, max_len) as int;
            let data = fragments_data(sorted.take(n));
            let rest = sorted.skip(n);
            &&& offsets_sorted(rest)
            &&& data.len() < max_len ==> (rest.len() == 0 || rest[0].0 != read_offset
                + data.len())
        }),
{
    let sorted = sort_fragments(buffer);
    lemma_sort_fragments_sorted(buffer);
    lemma_taken_stops_only_at_gap(sorted, read_offset, 0, max_len);
    let n = fragments_taken(sorted, read_offset, 0, max_len) as int;
    let rest = sorted.skip(n);
    assert forall|i: int, j: int| 0 <= i <= j < rest.len() implies rest[i].0 <= rest[j].0 by {
        assert(rest[i] == sorted[n + i]);
        assert(rest[j] == sorted[n + j]);
    }
    if n < sorted.len() {
        assert(rest[0] == sorted[n]);
    }
}

/// No offset reached while taking fragments exceeds 32 bits.
pub open spec fn offsets_fit(s: Seq<Fragment>, expected: int, got: int, max_len: int) -> bool
    decreases s.len(),
{
    if s.len() == 0 || s[0].0 != expected {
        true
    } else {
        &&& expected + s[0].1.len() <= u32::MAX
        &&& (got + s[0].1.len() >= max_len || offsets_fit(
            s.drop_first(),
            expected + s[0].1.len(),
            got + s[0].1.len(),
            max_len,
        ))
    }
}

/// A stream inside a connection.
#[derive(Debug)]
pub struct Stream {
    /// The stream's id.
    pub id: StreamId,
    /// Its state.
    pub state: StreamState,
    /// Its flow control.
    pub flow_control: FlowControl,
    /// Received fragments, in arrival order (sorted by each read).
    pub receive_buffer: Vec<(u32, Vec<u8>)>,
    /// Stream offset up to which data has been read: the next read starts
    /// there.
    pub read_offset: u32,
    /// Opened by the client (even id)?
    pub is_client: bool,
}

impl Stream {
    /// The received fragments not yet read.
    pub open spec fn buffer(&self) -> Seq<Fragment> {
        self.receive_buffer@.map_values(|p: (u32, Vec<u8>)| (p.0, p.1@))
    }

    /// A stream just opened: open, with a fresh window and nothing received.
    pub open spec fn is_fresh(&self, id: StreamId, is_client: bool, window: u64) -> bool {
        &&& self.id == id
        &&& self.state == StreamState::Open
        &&& self.flow_control == FlowControl::spec_new(window)
        &&& self.buffer().len() == 0
        &&& self.read_offset == 0
        &&& self.is_client == is_client
    }

    /// A new open stream.
    pub fn new(id: StreamId, is_client: bool, max_stream_window: u64) -> (res: Self)
        ensures
            res.is_fresh(id, is_client, max_stream_window),
    {
        let res = Stream {
            id,
            state: StreamState::Open,
            flow_control: FlowControl::new(max_stream_window),
            receive_buffer: Vec::new(),
            read_offset: 0,
            is_client,
        };
        assert(res.buffer() =~= Seq::<Fragment>::empty());
        res
    }

    /// Close the writing side (send FIN).
    pub fn close_write(&mut self)
        ensures
            *final(self) == (Stream { state: old(self).state.after_close_write(), ..*old(self) }),
    {
        match self.state {
            StreamState::Open => self.state = StreamState::HalfClosedLocal,
            StreamState::HalfClosedRemote => self.state = StreamState::Closed,
            _ => {},
        }
    }

    /// Close the reading side (FIN received from the peer).
    pub fn close_read(&mut self)
        ensures
            *final(self) == (Stream { state: old(self).state.after_close_read(), ..*old(self) }),
    {
        match self.state {
            StreamState::Open => self.state = StreamState::HalfClosedRemote,
            StreamState::HalfClosedLocal => self.state = StreamState::Closed,
            _ => {},
        }
    }

    /// Write `data`: returns the offset it is sent at. Fails with
    /// `InvalidState` unless the stream is open, and with `FlowControl` when
    /// the window cannot take the data.
    pub fn write(&mut self, data: Vec<u8>) -> (res: Result<u32>)
        requires
            old(self).flow_control.sent_offset + data@.len() <= u64::MAX,
        ensures
            final(self).id == old(self).id,
            final(self).state == old(self).state,
            final(self).buffer() == old(self).buffer(),
            final(self).read_offset == old(self).read_offset,
            final(self).is_client == old(self).is_client,
            match res {
                Ok(offset) => {
                    &&& old(self).state.spec_can_write()
                    &&& old(self).flow_control.sent_offset + data@.len()
                        <= old(self).flow_control.max_offset
                    &&& offset == old(self).flow_control.sent_offset as u32
                    &&& final(self).flow_control == (FlowControl {
                        sent_offset: (old(self).flow_control.sent_offset + data@.len()) as u64,
                        ..old(self).flow_control
                    })
                },
                Err(e) => {
                    &&& final(self).flow_control == old(self).flow_control
                    &&& if !old(self).state.spec_can_write() {
                        e is InvalidState
                    } else {
                        &&& old(self).flow_control.sent_offset + data@.len()
                            > old(self).flow_control.max_offset
                        &&& e is FlowControl
                    }
                },
            },
    {
        if !self.state.can_write() {
            return Err(Error::InvalidState("Stream is not writable".to_string()));
        }
        if !self.flow_control.can_send(data.len()) {
            return Err(Error::FlowControl("Stream flow control limit reached".to_string()));
        }
        let offset = self.flow_control.reserve_send(data.len());
        Ok(offset)
    }

    /// Read the contiguous data that follows what was read before: the
    /// buffer is sorted by offset (stably), then fragments are taken while
    /// each starts where the previous one ended (the first at the read
    /// offset), until at least `max_len` bytes are collected. The taken
    /// fragments leave the buffer and the read offset moves past them, so
    /// successive reads give the stream's bytes in order. Reading with
    /// nothing buffered gives no data; it fails with `InvalidState` when, in
    /// addition, the stream can no longer be read.
    pub fn read(&mut self, max_len: usize) -> (res: Result<Vec<u8>>)
        requires
            offsets_fit(
                sort_fragments(old(self).buffer()),
                old(self).read_offset as int,
                0,
                max_len as int,
            ),
        ensures
            final(self).id == old(self).id,
            final(self).state == old(self).state,
            final(self).flow_control == old(self).flow_control,
            final(self).is_client == old(self).is_client,
            ({
                let sorted = sort_fragments(old(self).buffer());
                let n = fragments_taken(
                    sorted,
                    old(self).read_offset as int,
                    0,
                    max_len as int,
                ) as int;
                if !old(self).state.spec_can_read() && old(self).buffer().len() == 0 {
                    &&& res is Err
                    &&& res->Err_0 is InvalidState
                    &&& final(self).buffer() == old(self).buffer()
                    &&& final(self).read_offset == old(self).read_offset
                } else {
                    &&& res is Ok
                    &&& res->Ok_0@ == fragments_data(sorted.take(n))
                    &&& final(self).buffer() == sorted.skip(n)
                    &&& final(self).read_offset == old(self).read_offset + res->Ok_0@.len()
                }
            }),
            res matches Ok(data) ==> offsets_sorted(final(self).buffer()),
            res matches Ok(data) && data@.len() < max_len ==> (final(self).buffer().len() == 0
                || final(self).buffer()[0].0 != final(self).read_offset),
    {
        if !self.state.can_read() && self.receive_buffer.len() == 0 {
            return Err(Error::InvalidState("Stream is not readable".to_string()));
        }
        if self.receive_buffer.len() == 0 {
            proof {
                assert(old(self).buffer() =~= Seq::<Fragment>::empty());
                assert(sort_fragments(old(self).buffer()).skip(0) =~= old(self).buffer());
                assert(sort_fragments(old(self).buffer()).take(0) =~= Seq::<Fragment>::empty());
            }
            return Ok(Vec::new());
        }
        self.sort_buffer();
        let ghost sorted = self.buffer();
        let mut result: Vec<u8> = Vec::new();
        let mut expected_offset: u32 = self.read_offset;
        let mut consumed: usize = 0;
        let n = self.receive_buffer.len();
        assert(sorted.skip(0) =~= sorted);
        assert(sorted.take(0) =~= Seq::<Fragment>::empty());
        while consumed < n
            invariant_except_break
                n == self.receive_buffer@.len(),
                sorted == self.buffer(),
                consumed <= n,
                self.read_offset == old(self).read_offset,
                expected_offset == self.read_offset + result@.len(),
                offsets_fit(sorted.skip(consumed as int), expected_offset as int, result@.len() as int, max_len as int),
                fragments_taken(sorted, old(self).read_offset as int, 0, max_len as int) == consumed + fragments_taken(
                    sorted.skip(consumed as int),
                    expected_offset as int,
                    result@.len() as int,
                    max_len as int,
                ),
                result@ == fragments_data(sorted.take(consumed as int)),
                consumed > 0 ==> result@.len() < max_len,
            ensures
                consumed <= n,
                sorted == self.buffer(),
                n == self.receive_buffer@.len(),
                self.read_offset == old(self).read_offset,
                expected_offset == self.read_offset + result@.len(),
                fragments_taken(sorted, old(self).read_offset as int, 0, max_len as int) == consumed,
                result@ == fragments_data(sorted.take(consumed as int)),
            decreases n - consumed,
        {
            let frag_offset = self.receive_buffer[consumed].0;
            proof {
                assert(sorted.skip(consumed as int)[0] == sorted[consumed as int]);
                assert(self.buffer()[consumed as int] == (
                self.receive_buffer@[consumed as int].0,
                self.receive_buffer@[consumed as int].1@,
                ));
            }
            if frag_offset != expected_offset {
                break ;
            }
            let ghost frag = sorted[consumed as int];
            let len = self.receive_buffer[consumed].1.len();
            result.extend_from_slice(self.receive_buffer[consumed].1.as_slice());
            proof {
                assert(sorted.skip(consumed as int).drop_first() =~= sorted.skip(consumed + 1));
                assert(sorted.take(consumed + 1) =~= sorted.take(consumed as int).push(frag));
                assert(sorted.take(consumed + 1).drop_last() =~= sorted.take(consumed as int));
            }
            expected_offset = expected_offset + len as u32;
            consumed = consumed + 1;
            if result.len() >= max_len {
                break ;
            }
        }
        proof {
            if consumed == n {
                assert(sorted.skip(consumed as int) =~= Seq::<Fragment>::empty());
            }
        }
        let rest = self.receive_buffer.split_off(consumed);
        self.receive_buffer = rest;
        self.read_offset = expected_offset;
        proof {
            assert(self.buffer() =~= sorted.skip(consumed as int));
            lemma_read_stops_only_at_gap(
                old(self).buffer(),
                old(self).read_offset as int,
                max_len as int,
            );
        }
        Ok(result)
    }

    /// Sort the receive buffer by offset, stably (insertion sort).
    fn sort_buffer(&mut self)
        ensures
            final(self).buffer() == sort_fragments(old(self).buffer()),
            final(self).id == old(self).id,
            final(self).state == old(self).state,
            final(self).flow_control == old(self).flow_control,
            final(self).read_offset == old(self).read_offset,
            final(self).is_client == old(self).is_client,
    {
        let ghost orig = self.buffer();
        let n = self.receive_buffer.len();
        let mut i: usize = 0;
        assert(orig.take(0) =~= Seq::<Fragment>::empty());
        while i < n
            invariant
                n == self.receive_buffer@.len(),
                orig.len() == n,
                i <= n,
                self.buffer().take(i as int) == sort_fragments(orig.take(i as int)),
                self.buffer().skip(i as int) == orig.skip(i as int),
                self.id == old(self).id,
                self.state == old(self).state,
                self.flow_control == old(self).flow_control,
                self.read_offset == old(self).read_offset,
                self.is_client == old(self).is_client,
            decreases n - i,
        {
            let ghost before = self.buffer();
            let ghost prefix = before.take(i as int);
            let x = self.receive_buffer.remove(i);
            let ghost xv = (x.0, x.1@);
            proof {
                assert(xv == orig[i as int]) by {
                    assert(before[i as int] == orig.skip(i as int)[0]);
                }
                assert(orig.take(i + 1).drop_last() =~= orig.take(i as int));
                assert(orig.take(i + 1).last() == orig[i as int]);
                assert(self.buffer() =~= prefix + before.skip(i + 1));
            }
            let mut j: usize = i;
            assert(prefix.take(i as int) =~= prefix);
            assert(prefix.subrange(i as int, i as int) =~= Seq::<Fragment>::empty());
            while j > 0 && self.receive_buffer[j - 1].0 > x.0
                invariant
                    j <= i,
                    i < n,
                    self.receive_buffer@.len() == n - 1,
                    self.buffer() == prefix + before.skip(i + 1),
                    prefix.len() == i,
                    xv.0 == x.0,
                    insert_sorted(prefix, xv) == insert_sorted(prefix.take(j as int), xv)
                        + prefix.subrange(j as int, i as int),
                decreases j,
            {
                proof {
                    assert(self.buffer()[j - 1] == prefix[j - 1]);
                    assert(self.buffer()[j - 1].0 == self.receive_buffer@[j - 1].0);
                    let p = prefix.take(j as int);
                    assert(p.last() == prefix[j - 1]);
                    assert(p.drop_last() =~= prefix.take(j - 1));
                    assert(insert_sorted(p, xv) == insert_sorted(prefix.take(j - 1), xv).push(
                        prefix[j - 1],
                    ));
                    assert(prefix.subrange(j - 1, i as int) =~= seq![prefix[j - 1]]
                        + prefix.subrange(j as int, i as int));
                    assert(insert_sorted(prefix.take(j - 1), xv).push(prefix[j - 1])
                        + prefix.subrange(j as int, i as int) =~= insert_sorted(
                        prefix.take(j - 1),
                        xv,
                    ) + prefix.subrange(j - 1, i as int));
                }
                j = j - 1;
            }
            proof {
                let p = prefix.take(j as int);
                if j > 0 {
                    assert(self.buffer()[j - 1] == prefix[j - 1]);
                    assert(self.buffer()[j - 1].0 == self.receive_buffer@[j - 1].0);
                    assert(p.last() == prefix[j - 1]);
                    assert(insert_sorted(p, xv) == p.push(xv));
                } else {
                    assert(p =~= Seq::<Fragment>::empty());
                    assert(insert_sorted(p, xv) == seq![xv]);
                }
            }
            self.receive_buffer.insert(j, x);
            proof {
                let p = prefix.take(j as int);
                assert(self.buffer() =~= p.push(xv) + prefix.subrange(j as int, i as int)
                    + before.skip(i + 1));
                assert(insert_sorted(prefix, xv) =~= p.push(xv) + prefix.subrange(
                    j as int,
                    i as int,
                ));
                assert(self.buffer().take(i + 1) =~= insert_sorted(prefix, xv));
                assert(sort_fragments(orig.take(i + 1)) == insert_sorted(
                    sort_fragments(orig.take(i as int)),
                    orig[i as int],
                ));
                assert(self.buffer().skip(i + 1) =~= before.skip(i + 1));
                assert(before.skip(i + 1) =~= orig.skip(i + 1)) by {
                    assert(before.skip(i as int) == orig.skip(i as int));
                    assert(before.skip(i + 1) =~= before.skip(i as int).drop_first());
                    assert(orig.skip(i + 1) =~= orig.skip(i as int).drop_first());
                }
            }
            i = i + 1;
        }
        assert(orig.take(n as int) =~= orig);
        assert(self.buffer().take(n as int) =~= self.buffer());
    }

    /// Buffer data received at `offset` and record it in the flow control.
    pub fn receive_data(&mut self, offset: u32, data: Vec<u8>)
        ensures
            final(self).buffer() == old(self).buffer().push((offset, data@)),
            final(self).flow_control == ({
                let end = offset + (data@.len() as u32);
                FlowControl {
                    received_offset: if end > old(self).flow_control.received_offset {
                        end as u64
                    } else {
                        old(self).flow_control.received_offset
                    },
                    ..old(self).flow_control
                }
            }),
            final(self).id == old(self).id,
            final(self).state == old(self).state,
            final(self).read_offset == old(self).read_offset,
            final(self).is_client == old(self).is_client,
    {
        let len = data.len() as u32;
        self.receive_buffer.push((offset, data));
        self.flow_control.received(offset, len);
        assert(self.buffer() =~= old(self).buffer().push((offset, data@)));
    }

    /// Is any data buffered?
    fn has_buffered_data(&self) -> (res: bool)
        ensures
            res == (self.buffer().len() > 0),
    {
        self.receive_buffer.len() > 0
    }
}

/// One change of the connection budget `(sent, window)`: `(true, n)`
/// reserves `n` bytes, `(false, w)` raises the window to `w` if that is
/// larger.
pub open spec fn connection_budget_step(sent: int, window: int, e: (bool, int)) -> (int, int) {
    if e.0 {
        (sent + e.1, window)
    } else {
        (sent, if e.1 > window {
            e.1
        } else {
            window
        })
    }
}

/// The budget after a sequence of changes, one step at a time.
pub open spec fn connection_budget_after(sent: int, window: int, events: Seq<(bool, int)>) -> (
    int,
    int,
)
    decreases events.len(),
{
    if events.len() == 0 {
        (sent, window)
    } else {
        let next = connection_budget_step(sent, window, events[0]);
        connection_budget_after(next.0, next.1, events.drop_first())
    }
}

/// The bytes that a sequence of changes reserves in all.
pub open spec fn reserved_total(events: Seq<(bool, int)>) -> int
    decreases events.len(),
{
    if events.len() == 0 {
        0
    } else {
        (if events[0].0 {
            events[0].1
        } else {
            0
        }) + reserved_total(events.drop_first())
    }
}

/// The largest of `window` and the windows a sequence of changes raises to.
pub open spec fn largest_window(window: int, events: Seq<(bool, int)>) -> int
    decreases events.len(),
{
    if events.len() == 0 {
        window
    } else {
        let rest = largest_window(window, events.drop_first());
        if !events[0].0 && events[0].1 > rest {
            events[0].1
        } else {
            rest
        }
    }
}

proof fn lemma_largest_window_raise(w: int, u: int, events: Seq<(bool, int)>)
    ensures
        largest_window(if u > w { u } else { w }, events) == if u > largest_window(w, events) {
            u
        } else {
            largest_window(w, events)
        },
    decreases events.len(),
{
    if events.len() > 0 {
        lemma_largest_window_raise(w, u, events.drop_first());
    }
}

/// The connection budget over any sequence of reserves and window raises:
/// what was sent is the reserves' total, the window is the largest of the
/// initial window and every raise, and so sending `n` more bytes is allowed
/// exactly when the total plus `n` fits in that window. Each call of
/// `reserve_connection_send` and `update_connection_window` is one step.
pub proof fn lemma_connection_budget(sent: int, window: int, events: Seq<(bool, int)>, n: int)
    ensures
        connection_budget_after(sent, window, events) == (
            sent + reserved_total(events),
            largest_window(window, events),
        ),
        ({
            let after = connection_budget_after(sent, window, events);
            (after.0 + n <= after.1) == (sent + reserved_total(events) + n <= largest_window(
                window,
                events,
            ))
        }),
    decreases events.len(),
{
    if events.len() > 0 {
        let e = events[0];
        let next = connection_budget_step(sent, window, e);
        lemma_connection_budget(next.0, next.1, events.drop_first(), n);
        if !e.0 {
            lemma_largest_window_raise(window, e.1, events.drop_first());
        }
    }
}

/// All streams of a connection, with connection-level flow control.
#[derive(Debug)]
pub struct StreamManager {
    /// Active streams by id.
    streams: HashMap<StreamId, Stream>,
    /// Next id a client opens (even).
    next_client_stream_id: StreamId,
    /// Next id a server opens (odd).
    next_server_stream_id: StreamId,
    /// Largest number of streams.
    max_streams: u32,
    /// Initial window of new streams.
    initial_stream_window: u64,
    /// Connection-level window.
    connection_flow_window: u64,
    /// Bytes sent over all streams.
    connection_sent: u64,
    /// Are we the client?
    pub is_client: bool,
}

impl StreamManager {
    /// The streams by id.
    pub closed spec fn stream_map(&self) -> Map<StreamId, Stream> {
        self.streams@
    }

    /// Are we the client?
    pub closed spec fn client(&self) -> bool {
        self.is_client
    }

    /// The id the next `open_stream` hands out.
    pub closed spec fn next_id(&self) -> StreamId {
        if self.is_client {
            self.next_client_stream_id
        } else {
            self.next_server_stream_id
        }
    }

    /// The largest number of streams.
    pub closed spec fn stream_limit(&self) -> u32 {
        self.max_streams
    }

    /// The initial window of new streams.
    pub closed spec fn stream_window(&self) -> u64 {
        self.initial_stream_window
    }

    /// The connection-level window.
    pub closed spec fn connection_window(&self) -> u64 {
        self.connection_flow_window
    }

    /// Bytes reserved over all streams.
    pub closed spec fn connection_sent_bytes(&self) -> u64 {
        self.connection_sent
    }

    /// The next id this side opens has the side's parity: even for a
    /// client, odd for a server.
    pub open spec fn side_parity(&self) -> bool {
        self.next_id() % 2 == if self.client() {
            0int
        } else {
            1int
        }
    }

    /// The ids of this side's parity that are used up: every one from 1 up
    /// to the next id. Each id `open_stream` hands out is among them from
    /// then on, and the next one never is.
    pub open spec fn used_ids(&self) -> Set<StreamId> {
        Set::new(|k: StreamId| 1 <= k < self.next_id() && k % 2 == self.next_id() % 2)
    }

    /// The manager's invariant: the next id is at least 1 and has this
    /// side's parity, and every stream of that parity is below it.
    pub open spec fn wf(&self) -> bool {
        &&& self.next_id() >= 1
        &&& self.side_parity()
        &&& self.own_ids_below_next()
    }

    /// Every stream of the parity this side opens has an id below the next
    /// one: `open_stream` has handed out each of them, and the next id is
    /// still free.
    pub open spec fn own_ids_below_next(&self) -> bool {
        forall|k: StreamId|
            #[trigger] self.stream_map().contains_key(k) && k % 2 == self.next_id() % 2 ==> k
                < self.next_id()
    }

    /// Everything but the streams is as in `other`.
    pub closed spec fn same_settings(&self, other: &StreamManager) -> bool {
        &&& self.next_client_stream_id == other.next_client_stream_id
        &&& self.next_server_stream_id == other.next_server_stream_id
        &&& self.max_streams == other.max_streams
        &&& self.initial_stream_window == other.initial_stream_window
        &&& self.connection_flow_window == other.connection_flow_window
        &&& self.connection_sent == other.connection_sent
        &&& self.is_client == other.is_client
    }

    /// The invariant depends only on the next id, the side and which ids
    /// are in use: a manager that agrees with a well-formed one on those is
    /// well-formed (so changing a stream through `get_stream_mut` keeps it).
    pub proof fn lemma_wf_same_ids(&self, other: &StreamManager)
        requires
            self.wf(),
            other.next_id() == self.next_id(),
            other.client() == self.client(),
            other.stream_map().dom() == self.stream_map().dom(),
        ensures
            other.wf(),
    {
        assert forall|k: StreamId|
            #[trigger] other.stream_map().contains_key(k) && k % 2 == other.next_id() % 2
                implies k < other.next_id() by {
            assert(self.stream_map().dom().contains(k));
        }
    }

    /// What `same_settings` keeps: everything but the streams.
    pub proof fn lemma_same_settings(&self, other: &StreamManager)
        requires
            self.same_settings(other),
        ensures
            self.next_id() == other.next_id(),
            self.client() == other.client(),
            self.stream_limit() == other.stream_limit(),
            self.stream_window() == other.stream_window(),
            self.connection_window() == other.connection_window(),
            self.connection_sent_bytes() == other.connection_sent_bytes(),
            self.used_ids() == other.used_ids(),
    {
    }

    /// A manager without streams; a client opens ids 2, 4, ..., a server
    /// 1, 3, ....
    pub fn new(
        is_client: bool,
        max_streams: u32,
        initial_stream_window: u64,
        connection_flow_window: u64,
    ) -> (res: Self)
        ensures
            res.stream_map() == Map::<StreamId, Stream>::empty(),
            res.next_id() == if is_client {
                2u32
            } else {
                1u32
            },
            res.client() == is_client,
            res.stream_limit() == max_streams,
            res.stream_window() == initial_stream_window,
            res.connection_window() == connection_flow_window,
            res.connection_sent_bytes() == 0,
            res.side_parity(),
            res.own_ids_below_next(),
            res.wf(),
    {
        StreamManager {
            streams: HashMap::new(),
            next_client_stream_id: if is_client {
                2
            } else {
                0
            },
            next_server_stream_id: if is_client {
                0
            } else {
                1
            },
            max_streams,
            initial_stream_window,
            connection_flow_window,
            connection_sent: 0,
            is_client,
        }
    }

    /// Open a stream with the next id of our parity. Fails with `FlowControl`
    /// when `max_streams` streams are open, and when the id would exceed
    /// `MAX_STREAM_ID` (the next id still advances then).
    pub fn open_stream(&mut self) -> (res: Result<StreamId>)
        requires
            old(self).next_id() + 2 <= u32::MAX,
        ensures
            old(self).side_parity() ==> final(self).side_parity(),
            old(self).side_parity() ==> (res matches Ok(id) ==> id % 2 == if old(self).client() {
                0int
            } else {
                1int
            }),
            final(self).client() == old(self).client(),
            final(self).stream_limit() == old(self).stream_limit(),
            final(self).stream_window() == old(self).stream_window(),
            final(self).connection_window() == old(self).connection_window(),
            final(self).connection_sent_bytes() == old(self).connection_sent_bytes(),
            old(self).own_ids_below_next() ==> final(self).own_ids_below_next(),
            old(self).wf() ==> final(self).wf(),
            final(self).next_id() >= old(self).next_id(),
            old(self).wf() ==> old(self).used_ids().subset_of(final(self).used_ids()),
            old(self).wf() ==> (res matches Ok(id) ==> id != 0 && id <= MAX_STREAM_ID && !old(
                self,
            ).used_ids().contains(id) && final(self).used_ids().contains(id)),
            old(self).own_ids_below_next() ==> (res matches Ok(id) ==> !old(
                self,
            ).stream_map().contains_key(id) && final(self).stream_map().len() == old(
                self,
            ).stream_map().len() + 1),
            if old(self).stream_map().len() >= old(self).stream_limit() {
                &&& res is Err && res->Err_0 is FlowControl
                &&& final(self).stream_map() == old(self).stream_map()
                &&& final(self).next_id() == old(self).next_id()
            } else {
                &&& final(self).next_id() == old(self).next_id() + 2
                &&& if old(self).next_id() > MAX_STREAM_ID {
                    &&& res is Err && res->Err_0 is FlowControl
                    &&& final(self).stream_map() == old(self).stream_map()
                } else {
                    &&& res == Ok::<StreamId, Error>(old(self).next_id())
                    &&& final(self).stream_map().dom() == old(self).stream_map().dom().insert(
                        old(self).next_id(),
                    )
                    &&& final(self).stream_map()[old(self).next_id()].is_fresh(
                        old(self).next_id(),
                        old(self).client(),
                        old(self).stream_window(),
                    )
                    &&& forall|k: StreamId|
                        k != old(self).next_id() && #[trigger] old(self).stream_map().contains_key(
                            k,
                        ) ==> final(self).stream_map()[k] == old(self).stream_map()[k]
                }
            },
    {
        if self.streams.len() >= self.max_streams as usize {
            return Err(Error::FlowControl("Maximum streams reached".to_string()));
        }
        let stream_id = if self.is_client {
            let id = self.next_client_stream_id;
            self.next_client_stream_id = self.next_client_stream_id + 2;
            id
        } else {
            let id = self.next_server_stream_id;
            self.next_server_stream_id = self.next_server_stream_id + 2;
            id
        };
        proof {
            if old(self).own_ids_below_next() {
                assert forall|k: StreamId|
                    #[trigger] self.stream_map().contains_key(k) && k % 2 == self.next_id() % 2
                        implies k < self.next_id() by {
                    if old(self).stream_map().contains_key(k) {
                        assert(k % 2 == old(self).next_id() % 2);
                    }
                }
            }
        }
        if stream_id > MAX_STREAM_ID {
            return Err(Error::FlowControl("Stream ID exhausted".to_string()));
        }
        let stream = Stream::new(stream_id, self.is_client, self.initial_stream_window);
        self.streams.insert(stream_id, stream);
        proof {
            if old(self).own_ids_below_next() {
                assert(!old(self).stream_map().contains_key(stream_id));
                assert(self.stream_map().dom() =~= old(self).stream_map().dom().insert(stream_id));
            }
        }
        Ok(stream_id)
    }

    /// Accept a stream the peer opened; even ids are client streams. Fails
    /// with `ProtocolViolation` when the id is already in use.
    pub fn accept_stream(&mut self, stream_id: StreamId) -> (res: Result<()>)
        ensures
            old(self).wf() && stream_id % 2 != old(self).next_id() % 2 ==> final(self).wf(),
            final(self).same_settings(old(self)),
            final(self).next_id() == old(self).next_id(),
            old(self).own_ids_below_next() && (stream_id % 2 != old(self).next_id() % 2
                || stream_id < old(self).next_id()) ==> final(self).own_ids_below_next(),
            if old(self).stream_map().contains_key(stream_id) {
                &&& res is Err && res->Err_0 is ProtocolViolation
                &&& final(self).stream_map() == old(self).stream_map()
            } else {
                &&& res is Ok
                &&& final(self).stream_map().dom() == old(self).stream_map().dom().insert(
                    stream_id,
                )
                &&& final(self).stream_map()[stream_id].is_fresh(
                    stream_id,
                    stream_id % 2 == 0,
                    old(self).stream_window(),
                )
                &&& forall|k: StreamId|
                    k != stream_id && #[trigger] old(self).stream_map().contains_key(k)
                        ==> final(self).stream_map()[k] == old(self).stream_map()[k]
            },
    {
        if self.streams.contains_key(&stream_id) {
            return Err(Error::ProtocolViolation("Stream already exists".to_string()));
        }
        let is_client = stream_id % 2 == 0;
        let stream = Stream::new(stream_id, is_client, self.initial_stream_window);
        self.streams.insert(stream_id, stream);
        proof {
            assert forall|k: StreamId|
                #[trigger] self.stream_map().contains_key(k) implies k == stream_id
                    || old(self).stream_map().contains_key(k) by {}
        }
        Ok(())
    }

    /// The stream with this id; `StreamClosed` when there is none.
    pub fn get_stream(&self, stream_id: StreamId) -> (res: Result<&Stream>)
        ensures
            match res {
                Ok(s) => self.stream_map().contains_key(stream_id) && *s == self.stream_map()[stream_id],
                Err(e) => !self.stream_map().contains_key(stream_id) && e == Error::StreamClosed(
                    stream_id,
                    e->StreamClosed_1,
                ),
            },
    {
        match self.streams.get(&stream_id) {
            Some(s) => Ok(s),
            None => Err(Error::StreamClosed(stream_id, "Stream not found".to_string())),
        }
    }

    /// The stream with this id, for changing it; `StreamClosed` when there is
    /// none.
    pub fn get_stream_mut(&mut self, stream_id: StreamId) -> (res: Result<&mut Stream>)
        ensures
            final(self).next_id() == old(self).next_id(),
            final(self).client() == old(self).client(),
            final(self).stream_map().dom() == old(self).stream_map().dom(),
            final(self).same_settings(old(self)),
            match res {
                Ok(s) => {
                    &&& old(self).stream_map().contains_key(stream_id)
                    &&& *s == old(self).stream_map()[stream_id]
                    &&& final(self).stream_map() == old(self).stream_map().insert(
                        stream_id,
                        *final(s),
                    )
                },
                Err(e) => {
                    &&& !old(self).stream_map().contains_key(stream_id)
                    &&& e is StreamClosed
                    &&& e->StreamClosed_0 == stream_id
                    &&& final(self).stream_map() == old(self).stream_map()
                },
            },
    {
        match self.streams.entry(stream_id) {
            std::collections::hash_map::Entry::Occupied(o) => Ok(o.into_mut()),
            std::collections::hash_map::Entry::Vacant(_) => Err(
                Error::StreamClosed(stream_id, "Stream not found".to_string()),
            ),
        }
    }

    /// The peer closed its side of a stream: the reading side closes, and a
    /// stream that is then fully closed is removed. `StreamClosed` when there
    /// is no such stream.
    pub fn close_stream(&mut self, stream_id: StreamId) -> (res: Result<()>)
        ensures
            old(self).wf() ==> final(self).wf(),
            final(self).same_settings(old(self)),
            final(self).next_id() == old(self).next_id(),
            old(self).own_ids_below_next() ==> final(self).own_ids_below_next(),
            if !old(self).stream_map().contains_key(stream_id) {
                &&& res is Err && res->Err_0 is StreamClosed && res->Err_0->StreamClosed_0 == stream_id
                &&& final(self).stream_map() == old(self).stream_map()
            } else {
                let s = old(self).stream_map()[stream_id];
                let state = s.state.after_close_read();
                &&& res is Ok
                &&& if state == StreamState::Closed {
                    final(self).stream_map() == old(self).stream_map().remove(stream_id)
                } else {
                    &&& final(self).stream_map().dom() == old(self).stream_map().dom()
                    &&& final(self).stream_map()[stream_id] == (Stream { state, ..s })
                    &&& forall|k: StreamId|
                        k != stream_id && #[trigger] old(self).stream_map().contains_key(k)
                            ==> final(self).stream_map()[k] == old(self).stream_map()[k]
                }
            },
    {
        let stream = self.get_stream_mut(stream_id)?;
        stream.close_read();
        let closed = stream.state.is_closed();
        if closed {
            self.streams.remove(&stream_id);
        }
        proof {
            if !closed {
                assert(self.stream_map().dom() =~= old(self).stream_map().dom());
            }
        }
        Ok(())
    }

    /// Close both sides of a stream and remove it once fully closed.
    /// `StreamClosed` when there is no such stream.
    pub fn shutdown_stream(&mut self, stream_id: StreamId) -> (res: Result<()>)
        ensures
            old(self).wf() ==> final(self).wf(),
            final(self).same_settings(old(self)),
            final(self).next_id() == old(self).next_id(),
            old(self).own_ids_below_next() ==> final(self).own_ids_below_next(),
            if !old(self).stream_map().contains_key(stream_id) {
                &&& res is Err && res->Err_0 is StreamClosed && res->Err_0->StreamClosed_0 == stream_id
                &&& final(self).stream_map() == old(self).stream_map()
            } else {
                let s = old(self).stream_map()[stream_id];
                let state = s.state.after_close_write().after_close_read();
                &&& res is Ok
                &&& if state == StreamState::Closed {
                    final(self).stream_map() == old(self).stream_map().remove(stream_id)
                } else {
                    &&& final(self).stream_map().dom() == old(self).stream_map().dom()
                    &&& final(self).stream_map()[stream_id] == (Stream { state, ..s })
                    &&& forall|k: StreamId|
                        k != stream_id && #[trigger] old(self).stream_map().contains_key(k)
                            ==> final(self).stream_map()[k] == old(self).stream_map()[k]
                }
            },
    {
        let stream = self.get_stream_mut(stream_id)?;
        stream.close_write();
        stream.close_read();
        let closed = stream.state.is_closed();
        if closed {
            self.streams.remove(&stream_id);
        }
        proof {
            if !closed {
                assert(self.stream_map().dom() =~= old(self).stream_map().dom());
            }
        }
        Ok(())
    }

    /// May `data_len` more bytes be sent on the connection?
    pub fn can_send_connection(&self, data_len: usize) -> (res: bool)
        requires
            self.connection_sent_bytes() + data_len <= u64::MAX,
        ensures
            res == (self.connection_sent_bytes() + data_len <= self.connection_window()),
    {
        (self.connection_sent + data_len as u64) <= self.connection_flow_window
    }

    /// Reserve `data_len` bytes of the connection window.
    pub fn reserve_connection_send(&mut self, data_len: usize)
        requires
            old(self).connection_sent_bytes() + data_len <= u64::MAX,
        ensures
            old(self).wf() ==> final(self).wf(),
            final(self).connection_sent_bytes() == old(self).connection_sent_bytes() + data_len,
            final(self).connection_window() == old(self).connection_window(),
            (final(self).connection_sent_bytes() as int, final(self).connection_window() as int)
                == connection_budget_step(
                old(self).connection_sent_bytes() as int,
                old(self).connection_window() as int,
                (true, data_len as int),
            ),
            final(self).stream_map() == old(self).stream_map(),
            final(self).next_id() == old(self).next_id(),
            final(self).client() == old(self).client(),
    {
        self.connection_sent = self.connection_sent + data_len as u64;
        proof {
            if old(self).wf() {
                old(self).lemma_wf_same_ids(self);
            }
        }
    }

    /// Raise the connection window to `new_window`; it never shrinks.
    pub fn update_connection_window(&mut self, new_window: u64)
        ensures
            old(self).wf() ==> final(self).wf(),
            final(self).connection_window() == if new_window > old(self).connection_window() {
                new_window
            } else {
                old(self).connection_window()
            },
            final(self).connection_sent_bytes() == old(self).connection_sent_bytes(),
            (final(self).connection_sent_bytes() as int, final(self).connection_window() as int)
                == connection_budget_step(
                old(self).connection_sent_bytes() as int,
                old(self).connection_window() as int,
                (false, new_window as int),
            ),
            final(self).stream_map() == old(self).stream_map(),
            final(self).next_id() == old(self).next_id(),
            final(self).client() == old(self).client(),
    {
        if new_window > self.connection_flow_window {
            self.connection_flow_window = new_window;
        }
        proof {
            if old(self).wf() {
                old(self).lemma_wf_same_ids(self);
            }
        }
    }

    /// The ids of all streams, each once, in the map's iteration order.
    pub fn active_streams(&self) -> (res: Vec<StreamId>)
        ensures
            res@.no_duplicates(),
            res@.to_set() == self.stream_map().dom(),
    {
        self.filter_ids(false)
    }

    /// Number of streams.
    pub fn stream_count(&self) -> (res: usize)
        ensures
            res == self.stream_map().len(),
    {
        self.streams.len()
    }

    /// Is there a stream with this id?
    pub fn has_stream(&self, stream_id: StreamId) -> (res: bool)
        ensures
            res == self.stream_map().contains_key(stream_id),
    {
        self.streams.contains_key(&stream_id)
    }

    /// The ids of the streams that have buffered data and can be read, each
    /// once.
    pub fn readable_streams(&self) -> (res: Vec<StreamId>)
        ensures
            res@.no_duplicates(),
            forall|id: StreamId|
                #[trigger] res@.contains(id) <==> self.stream_map().contains_key(id)
                    && self.stream_map()[id].buffer().len() > 0
                    && self.stream_map()[id].state.spec_can_read(),
    {
        self.filter_ids(true)
    }

    /// Ids of all streams, or (with `readable`) of those with buffered data
    /// that can be read.
    fn filter_ids(&self, readable: bool) -> (res: Vec<StreamId>)
        ensures
            res@.no_duplicates(),
            forall|id: StreamId|
                #[trigger] res@.contains(id) <==> self.stream_map().contains_key(id) && (readable
                    ==> self.stream_map()[id].buffer().len() > 0
                    && self.stream_map()[id].state.spec_can_read()),
            !readable ==> res@.to_set() == self.stream_map().dom(),
    {
        let mut res: Vec<StreamId> = Vec::new();
        let mut iter = self.streams.iter();
        let ghost all = iter.remaining();
        let ghost mut k: int = 0;
        let ghost m = self.streams@;
        assert(all.take(0) =~= Seq::<(&StreamId, &Stream)>::empty());
        assert(all.skip(0) =~= all);
        loop
            invariant_except_break
                iter.remaining() == all.skip(k),
            invariant
                0 <= k <= all.len(),
                all.no_duplicates(),
                m == self.streams@,
                forall|i: int| 0 <= i < all.len() ==> m.contains_key(*all[i].0) && m[*all[i].0] == *all[i].1,
                forall|key: StreamId| #[trigger] m.contains_key(key) ==> all.contains((&key, &m[key])),
                res@ == kept_ids(all.take(k), readable),
                all.len() == self.streams@.dom().len(),
            ensures
                k == all.len(),
            decreases self.streams@.dom().len() - k,
        {
            match iter_next(&mut iter) {
                Some(item) => {
                    let (id, s) = item;
                    proof {
                        assert(all.take(k + 1).drop_last() =~= all.take(k));
                        assert(all.take(k + 1).last() == all[k]);
                        assert(all.skip(k + 1) =~= all.skip(k).drop_first());
                    }
                    if !readable || (s.has_buffered_data() && s.state.can_read()) {
                        res.push(*id);
                    }
                    proof {
                        k = k + 1;
                    }
                },
                None => {
                    break ;
                },
            }
        }
        proof {
            assert(all.take(all.len() as int) =~= all);
            lemma_kept_ids(all, readable, self.streams@);
        }
        res
    }
}

/// A stream as a connection's user holds it: its id, the connection's id
/// and a local mirror of its state.
#[derive(Debug, Clone, Copy, PartialEq, Eq, Structural)]
pub struct StreamHandle {
    pub stream_id: StreamId,
    pub connection_id: u32,
    /// Local mirror of the stream's state.
    pub state: StreamState,
}

/// The ids of the pairs whose stream passes the filter (all of them when
/// `readable` is false; otherwise those with buffered data that can be read).
pub open spec fn kept_ids(s: Seq<(&StreamId, &Stream)>, readable: bool) -> Seq<StreamId>
    decreases s.len(),
{
    if s.len() == 0 {
        Seq::empty()
    } else {
        let k = kept_ids(s.drop_last(), readable);
        let st = *s.last().1;
        if !readable || (st.buffer().len() > 0 && st.state.spec_can_read()) {
            k.push(*s.last().0)
        } else {
            k
        }
    }
}

proof fn lemma_kept_ids_contains(s: Seq<(&StreamId, &Stream)>, readable: bool, id: StreamId)
    ensures
        kept_ids(s, readable).contains(id) <==> exists|j: int|
            0 <= j < s.len() && *s[j].0 == id && (!readable || ((*s[j].1).buffer().len() > 0
                && (*s[j].1).state.spec_can_read())),
    decreases s.len(),
{
    if s.len() > 0 {
        lemma_kept_ids_contains(s.drop_last(), readable, id);
        let k = kept_ids(s.drop_last(), readable);
        if kept_ids(s, readable).contains(id) {
            if k.contains(id) {
                let j = choose|j: int|
                    0 <= j < s.drop_last().len() && *s.drop_last()[j].0 == id && (!readable || ((
                    *s.drop_last()[j].1).buffer().len() > 0
                        && (*s.drop_last()[j].1).state.spec_can_read()));
                assert(s[j] == s.drop_last()[j]);
            } else {
                let i = choose|i: int| 0 <= i < kept_ids(s, readable).len() && kept_ids(s, readable)[i] == id;
                assert(i == k.len());
                assert(*s[s.len() - 1].0 == id);
            }
        }
        if exists|j: int|
            0 <= j < s.len() && *s[j].0 == id && (!readable || ((*s[j].1).buffer().len() > 0
                && (*s[j].1).state.spec_can_read())) {
            let j = choose|j: int|
                0 <= j < s.len() && *s[j].0 == id && (!readable || ((*s[j].1).buffer().len() > 0
                    && (*s[j].1).state.spec_can_read()));
            if j < s.len() - 1 {
                assert(s.drop_last()[j] == s[j]);
                assert(k.contains(id));
                let i = choose|i: int| 0 <= i < k.len() && k[i] == id;
                assert(kept_ids(s, readable)[i] == id);
            } else {
                assert(kept_ids(s, readable) == k.push(id));
                assert(kept_ids(s, readable)[k.len() as int] == id);
            }
        }
    }
}

proof fn lemma_kept_ids_distinct(s: Seq<(&StreamId, &Stream)>, readable: bool)
    requires
        forall|i: int, j: int| 0 <= i < j < s.len() ==> *s[i].0 != *s[j].0,
    ensures
        kept_ids(s, readable).no_duplicates(),
    decreases s.len(),
{
    if s.len() > 0 {
        let d = s.drop_last();
        assert forall|i: int, j: int| 0 <= i < j < d.len() implies *d[i].0 != *d[j].0 by {
            assert(d[i] == s[i] && d[j] == s[j]);
        }
        lemma_kept_ids_distinct(d, readable);
        let last = *s.last().0;
        lemma_kept_ids_contains(d, readable, last);
        if kept_ids(d, readable).contains(last) {
            let j = choose|j: int|
                0 <= j < d.len() && *d[j].0 == last && (!readable || ((*d[j].1).buffer().len() > 0
                    && (*d[j].1).state.spec_can_read()));
            assert(s[j] == d[j]);
            assert(false);
        }
    }
}

proof fn lemma_kept_ids(v: Seq<(&StreamId, &Stream)>, readable: bool, m: Map<StreamId, Stream>)
    requires
        v.no_duplicates(),
        forall|i: int| 0 <= i < v.len() ==> m.contains_key(*v[i].0) && m[*v[i].0] == *v[i].1,
        forall|k: StreamId| #[trigger] m.contains_key(k) ==> v.contains((&k, &m[k])),
    ensures
        kept_ids(v, readable).no_duplicates(),
        forall|id: StreamId|
            #[trigger] kept_ids(v, readable).contains(id) <==> m.contains_key(id) && (readable
                ==> m[id].buffer().len() > 0 && m[id].state.spec_can_read()),
        !readable ==> kept_ids(v, readable).to_set() == m.dom(),
{
    assert forall|i: int, j: int| 0 <= i < j < v.len() implies *v[i].0 != *v[j].0 by {
        if *v[i].0 == *v[j].0 {
            assert(m[*v[i].0] == *v[i].1);
            assert(m[*v[j].0] == *v[j].1);
            assert(v[i] == v[j]);
        }
    }
    lemma_kept_ids_distinct(v, readable);
    assert forall|id: StreamId|
        #[trigger] kept_ids(v, readable).contains(id) <==> m.contains_key(id) && (readable
            ==> m[id].buffer().len() > 0 && m[id].state.spec_can_read()) by {
        lemma_kept_ids_contains(v, readable, id);
        if m.contains_key(id) {
            assert(v.contains((&id, &m[id])));
            let j = choose|j: int| 0 <= j < v.len() && v[j] == (&id, &m[id]);
            assert(*v[j].0 == id);
        }
    }
    if !readable {
        assert(kept_ids(v, readable).to_set() =~= m.dom());
    }
}

/// Advance an iterator by one item.
pub(crate) fn iter_next<I: Iterator>(it: &mut I) -> (ret: Option<I::Item>)
    ensures
        (*old(it)).obeys_prophetic_iter_laws() ==> if (*old(it)).remaining().len() > 0 {
            &&& (*final(it)).remaining() == (*old(it)).remaining().drop_first()
            &&& ret == Some((*old(it)).remaining()[0])
        } else {
            ret is None
        },
{
    it.next()
}

} // verus!
