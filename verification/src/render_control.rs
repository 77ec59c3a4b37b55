//! The control bus that coalesces mutation notifications into batched
//! update messages.
//!
//! Messages are buffered in descending priority order (stable, so
//! equal-priority messages keep their arrival order). A flush drains the
//! whole buffer into one batch and hands it to the outbox, at most once per
//! flush window; a [`UpdateMessage::ForceUpdate`] bypasses the window and
//! flushes immediately. The outbox is a bounded FIFO of batches: when it is
//! full a batch is dropped, never reordered — delivery is at most once per
//! flush, and correctness of the final state comes from the store applying
//! whatever arrives.

use vstd::prelude::*;

use crate::object::PropPatch;

verus! {

/// What a mutation notification targets.
#[derive(Clone, Debug)]
pub enum UpdateType {
    /// A property change of the object with the carried id.
    ObjectUpdate(String),
    /// A change of the scene transform.
    SceneUpdate,
}

/// One mutation notification.
#[derive(Clone, Debug)]
pub struct UpdateBody {
    pub update_type: UpdateType,
    pub data: PropPatch,
    pub timestamp: u64,
    pub priority: u8,
}

impl UpdateBody {
    /// A notification with default (lowest) priority, stamped with the
    /// caller's clock.
    pub fn new(update_type: UpdateType, data: PropPatch, now_ms: u64) -> (r: UpdateBody)
        ensures
            r == (UpdateBody { update_type, data, timestamp: now_ms, priority: 0u8 }),
    {
        UpdateBody { update_type, data, timestamp: now_ms, priority: 0 }
    }
}

/// A message on the bus: either a buffered update or the force signal.
#[derive(Clone, Debug)]
pub enum UpdateMessage {
    /// Flush everything buffered, immediately.
    ForceUpdate,
    /// A mutation notification to coalesce.
    Update(UpdateBody),
}

/// The priority a message sorts under in the buffer.
pub open spec fn msg_priority(m: UpdateMessage) -> u8 {
    match m {
        UpdateMessage::ForceUpdate => 0u8,
        UpdateMessage::Update(body) => body.priority,
    }
}

/// The buffer holds only `Update` messages, in descending priority order.
pub open spec fn buffer_wf(s: Seq<UpdateMessage>) -> bool {
    &&& forall|i: int| 0 <= i < s.len() ==> #[trigger] s[i] is Update
    &&& forall|i: int, j: int|
        0 <= i < j < s.len() ==> msg_priority(#[trigger] s[i]) >= msg_priority(#[trigger] s[j])
}

/// Where a message of priority `p` goes: after every buffered message of
/// priority at least `p`, before the first of strictly lower priority.
pub open spec fn insert_position(s: Seq<UpdateMessage>, p: u8) -> int
    decreases s.len(),
{
    if s.len() == 0 {
        0
    } else if msg_priority(s[0]) < p {
        0
    } else {
        1 + insert_position(s.skip(1), p)
    }
}

/// The characterization that pins [`insert_position`] down.
pub open spec fn is_insert_position(s: Seq<UpdateMessage>, p: u8, i: int) -> bool {
    &&& 0 <= i <= s.len()
    &&& forall|j: int| 0 <= j < i ==> msg_priority(#[trigger] s[j]) >= p
    &&& i < s.len() ==> msg_priority(s[i]) < p
}

pub proof fn lemma_insert_position_char(s: Seq<UpdateMessage>, p: u8)
    ensures
        is_insert_position(s, p, insert_position(s, p)),
    decreases s.len(),
{
    if s.len() > 0 && msg_priority(s[0]) >= p {
        lemma_insert_position_char(s.skip(1), p);
        assert forall|j: int| 0 <= j < insert_position(s, p) implies msg_priority(#[trigger] s[j])
            >= p by {
            if j > 0 {
                assert(s.skip(1)[j - 1] == s[j]);
            }
        }
        if insert_position(s, p) < s.len() {
            assert(s.skip(1)[insert_position(s.skip(1), p)] == s[insert_position(s, p)]);
        }
    }
}

/// Two indices both satisfying the characterization are the same index.
pub proof fn lemma_insert_position_unique(s: Seq<UpdateMessage>, p: u8, i: int, j: int)
    requires
        is_insert_position(s, p, i),
        is_insert_position(s, p, j),
    ensures
        i == j,
{
}

/// The buffer after a priority-ordered insertion.
pub open spec fn buffer_after_insert(s: Seq<UpdateMessage>, body: UpdateBody) -> Seq<
    UpdateMessage,
> {
    let i = insert_position(s, body.priority);
    s.take(i) + seq![UpdateMessage::Update(body)] + s.skip(i)
}

/// The observable state of the bus.
pub ghost struct BusState {
    pub buffer: Seq<UpdateMessage>,
    pub outbox: Seq<Seq<UpdateMessage>>,
    pub last_flush: u64,
}

/// How many undelivered batches the outbox holds at most.
pub const OUTBOX_CAPACITY: usize = 1;

/// The fixed flush window in milliseconds.
pub const FLUSH_INTERVAL_MS: u64 = 8;

/// The bus after a flush at time `now`: an empty buffer never flushes; a
/// non-empty buffer leaves as one batch, appended to the outbox when there
/// is room and dropped when there is none, and the window restarts either
/// way.
pub open spec fn bus_flush(s: BusState, now: u64) -> BusState {
    if s.buffer.len() == 0 {
        s
    } else {
        BusState {
            buffer: Seq::empty(),
            outbox: if s.outbox.len() < OUTBOX_CAPACITY as int {
                s.outbox.push(s.buffer)
            } else {
                s.outbox
            },
            last_flush: now,
        }
    }
}

/// Whether the flush window has elapsed at time `now`.
pub open spec fn window_elapsed(s: BusState, now: u64) -> bool {
    now >= s.last_flush && now - s.last_flush >= FLUSH_INTERVAL_MS
}

/// The bus after accepting one message at time `now`: the force signal
/// flushes; an update is inserted by priority and a flush follows only when
/// the window has elapsed.
pub open spec fn bus_add(s: BusState, m: UpdateMessage, now: u64) -> BusState {
    match m {
        UpdateMessage::ForceUpdate => bus_flush(s, now),
        UpdateMessage::Update(body) => {
            let inserted = BusState { buffer: buffer_after_insert(s.buffer, body), ..s };
            if window_elapsed(inserted, now) {
                bus_flush(inserted, now)
            } else {
                inserted
            }
        },
    }
}

/// Reads the priority a message sorts under.
fn message_priority(m: &UpdateMessage) -> (r: u8)
    ensures
        r == msg_priority(*m),
{
    match m {
        UpdateMessage::ForceUpdate => 0,
        UpdateMessage::Update(body) => body.priority,
    }
}

/// The message-batching control bus.
#[derive(Debug)]
pub struct RenderControl {
    buffer: Vec<UpdateMessage>,
    outbox: Vec<Vec<UpdateMessage>>,
    last_flush: u64,
}

impl RenderControl {
    /// The observable state.
    pub closed spec fn st(&self) -> BusState {
        BusState {
            buffer: self.buffer@,
            outbox: self.outbox@.map_values(|v: Vec<UpdateMessage>| v@),
            last_flush: self.last_flush,
        }
    }

    /// Well-formed: the buffer is priority-ordered and the outbox within
    /// capacity.
    pub open spec fn wf(&self) -> bool {
        &&& buffer_wf(self.st().buffer)
        &&& self.st().outbox.len() <= OUTBOX_CAPACITY as int
    }

    /// A fresh bus: nothing buffered, nothing pending, window open.
    pub fn new() -> (r: RenderControl)
        ensures
            r.wf(),
            r.st() == (BusState {
                buffer: Seq::<UpdateMessage>::empty(),
                outbox: Seq::<Seq<UpdateMessage>>::empty(),
                last_flush: 0u64,
            }),
    {
        let r = RenderControl { buffer: Vec::new(), outbox: Vec::new(), last_flush: 0 };
        proof {
            assert(r.st().outbox =~= Seq::<Seq<UpdateMessage>>::empty());
        }
        r
    }

    /// Accepts one message at time `now_ms`; see [`bus_add`] for the exact
    /// effect.
    pub fn add_message(&mut self, message: UpdateMessage, now_ms: u64) -> (r: ())
        requires
            old(self).wf(),
        ensures
            final(self).wf(),
            final(self).st() == bus_add(old(self).st(), message, now_ms),
    {
        match message {
            UpdateMessage::ForceUpdate => {
                self.flush(now_ms);
                self.buffer.clear();
                proof {
                    assert(self.st().buffer =~= bus_add(
                        old(self).st(),
                        UpdateMessage::ForceUpdate,
                        now_ms,
                    ).buffer);
                    assert(self.st() == bus_add(old(self).st(), UpdateMessage::ForceUpdate, now_ms));
                }
            },
            UpdateMessage::Update(update_body) => {
                let ghost pre = self.st();
                let p = update_body.priority;
                let mut i: usize = 0;
                while i < self.buffer.len() && message_priority(&self.buffer[i]) >= p
                    invariant
                        0 <= i <= self.buffer@.len(),
                        self == old(self),
                        forall|j: int| 0 <= j < i ==> msg_priority(#[trigger] self.buffer@[j]) >= p,
                    decreases self.buffer@.len() - i,
                {
                    i += 1;
                }
                proof {
                    assert(is_insert_position(pre.buffer, p, i as int));
                    lemma_insert_position_char(pre.buffer, p);
                    lemma_insert_position_unique(
                        pre.buffer,
                        p,
                        i as int,
                        insert_position(pre.buffer, p),
                    );
                }
                self.buffer.insert(i, UpdateMessage::Update(update_body));
                proof {
                    assert(self.st().buffer =~= buffer_after_insert(
                        pre.buffer,
                        update_body,
                    ));
                    assert(buffer_wf(self.st().buffer)) by {
                        lemma_buffer_insert_wf(pre.buffer, update_body);
                    }
                }
                self.flush_if_needed(now_ms);
            },
        }
    }

    /// Flushes when the window has elapsed.
    fn flush_if_needed(&mut self, now_ms: u64)
        requires
            old(self).wf(),
        ensures
            final(self).wf(),
            final(self).st() == (if window_elapsed(old(self).st(), now_ms) {
                bus_flush(old(self).st(), now_ms)
            } else {
                old(self).st()
            }),
    {
        let elapsed = if now_ms >= self.last_flush {
            now_ms - self.last_flush
        } else {
            0
        };
        if now_ms >= self.last_flush && elapsed >= FLUSH_INTERVAL_MS {
            self.flush(now_ms);
        }
    }

    /// Drains the buffer into one batch and restarts the window; an empty
    /// buffer is left alone.
    fn flush(&mut self, now_ms: u64)
        requires
            old(self).wf(),
        ensures
            final(self).wf(),
            final(self).st() == bus_flush(old(self).st(), now_ms),
    {
        if self.buffer.len() > 0 {
            let ghost pre = self.st();
            let batch = self.buffer.split_off(0);
            proof {
                assert(batch@ =~= pre.buffer);
                assert(self.buffer@ =~= Seq::<UpdateMessage>::empty());
            }
            if self.outbox.len() < OUTBOX_CAPACITY {
                self.outbox.push(batch);
                proof {
                    assert(self.st().outbox =~= pre.outbox.push(pre.buffer));
                }
            }
            self.last_flush = now_ms;
            proof {
                assert(self.st() == bus_flush(pre, now_ms));
            }
        }
    }

    /// Hands out the oldest pending batch, if any; batches leave in flush
    /// order.
    pub fn receive_messages(&mut self) -> (r: Option<Vec<UpdateMessage>>)
        requires
            old(self).wf(),
        ensures
            final(self).wf(),
            old(self).st().outbox.len() == 0 ==> r is None && *final(self) == *old(self),
            old(self).st().outbox.len() > 0 ==> {
                &&& r matches Some(batch) && batch@ == old(self).st().outbox[0]
                &&& final(self).st() == (BusState {
                    outbox: old(self).st().outbox.skip(1),
                    ..old(self).st()
                })
            },
    {
        if self.outbox.len() == 0 {
            None
        } else {
            let ghost pre = self.st();
            let batch = self.outbox.remove(0);
            proof {
                assert(self.st().outbox =~= pre.outbox.skip(1));
            }
            Some(batch)
        }
    }
}

/// Priority-ordered insertion keeps the buffer well-formed.
pub proof fn lemma_buffer_insert_wf(s: Seq<UpdateMessage>, body: UpdateBody)
    requires
        buffer_wf(s),
    ensures
        buffer_wf(buffer_after_insert(s, body)),
{
    lemma_insert_position_char(s, body.priority);
    let i = insert_position(s, body.priority);
    let t = buffer_after_insert(s, body);
    assert forall|k: int| 0 <= k < t.len() implies #[trigger] t[k] is Update by {
        if k < i {
            assert(t[k] == s[k]);
        } else if k == i {
        } else {
            assert(t[k] == s[k - 1]);
        }
    }
    assert forall|k: int, l: int|
        0 <= k < l < t.len() implies msg_priority(#[trigger] t[k]) >= msg_priority(
        #[trigger] t[l],
    ) by {
        if k < i {
            assert(t[k] == s[k]);
        } else if k > i {
            assert(t[k] == s[k - 1]);
        }
        if l < i {
            assert(t[l] == s[l]);
        } else if l > i {
            assert(t[l] == s[l - 1]);
        }
    }
}

/// Batch coalescing: the force signal after any number of buffered updates
/// empties the buffer and restarts the window; with room in the outbox,
/// exactly one batch leaves, holding the whole buffer in priority order.
/// With a batch already pending the new batch is dropped, never reordered
/// or delayed — delivery is at most once per flush.
pub proof fn lemma_force_update_flushes_all(s: BusState, now: u64)
    requires
        buffer_wf(s.buffer),
        s.buffer.len() > 0,
    ensures
        bus_add(s, UpdateMessage::ForceUpdate, now).buffer.len() == 0,
        bus_add(s, UpdateMessage::ForceUpdate, now).last_flush == now,
        s.outbox.len() < OUTBOX_CAPACITY as int ==> bus_add(
            s,
            UpdateMessage::ForceUpdate,
            now,
        ).outbox == s.outbox.push(s.buffer) && buffer_wf(
            bus_add(s, UpdateMessage::ForceUpdate, now).outbox.last(),
        ),
        s.outbox.len() >= OUTBOX_CAPACITY as int ==> bus_add(
            s,
            UpdateMessage::ForceUpdate,
            now,
        ).outbox == s.outbox,
{
}

} // verus!
