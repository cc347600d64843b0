//! The chat hub's data path: the bounded relay queue every producer
//! publishes to, the renderer's bounded history, the trimming of local
//! input lines, and the fan-out targets.
//!
//! The surrounding tasks own the sockets and the terminal; every decision
//! about what is queued, kept and drawn lives here.

use vstd::prelude::*;

use crate::info::PeerInfo;
use crate::peer::Addr;
use crate::request::{Message, MessageV};
use crate::text::ascii_seq;
use crate::uuid::{spec_uuid_text, Uuid};

verus! {

/// How many messages the relay queue holds at most.
pub const RELAY_CAPACITY: usize = 32;

/// The views of a sequence of messages.
pub open spec fn message_views(items: Seq<Message>) -> Seq<MessageV> {
    items.map_values(|m: Message| m@)
}

/// The bounded queue between the producers (local input, every remote
/// connection) and the single consumer (the renderer). It never drops a
/// message: a publish to a full queue hands the message back, and the
/// caller suspends until the consumer makes room.
pub struct RelayQueue {
    items: Vec<Message>,
}

impl View for RelayQueue {
    type V = Seq<MessageV>;

    closed spec fn view(&self) -> Seq<MessageV> {
        message_views(self.items@)
    }
}

impl RelayQueue {
    /// An empty queue.
    pub fn new() -> (r: RelayQueue)
        ensures
            r@ == Seq::<MessageV>::empty(),
    {
        let r = RelayQueue { items: Vec::new() };
        proof {
            assert(r@ =~= Seq::<MessageV>::empty());
        }
        r
    }

    /// How many messages wait in the queue.
    pub fn len(&self) -> (r: usize)
        ensures
            r == self@.len(),
    {
        self.items.len()
    }

    /// Publishes a message. With a free slot it is appended in arrival
    /// order; on a full queue it is handed back unchanged, so the queue
    /// itself never drops a message.
    pub fn try_publish(&mut self, m: Message) -> (r: Result<(), Message>)
        ensures
            old(self)@.len() < RELAY_CAPACITY ==> r is Ok && final(self)@ == old(self)@ + seq![m@],
            old(self)@.len() >= RELAY_CAPACITY ==> (r matches Err(back) && back@ == m@
                && final(self)@ == old(self)@),
    {
        if self.items.len() < RELAY_CAPACITY {
            self.items.push(m);
            proof {
                assert(self@ =~= old(self)@ + seq![message_views(self.items@).last()]);
            }
            Ok(())
        } else {
            Err(m)
        }
    }

    /// Takes the oldest waiting message, if any.
    pub fn pop_front(&mut self) -> (r: Option<Message>)
        ensures
            old(self)@.len() == 0 ==> r is None && final(self)@ == old(self)@,
            old(self)@.len() > 0 ==> (r matches Some(m) && m@ == old(self)@[0] && final(self)@
                == old(self)@.drop_first()),
    {
        if self.items.len() == 0 {
            None
        } else {
            let m = self.items.remove(0);
            proof {
                assert(self@ =~= old(self)@.drop_first());
            }
            Some(m)
        }
    }
}

/// After the consumer takes one message from a full queue, a publish
/// succeeds again: a suspended publisher is only ever delayed, never
/// refused for good, and nothing that was queued is lost meanwhile.
pub proof fn lemma_full_queue_drains(q: Seq<MessageV>)
    requires
        q.len() == RELAY_CAPACITY,
    ensures
        q.drop_first().len() < RELAY_CAPACITY,
        forall|i: int| 0 <= i < q.len() - 1 ==> q.drop_first()[i] == q[i + 1],
{
}

/// The renderer's bounded history: rendered lines, newest first, capped;
/// the oldest line leaves once the cap is exceeded.
pub struct ChatHistory {
    lines: Vec<Vec<u8>>,
    cap: usize,
}

/// The views of a sequence of rendered lines.
pub open spec fn line_views(lines: Seq<Vec<u8>>) -> Seq<Seq<u8>> {
    lines.map_values(|l: Vec<u8>| l@)
}

impl View for ChatHistory {
    type V = Seq<Seq<u8>>;

    closed spec fn view(&self) -> Seq<Seq<u8>> {
        line_views(self.lines@)
    }
}

impl ChatHistory {
    /// Whether the history respects its cap.
    pub open spec fn wf(&self) -> bool {
        self@.len() <= self.spec_cap()
    }

    /// The cap as a specification value.
    pub closed spec fn spec_cap(&self) -> usize {
        self.cap
    }

    /// An empty history keeping at most `cap` lines.
    pub fn new(cap: usize) -> (r: ChatHistory)
        ensures
            r@ == Seq::<Seq<u8>>::empty(),
            r.spec_cap() == cap,
            r.wf(),
    {
        let r = ChatHistory { lines: Vec::new(), cap };
        proof {
            assert(r@ =~= Seq::<Seq<u8>>::empty());
        }
        r
    }

    /// How many lines the history holds.
    pub fn len(&self) -> (r: usize)
        ensures
            r == self@.len(),
    {
        self.lines.len()
    }

    /// The line at `i`, newest first.
    pub fn line(&self, i: usize) -> (r: &Vec<u8>)
        requires
            i < self@.len(),
        ensures
            r@ == self@[i as int],
    {
        &self.lines[i]
    }

    /// Pushes the newest line to the front; the oldest line is evicted if
    /// the history would exceed its cap.
    pub fn push_line(&mut self, line: Vec<u8>)
        requires
            old(self).wf(),
        ensures
            final(self).wf(),
            final(self).spec_cap() == old(self).spec_cap(),
            final(self)@ == if old(self)@.len() < old(self).spec_cap() {
                seq![line@] + old(self)@
            } else {
                (seq![line@] + old(self)@).drop_last()
            },
    {
        self.lines.insert(0, line);
        proof {
            assert(self@ =~= seq![line@] + old(self)@);
        }
        if self.lines.len() > self.cap {
            let ghost before = self@;
            let _ = self.lines.pop();
            proof {
                assert(self@ =~= before.drop_last());
            }
        }
    }
}

/// Whether a byte is ASCII whitespace as input trimming sees it.
pub open spec fn is_ws(b: u8) -> bool {
    b == 32 || b == 9 || b == 10 || b == 13
}

/// `s` without leading whitespace.
pub open spec fn spec_trim_front(s: Seq<u8>) -> Seq<u8>
    decreases s.len(),
{
    if s.len() > 0 && is_ws(s[0]) {
        spec_trim_front(s.drop_first())
    } else {
        s
    }
}

/// `s` without trailing whitespace.
pub open spec fn spec_trim_back(s: Seq<u8>) -> Seq<u8>
    decreases s.len(),
{
    if s.len() > 0 && is_ws(s.last()) {
        spec_trim_back(s.drop_last())
    } else {
        s
    }
}

/// `s` without leading and trailing whitespace.
pub open spec fn spec_trim(s: Seq<u8>) -> Seq<u8> {
    spec_trim_back(spec_trim_front(s))
}

/// Trimming the front keeps the subrange past the leading whitespace.
proof fn lemma_trim_front_subrange(s: Seq<u8>, lo: int)
    requires
        0 <= lo <= s.len(),
        forall|k: int| 0 <= k < lo ==> is_ws(s[k]),
        lo == s.len() || !is_ws(s[lo]),
    ensures
        spec_trim_front(s) == s.subrange(lo, s.len() as int),
    decreases lo,
{
    if lo == 0 {
        if s.len() > 0 && is_ws(s[0]) {
            assert(false);
        } else {
            assert(s.subrange(0, s.len() as int) =~= s);
        }
    } else {
        let t = s.drop_first();
        lemma_trim_front_subrange(t, lo - 1);
        assert(t.subrange(lo - 1, t.len() as int) =~= s.subrange(lo, s.len() as int));
    }
}

/// Trimming the back keeps the subrange before the trailing whitespace.
proof fn lemma_trim_back_subrange(s: Seq<u8>, hi: int)
    requires
        0 <= hi <= s.len(),
        forall|k: int| hi <= k < s.len() ==> is_ws(s[k]),
        hi == 0 || !is_ws(s[hi - 1]),
    ensures
        spec_trim_back(s) == s.subrange(0, hi),
    decreases s.len() - hi,
{
    if hi == s.len() {
        if s.len() > 0 && is_ws(s.last()) {
            assert(false);
        } else {
            assert(s.subrange(0, s.len() as int) =~= s);
        }
    } else {
        let t = s.drop_last();
        assert(is_ws(s.last()));
        lemma_trim_back_subrange(t, hi);
        assert(t.subrange(0, hi) =~= s.subrange(0, hi));
    }
}

/// The bytes of `s` with leading and trailing ASCII whitespace removed.
pub fn trim_bytes(s: &[u8]) -> (r: Vec<u8>)
    ensures
        r@ == spec_trim(s@),
{
    let n: usize = s.len();
    let mut lo: usize = 0;
    while lo < n && (s[lo] == 32 || s[lo] == 9 || s[lo] == 10 || s[lo] == 13)
        invariant
            n == s@.len(),
            0 <= lo <= n,
            forall|k: int| 0 <= k < lo ==> is_ws(s@[k]),
        decreases n - lo,
    {
        lo = lo + 1;
    }
    let mut hi: usize = n;
    while hi > lo && (s[hi - 1] == 32 || s[hi - 1] == 9 || s[hi - 1] == 10 || s[hi - 1] == 13)
        invariant
            n == s@.len(),
            lo <= hi <= n,
            forall|k: int| hi <= k < n ==> is_ws(s@[k]),
        decreases hi,
    {
        hi = hi - 1;
    }
    let mut out: Vec<u8> = Vec::new();
    let mut i: usize = lo;
    while i < hi
        invariant
            n == s@.len(),
            lo <= i <= hi <= n,
            out@ == s@.subrange(lo as int, i as int),
        decreases hi - i,
    {
        let b: u8 = s[i];
        out.push(b);
        i = i + 1;
        proof {
            assert(out@ =~= s@.subrange(lo as int, i as int));
        }
    }
    proof {
        let f = spec_trim_front(s@);
        lemma_trim_front_subrange(s@, lo as int);
        if hi == lo {
            lemma_trim_back_subrange(f, 0);
        } else {
            assert(f[hi - lo - 1] == s@[hi - 1]);
            assert forall|k: int| hi - lo <= k < f.len() implies is_ws(f[k]) by {
                assert(f[k] == s@[k + lo]);
            }
            lemma_trim_back_subrange(f, hi - lo as int);
        }
        assert(f.subrange(0, hi - lo as int) =~= s@.subrange(lo as int, hi as int));
    }
    out
}

/// Builds the message a non-empty local input line publishes: the local
/// identifier and the trimmed line. A line that trims to nothing is not
/// relayed.
pub fn input_event(id: &Uuid, line: &[u8]) -> (r: Option<Message>)
    ensures
        r is Some <==> spec_trim(line@).len() > 0,
        r matches Some(m) ==> m@ == (MessageV { peer_id: id@, text: spec_trim(line@) }),
{
    let t = trim_bytes(line);
    if t.len() == 0 {
        None
    } else {
        Some(Message::new(*id, t))
    }
}

/// The rendered form of a message: the sender's identifier text, a colon
/// and a space, then the message bytes.
pub fn render_line(msg: &Message) -> (r: Vec<u8>)
    ensures
        r@ == spec_uuid_text(msg@.peer_id) + ascii_seq(": "@) + msg@.text,
{
    proof {
        reveal_strlit(": ");
    }
    let mut out = msg.peer_id.format();
    out.push(58);
    out.push(32);
    let n: usize = msg.text.len();
    let mut i: usize = 0;
    while i < n
        invariant
            n == msg.text@.len(),
            0 <= i <= n,
            out@ == spec_uuid_text(msg@.peer_id) + seq![58u8, 32u8] + msg.text@.subrange(
                0,
                i as int,
            ),
        decreases n - i,
    {
        let b: u8 = msg.text[i];
        out.push(b);
        i = i + 1;
        proof {
            assert(out@ =~= spec_uuid_text(msg@.peer_id) + seq![58u8, 32u8] + msg.text@.subrange(
                0,
                i as int,
            ));
        }
    }
    proof {
        assert(seq![58u8, 32u8] =~= ascii_seq(": "@));
        assert(out@ =~= spec_uuid_text(msg@.peer_id) + ascii_seq(": "@) + msg@.text);
    }
    out
}

/// The row a history line is drawn at: line `i`, newest first, sits `i`
/// rows above the bottom of a display `height` rows tall.
pub fn row_for(height: usize, i: usize) -> (r: usize)
    requires
        i + 1 <= height,
    ensures
        r == height - i - 1,
{
    height - i - 1
}

/// The chat addresses the hub dials at startup: one per known peer, in
/// directory order.
pub fn chat_targets(dir: &PeerInfo) -> (r: Vec<Addr>)
    ensures
        r@.len() == dir@.peers.len(),
        forall|i: int| 0 <= i < r@.len() ==> (#[trigger] r@[i])@ == dir@.peers[i].chat_addr,
{
    let n: usize = dir.peers.len();
    let mut out: Vec<Addr> = Vec::new();
    let mut i: usize = 0;
    while i < n
        invariant
            n == dir.peers@.len(),
            0 <= i <= n,
            out@.len() == i,
            forall|k: int| 0 <= k < i ==> (#[trigger] out@[k])@ == dir@.peers[k].chat_addr,
        decreases n - i,
    {
        out.push(dir.peers[i].chat_addr.duplicate());
        i = i + 1;
    }
    out
}

} // verus!
