use vstd::prelude::*;

use crate::session::{removed_from, SessionTable};

verus! {

/// The text that permissive UTF-8 decoding makes of `b`, invalid sequences
/// replaced by U+FFFD.
pub uninterp spec fn lossy_text(b: Seq<u8>) -> Seq<char>;

/// Relies on `String::from_utf8_lossy`, whose result depends on the bytes
/// alone.
#[verifier::external_body]
fn decode_lossy(b: &Vec<u8>) -> (r: String)
    ensures
        r@ == lossy_text(b@),
{
    String::from_utf8_lossy(b.as_slice()).into_owned()
}

/// A chunk of a session's output, as text.
pub struct TabData {
    pub tab_id: String,
    pub data: String,
}

/// The notice that a session has ended.
pub struct TabClosed {
    pub tab_id: String,
}

/// What a reader loop hands to the presentation layer.
pub enum ReaderEvent {
    Data(TabData),
    Closed(TabClosed),
}

/// What one blocking read of a session's output gave.
pub enum ReadOutcome {
    /// Bytes read; none means the end of the stream.
    Chunk(Vec<u8>),
    /// The read failed.
    Failed,
}

impl ReadOutcome {
    /// Whether this outcome ends the reader loop.
    pub open spec fn ends(&self) -> bool {
        match self {
            ReadOutcome::Chunk(b) => b@.len() == 0,
            ReadOutcome::Failed => true,
        }
    }
}

/// How many closed notices `r` is: one for a closed notice, else none.
pub open spec fn notice_count(r: Option<ReaderEvent>) -> nat {
    if r matches Some(ReaderEvent::Closed(_)) {
        1
    } else {
        0
    }
}

/// The sum of `e`.
pub open spec fn total(e: Seq<nat>) -> nat
    decreases e.len(),
{
    if e.len() == 0 {
        0
    } else {
        total(e.drop_last()) + e.last()
    }
}

/// Over a run of `step` calls on one reader, from its creation, the closed
/// notices emitted add up to exactly one when some read ended the loop, and
/// to none otherwise. `states` are the reader before and after each step,
/// `emitted` the notices each step emitted and `ends` whether its read
/// outcome ends the loop: the relations required between them are what
/// `SessionReader::new` and `SessionReader::step` ensure.
pub proof fn lemma_closed_notice_once(
    states: Seq<SessionReader>,
    emitted: Seq<nat>,
    ends: Seq<bool>,
)
    requires
        states.len() == emitted.len() + 1,
        ends.len() == emitted.len(),
        states[0].running(),
        states[0].notices() == 0,
        forall|i: int|
            0 <= i < emitted.len() ==> states[i + 1].notices() == states[i].notices()
                + #[trigger] emitted[i] && states[i + 1].running() == (states[i].running()
                && !ends[i]),
    ensures
        total(emitted) == (if ends.contains(true) {
            1nat
        } else {
            0nat
        }),
{
    lemma_run_prefix(states, emitted, ends, emitted.len() as int);
    assert(emitted.subrange(0, emitted.len() as int) =~= emitted);
    assert(ends.subrange(0, ends.len() as int) =~= ends);
}

proof fn lemma_run_prefix(states: Seq<SessionReader>, emitted: Seq<nat>, ends: Seq<bool>, k: int)
    requires
        states.len() == emitted.len() + 1,
        ends.len() == emitted.len(),
        states[0].running(),
        states[0].notices() == 0,
        forall|i: int|
            0 <= i < emitted.len() ==> states[i + 1].notices() == states[i].notices()
                + #[trigger] emitted[i] && states[i + 1].running() == (states[i].running()
                && !ends[i]),
        0 <= k <= emitted.len(),
    ensures
        total(emitted.subrange(0, k)) == states[k].notices(),
        states[k].running() == !ends.subrange(0, k).contains(true),
        states[k].notices() == (if states[k].running() {
            0nat
        } else {
            1nat
        }),
    decreases k,
{
    if k == 0 {
        assert(emitted.subrange(0, 0).len() == 0);
    } else {
        lemma_run_prefix(states, emitted, ends, k - 1);
        assert(emitted.subrange(0, k).drop_last() =~= emitted.subrange(0, k - 1));
        assert(emitted[k - 1] == emitted.subrange(0, k).last());
        let e = ends.subrange(0, k);
        let p = ends.subrange(0, k - 1);
        assert(e.contains(true) == (p.contains(true) || ends[k - 1])) by {
            if e.contains(true) {
                let j = choose|j: int| 0 <= j < e.len() && e[j] == true;
                if j < k - 1 {
                    assert(p[j] == true);
                }
            }
            if p.contains(true) {
                let j = choose|j: int| 0 <= j < p.len() && p[j] == true;
                assert(e[j] == true);
            }
            if ends[k - 1] {
                assert(e[k - 1] == true);
            }
        }
    }
}

/// The reader loop of one session: forwards output while the session is
/// live, and on the end of the stream or a read error takes the session out
/// of the table and announces that it closed, once.
pub struct SessionReader {
    tab_id: String,
    running: bool,
}

impl SessionReader {
    /// The identifier of the session that this reader drains.
    pub closed spec fn tab(&self) -> Seq<char> {
        self.tab_id@
    }

    /// Whether the loop still runs.
    pub closed spec fn running(&self) -> bool {
        self.running
    }

    /// The closed notices this reader has emitted: one once it stopped.
    pub closed spec fn notices(&self) -> nat {
        if self.running {
            0
        } else {
            1
        }
    }

    /// A running reader for the session `tab_id`.
    pub fn new(tab_id: String) -> (r: Self)
        ensures
            r.tab() == tab_id@,
            r.running(),
            r.notices() == 0,
    {
        SessionReader { tab_id, running: true }
    }

    /// Whether the loop still runs.
    pub fn is_running(&self) -> (r: bool)
        ensures
            r == self.running(),
    {
        self.running
    }

    /// Handles one read outcome. A chunk of a live session becomes a data
    /// event; a chunk that arrives after the session left the table is
    /// dropped. The end of the stream or a read error stops the loop,
    /// removes the session if it is still there, and yields the closed
    /// notice. A stopped reader does nothing.
    pub fn step<H>(&mut self, table: &mut SessionTable<H>, outcome: ReadOutcome) -> (r: Option<
        ReaderEvent,
    >)
        requires
            old(table).wf(),
        ensures
            final(table).wf(),
            final(self).tab() == old(self).tab(),
            final(self).running() == (old(self).running() && !outcome.ends()),
            final(self).notices() == old(self).notices() + notice_count(r),
            final(self).notices() <= 1,
            match r {
                Some(ReaderEvent::Closed(c)) => {
                    &&& old(self).running() && outcome.ends()
                    &&& c.tab_id@ == old(self).tab()
                    &&& removed_from(*old(table), *final(table), old(self).tab())
                    &&& !final(table).contains(old(self).tab())
                },
                Some(ReaderEvent::Data(d)) => {
                    &&& old(self).running() && !outcome.ends()
                    &&& old(table).contains(old(self).tab())
                    &&& d.tab_id@ == old(self).tab()
                    &&& outcome matches ReadOutcome::Chunk(b) && d.data@ == lossy_text(b@)
                    &&& *final(table) == *old(table)
                },
                None => {
                    &&& !old(self).running() || (!outcome.ends() && !old(table).contains(
                        old(self).tab(),
                    ))
                    &&& *final(table) == *old(table)
                },
            },
    {
        if !self.running {
            return None;
        }
        match outcome {
            ReadOutcome::Chunk(b) => {
                if b.len() > 0 {
                    if table.get(self.tab_id.as_str()).is_some() {
                        let data = decode_lossy(&b);
                        Some(ReaderEvent::Data(TabData { tab_id: self.tab_id.clone(), data }))
                    } else {
                        None
                    }
                } else {
                    self.finish(table)
                }
            },
            ReadOutcome::Failed => self.finish(table),
        }
    }

    fn finish<H>(&mut self, table: &mut SessionTable<H>) -> (r: Option<ReaderEvent>)
        requires
            old(table).wf(),
            old(self).running(),
        ensures
            final(table).wf(),
            final(self).tab() == old(self).tab(),
            !final(self).running(),
            r matches Some(ReaderEvent::Closed(c)) && c.tab_id@ == old(self).tab(),
            removed_from(*old(table), *final(table), old(self).tab()),
            !final(table).contains(old(self).tab()),
    {
        self.running = false;
        let _ = table.remove(self.tab_id.as_str());
        Some(ReaderEvent::Closed(TabClosed { tab_id: self.tab_id.clone() }))
    }
}

} // verus!
