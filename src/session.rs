use vstd::prelude::*;

use crate::ids::{
    distinct_texts, lemma_issued_ids_distinct, lemma_sorted_distinct, lemma_sorted_push,
    lemma_sorted_remove, lemma_tab_number, same_text, sorted_tab_ids, tab_label, tab_name,
    tab_number,
};

verus! {

/// Failures of the session layer, each reported to the caller as is.
pub enum PtyError {
    /// The pseudo-terminal could not be opened.
    Open(String),
    /// The shell could not be started inside the pseudo-terminal.
    Spawn(String),
    /// The input side of the pseudo-terminal could not be taken.
    Writer(String),
    /// The output side of the pseudo-terminal could not be cloned.
    Reader(String),
    /// A lock was found poisoned by an earlier failure while it was held.
    LockPoisoned,
    /// No live session has this identifier.
    TabNotFound(String),
    /// Writing to or flushing a session's input failed.
    Io(String),
    /// Stored data was not valid JSON of the expected shape.
    Json(String),
    /// Every tab number has been issued.
    TabIdsExhausted,
}

/// One live session: its identifier and what keeps its resources alive.
struct Session<H> {
    tab_id: String,
    handle: H,
}

/// The registry of live sessions, keyed by tab identifier, with the counter
/// that numbers new tabs. A session's resources are released when its entry
/// leaves the table.
pub struct SessionTable<H> {
    next_tab_num: u32,
    sessions: Vec<Session<H>>,
}

/// `after` is `before` without the session `id`, if `before` had one.
pub open spec fn removed_from<H>(before: SessionTable<H>, after: SessionTable<H>, id: Seq<char>) -> bool {
    &&& after.next_num() == before.next_num()
    &&& if before.ids().contains(id) {
        exists|i: int|
            0 <= i < before.ids().len() && before.ids()[i] == id && after.ids()
                == before.ids().remove(i) && after.handles() == before.handles().remove(i)
    } else {
        after.ids() == before.ids() && after.handles() == before.handles()
    }
}

impl<H> SessionTable<H> {
    /// The number that the next session will get.
    pub closed spec fn next_num(&self) -> nat {
        self.next_tab_num as nat
    }

    /// The identifiers of the live sessions, oldest first.
    pub closed spec fn ids(&self) -> Seq<Seq<char>> {
        self.sessions@.map_values(|s: Session<H>| s.tab_id@)
    }

    /// The handles of the live sessions, in the order of `ids`.
    pub closed spec fn handles(&self) -> Seq<H> {
        self.sessions@.map_values(|s: Session<H>| s.handle)
    }

    /// Identifiers are held in ascending order of tab number, and each was
    /// issued from the counter.
    pub closed spec fn wf(&self) -> bool {
        &&& sorted_tab_ids(self.ids())
        &&& forall|i: int|
            0 <= i < self.ids().len() ==> tab_number(#[trigger] self.ids()[i]) < self.next_num()
    }

    /// Whether a session with this identifier is live.
    pub open spec fn contains(&self, id: Seq<char>) -> bool {
        self.ids().contains(id)
    }

    /// An empty table whose first session will be number one.
    pub fn new() -> (r: Self)
        ensures
            r.wf(),
            r.next_num() == 1,
            r.ids() == Seq::<Seq<char>>::empty(),
            r.handles() == Seq::<H>::empty(),
    {
        let r = SessionTable { next_tab_num: 1, sessions: Vec::new() };
        assert(r.ids() =~= Seq::<Seq<char>>::empty());
        assert(r.handles() =~= Seq::<H>::empty());
        r
    }

    /// The number that the next session will get.
    pub fn next_tab_number(&self) -> (r: u32)
        ensures
            r == self.next_num(),
    {
        self.next_tab_num
    }

    /// Issues a fresh identifier and advances the counter; no session is
    /// added.
    pub fn allocate_tab_id(&mut self) -> (r: String)
        requires
            old(self).wf(),
            old(self).next_num() < u32::MAX,
        ensures
            final(self).wf(),
            r@ == tab_name(old(self).next_num()),
            !old(self).contains(r@),
            final(self).next_num() == old(self).next_num() + 1,
            final(self).ids() == old(self).ids(),
            final(self).handles() == old(self).handles(),
    {
        let id = tab_label(self.next_tab_num);
        proof {
            lemma_tab_number(self.next_num());
            assert forall|i: int| 0 <= i < self.ids().len() implies self.ids()[i] != id@ by {
                assert(tab_number(self.ids()[i]) < self.next_num());
            }
        }
        self.next_tab_num = self.next_tab_num + 1;
        id
    }

    /// Issues a fresh identifier and registers the session under it, in one
    /// step, so that no other session can take the identifier in between.
    pub fn register(&mut self, handle: H) -> (r: String)
        requires
            old(self).wf(),
            old(self).next_num() < u32::MAX,
        ensures
            final(self).wf(),
            r@ == tab_name(old(self).next_num()),
            !old(self).contains(r@),
            final(self).next_num() == old(self).next_num() + 1,
            final(self).ids() == old(self).ids().push(r@),
            final(self).handles() == old(self).handles().push(handle),
    {
        let ghost before = self.ids();
        let ghost n = self.next_num();
        let id = self.allocate_tab_id();
        proof {
            lemma_tab_number(n);
            lemma_sorted_push(before, n);
        }
        let ghost old_ids = self.ids();
        let ghost old_handles = self.handles();
        let key = id.clone();
        self.sessions.push(Session { tab_id: key, handle });
        assert(self.ids() =~= old_ids.push(id@));
        assert(self.handles() =~= old_handles.push(handle));
        proof {
            assert forall|i: int| 0 <= i < self.ids().len() implies tab_number(
                #[trigger] self.ids()[i],
            ) < self.next_num() by {
                if i < old_ids.len() {
                    assert(self.ids()[i] == old_ids[i]);
                }
            }
        }
        id
    }

    fn position(&self, id: &str) -> (r: Option<usize>)
        requires
            self.wf(),
        ensures
            match r {
                Some(i) => i < self.ids().len() && self.ids()[i as int] == id@,
                None => !self.contains(id@),
            },
    {
        let mut i: usize = 0;
        while i < self.sessions.len()
            invariant
                i <= self.sessions.len(),
                forall|j: int| 0 <= j < i ==> self.ids()[j] != id@,
            decreases self.sessions.len() - i,
        {
            if same_text(&self.sessions[i].tab_id, id) {
                return Some(i);
            }
            i = i + 1;
        }
        None
    }

    /// Takes the session out of the table and hands its handle back; an
    /// identifier that is not live leaves the table as it was.
    pub fn remove(&mut self, id: &str) -> (r: Option<H>)
        requires
            old(self).wf(),
        ensures
            final(self).wf(),
            removed_from(*old(self), *final(self), id@),
            !final(self).contains(id@),
            match r {
                Some(h) => exists|i: int|
                    0 <= i < old(self).ids().len() && old(self).ids()[i] == id@
                        && old(self).handles()[i] == h,
                None => !old(self).contains(id@),
            },
    {
        match self.position(id) {
            None => None,
            Some(idx) => {
                let ghost old_ids = self.ids();
                let ghost old_handles = self.handles();
                let s = self.sessions.remove(idx);
                assert(self.ids() =~= old_ids.remove(idx as int));
                assert(self.handles() =~= old_handles.remove(idx as int));
                proof {
                    let n = self.ids();
                    lemma_sorted_remove(old_ids, idx as int);
                    lemma_sorted_distinct(old_ids);
                    assert forall|i: int| 0 <= i < n.len() implies tab_number(#[trigger] n[i])
                        < self.next_num() by {
                        let oi = if i < idx { i } else { i + 1 };
                        assert(n[i] == old_ids[oi]);
                    }
                    if n.contains(id@) {
                        let j = choose|j: int| 0 <= j < n.len() && n[j] == id@;
                        let oj = if j < idx { j } else { j + 1 };
                        assert(old_ids[oj] == id@);
                    }
                }
                Some(s.handle)
            },
        }
    }

    /// The handle of a live session.
    pub fn get(&self, id: &str) -> (r: Option<&H>)
        requires
            self.wf(),
        ensures
            match r {
                Some(h) => exists|i: int|
                    0 <= i < self.ids().len() && self.ids()[i] == id@ && self.handles()[i] == *h,
                None => !self.contains(id@),
            },
    {
        match self.position(id) {
            Some(i) => Some(&self.sessions[i].handle),
            None => None,
        }
    }

    /// The identifiers of the live sessions, in ascending order of tab
    /// number.
    pub fn list_ids(&self) -> (r: Vec<String>)
        requires
            self.wf(),
        ensures
            r@.map_values(|s: String| s@) == self.ids(),
            sorted_tab_ids(r@.map_values(|s: String| s@)),
            distinct_texts(r@.map_values(|s: String| s@)),
    {
        proof {
            lemma_sorted_distinct(self.ids());
        }
        let mut out: Vec<String> = Vec::new();
        let mut i: usize = 0;
        while i < self.sessions.len()
            invariant
                i <= self.sessions.len(),
                out@.map_values(|s: String| s@) =~= self.ids().subrange(0, i as int),
            decreases self.sessions.len() - i,
        {
            let c = self.sessions[i].tab_id.clone();
            assert(c@ == self.ids()[i as int]);
            let ghost prev = out@;
            out.push(c);
            assert(out@ == prev.push(c));
            assert(out@.map_values(|s: String| s@) =~= prev.map_values(|s: String| s@).push(c@));
            i = i + 1;
        }
        assert(self.ids().subrange(0, i as int) =~= self.ids());
        out
    }

    /// The handle to write to for a tab, or `TabNotFound` naming the tab
    /// when no live session has that identifier.
    pub fn write_target(&self, tab_id: &str) -> (r: Result<&H, PtyError>)
        requires
            self.wf(),
        ensures
            match r {
                Ok(h) => exists|i: int|
                    0 <= i < self.ids().len() && self.ids()[i] == tab_id@ && self.handles()[i]
                        == *h,
                Err(PtyError::TabNotFound(s)) => !self.contains(tab_id@) && s@ == tab_id@,
                Err(_) => false,
            },
    {
        match self.get(tab_id) {
            Some(h) => Ok(h),
            None => Err(PtyError::TabNotFound(tab_id.to_owned())),
        }
    }

    /// Ends a session by dropping its entry, which releases its resources.
    /// Closing an identifier that is not live changes nothing.
    pub fn close_tab(&mut self, tab_id: &str)
        requires
            old(self).wf(),
        ensures
            final(self).wf(),
            removed_from(*old(self), *final(self), tab_id@),
            !final(self).contains(tab_id@),
    {
        let _ = self.remove(tab_id);
    }
}

/// Removal is idempotent: once a session is out of the table, removing it
/// again (an explicit close racing the end of its reader) leaves the table
/// as it was.
pub proof fn lemma_removal_idempotent<H>(
    before: SessionTable<H>,
    mid: SessionTable<H>,
    after: SessionTable<H>,
    id: Seq<char>,
)
    requires
        before.wf(),
        removed_from(before, mid, id),
        removed_from(mid, after, id),
    ensures
        !mid.contains(id),
        !after.contains(id),
        after.ids() == mid.ids(),
        after.handles() == mid.handles(),
{
    lemma_sorted_distinct(before.ids());
    if before.contains(id) {
        let i = choose|i: int|
            0 <= i < before.ids().len() && before.ids()[i] == id && mid.ids()
                == before.ids().remove(i) && mid.handles() == before.handles().remove(i);
        if mid.contains(id) {
            let j = choose|j: int| 0 <= j < mid.ids().len() && mid.ids()[j] == id;
            let oj = if j < i { j } else { j + 1 };
            assert(before.ids()[oj] == id);
        }
    }
}

/// An identifier that the counter has not issued names no live session, so
/// writing to it fails with `TabNotFound`.
pub proof fn lemma_unissued_not_live<H>(t: SessionTable<H>, id: Seq<char>)
    requires
        t.wf(),
        forall|k: nat| k < t.next_num() ==> id != #[trigger] tab_name(k),
    ensures
        !t.contains(id),
{
    if t.contains(id) {
        let i = choose|i: int| 0 <= i < t.ids().len() && t.ids()[i] == id;
        let k = tab_number(t.ids()[i]);
        assert(tab_name(k) == id);
        assert(k < t.next_num());
    }
}

/// A closed session stays closed: whatever happens after it closed, as long
/// as every identifier live in `after` was live in `before` or was issued
/// from the counter onwards (which is all that `register` adds, and
/// `remove` and `close_tab` only take away), its identifier is not live.
pub proof fn lemma_closed_stays_closed<H>(
    before: SessionTable<H>,
    after: SessionTable<H>,
    id: Seq<char>,
    k: nat,
)
    requires
        id == tab_name(k),
        k < before.next_num(),
        !before.contains(id),
        forall|x: Seq<char>|
            #[trigger] after.contains(x) ==> before.contains(x) || exists|m: nat|
                m >= before.next_num() && x == #[trigger] tab_name(m),
    ensures
        !after.contains(id),
{
    if after.contains(id) {
        let m = choose|m: nat| m >= before.next_num() && id == tab_name(m);
        lemma_issued_ids_distinct(k, m);
    }
}

} // verus!
