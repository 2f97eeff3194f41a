use vstd::prelude::*;

use crate::error::AppError;
use crate::ids::{
    distinct_texts, lemma_sorted_distinct, lemma_sorted_push, lemma_sorted_remove, lemma_tab_number,
    same_text, sorted_tab_ids, tab_label, tab_name, tab_number,
};

verus! {

/// Tracks the open tabs, their labels and which one has the focus.
pub struct TabManager {
    next_tab_num: u32,
    active_tabs: Vec<String>,
    active_tab_id: Option<String>,
}

impl TabManager {
    /// The number that the next tab will get.
    pub closed spec fn next_num(&self) -> nat {
        self.next_tab_num as nat
    }

    /// The identifiers of the open tabs, oldest first.
    pub closed spec fn ids(&self) -> Seq<Seq<char>> {
        self.active_tabs@.map_values(|s: String| s@)
    }

    /// The identifier of the focused tab, if any.
    pub closed spec fn active(&self) -> Option<Seq<char>> {
        match self.active_tab_id {
            Some(s) => Some(s@),
            None => None,
        }
    }

    /// Open tabs are held in ascending order of tab number, each number is
    /// below the counter, and a tab has the focus exactly when one is open.
    pub closed spec fn wf(&self) -> bool {
        &&& sorted_tab_ids(self.ids())
        &&& forall|i: int|
            0 <= i < self.ids().len() ==> tab_number(#[trigger] self.ids()[i]) < self.next_num()
        &&& (self.active() is None <==> self.ids().len() == 0)
        &&& (self.active() matches Some(a) ==> self.ids().contains(a))
    }

    /// An empty tracker whose first tab will be number zero.
    pub fn new() -> (r: Self)
        ensures
            r.wf(),
            r.next_num() == 0,
            r.ids() == Seq::<Seq<char>>::empty(),
            r.active() is None,
    {
        let r = TabManager { next_tab_num: 0, active_tabs: Vec::new(), active_tab_id: None };
        assert(r.ids() =~= Seq::<Seq<char>>::empty());
        r
    }

    fn find(&self, tab_id: &str) -> (r: Option<usize>)
        requires
            self.wf(),
        ensures
            match r {
                Some(i) => i < self.ids().len() && self.ids()[i as int] == tab_id@,
                None => !self.ids().contains(tab_id@),
            },
    {
        let mut i: usize = 0;
        while i < self.active_tabs.len()
            invariant
                i <= self.active_tabs.len(),
                forall|j: int| 0 <= j < i ==> self.ids()[j] != tab_id@,
            decreases self.active_tabs.len() - i,
        {
            if same_text(&self.active_tabs[i], tab_id) {
                return Some(i);
            }
            i = i + 1;
        }
        None
    }

    /// Opens a new tab labelled with the counter, which then advances; the
    /// first tab opened also takes the focus.
    pub fn create_tab(&mut self) -> (r: String)
        requires
            old(self).wf(),
            old(self).next_num() < u32::MAX,
        ensures
            final(self).wf(),
            r@ == tab_name(old(self).next_num()),
            !old(self).ids().contains(r@),
            final(self).next_num() == old(self).next_num() + 1,
            final(self).ids() == old(self).ids().push(r@),
            final(self).active() == (match old(self).active() {
                Some(a) => Some(a),
                None => Some(r@),
            }),
    {
        let tab_id = tab_label(self.next_tab_num);
        proof {
            lemma_tab_number(self.next_num());
            assert forall|i: int| 0 <= i < self.ids().len() implies self.ids()[i] != tab_id@ by {
                assert(tab_number(self.ids()[i]) < self.next_num());
            }
            lemma_sorted_push(self.ids(), self.next_num());
        }
        let ghost old_ids = self.ids();
        self.next_tab_num = self.next_tab_num + 1;
        self.active_tabs.push(tab_id.clone());
        assert(self.ids() =~= old_ids.push(tab_id@));
        if self.active_tab_id.is_none() {
            self.active_tab_id = Some(tab_id.clone());
        }
        proof {
            assert forall|i: int| 0 <= i < self.ids().len() implies tab_number(
                #[trigger] self.ids()[i],
            ) < self.next_num() by {
                if i < old_ids.len() {
                    assert(self.ids()[i] == old_ids[i]);
                }
            }
            assert(self.ids()[old_ids.len() as int] == tab_id@);
            if let Some(a) = self.active() {
                if a != tab_id@ {
                    let j = choose|j: int| 0 <= j < old_ids.len() && old_ids[j] == a;
                    assert(self.ids()[j] == a);
                }
            }
        }
        tab_id
    }

    /// Closes an open tab, unless it is the last one. When the focused tab
    /// closes, the focus moves to the oldest tab left.
    pub fn close_tab(&mut self, tab_id: &str) -> (r: Result<(), AppError>)
        requires
            old(self).wf(),
        ensures
            final(self).wf(),
            final(self).next_num() == old(self).next_num(),
            match r {
                Ok(()) => {
                    &&& old(self).ids().len() > 1
                    &&& exists|i: int|
                        0 <= i < old(self).ids().len() && old(self).ids()[i] == tab_id@
                            && final(self).ids() == old(self).ids().remove(i)
                    &&& final(self).active() == (if old(self).active() == Some(tab_id@) {
                        Some(final(self).ids()[0])
                    } else {
                        old(self).active()
                    })
                },
                Err(AppError::TabNotFound(s)) => {
                    &&& !old(self).ids().contains(tab_id@)
                    &&& s@ == tab_id@
                    &&& final(self).ids() == old(self).ids()
                    &&& final(self).active() == old(self).active()
                },
                Err(AppError::CannotCloseLastTab) => {
                    &&& old(self).ids().contains(tab_id@)
                    &&& old(self).ids().len() <= 1
                    &&& final(self).ids() == old(self).ids()
                    &&& final(self).active() == old(self).active()
                },
                Err(_) => false,
            },
    {
        let idx = match self.find(tab_id) {
            Some(i) => i,
            None => {
                return Err(AppError::TabNotFound(tab_id.to_owned()));
            },
        };
        if self.active_tabs.len() <= 1 {
            return Err(AppError::CannotCloseLastTab);
        }
        let was_active = match &self.active_tab_id {
            Some(a) => same_text(a, tab_id),
            None => false,
        };
        let ghost old_ids = self.ids();
        let ghost old_active = self.active();
        self.active_tabs.remove(idx);
        assert(self.ids() =~= old_ids.remove(idx as int));
        if was_active {
            self.active_tab_id = Some(self.active_tabs[0].clone());
        }
        proof {
            let n = self.ids();
            lemma_sorted_remove(old_ids, idx as int);
            assert forall|i: int| 0 <= i < n.len() implies tab_number(#[trigger] n[i])
                < self.next_num() by {
                let oi = if i < idx { i } else { i + 1 };
                assert(n[i] == old_ids[oi]);
            }
            if !was_active {
                if let Some(a) = old_active {
                    let j = choose|j: int| 0 <= j < old_ids.len() && old_ids[j] == a;
                    assert(j != idx);
                    let nj = if j < idx { j } else { j - 1 };
                    assert(n[nj] == a);
                }
            } else {
                assert(n.contains(n[0]));
            }
        }
        Ok(())
    }

    /// Gives the focus to an open tab.
    pub fn switch_to_tab(&mut self, tab_id: &str) -> (r: Result<(), AppError>)
        requires
            old(self).wf(),
        ensures
            final(self).wf(),
            final(self).next_num() == old(self).next_num(),
            final(self).ids() == old(self).ids(),
            match r {
                Ok(()) => old(self).ids().contains(tab_id@) && final(self).active() == Some(tab_id@),
                Err(AppError::TabNotFound(s)) => {
                    &&& !old(self).ids().contains(tab_id@)
                    &&& s@ == tab_id@
                    &&& final(self).active() == old(self).active()
                },
                Err(_) => false,
            },
    {
        match self.find(tab_id) {
            Some(i) => {
                self.active_tab_id = Some(tab_id.to_owned());
                assert(self.ids()[i as int] == tab_id@);
                Ok(())
            },
            None => Err(AppError::TabNotFound(tab_id.to_owned())),
        }
    }

    /// The identifier of the focused tab.
    pub fn active_tab(&self) -> (r: Option<&str>)
        ensures
            match r {
                Some(s) => self.active() == Some(s@),
                None => self.active() is None,
            },
    {
        match &self.active_tab_id {
            Some(s) => Some(s.as_str()),
            None => None,
        }
    }

    /// Whether a tab with this identifier is open.
    pub fn has_tab(&self, tab_id: &str) -> (r: bool)
        requires
            self.wf(),
        ensures
            r == self.ids().contains(tab_id@),
    {
        self.find(tab_id).is_some()
    }

    /// The number of open tabs.
    pub fn tab_count(&self) -> (r: usize)
        ensures
            r == self.ids().len(),
    {
        self.active_tabs.len()
    }

    /// The identifiers of the open tabs, in ascending order of tab number.
    pub fn get_tab_ids(&self) -> (r: Vec<String>)
        requires
            self.wf(),
        ensures
            r@.map_values(|s: String| s@) == self.ids(),
            sorted_tab_ids(r@.map_values(|s: String| s@)),
            distinct_texts(r@.map_values(|s: String| s@)),
            forall|i: int| 0 <= i < r@.len() ==> tab_number(#[trigger] r@[i]@) < self.next_num(),
    {
        proof {
            lemma_sorted_distinct(self.ids());
        }
        let mut out: Vec<String> = Vec::new();
        let mut i: usize = 0;
        while i < self.active_tabs.len()
            invariant
                i <= self.active_tabs.len(),
                out@.map_values(|s: String| s@) =~= self.ids().subrange(0, i as int),
            decreases self.active_tabs.len() - i,
        {
            let c = self.active_tabs[i].clone();
            assert(c@ == self.ids()[i as int]);
            let ghost prev = out@;
            out.push(c);
            assert(out@ == prev.push(c));
            assert(out@.map_values(|s: String| s@) =~= prev.map_values(|s: String| s@).push(c@));
            i = i + 1;
            assert(out@.map_values(|s: String| s@) =~= self.ids().subrange(0, i as int));
        }
        assert(self.ids().subrange(0, i as int) =~= self.ids());
        assert forall|j: int| 0 <= j < out@.len() implies tab_number(#[trigger] out@[j]@)
            < self.next_num() by {
            assert(out@.map_values(|s: String| s@)[j] == out@[j]@);
        }
        out
    }

    /// The number that the next tab will get.
    pub fn next_tab_number(&self) -> (r: u32)
        ensures
            r == self.next_num(),
    {
        self.next_tab_num
    }
}

impl Default for TabManager {
    fn default() -> (r: Self)
        ensures
            r.wf(),
            r.next_num() == 0,
            r.ids() == Seq::<Seq<char>>::empty(),
            r.active() is None,
    {
        TabManager::new()
    }
}

} // verus!
