//! Paging of the virtual-scrolled log viewer.
//!
//! The log is read in pages of [`PAGE_HEIGHT`] lines. At most four pages are kept; the
//! view requests the pages around the visible lines, and in tail view only the last page.
use vstd::prelude::*;
use std::collections::HashSet;
use crate::text::{padded_spec, push_padded, string_from_chars};

verus! {

broadcast use {
    vstd::seq_lib::group_seq_properties,
    vstd::seq::Seq::lemma_push_to_set_commute,
    vstd::std_specs::hash::group_hash_axioms,
};

/// Lines per page.
pub const PAGE_HEIGHT: u64 = 500;

/// Delay in milliseconds before a page request is sent.
pub const PAGE_LOAD_DELAY: u32 = 20;

/// Delay in milliseconds before re-polling the last page in tail view.
pub const TAIL_POLL_DELAY: u32 = 1000;

/// Number of page slots.
pub const PAGE_SLOTS: usize = 4;

/// A loaded page of log lines.
pub struct LogPage {
    /// The page number.
    pub page: u64,
    /// The lines of the page.
    pub lines: Vec<String>,
    /// The total number of lines the server reported.
    pub total: u64,
}

/// The paging state of a log view.
pub struct LogViewState {
    /// The page slots.
    pub pages: Vec<Option<LogPage>>,
    /// Pages requested and not yet loaded.
    pub pending: HashSet<u64>,
    /// Total number of lines, once known.
    pub total: Option<u64>,
    /// Number of lines that fit into the viewport.
    pub viewport_lines: u64,
    /// Whether the view follows the end of the log.
    pub tail_view: bool,
    /// Height of a line in pixels.
    pub line_height: u64,
}

/// Whether a slot holds page `p`.
pub open spec fn holds_page(slot: Option<LogPage>, p: u64) -> bool {
    match slot {
        Some(pg) => pg.page == p,
        None => false,
    }
}

/// Whether page `p` is in one of the slots.
pub open spec fn is_loaded(pages: Seq<Option<LogPage>>, p: u64) -> bool {
    exists|i: int| 0 <= i < pages.len() && holds_page(#[trigger] pages[i], p)
}

/// The pages wanted around line `line`: the page of the line, the page of the last visible
/// line, the page a hundred lines above, and the page a hundred lines below the viewport
/// (the last visible page when the log ends before that).
pub open spec fn wanted_pages(line: u64, viewport_lines: u64, total: Option<u64>) -> Seq<u64> {
    let prev = if line > 100 {
        ((line - 100) / PAGE_HEIGHT as int) as u64
    } else {
        0
    };
    let start = (line / PAGE_HEIGHT) as u64;
    let end = ((line + viewport_lines) / PAGE_HEIGHT as int) as u64;
    let t = match total {
        Some(t) => t,
        None => 0,
    };
    let next = if line + 100 < t {
        ((line + viewport_lines + 100) / PAGE_HEIGHT as int) as u64
    } else {
        end
    };
    seq![start, end, prev, next]
}

/// The last page of the log.
pub open spec fn last_page(total: Option<u64>) -> u64 {
    match total {
        Some(t) => (t / PAGE_HEIGHT) as u64,
        None => 0,
    }
}

/// What a [`LogViewState::page_loaded`] event does to the slots.
pub open spec fn slot_after_load(
    pages: Seq<Option<LogPage>>,
    pending: Set<u64>,
    i: int,
) -> Option<LogPage> {
    match pages[i] {
        Some(pg) => if pending.contains(pg.page) {
            Some(pg)
        } else {
            None
        },
        None => None,
    }
}

/// Slot `i` after page `page` was loaded while pending: the first slot still holding the
/// page gets the new copy; a page not held anywhere goes into the first free slot.
pub open spec fn loaded_slot(
    pages: Seq<Option<LogPage>>,
    pending: Set<u64>,
    page: LogPage,
    i: int,
) -> Option<LogPage> {
    let kept = slot_after_load(pages, pending, i);
    if (holds_page(kept, page.page) && forall|j: int|
        0 <= j < i ==> !holds_page(#[trigger] slot_after_load(pages, pending, j), page.page)) || (
    !is_loaded(pages, page.page) && kept is None && forall|j: int|
        0 <= j < i ==> (#[trigger] slot_after_load(pages, pending, j)) is Some) {
        Some(page)
    } else {
        kept
    }
}

impl LogViewState {
    /// The state is consistent: four slots and a positive line height.
    pub open spec fn wf(&self) -> bool {
        &&& self.pages@.len() == PAGE_SLOTS
        &&& self.line_height > 0
    }

    /// A fresh state; `active` starts in tail view.
    pub fn new(active: bool) -> (s: Self)
        ensures
            s.wf(),
            forall|i: int| 0 <= i < PAGE_SLOTS ==> s.pages@[i] is None,
            s.pending@ == Set::<u64>::empty(),
            s.total is None,
            s.viewport_lines == 0,
            s.tail_view == active,
            s.line_height == 18,
    {
        let mut pages: Vec<Option<LogPage>> = Vec::new();
        pages.push(None);
        pages.push(None);
        pages.push(None);
        pages.push(None);
        LogViewState {
            pages,
            pending: HashSet::new(),
            total: None,
            viewport_lines: 0,
            tail_view: active,
            line_height: 18,
        }
    }

    /// The slot holding page `p`.
    pub fn page_index(&self, p: u64) -> (r: Option<usize>)
        ensures
            match r {
                Some(i) => i < self.pages@.len() && holds_page(self.pages@[i as int], p) && forall|j: int|
                    0 <= j < i ==> !holds_page(self.pages@[j], p),
                None => !is_loaded(self.pages@, p),
            },
    {
        let mut i: usize = 0;
        while i < self.pages.len()
            invariant
                i <= self.pages.len(),
                forall|j: int| 0 <= j < i ==> !holds_page(self.pages@[j], p),
            decreases self.pages.len() - i,
        {
            match &self.pages[i] {
                Some(pg) => {
                    if pg.page == p {
                        return Some(i);
                    }
                },
                None => {},
            }
            i = i + 1;
        }
        proof {
            if is_loaded(self.pages@, p) {
                let j = choose|j: int|
                    0 <= j < self.pages@.len() && holds_page(#[trigger] self.pages@[j], p);
            }
        }
        None
    }

    fn pending_contains(&self, p: u64) -> (r: bool)
        ensures
            r == self.pending@.contains(p),
    {
        self.pending.contains(&p)
    }

    /// Marks page `p` as requested unless it is pending already; returns whether a new
    /// request has to be sent.
    fn request_page(&mut self, p: u64) -> (sent: bool)
        requires
            old(self).wf(),
        ensures
            final(self).wf(),
            sent == !old(self).pending@.contains(p),
            final(self).pending@ == old(self).pending@.insert(p),
            final(self).pages == old(self).pages,
            final(self).total == old(self).total,
            final(self).viewport_lines == old(self).viewport_lines,
            final(self).tail_view == old(self).tail_view,
            final(self).line_height == old(self).line_height,
    {
        self.pending.insert(p)
    }

    /// Keeps only the pending pages `keep` selects.
    fn retain_pending(&mut self, keep: Ghost<Set<u64>>, wanted: &[u64])
        requires
            old(self).wf(),
            forall|p: u64| keep@.contains(p) <==> wanted@.contains(p),
        ensures
            final(self).wf(),
            final(self).pending@ == old(self).pending@.intersect(keep@),
            final(self).pages == old(self).pages,
            final(self).total == old(self).total,
            final(self).viewport_lines == old(self).viewport_lines,
            final(self).tail_view == old(self).tail_view,
            final(self).line_height == old(self).line_height,
    {
        let mut kept: HashSet<u64> = HashSet::new();
        let mut k: usize = 0;
        while k < wanted.len()
            invariant
                k <= wanted.len(),
                kept@ == self.pending@.intersect(wanted@.take(k as int).to_set()),
            decreases wanted.len() - k,
        {
            let w = wanted[k];
            assert(wanted@.take(k + 1) == wanted@.take(k as int).push(w));
            assert(wanted@.take(k + 1).to_set() =~= wanted@.take(k as int).to_set().insert(w));
            if self.pending.contains(&w) {
                kept.insert(w);
            }
            assert(kept@ =~= self.pending@.intersect(wanted@.take(k + 1).to_set()));
            k = k + 1;
        }
        assert(wanted@.take(wanted.len() as int) == wanted@);
        assert(kept@ =~= old(self).pending@.intersect(keep@));
        self.pending = kept;
    }

    /// Decides which pages to request for the view showing line `line` (or the end, in tail
    /// view). Returns the requests to send, each with its delay, and drops pending requests
    /// for pages no longer wanted.
    pub fn request_pages(&mut self, line: u64) -> (requests: Vec<(u64, u32)>)
        requires
            old(self).wf(),
            line + old(self).viewport_lines + 100 <= u64::MAX,
        ensures
            final(self).wf(),
            final(self).pages == old(self).pages,
            final(self).total == old(self).total,
            final(self).viewport_lines == old(self).viewport_lines,
            final(self).tail_view == old(self).tail_view,
            final(self).line_height == old(self).line_height,
            old(self).tail_view ==> ({
                let last = last_page(old(self).total);
                &&& final(self).pending@ == set![last]
                &&& requests@ == if old(self).pending@.contains(last) {
                    Seq::<(u64, u32)>::empty()
                } else {
                    seq![
                        (
                            last,
                            if is_loaded(old(self).pages@, last) {
                                TAIL_POLL_DELAY
                            } else {
                                PAGE_LOAD_DELAY
                            },
                        ),
                    ]
                }
            }),
            !old(self).tail_view ==> ({
                let wanted = wanted_pages(line, old(self).viewport_lines, old(self).total);
                &&& final(self).pending@ == old(self).pending@.union(
                    wanted.to_set().filter(|p: u64| !is_loaded(old(self).pages@, p)),
                ).intersect(wanted.to_set())
                &&& forall|k: int|
                    0 <= k < requests@.len() ==> (#[trigger] requests@[k]).1 == PAGE_LOAD_DELAY
                &&& requests@.map_values(|r: (u64, u32)| r.0).no_duplicates()
                &&& requests@.map_values(|r: (u64, u32)| r.0).to_set() == wanted.to_set().filter(
                    |p: u64| !is_loaded(old(self).pages@, p) && !old(self).pending@.contains(p),
                )
            }),
    {
        let mut requests: Vec<(u64, u32)> = Vec::new();
        if self.tail_view {
            let last = match self.total {
                Some(t) => t / PAGE_HEIGHT,
                None => 0,
            };
            let wanted = [last];
            let ghost keep = set![last];
            self.retain_pending(Ghost(keep), &wanted);
            let delay = if self.page_index(last).is_some() {
                TAIL_POLL_DELAY
            } else {
                PAGE_LOAD_DELAY
            };
            let ghost mid = self.pending@;
            let sent = self.request_page(last);
            proof {
                assert(mid =~= old(self).pending@.intersect(set![last]));
                assert(self.pending@ =~= set![last]);
                assert(sent == !old(self).pending@.contains(last)) by {
                    assert(old(self).pending@.contains(last) <==> mid.contains(last));
                }
            }
            if sent {
                requests.push((last, delay));
            }
            return requests;
        }
        let prev = if line > 100 {
            (line - 100) / PAGE_HEIGHT
        } else {
            0
        };
        let start = line / PAGE_HEIGHT;
        let end = (line + self.viewport_lines) / PAGE_HEIGHT;
        let total = match self.total {
            Some(t) => t,
            None => 0,
        };
        let next = if line + 100 < total {
            (line + self.viewport_lines + 100) / PAGE_HEIGHT
        } else {
            end
        };
        let wanted = [start, end, prev, next];
        let ghost wanted_s = wanted_pages(line, self.viewport_lines, self.total);
        assert(wanted@ == wanted_s);
        let ghost old_pending = self.pending@;
        let ghost old_pages = self.pages@;
        let mut k: usize = 0;
        while k < 4
            invariant
                k <= 4,
                wanted@ == wanted_s,
                wanted@.len() == 4,
                self.wf(),
                self.pages == old(self).pages,
                old_pages == old(self).pages@,
                self.total == old(self).total,
                self.viewport_lines == old(self).viewport_lines,
                self.tail_view == old(self).tail_view,
                self.line_height == old(self).line_height,
                self.pending@ == old_pending.union(
                    wanted_s.take(k as int).to_set().filter(|p: u64| !is_loaded(old_pages, p)),
                ),
                forall|j: int|
                    0 <= j < requests@.len() ==> (#[trigger] requests@[j]).1 == PAGE_LOAD_DELAY,
                requests@.map_values(|r: (u64, u32)| r.0).no_duplicates(),
                requests@.map_values(|r: (u64, u32)| r.0).to_set() == wanted_s.take(
                    k as int,
                ).to_set().filter(|p: u64| !is_loaded(old_pages, p) && !old_pending.contains(p)),
            decreases 4 - k,
        {
            let p = wanted[k];
            let ghost tk = wanted_s.take(k as int);
            assert(wanted_s.take(k + 1) == tk.push(p));
            assert(tk.push(p).to_set() =~= tk.to_set().insert(p));
            let ghost before_pending = self.pending@;
            let ghost before_req = requests@;
            if self.page_index(p).is_none() {
                let sent = self.request_page(p);
                if sent {
                    requests.push((p, PAGE_LOAD_DELAY));
                    proof {
                        let rv = requests@.map_values(|r: (u64, u32)| r.0);
                        let bv = before_req.map_values(|r: (u64, u32)| r.0);
                        assert(rv =~= bv.push(p));
                        assert(!bv.contains(p)) by {
                            if bv.contains(p) {
                                assert(bv.to_set().contains(p));
                                assert(before_pending.contains(p));
                            }
                        }
                        assert(rv.no_duplicates()) by {
                            assert forall|a: int, b: int|
                                0 <= a < rv.len() && 0 <= b < rv.len() && a != b implies rv[a]
                                    != rv[b] by {
                                if a < bv.len() && b < bv.len() {
                                    assert(rv[a] == bv[a] && rv[b] == bv[b]);
                                } else if a < bv.len() {
                                    assert(rv[a] == bv[a]);
                                    assert(bv.contains(bv[a]));
                                } else {
                                    assert(rv[b] == bv[b]);
                                    assert(bv.contains(bv[b]));
                                }
                            }
                        }
                        assert(rv.to_set() =~= bv.to_set().insert(p));
                        assert(rv.to_set() =~= tk.push(p).to_set().filter(
                            |q: u64| !is_loaded(old_pages, q) && !old_pending.contains(q),
                        ));
                    }
                } else {
                    proof {
                        if !old_pending.contains(p) {
                            assert(before_pending.contains(p));
                            assert(tk.to_set().contains(p));
                        }
                        assert(before_req.map_values(|r: (u64, u32)| r.0).to_set() =~= tk.push(
                            p,
                        ).to_set().filter(
                            |q: u64| !is_loaded(old_pages, q) && !old_pending.contains(q),
                        ));
                    }
                }
                proof {
                    assert(self.pending@ =~= old_pending.union(
                        tk.push(p).to_set().filter(|q: u64| !is_loaded(old_pages, q)),
                    ));
                }
            } else {
                proof {
                    assert(self.pending@ =~= old_pending.union(
                        tk.push(p).to_set().filter(|q: u64| !is_loaded(old_pages, q)),
                    ));
                    assert(requests@.map_values(|r: (u64, u32)| r.0).to_set() =~= tk.push(
                        p,
                    ).to_set().filter(
                        |q: u64| !is_loaded(old_pages, q) && !old_pending.contains(q),
                    ));
                }
            }
            k = k + 1;
        }
        assert(wanted_s.take(4) == wanted_s);
        let ghost mid = self.pending@;
        self.retain_pending(Ghost(wanted_s.to_set()), &wanted);
        requests
    }

    /// Handles a loaded page: records the total, and when the page is still wanted, drops
    /// slots holding pages no longer pending and puts the page into its old slot or the first
    /// free one. Returns whether the view changed.
    pub fn page_loaded(&mut self, page: LogPage) -> (changed: bool)
        requires
            old(self).wf(),
        ensures
            final(self).wf(),
            final(self).total == Some(page.total),
            final(self).viewport_lines == old(self).viewport_lines,
            final(self).tail_view == old(self).tail_view,
            final(self).line_height == old(self).line_height,
            changed == old(self).pending@.contains(page.page),
            !changed ==> final(self).pages == old(self).pages && final(self).pending
                == old(self).pending,
            changed ==> final(self).pending@ == old(self).pending@.remove(
                page.page,
            ),
            changed ==> forall|i: int|
                0 <= i < PAGE_SLOTS ==> #[trigger] final(self).pages@[i] == loaded_slot(
                    old(self).pages@,
                    old(self).pending@,
                    page,
                    i,
                ),
    {
        self.total = Some(page.total);
        if !self.pending_contains(page.page) {
            return false;
        }
        let ghost pages0 = self.pages@;
        let ghost pend0 = self.pending@;
        let ghost loaded = page;
        let mut i: usize = 0;
        while i < self.pages.len()
            invariant
                i <= self.pages.len() == PAGE_SLOTS,
                old(self).wf(),
                self.pending == old(self).pending,
                self.total == Some(page.total),
                self.viewport_lines == old(self).viewport_lines,
                self.tail_view == old(self).tail_view,
                self.line_height == old(self).line_height,
                pages0 == old(self).pages@,
                pend0 == old(self).pending@,
                forall|j: int| 0 <= j < i ==> self.pages@[j] == slot_after_load(pages0, pend0, j),
                forall|j: int| i <= j < PAGE_SLOTS ==> self.pages@[j] == pages0[j],
            decreases self.pages.len() - i,
        {
            let stale = match &self.pages[i] {
                Some(pg) => !self.pending_contains(pg.page),
                None => false,
            };
            if stale {
                self.pages.set(i, None);
            }
            i = i + 1;
        }
        let ghost pages1 = self.pages@;
        assert(pend0.contains(page.page));
        self.remove_pending(page.page);
        // pages still pending are never stale, so a slot holding this page survived above
        assert(is_loaded(pages1, page.page) == is_loaded(pages0, page.page)) by {
            if is_loaded(pages0, page.page) {
                let j = choose|j: int|
                    0 <= j < pages0.len() && holds_page(#[trigger] pages0[j], page.page);
                assert(pages1[j] == slot_after_load(pages0, pend0, j));
            }
            if is_loaded(pages1, page.page) {
                let j = choose|j: int|
                    0 <= j < pages1.len() && holds_page(#[trigger] pages1[j], page.page);
                assert(pages1[j] == slot_after_load(pages0, pend0, j));
            }
        }
        match self.page_index(page.page) {
            Some(idx) => {
                self.pages.set(idx, Some(page));
                proof {
                    assert(slot_after_load(pages0, pend0, idx as int) == pages1[idx as int]);
                    assert forall|k: int| 0 <= k < PAGE_SLOTS implies #[trigger] self.pages@[k]
                        == loaded_slot(pages0, pend0, loaded, k) by {
                        assert(pages1[k] == slot_after_load(pages0, pend0, k));
                    }
                }
            },
            None => {
                let mut k: usize = 0;
                while k < self.pages.len()
                    invariant
                        k <= self.pages.len() == PAGE_SLOTS,
                        self.pages@ == pages1,
                        forall|j: int| 0 <= j < k ==> pages1[j] is Some,
                        self.wf(),
                        self.pending@ == old(self).pending@.remove(page.page),
                        self.total == Some(page.total),
                        self.viewport_lines == old(self).viewport_lines,
                        self.tail_view == old(self).tail_view,
                        self.line_height == old(self).line_height,
                        pages0 == old(self).pages@,
                        pend0 == old(self).pending@,
                        pages0.len() == PAGE_SLOTS,
                        loaded == page,
                        old(self).pending@.contains(page.page),
                        !is_loaded(pages0, page.page),
                        !is_loaded(pages1, page.page),
                        forall|j: int| 0 <= j < PAGE_SLOTS ==> pages1[j] == slot_after_load(pages0, pend0, j),
                    decreases self.pages.len() - k,
                {
                    if self.pages[k].is_none() {
                        self.pages.set(k, Some(page));
                        proof {
                            assert forall|m: int| 0 <= m < PAGE_SLOTS implies #[trigger] self.pages@[m]
                                == loaded_slot(pages0, pend0, loaded, m) by {
                                assert(pages1[m] == slot_after_load(pages0, pend0, m));
                                assert(pages1[k as int] == slot_after_load(pages0, pend0, k as int));
                                assert(!holds_page(pages1[m], loaded.page));
                                if m == k {
                                    assert forall|j: int| 0 <= j < m implies (#[trigger] slot_after_load(
                                        pages0,
                                        pend0,
                                        j,
                                    )) is Some by {
                                        assert(pages1[j] == slot_after_load(pages0, pend0, j));
                                    }
                                }
                            }
                        }
                        return true;
                    }
                    k = k + 1;
                }
                proof {
                    assert forall|m: int| 0 <= m < PAGE_SLOTS implies #[trigger] self.pages@[m]
                        == loaded_slot(pages0, pend0, loaded, m) by {
                        assert(pages1[m] == slot_after_load(pages0, pend0, m));
                        assert(!holds_page(pages1[m], loaded.page));
                    }
                }
            },
        }
        true
    }

    fn remove_pending(&mut self, p: u64)
        requires
            old(self).wf(),
        ensures
            final(self).wf(),
            final(self).pending@ == old(self).pending@.remove(p),
            final(self).pages == old(self).pages,
            final(self).total == old(self).total,
            final(self).viewport_lines == old(self).viewport_lines,
            final(self).tail_view == old(self).tail_view,
            final(self).line_height == old(self).line_height,
    {
        self.pending.remove(&p);
    }

    /// Forgets all pages and the total, e.g. when the filter changed.
    pub fn clear(&mut self)
        requires
            old(self).wf(),
        ensures
            final(self).wf(),
            forall|i: int| 0 <= i < PAGE_SLOTS ==> final(self).pages@[i] is None,
            final(self).pending@ == Set::<u64>::empty(),
            final(self).total is None,
            final(self).viewport_lines == old(self).viewport_lines,
            final(self).tail_view == old(self).tail_view,
            final(self).line_height == old(self).line_height,
    {
        let mut pages: Vec<Option<LogPage>> = Vec::new();
        pages.push(None);
        pages.push(None);
        pages.push(None);
        pages.push(None);
        self.pages = pages;
        self.pending.clear();
        self.total = None;
    }

    /// The number of lines visible in a viewport `height` pixels high (rounded up).
    pub fn viewport_resized(&mut self, height: u64)
        requires
            old(self).wf(),
            height + old(self).line_height <= u64::MAX,
        ensures
            final(self).wf(),
            final(self).viewport_lines == (height + old(self).line_height - 1) / (old(
                self,
            ).line_height as int),
            final(self).pages == old(self).pages,
            final(self).pending == old(self).pending,
            final(self).total == old(self).total,
            final(self).tail_view == old(self).tail_view,
            final(self).line_height == old(self).line_height,
    {
        self.viewport_lines = (height + self.line_height - 1) / self.line_height;
    }

    /// A scroll event: tail view ends when the view leaves the end, and starts again when an
    /// active view reaches it.
    pub fn scrolled(&mut self, at_end: bool, active: bool)
        ensures
            final(self).tail_view == if old(self).tail_view {
                at_end
            } else {
                at_end && active
            },
            final(self).pages == old(self).pages,
            final(self).pending == old(self).pending,
            final(self).total == old(self).total,
            final(self).viewport_lines == old(self).viewport_lines,
            final(self).line_height == old(self).line_height,
    {
        if self.tail_view {
            if !at_end {
                self.tail_view = false;
            }
        } else {
            if at_end && active {
                self.tail_view = true;
            }
        }
    }

    /// The periodic tail-view tick of an inactive view ends tail view.
    pub fn tail_tick(&mut self, active: bool)
        ensures
            final(self).tail_view == (old(self).tail_view && active),
            final(self).pages == old(self).pages,
            final(self).pending == old(self).pending,
            final(self).total == old(self).total,
            final(self).viewport_lines == old(self).viewport_lines,
            final(self).line_height == old(self).line_height,
    {
        if !active {
            self.tail_view = false;
        }
    }

    /// The scroll offset (in logical pixels) that shows the end of the log in tail view.
    pub fn tail_scroll_top(&self) -> (top: u64)
        requires
            self.wf(),
            match self.total {
                Some(t) => (t + self.line_height) * self.line_height <= u64::MAX,
                None => true,
            },
        ensures
            top == match self.total {
                Some(t) => if t > self.viewport_lines {
                    ((t - self.viewport_lines + self.line_height - 1) * self.line_height) as u64
                } else {
                    0
                },
                None => 0,
            },
    {
        match self.total {
            Some(total) => {
                if total > self.viewport_lines {
                    proof {
                        assert((total - self.viewport_lines + self.line_height - 1)
                            * self.line_height <= (total + self.line_height) * self.line_height)
                            by (nonlinear_arith)
                            requires
                                total > self.viewport_lines,
                        ;
                        assert(total + self.line_height <= (total + self.line_height)
                            * self.line_height) by (nonlinear_arith)
                            requires
                                self.line_height > 0,
                        ;
                    }
                    (total - self.viewport_lines + self.line_height - 1) * self.line_height
                } else {
                    0
                }
            },
            None => 0,
        }
    }
}

/// `YYYY-MM-DD HH:MM:SS`, the form in which the syslog API takes `since` and `until`.
pub open spec fn syslog_time_spec(year: nat, month: nat, day: nat, hours: nat, minutes: nat, seconds: nat) -> Seq<
    char,
> {
    padded_spec(year, 4) + seq!['-'] + padded_spec(month, 2) + seq!['-'] + padded_spec(day, 2)
        + seq![' '] + padded_spec(hours, 2) + seq![':'] + padded_spec(minutes, 2) + seq![':']
        + padded_spec(seconds, 2)
}

/// Formats a time for the syslog API from its local calendar fields (month counted from 0,
/// as the browser's date gives it; the text counts from 1).
pub fn syslog_api_time(year: u32, month0: u32, day: u32, hours: u32, minutes: u32, seconds: u32) -> (r:
    String)
    ensures
        r@ == syslog_time_spec(
            year as nat,
            (month0 + 1) as nat,
            day as nat,
            hours as nat,
            minutes as nat,
            seconds as nat,
        ),
{
    let mut out: Vec<char> = Vec::new();
    push_padded(&mut out, year as u64, 4);
    out.push('-');
    push_padded(&mut out, month0 as u64 + 1, 2);
    out.push('-');
    push_padded(&mut out, day as u64, 2);
    out.push(' ');
    push_padded(&mut out, hours as u64, 2);
    out.push(':');
    push_padded(&mut out, minutes as u64, 2);
    out.push(':');
    push_padded(&mut out, seconds as u64, 2);
    let r = string_from_chars(out.as_slice());
    assert(r@ =~= syslog_time_spec(
        year as nat,
        (month0 + 1) as nat,
        day as nat,
        hours as nat,
        minutes as nat,
        seconds as nat,
    ));
    r
}

} // verus!
