//! The entry repository: owns every lifecycle transition (active →
//! soft-deleted → purged; unshared ↔ shared) of the journal's records.
//! Entries are kept ordered by creation time, newest first; identifiers and
//! share tokens are assigned from counters, so both stay unique for the
//! store's whole life.

use vstd::prelude::*;

use crate::entry::{
    active, expired, summary_view, within_window, Entry, EntrySummary, ImageRef, RepoError,
    SummaryV, RESTORE_WINDOW_SECS,
};

verus! {

pub open spec fn sorted_desc(s: Seq<Entry>) -> bool {
    forall|i: int, j: int| 0 <= i < j < s.len() ==> s[i].created_at >= s[j].created_at
}

pub open spec fn unique_ids(s: Seq<Entry>) -> bool {
    forall|i: int, j: int| 0 <= i < j < s.len() ==> s[i].id != s[j].id
}

pub open spec fn unique_tokens(s: Seq<Entry>) -> bool {
    forall|i: int, j: int|
        0 <= i < j < s.len() && s[i].share_token is Some ==> s[i].share_token != s[j].share_token
}

pub open spec fn tokens_below(s: Seq<Entry>, bound: u64) -> bool {
    forall|i: int|
        0 <= i < s.len() ==> match (#[trigger] s[i]).share_token {
            Some(t) => t < bound,
            None => true,
        }
}

/// Each entry's image reference is named by the entry's own identifier.
pub open spec fn refs_match(s: Seq<Entry>) -> bool {
    forall|i: int| 0 <= i < s.len() ==> (#[trigger] s[i]).image_ref.id == s[i].id
}

pub open spec fn has_id(s: Seq<Entry>, id: u64) -> bool {
    exists|i: int| 0 <= i < s.len() && s[i].id == id
}

/// The summaries of all entries, in store order.
pub open spec fn summary_views(s: Seq<Entry>) -> Seq<SummaryV>
    decreases s.len(),
{
    if s.len() == 0 {
        Seq::empty()
    } else {
        summary_views(s.drop_last()) + seq![summary_view(s.last())]
    }
}

/// The summaries of the active entries, in store order.
pub open spec fn active_summary_views(s: Seq<Entry>) -> Seq<SummaryV>
    decreases s.len(),
{
    if s.len() == 0 {
        Seq::empty()
    } else {
        active_summary_views(s.drop_last()) + (if active(s.last()) {
            seq![summary_view(s.last())]
        } else {
            Seq::empty()
        })
    }
}

/// The entries a sweep at `now` keeps: those whose restore window has not
/// elapsed, in store order.
pub open spec fn kept_entries(s: Seq<Entry>, now: u64) -> Seq<Entry>
    decreases s.len(),
{
    if s.len() == 0 {
        Seq::empty()
    } else {
        kept_entries(s.drop_last(), now) + (if expired(s.last(), now) {
            Seq::empty()
        } else {
            seq![s.last()]
        })
    }
}

/// The image references a sweep at `now` purges: those of the expired
/// entries, in store order.
pub open spec fn purged_refs(s: Seq<Entry>, now: u64) -> Seq<ImageRef>
    decreases s.len(),
{
    if s.len() == 0 {
        Seq::empty()
    } else {
        purged_refs(s.drop_last(), now) + (if expired(s.last(), now) {
            seq![s.last().image_ref]
        } else {
            Seq::empty()
        })
    }
}

/// An entry equal to `e` in everything but the delete timestamp.
pub open spec fn with_deleted(e: Entry, d: Option<u64>) -> Entry {
    Entry { deleted_at: d, ..e }
}

/// An entry equal to `e` in everything but the share token.
pub open spec fn with_token(e: Entry, t: Option<u64>) -> Entry {
    Entry { share_token: t, ..e }
}

/// The durable record store.
pub struct EntryStore {
    pub entries: Vec<Entry>,
    pub next_token: u64,
}

impl EntryStore {
    pub open spec fn wf(self) -> bool {
        &&& sorted_desc(self.entries@)
        &&& unique_ids(self.entries@)
        &&& unique_tokens(self.entries@)
        &&& tokens_below(self.entries@, self.next_token)
        &&& refs_match(self.entries@)
    }

    pub fn new() -> (s: Self)
        ensures
            s.wf(),
            s.entries@ =~= Seq::<Entry>::empty(),
            s.next_token == 0,
    {
        EntryStore { entries: Vec::new(), next_token: 0 }
    }

    /// Index of the entry with the given identifier, if any.
    fn find_index(&self, id: u64) -> (r: Option<usize>)
        ensures
            match r {
                Some(k) => k < self.entries@.len() && self.entries@[k as int].id == id,
                None => !has_id(self.entries@, id),
            },
    {
        let n = self.entries.len();
        let mut i: usize = 0;
        while i < n
            invariant
                n == self.entries@.len(),
                i <= n,
                forall|k: int| 0 <= k < i ==> self.entries@[k].id != id,
            decreases n - i,
        {
            if self.entries[i].id == id {
                return Some(i);
            }
            i = i + 1;
        }
        None
    }

    pub fn has_entry(&self, id: u64) -> (b: bool)
        ensures
            b == has_id(self.entries@, id),
    {
        self.find_index(id).is_some()
    }

    /// The entry with the given identifier, regardless of delete state —
    /// needed for restores and direct links; callers decide visibility.
    pub fn get(&self, id: u64) -> (r: Option<&Entry>)
        ensures
            match r {
                Some(e) => self.entries@.contains(*e) && e.id == id,
                None => !has_id(self.entries@, id),
            },
    {
        match self.find_index(id) {
            Some(k) => {
                let e = &self.entries[k];
                proof {
                    assert(self.entries@[k as int] == *e);
                }
                Some(e)
            },
            None => None,
        }
    }

    /// The entry holding the given share token, if any: the token is the sole
    /// credential for anonymous access.
    pub fn get_by_share_token(&self, token: u64) -> (r: Option<&Entry>)
        ensures
            match r {
                Some(e) => self.entries@.contains(*e) && e.share_token == Some(token),
                None => forall|i: int|
                    0 <= i < self.entries@.len() ==> (#[trigger] self.entries@[i]).share_token
                        != Some(token),
            },
    {
        let n = self.entries.len();
        let mut i: usize = 0;
        while i < n
            invariant
                n == self.entries@.len(),
                i <= n,
                forall|k: int|
                    0 <= k < i ==> (#[trigger] self.entries@[k]).share_token != Some(token),
            decreases n - i,
        {
            match &self.entries[i].share_token {
                Some(t) => {
                    if *t == token {
                        let e = &self.entries[i];
                        proof {
                            assert(self.entries@[i as int] == *e);
                        }
                        return Some(e);
                    }
                },
                None => {},
            }
            i = i + 1;
        }
        None
    }

    /// All summaries in store order — newest first — excluding soft-deleted
    /// entries unless they are explicitly requested.
    pub fn list(&self, include_deleted: bool) -> (r: Vec<EntrySummary>)
        ensures
            !include_deleted ==> r.deep_view() == active_summary_views(self.entries@),
            include_deleted ==> r.deep_view() == summary_views(self.entries@),
    {
        let n = self.entries.len();
        let mut out: Vec<EntrySummary> = Vec::new();
        let mut i: usize = 0;
        while i < n
            invariant
                n == self.entries@.len(),
                i <= n,
                !include_deleted ==> out.deep_view() == active_summary_views(
                    self.entries@.subrange(0, i as int),
                ),
                include_deleted ==> out.deep_view() == summary_views(
                    self.entries@.subrange(0, i as int),
                ),
            decreases n - i,
        {
            let ghost pre = self.entries@.subrange(0, i as int);
            let ghost post = self.entries@.subrange(0, i + 1);
            proof {
                assert(post.drop_last() =~= pre);
                assert(post.last() == self.entries@[i as int]);
            }
            if include_deleted || self.entries[i].deleted_at.is_none() {
                let ghost before = out.deep_view();
                out.push(crate::entry::summary_of(&self.entries[i]));
                proof {
                    assert(out.deep_view() =~= before + seq![
                        summary_view(self.entries@[i as int]),
                    ]);
                }
            }
            i = i + 1;
        }
        proof {
            assert(self.entries@.subrange(0, n as int) =~= self.entries@);
        }
        out
    }

    /// Inserts a freshly created record before the first entry that is not
    /// newer, so the store stays ordered newest first and a tie goes to the
    /// newcomer.
    pub fn insert_sorted(&mut self, e: Entry)
        requires
            old(self).wf(),
            !has_id(old(self).entries@, e.id),
            e.share_token is None,
            e.image_ref.id == e.id,
        ensures
            final(self).wf(),
            final(self).next_token == old(self).next_token,
            exists|k: int|
                {
                    &&& 0 <= k <= old(self).entries@.len()
                    &&& final(self).entries@ == old(self).entries@.insert(k, e)
                    &&& forall|m: int|
                        0 <= m < k ==> (#[trigger] old(self).entries@[m]).created_at
                            > e.created_at
                },
            final(self).entries@.contains(e),
            forall|x: Entry|
                #[trigger] final(self).entries@.contains(x) <==> old(self).entries@.contains(x)
                    || x == e,
            has_id(final(self).entries@, e.id),
    {
        let n = self.entries.len();
        let mut k: usize = 0;
        while k < n && self.entries[k].created_at > e.created_at
            invariant
                n == self.entries@.len(),
                k <= n,
                forall|m: int| 0 <= m < k ==> (#[trigger] self.entries@[m]).created_at > e.created_at,
            decreases n - k,
        {
            k = k + 1;
        }
        let ghost pre = self.entries@;
        self.entries.insert(k, e);
        proof {
            let ki = k as int;
            let post = self.entries@;
            assert(post == pre.insert(ki, e));
            assert(post =~= pre.subrange(0, ki) + seq![e] + pre.subrange(ki, pre.len() as int));
            assert forall|i: int| 0 <= i < post.len() implies #[trigger] post[i] == (if i < ki {
                pre[i]
            } else if i == ki {
                e
            } else {
                pre[i - 1]
            }) by {}
            assert forall|i: int, j: int|
                0 <= i < j < post.len() implies post[i].created_at >= post[j].created_at by {
                if i < ki && j > ki {
                    assert(pre[i].created_at >= pre[j - 1].created_at || i == j - 1);
                }
                if i == ki && j > ki {
                    assert(!(pre[j - 1].created_at > e.created_at));
                }
            }
            assert forall|i: int, j: int| 0 <= i < j < post.len() implies post[i].id
                != post[j].id by {
                if j == ki {
                    assert(pre[i].id != e.id);
                } else if i == ki {
                    assert(pre[j - 1].id != e.id);
                }
            }
            assert forall|i: int, j: int|
                0 <= i < j < post.len() && post[i].share_token is Some implies post[i].share_token
                != post[j].share_token by {}
            assert(self.wf());
            assert(post[ki] == e);
            assert forall|x: Entry| #[trigger] post.contains(x) <==> pre.contains(x) || x
                == e by {
                if pre.contains(x) {
                    let i = choose|i: int| 0 <= i < pre.len() && pre[i] == x;
                    if i < ki {
                        assert(post[i] == x);
                    } else {
                        assert(post[i + 1] == x);
                    }
                }
                if post.contains(x) && x != e {
                    let i = choose|i: int| 0 <= i < post.len() && post[i] == x;
                    if i < ki {
                        assert(pre[i] == x);
                    } else if i > ki {
                        assert(pre[i - 1] == x);
                    }
                }
            }
        }
    }

    /// Soft-deletes an active entry by stamping it with `now`. An entry that
    /// is missing — or already soft-deleted, so the precondition "exists and
    /// is active" fails — reports `NotFound`.
    pub fn soft_delete(&mut self, id: u64, now: u64) -> (r: Result<(), RepoError>)
        requires
            old(self).wf(),
        ensures
            final(self).wf(),
            final(self).next_token == old(self).next_token,
            match r {
                Ok(()) => exists|k: int|
                    {
                        &&& 0 <= k < old(self).entries@.len()
                        &&& (#[trigger] old(self).entries@[k]).id == id
                        &&& active(old(self).entries@[k])
                        &&& final(self).entries@ == old(self).entries@.update(
                            k,
                            with_deleted(old(self).entries@[k], Some(now)),
                        )
                    },
                Err(err) => {
                    &&& err == RepoError::NotFound
                    &&& final(self).entries@ == old(self).entries@
                    &&& forall|i: int|
                        0 <= i < old(self).entries@.len() && (#[trigger] old(
                            self,
                        ).entries@[i]).id == id ==> !active(old(self).entries@[i])
                },
            },
    {
        let k = match self.find_index(id) {
            Some(k) => k,
            None => {
                return Err(RepoError::NotFound);
            },
        };
        if self.entries[k].deleted_at.is_some() {
            proof {
                assert forall|i: int|
                    0 <= i < self.entries@.len() && (#[trigger] self.entries@[i]).id
                        == id implies !active(self.entries@[i]) by {
                    if i != k as int {
                        assert(self.entries@[i].id != self.entries@[k as int].id);
                    }
                }
            }
            return Err(RepoError::NotFound);
        }
        let ghost pre = self.entries@;
        let mut e = self.entries.remove(k);
        e.deleted_at = Some(now);
        self.entries.insert(k, e);
        proof {
            let ki = k as int;
            assert(self.entries@ =~= pre.update(ki, with_deleted(pre[ki], Some(now))));
        }
        Ok(())
    }

    /// Restores a soft-deleted entry by clearing its delete timestamp,
    /// succeeding exactly when the entry exists, is soft-deleted, and its
    /// restore window has not elapsed at `now` (the boundary is still within).
    pub fn restore(&mut self, id: u64, now: u64) -> (r: Result<(), RepoError>)
        requires
            old(self).wf(),
        ensures
            final(self).wf(),
            final(self).next_token == old(self).next_token,
            match r {
                Ok(()) => exists|k: int|
                    {
                        &&& 0 <= k < old(self).entries@.len()
                        &&& (#[trigger] old(self).entries@[k]).id == id
                        &&& old(self).entries@[k].deleted_at matches Some(d) && within_window(
                            d,
                            now,
                        )
                        &&& final(self).entries@ == old(self).entries@.update(
                            k,
                            with_deleted(old(self).entries@[k], None),
                        )
                    },
                Err(err) => {
                    &&& final(self).entries@ == old(self).entries@
                    &&& match err {
                        RepoError::NotFound => !has_id(old(self).entries@, id),
                        RepoError::NotDeleted => exists|k: int|
                            0 <= k < old(self).entries@.len() && (#[trigger] old(
                                self,
                            ).entries@[k]).id == id && active(old(self).entries@[k]),
                        RepoError::WindowExpired => exists|k: int|
                            {
                                &&& 0 <= k < old(self).entries@.len()
                                &&& (#[trigger] old(self).entries@[k]).id == id
                                &&& old(self).entries@[k].deleted_at matches Some(d)
                                    && !within_window(d, now)
                            },
                        _ => false,
                    }
                },
            },
    {
        let k = match self.find_index(id) {
            Some(k) => k,
            None => {
                return Err(RepoError::NotFound);
            },
        };
        let d = match self.entries[k].deleted_at {
            Some(d) => d,
            None => {
                return Err(RepoError::NotDeleted);
            },
        };
        if now > d && now - d > RESTORE_WINDOW_SECS {
            return Err(RepoError::WindowExpired);
        }
        let ghost pre = self.entries@;
        let mut e = self.entries.remove(k);
        e.deleted_at = None;
        self.entries.insert(k, e);
        proof {
            let ki = k as int;
            assert(self.entries@ =~= pre.update(ki, with_deleted(pre[ki], None)));
        }
        Ok(())
    }

    /// Sets or clears the share token. Enabling assigns a fresh token — fresh
    /// even if the entry was already shared, so an old link never outlives a
    /// re-share — and disabling clears it; both directions are idempotent in
    /// the resulting shared state.
    pub fn set_share(&mut self, id: u64, enable: bool) -> (r: Result<Option<u64>, RepoError>)
        requires
            old(self).wf(),
        ensures
            final(self).wf(),
            match r {
                Ok(t) => exists|k: int|
                    {
                        &&& 0 <= k < old(self).entries@.len()
                        &&& (#[trigger] old(self).entries@[k]).id == id
                        &&& if enable {
                            &&& t == Some(old(self).next_token)
                            &&& final(self).next_token == old(self).next_token + 1
                            &&& final(self).entries@ == old(self).entries@.update(
                                k,
                                with_token(old(self).entries@[k], Some(old(self).next_token)),
                            )
                        } else {
                            &&& t is None
                            &&& final(self).next_token == old(self).next_token
                            &&& final(self).entries@ == old(self).entries@.update(
                                k,
                                with_token(old(self).entries@[k], None),
                            )
                        }
                    },
                Err(err) => {
                    &&& final(self).entries@ == old(self).entries@
                    &&& final(self).next_token == old(self).next_token
                    &&& match err {
                        RepoError::NotFound => !has_id(old(self).entries@, id),
                        RepoError::Storage => enable && old(self).next_token == u64::MAX
                            && has_id(old(self).entries@, id),
                        _ => false,
                    }
                },
            },
    {
        let k = match self.find_index(id) {
            Some(k) => k,
            None => {
                return Err(RepoError::NotFound);
            },
        };
        let ghost pre = self.entries@;
        if enable {
            if self.next_token == u64::MAX {
                return Err(RepoError::Storage);
            }
            let t = self.next_token;
            self.next_token = self.next_token + 1;
            let mut e = self.entries.remove(k);
            e.share_token = Some(t);
            self.entries.insert(k, e);
            proof {
                let ki = k as int;
                assert(self.entries@ =~= pre.update(ki, with_token(pre[ki], Some(t))));
            }
            Ok(Some(t))
        } else {
            let mut e = self.entries.remove(k);
            e.share_token = None;
            self.entries.insert(k, e);
            proof {
                let ki = k as int;
                assert(self.entries@ =~= pre.update(ki, with_token(pre[ki], None)));
            }
            Ok(None)
        }
    }

    /// Hard-deletes one record, conditionally: the row goes only if it still
    /// exists and is still past its restore window at `now`, so a purge
    /// racing a restore resolves to exactly one winner. Returns the image
    /// reference so the caller can remove the backing file — the record store
    /// itself never touches the image store. Irreversible.
    pub fn purge(&mut self, id: u64, now: u64) -> (r: Result<ImageRef, RepoError>)
        requires
            old(self).wf(),
        ensures
            final(self).wf(),
            final(self).next_token == old(self).next_token,
            match r {
                Ok(img) => exists|k: int|
                    {
                        &&& 0 <= k < old(self).entries@.len()
                        &&& (#[trigger] old(self).entries@[k]).id == id
                        &&& expired(old(self).entries@[k], now)
                        &&& img == old(self).entries@[k].image_ref
                        &&& final(self).entries@ == old(self).entries@.remove(k)
                    },
                Err(err) => {
                    &&& err == RepoError::NotFound
                    &&& final(self).entries@ == old(self).entries@
                    &&& forall|i: int|
                        0 <= i < old(self).entries@.len() && (#[trigger] old(
                            self,
                        ).entries@[i]).id == id ==> !expired(old(self).entries@[i], now)
                },
            },
    {
        let k = match self.find_index(id) {
            Some(k) => k,
            None => {
                return Err(RepoError::NotFound);
            },
        };
        let still_expired = match self.entries[k].deleted_at {
            Some(d) => now > d && now - d > RESTORE_WINDOW_SECS,
            None => false,
        };
        if !still_expired {
            proof {
                assert forall|i: int|
                    0 <= i < self.entries@.len() && (#[trigger] self.entries@[i]).id
                        == id implies !expired(self.entries@[i], now) by {
                    if i != k as int {
                        assert(self.entries@[i].id != self.entries@[k as int].id);
                    }
                }
            }
            return Err(RepoError::NotFound);
        }
        let ghost pre = self.entries@;
        let e = self.entries.remove(k);
        proof {
            let ki = k as int;
            let post = self.entries@;
            assert(post == pre.remove(ki));
            assert forall|i: int| 0 <= i < post.len() implies #[trigger] post[i] == (if i < ki {
                pre[i]
            } else {
                pre[i + 1]
            }) by {}
            assert(self.wf());
        }
        Ok(e.image_ref)
    }

    /// Removes every entry whose restore window has elapsed at `now` and
    /// returns their image references, in store order, so the caller can
    /// remove the backing files. Active entries and soft-deleted entries
    /// still within their window are never touched.
    pub fn purge_expired(&mut self, now: u64) -> (purged: Vec<ImageRef>)
        requires
            old(self).wf(),
        ensures
            final(self).wf(),
            final(self).next_token == old(self).next_token,
            final(self).entries@ == kept_entries(old(self).entries@, now),
            purged@ == purged_refs(old(self).entries@, now),
            forall|x: Entry|
                #[trigger] final(self).entries@.contains(x) <==> old(self).entries@.contains(x)
                    && !expired(x, now),
            forall|x: ImageRef|
                #[trigger] purged@.contains(x) <==> exists|i: int|
                    0 <= i < old(self).entries@.len() && (#[trigger] old(
                        self,
                    ).entries@[i]).image_ref == x && expired(old(self).entries@[i], now),
    {
        let ghost orig = self.entries@;
        let n = self.entries.len();
        let mut kept: Vec<Entry> = Vec::new();
        let mut purged: Vec<ImageRef> = Vec::new();
        let mut i: usize = 0;
        while i < n
            invariant
                orig.len() == n,
                i <= n,
                orig == old(self).entries@,
                old(self).wf(),
                self.next_token == old(self).next_token,
                self.entries@ == orig.subrange(i as int, n as int),
                kept@ == kept_entries(orig.subrange(0, i as int), now),
                purged@ == purged_refs(orig.subrange(0, i as int), now),
            decreases n - i,
        {
            let ghost pre = orig.subrange(0, i as int);
            let ghost post = orig.subrange(0, i + 1);
            proof {
                assert(post.drop_last() =~= pre);
                assert(post.last() == orig[i as int]);
            }
            let e = self.entries.remove(0);
            proof {
                assert(e == orig[i as int]);
                assert(self.entries@ =~= orig.subrange(i + 1, n as int));
            }
            let is_expired = match e.deleted_at {
                Some(d) => now > d && now - d > RESTORE_WINDOW_SECS,
                None => false,
            };
            proof {
                assert(is_expired == expired(e, now));
            }
            if is_expired {
                purged.push(e.image_ref);
                proof {
                    assert(kept@ =~= kept_entries(post, now));
                    assert(purged@ =~= purged_refs(pre, now) + seq![orig[i as int].image_ref]);
                }
            } else {
                kept.push(e);
                proof {
                    assert(purged@ =~= purged_refs(post, now));
                    assert(kept@ =~= kept_entries(pre, now) + seq![orig[i as int]]);
                }
            }
            i = i + 1;
        }
        proof {
            assert(orig.subrange(0, n as int) =~= orig);
        }
        self.entries = kept;
        proof {
            lemma_kept_entries_props(orig, now);
            assert forall|i: int|
                0 <= i < self.entries@.len() implies orig.contains(
                #[trigger] self.entries@[i],
            ) by {
                assert(self.entries@.contains(self.entries@[i]));
            }
            assert forall|i: int|
                0 <= i < self.entries@.len() implies match (#[trigger] self.entries@[i]).share_token {
                Some(t) => t < self.next_token,
                None => true,
            } by {
                let x = self.entries@[i];
                let m = choose|m: int| 0 <= m < orig.len() && orig[m] == x;
            }
            assert forall|i: int|
                0 <= i < self.entries@.len() implies (#[trigger] self.entries@[i]).image_ref.id
                == self.entries@[i].id by {
                let x = self.entries@[i];
                let m = choose|m: int| 0 <= m < orig.len() && orig[m] == x;
            }
        }
        purged
    }
}

/// What a sweep keeps and purges, characterized element by element: an entry
/// stays exactly when its window has not elapsed, a reference is purged
/// exactly when its entry expired; order, identifier uniqueness and token
/// uniqueness all survive the sweep.
pub proof fn lemma_kept_entries_props(s: Seq<Entry>, now: u64)
    ensures
        forall|x: Entry|
            #[trigger] kept_entries(s, now).contains(x) <==> (s.contains(x) && !expired(x, now)),
        forall|x: ImageRef|
            #[trigger] purged_refs(s, now).contains(x) <==> exists|i: int|
                0 <= i < s.len() && (#[trigger] s[i]).image_ref == x && expired(s[i], now),
        sorted_desc(s) ==> sorted_desc(kept_entries(s, now)),
        unique_ids(s) ==> unique_ids(kept_entries(s, now)),
        unique_ids(s) && unique_tokens(s) ==> unique_tokens(kept_entries(s, now)),
    decreases s.len(),
{
    if s.len() == 0 {
        assert forall|x: Entry| !(#[trigger] kept_entries(s, now).contains(x)) by {}
        assert forall|x: Entry| !s.contains(x) by {}
        assert forall|x: ImageRef| !(#[trigger] purged_refs(s, now).contains(x)) by {}
    } else {
        let d = s.drop_last();
        let last = s.last();
        lemma_kept_entries_props(d, now);
        let kd = kept_entries(d, now);
        let ks = kept_entries(s, now);
        assert forall|x: Entry| #[trigger] s.contains(x) <==> (d.contains(x) || x == last) by {
            if s.contains(x) {
                let i = choose|i: int| 0 <= i < s.len() && s[i] == x;
                if i < s.len() - 1 {
                    assert(d[i] == x);
                }
            }
            if d.contains(x) {
                let i = choose|i: int| 0 <= i < d.len() && d[i] == x;
                assert(s[i] == x);
            }
            if x == last {
                assert(s[s.len() - 1] == x);
            }
        }
        assert forall|x: Entry| #[trigger] ks.contains(x) <==> (kd.contains(x) || (x == last
            && !expired(last, now))) by {
            if !expired(last, now) {
                assert(ks =~= kd + seq![last]);
                if ks.contains(x) {
                    let i = choose|i: int| 0 <= i < ks.len() && ks[i] == x;
                    if i < kd.len() {
                        assert(kd[i] == x);
                    }
                }
                if kd.contains(x) {
                    let i = choose|i: int| 0 <= i < kd.len() && kd[i] == x;
                    assert(ks[i] == x);
                }
                if x == last {
                    assert(ks[ks.len() - 1] == x);
                }
            } else {
                assert(ks =~= kd);
            }
        }
        let ps = purged_refs(s, now);
        let pd = purged_refs(d, now);
        assert forall|x: ImageRef| #[trigger] ps.contains(x) <==> (pd.contains(x) || (x
            == last.image_ref && expired(last, now))) by {
            if expired(last, now) {
                assert(ps =~= pd + seq![last.image_ref]);
                if ps.contains(x) {
                    let i = choose|i: int| 0 <= i < ps.len() && ps[i] == x;
                    if i < pd.len() {
                        assert(pd[i] == x);
                    }
                }
                if pd.contains(x) {
                    let i = choose|i: int| 0 <= i < pd.len() && pd[i] == x;
                    assert(ps[i] == x);
                }
                if x == last.image_ref {
                    assert(ps[ps.len() - 1] == x);
                }
            } else {
                assert(ps =~= pd);
            }
        }
        assert forall|x: ImageRef|
            #[trigger] ps.contains(x) <==> exists|i: int|
                0 <= i < s.len() && (#[trigger] s[i]).image_ref == x && expired(s[i], now) by {
            if ps.contains(x) {
                if pd.contains(x) {
                    let i = choose|i: int|
                        0 <= i < d.len() && (#[trigger] d[i]).image_ref == x && expired(d[i], now);
                    assert(s[i].image_ref == x && expired(s[i], now));
                } else {
                    assert(s[s.len() - 1].image_ref == x && expired(s[s.len() - 1], now));
                }
            }
            if exists|i: int| 0 <= i < s.len() && (#[trigger] s[i]).image_ref == x && expired(
                s[i],
                now,
            ) {
                let i = choose|i: int|
                    0 <= i < s.len() && (#[trigger] s[i]).image_ref == x && expired(s[i], now);
                if i < s.len() - 1 {
                    assert(d[i].image_ref == x && expired(d[i], now));
                    assert(pd.contains(x));
                }
            }
        }
        if sorted_desc(s) {
            assert(sorted_desc(d));
            if !expired(last, now) {
                assert(ks =~= kd + seq![last]);
                assert forall|i: int, j: int|
                    0 <= i < j < ks.len() implies ks[i].created_at >= ks[j].created_at by {
                    if j == ks.len() - 1 {
                        if i < kd.len() {
                            assert(kd.contains(kd[i]));
                            assert(d.contains(kd[i]));
                            let m = choose|m: int| 0 <= m < d.len() && d[m] == kd[i];
                            assert(s[m] == kd[i]);
                            assert(s[m].created_at >= s[s.len() - 1].created_at);
                        }
                    }
                }
            }
        }
        if unique_ids(s) {
            assert(unique_ids(d));
            if !expired(last, now) {
                assert(ks =~= kd + seq![last]);
                assert forall|i: int, j: int| 0 <= i < j < ks.len() implies ks[i].id
                    != ks[j].id by {
                    if j == ks.len() - 1 {
                        assert(kd.contains(ks[i]));
                        assert(d.contains(ks[i]));
                        let m = choose|m: int| 0 <= m < d.len() && d[m] == ks[i];
                        assert(s[m] == ks[i]);
                        assert(s[m].id != s[s.len() - 1].id);
                    }
                }
            }
            if unique_tokens(s) {
                assert(unique_tokens(d));
                if !expired(last, now) {
                    assert(ks =~= kd + seq![last]);
                    assert forall|i: int, j: int|
                        0 <= i < j < ks.len() && ks[i].share_token is Some implies ks[i].share_token
                        != ks[j].share_token by {
                        if j == ks.len() - 1 {
                            assert(kd.contains(ks[i]));
                            assert(d.contains(ks[i]));
                            let m = choose|m: int| 0 <= m < d.len() && d[m] == ks[i];
                            assert(s[m] == ks[i]);
                            assert(s[m].share_token != s[s.len() - 1].share_token);
                        }
                    }
                }
            }
        }
    }
}

/// Every element of the active listing is the summary of some active entry of
/// the store.
pub proof fn lemma_active_views_sources(s: Seq<Entry>, j: int)
    requires
        0 <= j < active_summary_views(s).len(),
    ensures
        exists|k: int|
            0 <= k < s.len() && active(#[trigger] s[k]) && summary_view(s[k])
                == active_summary_views(s)[j],
    decreases s.len(),
{
    let d = s.drop_last();
    let last = s.last();
    if j < active_summary_views(d).len() {
        lemma_active_views_sources(d, j);
        let k = choose|k: int|
            0 <= k < d.len() && active(#[trigger] d[k]) && summary_view(d[k])
                == active_summary_views(d)[j];
        assert(s[k] == d[k]);
        assert(active(s[k]) && summary_view(s[k]) == active_summary_views(s)[j]);
    } else {
        assert(active(last));
        assert(s[s.len() - 1] == last);
        assert(active_summary_views(s)[j] == summary_view(last));
    }
}

/// The summary of an active entry stands in the active listing.
pub proof fn lemma_active_view_in(s: Seq<Entry>, i: int)
    requires
        0 <= i < s.len(),
        active(s[i]),
    ensures
        active_summary_views(s).contains(summary_view(s[i])),
    decreases s.len(),
{
    let d = s.drop_last();
    if i < s.len() - 1 {
        assert(d[i] == s[i]);
        lemma_active_view_in(d, i);
        let j = choose|j: int|
            0 <= j < active_summary_views(d).len() && active_summary_views(d)[j] == summary_view(
                d[i],
            );
        assert(active_summary_views(s)[j] == summary_view(s[i]));
    } else {
        let vs = active_summary_views(s);
        assert(vs[vs.len() - 1] == summary_view(s[i]));
    }
}

/// An entry appears in the default listing exactly when it is not
/// soft-deleted: the listing holds its summary iff `deleted_at` is absent.
pub proof fn lemma_listing_membership(s: Seq<Entry>, i: int)
    requires
        unique_ids(s),
        0 <= i < s.len(),
    ensures
        active(s[i]) <==> active_summary_views(s).contains(summary_view(s[i])),
{
    if active(s[i]) {
        lemma_active_view_in(s, i);
    }
    if active_summary_views(s).contains(summary_view(s[i])) {
        let j = choose|j: int|
            0 <= j < active_summary_views(s).len() && active_summary_views(s)[j] == summary_view(
                s[i],
            );
        lemma_active_views_sources(s, j);
        let k = choose|k: int|
            0 <= k < s.len() && active(#[trigger] s[k]) && summary_view(s[k])
                == active_summary_views(s)[j];
        assert(s[k].id == s[i].id);
        if k != i {
            assert(s[k].id != s[i].id);
        }
        assert(active(s[i]));
    }
}

/// A freshly committed entry — active and unshared by construction, its
/// classification carried verbatim — appears in the default listing: its
/// summary, which shows it unshared, stands among the active summaries.
pub proof fn lemma_created_entry_listed(s: Seq<Entry>, e: Entry)
    requires
        unique_ids(s),
        s.contains(e),
        e.deleted_at is None,
        e.share_token is None,
    ensures
        active_summary_views(s).contains(summary_view(e)),
        !summary_view(e).shared,
{
    let i = choose|i: int| 0 <= i < s.len() && s[i] == e;
    lemma_listing_membership(s, i);
}

/// One share token never names two entries: any entry of the store holding
/// the token of position `i` is the entry at `i` itself.
pub proof fn lemma_token_lookup_unique(s: Seq<Entry>, t: u64, i: int, e: Entry)
    requires
        unique_ids(s),
        unique_tokens(s),
        0 <= i < s.len(),
        s[i].share_token == Some(t),
        s.contains(e),
        e.share_token == Some(t),
    ensures
        e == s[i],
{
    let j = choose|j: int| 0 <= j < s.len() && s[j] == e;
    if j != i {
        if i < j {
            assert(s[i].share_token != s[j].share_token);
        } else {
            assert(s[j].share_token != s[i].share_token);
        }
    }
}

/// Enabling sharing and then resolving the fresh token finds the very entry
/// that was shared: in the store that `set_share` leaves behind, the entry at
/// the updated position holds the token, and no other entry can.
pub proof fn lemma_share_then_lookup(pre: Seq<Entry>, post: Seq<Entry>, k: int, t: u64)
    requires
        unique_ids(post),
        unique_tokens(post),
        0 <= k < pre.len(),
        post == pre.update(k, with_token(pre[k], Some(t))),
    ensures
        post[k].share_token == Some(t),
        post[k].id == pre[k].id,
        forall|e: Entry| post.contains(e) && e.share_token == Some(t) ==> e == post[k],
{
    assert forall|e: Entry| post.contains(e) && e.share_token == Some(t) implies e == post[k] by {
        lemma_token_lookup_unique(post, t, k, e);
    }
}

/// Disabling sharing invalidates the old token: once `set_share` clears the
/// token `t` of the entry at position `k`, no entry of the store holds `t`.
pub proof fn lemma_unshare_invalidates(pre: Seq<Entry>, post: Seq<Entry>, k: int, t: u64)
    requires
        unique_tokens(pre),
        0 <= k < pre.len(),
        pre[k].share_token == Some(t),
        post == pre.update(k, with_token(pre[k], None)),
    ensures
        forall|i: int| 0 <= i < post.len() ==> (#[trigger] post[i]).share_token != Some(t),
{
    assert forall|i: int| 0 <= i < post.len() implies (#[trigger] post[i]).share_token != Some(
        t,
    ) by {
        if i != k {
            assert(post[i] == pre[i]);
            if i < k {
                if pre[i].share_token is Some {
                    assert(pre[i].share_token != pre[k].share_token);
                }
            } else {
                assert(pre[k].share_token != pre[i].share_token);
            }
        }
    }
}

} // verus!
