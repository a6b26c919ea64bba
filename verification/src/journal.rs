//! The journal as a whole: the entry store, the image store and the settings
//! record, kept consistent. Creation is a two-phase action — the image is
//! acquired provisionally, then the record insert commits it or a compensating
//! removal aborts it — and the retention sweeper purges records and backing
//! files together, so no entry ever references a missing file.

use vstd::prelude::*;

use crate::entry::{
    active, expired, ext_for_mime, spec_ext_for_mime, Classification, Entry, EntryDetail,
    EntrySummary, ImageRef, RepoError,
};
use crate::images::{dims_of, probe_dimensions, ImageStore};
use crate::store::{
    active_summary_views, has_id, kept_entries, purged_refs, summary_views, with_deleted,
    with_token, EntryStore,
};

verus! {

/// The single global settings record: whether the whole collection is
/// publicly listable. Created at first start, mutated by a toggle, never
/// deleted.
pub struct Settings {
    pub is_public: bool,
}

impl Settings {
    /// The record created when none exists yet: the collection starts
    /// private.
    pub fn new() -> (s: Self)
        ensures
            !s.is_public,
    {
        Settings { is_public: false }
    }
}

/// A provisionally acquired upload: the image file is stored, its dimensions
/// probed, and no record exists yet. Committing inserts the record; aborting
/// compensates by removing the file again.
#[derive(Clone, Copy)]
pub struct UploadTicket {
    pub image_ref: ImageRef,
    pub width: Option<u32>,
    pub height: Option<u32>,
}

/// The whole journal state.
pub struct Journal {
    pub images: ImageStore,
    pub store: EntryStore,
    pub settings: Settings,
    pub next_id: u64,
}

impl Journal {
    /// Consistency of the whole journal: both stores are well-formed, every
    /// identifier ever handed out is below the counter, each entry's image
    /// reference is named by the entry's own identifier, and — the file/row
    /// guarantee — every entry's backing file exists.
    pub open spec fn wf(self) -> bool {
        &&& self.images.wf()
        &&& self.store.wf()
        &&& forall|i: int|
            0 <= i < self.store.entries@.len() ==> (#[trigger] self.store.entries@[i]).id
                < self.next_id
        &&& forall|i: int|
            0 <= i < self.images.files@.len() ==> (#[trigger] self.images.files@[i]).id
                < self.next_id
        &&& forall|i: int|
            0 <= i < self.store.entries@.len() ==> self.images.spec_contains(
                (#[trigger] self.store.entries@[i]).image_ref,
            )
    }

    pub fn new() -> (j: Self)
        ensures
            j.wf(),
            j.store.entries@ =~= Seq::<Entry>::empty(),
            j.images.files@ =~= Seq::<ImageRef>::empty(),
            !j.settings.is_public,
    {
        Journal {
            images: ImageStore::new(),
            store: EntryStore::new(),
            settings: Settings::new(),
            next_id: 0,
        }
    }

    pub fn get_settings(&self) -> (b: bool)
        ensures
            b == self.settings.is_public,
    {
        self.settings.is_public
    }

    pub fn update_settings(&mut self, is_public: bool)
        requires
            old(self).wf(),
        ensures
            final(self).wf(),
            final(self).settings.is_public == is_public,
            final(self).store == old(self).store,
            final(self).images == old(self).images,
            final(self).next_id == old(self).next_id,
    {
        self.settings = Settings { is_public };
    }

    /// First phase of creation: stores the image bytes under a fresh
    /// reference whose extension follows the MIME type, and probes the
    /// dimensions. Fresh identifiers make overwriting an existing reference
    /// impossible. Fails only when the identifier space is exhausted.
    pub fn begin_create(&mut self, bytes: &[u8], mime: &String) -> (r: Result<
        UploadTicket,
        RepoError,
    >)
        requires
            old(self).wf(),
        ensures
            final(self).wf(),
            final(self).store == old(self).store,
            final(self).settings == old(self).settings,
            match r {
                Ok(t) => {
                    &&& t.image_ref.id == old(self).next_id
                    &&& final(self).next_id == old(self).next_id + 1
                    &&& t.image_ref.ext == spec_ext_for_mime(mime@)
                    &&& match dims_of(bytes@) {
                        Some(wh) => t.width == Some(wh.0) && t.height == Some(wh.1),
                        None => t.width is None && t.height is None,
                    }
                    &&& !old(self).images.spec_contains(t.image_ref)
                    &&& forall|x: ImageRef|
                        #[trigger] final(self).images.spec_contains(x) <==> old(
                            self,
                        ).images.spec_contains(x) || x == t.image_ref
                },
                Err(err) => {
                    &&& err == RepoError::Storage
                    &&& old(self).next_id == u64::MAX
                    &&& final(self).images == old(self).images
                    &&& final(self).next_id == old(self).next_id
                },
            },
            r is Ok <==> old(self).next_id < u64::MAX,
    {
        if self.next_id == u64::MAX {
            return Err(RepoError::Storage);
        }
        let id = self.next_id;
        self.next_id = self.next_id + 1;
        let image_ref = ImageRef { id, ext: ext_for_mime(mime) };
        proof {
            if self.images.spec_contains(image_ref) {
                let i = choose|i: int|
                    0 <= i < self.images.files@.len() && self.images.files@[i] == image_ref;
                assert(self.images.files@[i].id < id);
            }
        }
        self.images.add(image_ref);
        let dims = probe_dimensions(bytes);
        let (width, height) = match dims {
            Some(wh) => (Some(wh.0), Some(wh.1)),
            None => (None, None),
        };
        Ok(UploadTicket { image_ref, width, height })
    }

    /// Second phase of creation: inserts the record for a provisionally
    /// stored image. The new entry is active and unshared, carries the
    /// classification verbatim, and is stamped with `now`. Fails — leaving
    /// everything unchanged — when the backing file is missing or the
    /// identifier already has a record.
    pub fn commit_create(
        &mut self,
        t: UploadTicket,
        now: u64,
        mime: String,
        classification: Classification,
        raw_payload: Vec<u8>,
    ) -> (r: Result<EntryDetail, RepoError>)
        requires
            old(self).wf(),
        ensures
            final(self).wf(),
            final(self).settings == old(self).settings,
            final(self).next_id == old(self).next_id,
            final(self).images == old(self).images,
            final(self).store.next_token == old(self).store.next_token,
            r is Ok <==> old(self).images.spec_contains(t.image_ref) && !has_id(
                old(self).store.entries@,
                t.image_ref.id,
            ),
            match r {
                Ok(d) => ({
                    let e = (Entry {
                        id: t.image_ref.id,
                        created_at: now,
                        image_ref: t.image_ref,
                        mime: mime,
                        width: t.width,
                        height: t.height,
                        label: classification.label,
                        description: classification.description,
                        tags: classification.tags,
                        confidence: classification.confidence,
                        raw_payload: raw_payload,
                        deleted_at: None,
                        share_token: None,
                    });
                    &&& final(self).store.entries@.contains(e)
                    &&& forall|x: Entry|
                        #[trigger] final(self).store.entries@.contains(x) <==> old(
                            self,
                        ).store.entries@.contains(x) || x == e
                    &&& d@ == crate::entry::detail_view(e)
                }),
                Err(err) => {
                    &&& err == RepoError::Storage
                    &&& final(self).store == old(self).store
                },
            },
    {
        if !self.images.contains(&t.image_ref) {
            return Err(RepoError::Storage);
        }
        if self.store.has_entry(t.image_ref.id) {
            return Err(RepoError::Storage);
        }
        let e = Entry {
            id: t.image_ref.id,
            created_at: now,
            image_ref: t.image_ref,
            mime,
            width: t.width,
            height: t.height,
            label: classification.label,
            description: classification.description,
            tags: classification.tags,
            confidence: classification.confidence,
            raw_payload,
            deleted_at: None,
            share_token: None,
        };
        let d = crate::entry::detail_of(&e);
        proof {
            let i = choose|i: int|
                0 <= i < self.images.files@.len() && self.images.files@[i] == t.image_ref;
            assert(self.images.files@[i].id < self.next_id);
        }
        self.store.insert_sorted(e);
        proof {
            assert forall|i: int|
                0 <= i < self.store.entries@.len() implies (#[trigger] self.store.entries@[i]).id
                < self.next_id && self.images.spec_contains(self.store.entries@[i].image_ref) by {
                let x = self.store.entries@[i];
                assert(self.store.entries@.contains(x));
                if x != e {
                    assert(old(self).store.entries@.contains(x));
                    let m = choose|m: int|
                        0 <= m < old(self).store.entries@.len() && old(self).store.entries@[m]
                            == x;
                }
            }
        }
        Ok(d)
    }

    /// Compensation for a failed creation: removes the provisionally stored
    /// file again, unless a record meanwhile owns the identifier — the entry
    /// store is the source of truth for which references are live. Reports
    /// whether the reference was let go.
    pub fn abort_create(&mut self, r: ImageRef) -> (removed: bool)
        requires
            old(self).wf(),
        ensures
            final(self).wf(),
            final(self).store == old(self).store,
            final(self).settings == old(self).settings,
            final(self).next_id == old(self).next_id,
            removed <==> !has_id(old(self).store.entries@, r.id),
            removed ==> forall|x: ImageRef|
                #[trigger] final(self).images.spec_contains(x) <==> old(self).images.spec_contains(
                    x,
                ) && x != r,
            !removed ==> final(self).images == old(self).images,
    {
        if self.store.has_entry(r.id) {
            return false;
        }
        self.images.remove(&r);
        proof {
            assert forall|i: int|
                0 <= i < self.store.entries@.len() implies self.images.spec_contains(
                (#[trigger] self.store.entries@[i]).image_ref,
            ) by {
                let x = self.store.entries@[i];
                assert(x.image_ref.id == x.id);
                assert(x.id != r.id);
            }
            assert forall|i: int|
                0 <= i < self.images.files@.len() implies (#[trigger] self.images.files@[i]).id
                < self.next_id by {
                let x = self.images.files@[i];
                assert(self.images.files@.contains(x));
                assert(self.images.spec_contains(x));
                assert(old(self).images.spec_contains(x));
                let m = choose|m: int|
                    0 <= m < old(self).images.files@.len() && old(self).images.files@[m] == x;
            }
        }
        true
    }

    /// One sweeper run at `now`: purges every entry whose restore window has
    /// elapsed together with its backing file, and nothing else. Afterwards
    /// no purged reference remains in the image store, and every remaining
    /// entry's backing file still exists.
    pub fn sweep(&mut self, now: u64) -> (purged: Vec<ImageRef>)
        requires
            old(self).wf(),
        ensures
            final(self).wf(),
            final(self).settings == old(self).settings,
            final(self).next_id == old(self).next_id,
            final(self).store.next_token == old(self).store.next_token,
            final(self).store.entries@ == kept_entries(old(self).store.entries@, now),
            purged@ == purged_refs(old(self).store.entries@, now),
            forall|x: Entry|
                #[trigger] final(self).store.entries@.contains(x) <==> old(
                    self,
                ).store.entries@.contains(x) && !expired(x, now),
            forall|x: ImageRef|
                #[trigger] final(self).images.spec_contains(x) <==> old(self).images.spec_contains(
                    x,
                ) && !purged@.contains(x),
            forall|k: int|
                0 <= k < purged@.len() ==> !final(self).images.spec_contains(
                    #[trigger] purged@[k],
                ),
            forall|i: int|
                0 <= i < final(self).store.entries@.len() ==> final(self).images.spec_contains(
                    (#[trigger] final(self).store.entries@[i]).image_ref,
                ),
    {
        let purged = self.store.purge_expired(now);
        let n = purged.len();
        let mut j: usize = 0;
        while j < n
            invariant
                n == purged@.len(),
                j <= n,
                old(self).wf(),
                self.images.wf(),
                self.settings == old(self).settings,
                self.next_id == old(self).next_id,
                self.store.wf(),
                self.store.next_token == old(self).store.next_token,
                self.store.entries@ == kept_entries(old(self).store.entries@, now),
                purged@ == purged_refs(old(self).store.entries@, now),
                forall|x: Entry|
                    #[trigger] self.store.entries@.contains(x) <==> old(
                        self,
                    ).store.entries@.contains(x) && !expired(x, now),
                forall|x: ImageRef|
                    #[trigger] purged@.contains(x) <==> exists|i: int|
                        0 <= i < old(self).store.entries@.len() && (#[trigger] old(
                            self,
                        ).store.entries@[i]).image_ref == x && expired(
                            old(self).store.entries@[i],
                            now,
                        ),
                forall|x: ImageRef|
                    #[trigger] self.images.spec_contains(x) <==> old(self).images.spec_contains(x)
                        && !purged@.subrange(0, j as int).contains(x),
            decreases n - j,
        {
            let ghost pre = purged@.subrange(0, j as int);
            let ghost post = purged@.subrange(0, j + 1);
            proof {
                assert(post =~= pre.push(purged@[j as int]));
                assert forall|x: ImageRef| #[trigger] post.contains(x) <==> pre.contains(x) || x
                    == purged@[j as int] by {
                    if pre.contains(x) {
                        let m = choose|m: int| 0 <= m < pre.len() && pre[m] == x;
                        assert(post[m] == x);
                    }
                    if x == purged@[j as int] {
                        assert(post[post.len() - 1] == x);
                    }
                    if post.contains(x) {
                        let m = choose|m: int| 0 <= m < post.len() && post[m] == x;
                        if m < pre.len() {
                            assert(pre[m] == x);
                        }
                    }
                }
            }
            let r = purged[j];
            self.images.remove(&r);
            j = j + 1;
        }
        proof {
            assert(purged@.subrange(0, n as int) =~= purged@);
            assert forall|k: int|
                0 <= k < purged@.len() implies !self.images.spec_contains(
                #[trigger] purged@[k],
            ) by {
                assert(purged@.contains(purged@[k]));
            }
            assert forall|i: int|
                0 <= i < self.store.entries@.len() implies {
                &&& (#[trigger] self.store.entries@[i]).id < self.next_id
                &&& self.images.spec_contains(self.store.entries@[i].image_ref)
            } by {
                let x = self.store.entries@[i];
                assert(self.store.entries@.contains(x));
                assert(old(self).store.entries@.contains(x));
                let m = choose|m: int|
                    0 <= m < old(self).store.entries@.len() && old(self).store.entries@[m] == x;
                if purged@.contains(x.image_ref) {
                    let p = choose|p: int|
                        0 <= p < old(self).store.entries@.len() && (#[trigger] old(
                            self,
                        ).store.entries@[p]).image_ref == x.image_ref && expired(
                            old(self).store.entries@[p],
                            now,
                        );
                    assert(old(self).store.entries@[p].image_ref.id == old(
                        self,
                    ).store.entries@[p].id);
                    assert(old(self).store.entries@[p].id == x.id);
                    if p != m {
                        assert(old(self).store.entries@[p].id != old(self).store.entries@[m].id);
                    }
                    assert(expired(x, now));
                }
            }
            assert forall|i: int|
                0 <= i < self.images.files@.len() implies (#[trigger] self.images.files@[i]).id
                < self.next_id by {
                let x = self.images.files@[i];
                assert(self.images.files@.contains(x));
                assert(self.images.spec_contains(x));
                assert(old(self).images.spec_contains(x));
                let m = choose|m: int|
                    0 <= m < old(self).images.files@.len() && old(self).images.files@[m] == x;
            }
        }
        purged
    }

    /// The entry with the given identifier, regardless of delete state —
    /// callers decide visibility.
    pub fn get(&self, id: u64) -> (r: Option<&Entry>)
        ensures
            match r {
                Some(e) => self.store.entries@.contains(*e) && e.id == id,
                None => !has_id(self.store.entries@, id),
            },
    {
        self.store.get(id)
    }

    /// The detail projection of the entry with the given identifier,
    /// regardless of delete state.
    pub fn get_detail(&self, id: u64) -> (r: Option<EntryDetail>)
        ensures
            match r {
                Some(d) => exists|e: Entry|
                    self.store.entries@.contains(e) && (#[trigger] e.id) == id && d@
                        == crate::entry::detail_view(e),
                None => !has_id(self.store.entries@, id),
            },
    {
        match self.store.get(id) {
            Some(e) => {
                let d = crate::entry::detail_of(e);
                proof {
                    assert(self.store.entries@.contains(*e) && e.id == id && d@
                        == crate::entry::detail_view(*e));
                }
                Some(d)
            },
            None => None,
        }
    }

    /// The detail of the entry holding the given share token, if any.
    pub fn get_by_share_token(&self, token: u64) -> (r: Option<&Entry>)
        ensures
            match r {
                Some(e) => self.store.entries@.contains(*e) && e.share_token == Some(token),
                None => forall|i: int|
                    0 <= i < self.store.entries@.len() ==> (#[trigger] self.store.entries@[i]).share_token
                        != Some(token),
            },
    {
        self.store.get_by_share_token(token)
    }

    /// Soft-deletes an active entry, stamping it with `now`. A missing or
    /// already-deleted entry reports `NotFound`.
    pub fn soft_delete(&mut self, id: u64, now: u64) -> (r: Result<(), RepoError>)
        requires
            old(self).wf(),
        ensures
            final(self).wf(),
            final(self).images == old(self).images,
            final(self).settings == old(self).settings,
            final(self).next_id == old(self).next_id,
            final(self).store.next_token == old(self).store.next_token,
            match r {
                Ok(()) => exists|k: int|
                    {
                        &&& 0 <= k < old(self).store.entries@.len()
                        &&& (#[trigger] old(self).store.entries@[k]).id == id
                        &&& active(old(self).store.entries@[k])
                        &&& final(self).store.entries@ == old(self).store.entries@.update(
                            k,
                            with_deleted(old(self).store.entries@[k], Some(now)),
                        )
                    },
                Err(err) => {
                    &&& err == RepoError::NotFound
                    &&& final(self).store.entries@ == old(self).store.entries@
                    &&& forall|i: int|
                        0 <= i < old(self).store.entries@.len() && (#[trigger] old(
                            self,
                        ).store.entries@[i]).id == id ==> !active(old(self).store.entries@[i])
                },
            },
    {
        let r = self.store.soft_delete(id, now);
        proof {
            self.lemma_updated_entry_keeps_consistency(*old(self));
        }
        r
    }

    /// Restores a soft-deleted entry, succeeding exactly when it exists, is
    /// soft-deleted, and `now` is within the restore window (boundary
    /// included).
    pub fn restore(&mut self, id: u64, now: u64) -> (r: Result<(), RepoError>)
        requires
            old(self).wf(),
        ensures
            final(self).wf(),
            final(self).images == old(self).images,
            final(self).settings == old(self).settings,
            final(self).next_id == old(self).next_id,
            final(self).store.next_token == old(self).store.next_token,
            match r {
                Ok(()) => exists|k: int|
                    {
                        &&& 0 <= k < old(self).store.entries@.len()
                        &&& (#[trigger] old(self).store.entries@[k]).id == id
                        &&& old(self).store.entries@[k].deleted_at matches Some(d)
                            && crate::entry::within_window(d, now)
                        &&& final(self).store.entries@ == old(self).store.entries@.update(
                            k,
                            with_deleted(old(self).store.entries@[k], None),
                        )
                    },
                Err(err) => {
                    &&& final(self).store.entries@ == old(self).store.entries@
                    &&& match err {
                        RepoError::NotFound => !has_id(old(self).store.entries@, id),
                        RepoError::NotDeleted => exists|k: int|
                            0 <= k < old(self).store.entries@.len() && (#[trigger] old(
                                self,
                            ).store.entries@[k]).id == id && active(old(self).store.entries@[k]),
                        RepoError::WindowExpired => exists|k: int|
                            {
                                &&& 0 <= k < old(self).store.entries@.len()
                                &&& (#[trigger] old(self).store.entries@[k]).id == id
                                &&& old(self).store.entries@[k].deleted_at matches Some(d)
                                    && !crate::entry::within_window(d, now)
                            },
                        _ => false,
                    }
                },
            },
    {
        let r = self.store.restore(id, now);
        proof {
            self.lemma_updated_entry_keeps_consistency(*old(self));
        }
        r
    }

    /// Sets or clears the share token: enabling assigns a fresh unique token
    /// (fresh even when re-sharing), disabling clears it.
    pub fn set_share(&mut self, id: u64, enable: bool) -> (r: Result<Option<u64>, RepoError>)
        requires
            old(self).wf(),
        ensures
            final(self).wf(),
            final(self).images == old(self).images,
            final(self).settings == old(self).settings,
            final(self).next_id == old(self).next_id,
            match r {
                Ok(t) => exists|k: int|
                    {
                        &&& 0 <= k < old(self).store.entries@.len()
                        &&& (#[trigger] old(self).store.entries@[k]).id == id
                        &&& if enable {
                            &&& t == Some(old(self).store.next_token)
                            &&& final(self).store.next_token == old(self).store.next_token + 1
                            &&& final(self).store.entries@ == old(self).store.entries@.update(
                                k,
                                with_token(
                                    old(self).store.entries@[k],
                                    Some(old(self).store.next_token),
                                ),
                            )
                        } else {
                            &&& t is None
                            &&& final(self).store.next_token == old(self).store.next_token
                            &&& final(self).store.entries@ == old(self).store.entries@.update(
                                k,
                                with_token(old(self).store.entries@[k], None),
                            )
                        }
                    },
                Err(err) => {
                    &&& final(self).store.entries@ == old(self).store.entries@
                    &&& final(self).store.next_token == old(self).store.next_token
                    &&& match err {
                        RepoError::NotFound => !has_id(old(self).store.entries@, id),
                        RepoError::Storage => enable && old(self).store.next_token == u64::MAX
                            && has_id(old(self).store.entries@, id),
                        _ => false,
                    }
                },
            },
    {
        let r = self.store.set_share(id, enable);
        proof {
            self.lemma_updated_entry_keeps_consistency(*old(self));
        }
        r
    }

    /// A store whose entries differ from a consistent journal's only
    /// pointwise in delete timestamps or share tokens is still consistent:
    /// identifiers and image references did not move.
    proof fn lemma_updated_entry_keeps_consistency(&self, prev: Journal)
        requires
            prev.wf(),
            self.images == prev.images,
            self.next_id == prev.next_id,
            self.store.wf(),
            self.store.entries@.len() == prev.store.entries@.len(),
            forall|i: int|
                0 <= i < self.store.entries@.len() ==> (#[trigger] self.store.entries@[i]).id
                    == prev.store.entries@[i].id && self.store.entries@[i].image_ref
                    == prev.store.entries@[i].image_ref,
        ensures
            self.wf(),
    {
    }

    /// All summaries, newest first, excluding soft-deleted entries unless
    /// explicitly requested.
    pub fn list(&self, include_deleted: bool) -> (r: Vec<EntrySummary>)
        ensures
            !include_deleted ==> r.deep_view() == active_summary_views(self.store.entries@),
            include_deleted ==> r.deep_view() == summary_views(self.store.entries@),
    {
        self.store.list(include_deleted)
    }

    /// The public listing: the same payload as the default listing when the
    /// collection is public, `NotFound` when it is not.
    pub fn list_public(&self) -> (r: Result<Vec<EntrySummary>, RepoError>)
        ensures
            r is Ok <==> self.settings.is_public,
            match r {
                Ok(v) => v.deep_view() == active_summary_views(self.store.entries@),
                Err(err) => err == RepoError::NotFound,
            },
    {
        if !self.settings.is_public {
            return Err(RepoError::NotFound);
        }
        Ok(self.store.list(false))
    }
}

} // verus!
