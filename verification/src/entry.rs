//! The central data model: a journal entry, its image reference, and the
//! summary and detail projections handed to callers.

use vstd::prelude::*;

verus! {

/// Seconds a soft-deleted entry stays restorable, measured from its delete
/// timestamp. The boundary itself is still within the window (inclusive).
pub const RESTORE_WINDOW_SECS: u64 = 3600;

/// Seconds between two runs of the retention sweeper.
pub const SWEEP_INTERVAL_SECS: u64 = 600;

/// File extension chosen for a stored image, derived from its MIME type.
#[derive(Clone, Copy, Debug, PartialEq, Eq, Structural)]
pub enum ImageExt {
    Png,
    Webp,
    Jpg,
}

/// A stable reference to a stored image: the backing file is named by the
/// owning entry's identifier plus a MIME-derived extension.
#[derive(Clone, Copy, Debug, PartialEq, Eq, Structural)]
pub struct ImageRef {
    pub id: u64,
    pub ext: ImageExt,
}

pub open spec fn spec_ext_for_mime(mime: Seq<char>) -> ImageExt {
    if mime == "image/png"@ {
        ImageExt::Png
    } else if mime == "image/webp"@ {
        ImageExt::Webp
    } else {
        ImageExt::Jpg
    }
}

/// MIME type to file extension: `image/png` and `image/webp` keep their own
/// extension, everything else is stored as `jpg`.
pub fn ext_for_mime(mime: &String) -> (r: ImageExt)
    ensures
        r == spec_ext_for_mime(mime@),
{
    let png: String = "image/png".to_owned();
    let webp: String = "image/webp".to_owned();
    if *mime == png {
        ImageExt::Png
    } else if *mime == webp {
        ImageExt::Webp
    } else {
        ImageExt::Jpg
    }
}

/// The classifier's structured verdict on one image. `confidence` keeps the
/// decimal text of the number the classifier reported, absent if it omitted
/// the field.
#[derive(Debug)]
pub struct Classification {
    pub label: String,
    pub description: String,
    pub tags: Vec<String>,
    pub confidence: Option<String>,
}

/// Mathematical image of a `Classification`.
pub ghost struct ClassificationV {
    pub label: Seq<char>,
    pub description: Seq<char>,
    pub tags: Seq<Seq<char>>,
    pub confidence: Option<Seq<char>>,
}

impl View for Classification {
    type V = ClassificationV;

    open spec fn view(&self) -> ClassificationV {
        ClassificationV {
            label: self.label@,
            description: self.description@,
            tags: self.tags.deep_view(),
            confidence: match self.confidence {
                Some(c) => Some(c@),
                None => None,
            },
        }
    }
}

/// One journal entry. `deleted_at == None` means active; a present
/// `share_token` is the sole credential for anonymous lookup.
pub struct Entry {
    pub id: u64,
    pub created_at: u64,
    pub image_ref: ImageRef,
    pub mime: String,
    pub width: Option<u32>,
    pub height: Option<u32>,
    pub label: String,
    pub description: String,
    pub tags: Vec<String>,
    pub confidence: Option<String>,
    pub raw_payload: Vec<u8>,
    pub deleted_at: Option<u64>,
    pub share_token: Option<u64>,
}

/// Why a repository operation failed.
#[derive(Clone, Copy, Debug, PartialEq, Eq, Structural)]
pub enum RepoError {
    /// No entry meets the operation's precondition (missing, or in the wrong
    /// delete state for a soft delete).
    NotFound,
    /// A restore was asked of an entry that is not soft-deleted.
    NotDeleted,
    /// A restore was asked after the restore window elapsed.
    WindowExpired,
    /// The durable store cannot take the write (an exhausted identifier
    /// space, a missing backing file, or a conflicting record).
    Storage,
}

/// The listing projection of an entry.
#[derive(Debug)]
pub struct EntrySummary {
    pub id: u64,
    pub created_at: u64,
    pub image_ref: ImageRef,
    pub label: String,
    pub description: String,
    pub confidence: Option<String>,
    pub tags: Vec<String>,
    pub shared: bool,
}

/// The detail projection: the summary fields plus the share token, present
/// exactly when the entry is shared.
#[derive(Debug)]
pub struct EntryDetail {
    pub id: u64,
    pub created_at: u64,
    pub image_ref: ImageRef,
    pub label: String,
    pub description: String,
    pub confidence: Option<String>,
    pub tags: Vec<String>,
    pub shared: bool,
    pub share_token: Option<u64>,
}

/// Mathematical image of an `EntrySummary`.
pub ghost struct SummaryV {
    pub id: u64,
    pub created_at: u64,
    pub image_ref: ImageRef,
    pub label: Seq<char>,
    pub description: Seq<char>,
    pub confidence: Option<Seq<char>>,
    pub tags: Seq<Seq<char>>,
    pub shared: bool,
}

/// Mathematical image of an `EntryDetail`.
pub ghost struct DetailV {
    pub id: u64,
    pub created_at: u64,
    pub image_ref: ImageRef,
    pub label: Seq<char>,
    pub description: Seq<char>,
    pub confidence: Option<Seq<char>>,
    pub tags: Seq<Seq<char>>,
    pub shared: bool,
    pub share_token: Option<u64>,
}

pub open spec fn view_opt_string(o: Option<String>) -> Option<Seq<char>> {
    match o {
        Some(s) => Some(s@),
        None => None,
    }
}

impl View for EntrySummary {
    type V = SummaryV;

    open spec fn view(&self) -> SummaryV {
        SummaryV {
            id: self.id,
            created_at: self.created_at,
            image_ref: self.image_ref,
            label: self.label@,
            description: self.description@,
            confidence: view_opt_string(self.confidence),
            tags: self.tags.deep_view(),
            shared: self.shared,
        }
    }
}

impl DeepView for EntrySummary {
    type V = SummaryV;

    open spec fn deep_view(&self) -> SummaryV {
        self.view()
    }
}

impl View for EntryDetail {
    type V = DetailV;

    open spec fn view(&self) -> DetailV {
        DetailV {
            id: self.id,
            created_at: self.created_at,
            image_ref: self.image_ref,
            label: self.label@,
            description: self.description@,
            confidence: view_opt_string(self.confidence),
            tags: self.tags.deep_view(),
            shared: self.shared,
            share_token: self.share_token,
        }
    }
}

/// What the listing shows of an entry.
pub open spec fn summary_view(e: Entry) -> SummaryV {
    SummaryV {
        id: e.id,
        created_at: e.created_at,
        image_ref: e.image_ref,
        label: e.label@,
        description: e.description@,
        confidence: view_opt_string(e.confidence),
        tags: e.tags.deep_view(),
        shared: e.share_token is Some,
    }
}

/// What a detail lookup shows of an entry.
pub open spec fn detail_view(e: Entry) -> DetailV {
    DetailV {
        id: e.id,
        created_at: e.created_at,
        image_ref: e.image_ref,
        label: e.label@,
        description: e.description@,
        confidence: view_opt_string(e.confidence),
        tags: e.tags.deep_view(),
        shared: e.share_token is Some,
        share_token: e.share_token,
    }
}

pub fn clone_strings(v: &Vec<String>) -> (r: Vec<String>)
    ensures
        r@ == v@,
{
    let mut r: Vec<String> = Vec::new();
    let n = v.len();
    let mut i: usize = 0;
    while i < n
        invariant
            n == v@.len(),
            i <= n,
            r@ == v@.subrange(0, i as int),
        decreases n - i,
    {
        r.push(v[i].clone());
        proof {
            assert(r@ =~= v@.subrange(0, i + 1));
        }
        i = i + 1;
    }
    proof {
        assert(v@.subrange(0, n as int) =~= v@);
    }
    r
}

pub fn clone_opt_string(o: &Option<String>) -> (r: Option<String>)
    ensures
        r == *o,
{
    match o {
        Some(s) => Some(s.clone()),
        None => None,
    }
}

/// The listing projection of one entry.
pub fn summary_of(e: &Entry) -> (r: EntrySummary)
    ensures
        r@ == summary_view(*e),
{
    EntrySummary {
        id: e.id,
        created_at: e.created_at,
        image_ref: e.image_ref,
        label: e.label.clone(),
        description: e.description.clone(),
        confidence: clone_opt_string(&e.confidence),
        tags: clone_strings(&e.tags),
        shared: e.share_token.is_some(),
    }
}

/// The detail projection of one entry.
pub fn detail_of(e: &Entry) -> (r: EntryDetail)
    ensures
        r@ == detail_view(*e),
{
    EntryDetail {
        id: e.id,
        created_at: e.created_at,
        image_ref: e.image_ref,
        label: e.label.clone(),
        description: e.description.clone(),
        confidence: clone_opt_string(&e.confidence),
        tags: clone_strings(&e.tags),
        shared: e.share_token.is_some(),
        share_token: e.share_token,
    }
}

pub open spec fn active(e: Entry) -> bool {
    e.deleted_at is None
}

/// The delete timestamp `deleted_at` is still within the restore window at
/// `now`. The boundary counts as within.
pub open spec fn within_window(deleted_at: u64, now: u64) -> bool {
    now <= deleted_at + RESTORE_WINDOW_SECS
}

/// The entry is soft-deleted and its restore window has elapsed at `now`:
/// only such entries may be purged.
pub open spec fn expired(e: Entry, now: u64) -> bool {
    match e.deleted_at {
        Some(d) => !within_window(d, now),
        None => false,
    }
}

} // verus!
