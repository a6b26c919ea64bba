//! Model of the image store: the set of image references whose backing bytes
//! are currently on disk. The store keeps no index of its own beyond this —
//! the entry store is the source of truth for which references are live.

use vstd::prelude::*;

use crate::entry::ImageRef;

verus! {

/// The pixel dimensions recorded in the image bytes, absent when the bytes do
/// not decode as a supported image. A function of the bytes alone.
pub uninterp spec fn dims_of(image_bytes: Seq<u8>) -> Option<(u32, u32)>;

/// Relies on `image::load_from_memory`: decodes the buffer and reads the
/// image's width and height; decoding is deterministic in the bytes alone,
/// and a buffer that is no supported image yields nothing.
#[verifier::external_body]
pub(crate) fn probe_dimensions(bytes: &[u8]) -> (r: Option<(u32, u32)>)
    ensures
        r == dims_of(bytes@),
{
    match image::load_from_memory(bytes) {
        Ok(img) => Some((img.width(), img.height())),
        Err(_) => None,
    }
}

/// The references whose backing files exist. Kept duplicate-free.
pub struct ImageStore {
    pub files: Vec<ImageRef>,
}

impl ImageStore {
    /// No reference is recorded twice.
    pub open spec fn wf(self) -> bool {
        forall|i: int, j: int| 0 <= i < j < self.files.len() ==> self.files[i] != self.files[j]
    }

    pub open spec fn spec_contains(self, r: ImageRef) -> bool {
        self.files@.contains(r)
    }

    pub fn new() -> (s: Self)
        ensures
            s.wf(),
            s.files@ =~= Seq::<ImageRef>::empty(),
    {
        ImageStore { files: Vec::new() }
    }

    pub fn contains(&self, r: &ImageRef) -> (b: bool)
        ensures
            b == self.spec_contains(*r),
    {
        let n = self.files.len();
        let mut i: usize = 0;
        while i < n
            invariant
                n == self.files@.len(),
                i <= n,
                forall|k: int| 0 <= k < i ==> self.files[k] != *r,
            decreases n - i,
        {
            if self.files[i] == *r {
                return true;
            }
            i = i + 1;
        }
        proof {
            if self.files@.contains(*r) {
                let k = choose|k: int| 0 <= k < self.files@.len() && self.files@[k] == *r;
                assert(self.files[k] == *r);
            }
        }
        false
    }

    /// Records a freshly written file. Fresh identifiers make overwrites
    /// impossible, so the reference must not be present yet.
    pub fn add(&mut self, r: ImageRef)
        requires
            old(self).wf(),
            !old(self).spec_contains(r),
        ensures
            final(self).wf(),
            final(self).files@ == old(self).files@.push(r),
            forall|x: ImageRef|
                #[trigger] final(self).spec_contains(x) <==> old(self).spec_contains(x) || x == r,
    {
        self.files.push(r);
        proof {
            assert forall|x: ImageRef|
                #[trigger] self.spec_contains(x) <==> old(self).spec_contains(x) || x == r by {
                assert(self.files@ == old(self).files@.push(r));
                if old(self).spec_contains(x) {
                    let i = choose|i: int|
                        0 <= i < old(self).files@.len() && old(self).files@[i] == x;
                    assert(self.files@[i] == x);
                }
                if x == r {
                    assert(self.files@[self.files@.len() - 1] == x);
                }
                if self.spec_contains(x) {
                    let i = choose|i: int| 0 <= i < self.files@.len() && self.files@[i] == x;
                    if i < old(self).files@.len() {
                        assert(old(self).files@[i] == x);
                    }
                }
            }
        }
    }

    /// Forgets a reference after its backing file is removed. Removing an
    /// absent reference is a tolerated no-op, never an error.
    pub fn remove(&mut self, r: &ImageRef)
        requires
            old(self).wf(),
        ensures
            final(self).wf(),
            forall|x: ImageRef|
                #[trigger] final(self).spec_contains(x) <==> old(self).spec_contains(x) && x
                    != *r,
    {
        let n = self.files.len();
        let mut kept: Vec<ImageRef> = Vec::new();
        let mut i: usize = 0;
        while i < n
            invariant
                n == self.files@.len(),
                i <= n,
                old(self).files@ == self.files@,
                old(self).wf(),
                forall|a: int, b: int| 0 <= a < b < kept@.len() ==> kept@[a] != kept@[b],
                forall|x: ImageRef|
                    #[trigger] kept@.contains(x) <==> (self.files@.subrange(0, i as int).contains(
                        x,
                    ) && x != *r),
            decreases n - i,
        {
            let ghost prev = kept@;
            let ghost pre = self.files@.subrange(0, i as int);
            let ghost post = self.files@.subrange(0, i + 1);
            let cur = self.files[i];
            if cur != *r {
                kept.push(cur);
            }
            proof {
                assert(post =~= pre.push(self.files@[i as int]));
                assert forall|a: int, b: int|
                    0 <= a < b < kept@.len() implies kept@[a] != kept@[b] by {
                    if b == kept@.len() - 1 && kept@.len() > prev.len() {
                        assert(kept@[b] == self.files@[i as int]);
                        let xa = kept@[a];
                        assert(prev.contains(xa));
                        let k = choose|k: int| 0 <= k < pre.len() && pre[k] == xa;
                        assert(self.files@[k] == xa);
                        assert(self.files@[k] != self.files@[i as int]);
                    } else if b < prev.len() {
                    }
                }
                assert forall|x: ImageRef|
                    #[trigger] kept@.contains(x) <==> (post.contains(x) && x != *r) by {
                    if kept@.contains(x) {
                        let k = choose|k: int| 0 <= k < kept@.len() && kept@[k] == x;
                        if k < prev.len() {
                            assert(prev.contains(x));
                            assert(pre.contains(x));
                            let m = choose|m: int| 0 <= m < pre.len() && pre[m] == x;
                            assert(post[m] == x);
                        } else {
                            assert(x == self.files@[i as int]);
                            assert(post[post.len() - 1] == x);
                        }
                    }
                    if post.contains(x) && x != *r {
                        let m = choose|m: int| 0 <= m < post.len() && post[m] == x;
                        if m < pre.len() {
                            assert(pre[m] == x);
                            assert(pre.contains(x));
                            assert(prev.contains(x));
                            let k = choose|k: int| 0 <= k < prev.len() && prev[k] == x;
                            assert(kept@[k] == x);
                        } else {
                            assert(x == self.files@[i as int]);
                            assert(kept@[kept@.len() - 1] == x);
                        }
                    }
                }
            }
            i = i + 1;
        }
        proof {
            assert(self.files@.subrange(0, n as int) =~= self.files@);
        }
        self.files = kept;
    }
}

} // verus!
