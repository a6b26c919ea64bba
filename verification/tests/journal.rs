use scene_journal::entry::{ext_for_mime, Classification, ImageExt, RepoError};
use scene_journal::journal::Journal;

const TINY_PNG: [u8; 73] = [
    137, 80, 78, 71, 13, 10, 26, 10, 0, 0, 0, 13, 73, 72, 68, 82, 0, 0, 0, 3, 0, 0, 0, 2, 8, 2, 0,
    0, 0, 18, 22, 241, 77, 0, 0, 0, 16, 73, 68, 65, 84, 120, 156, 99, 224, 18, 145, 131, 32, 6, 56,
    11, 0, 13, 172, 1, 105, 248, 81, 126, 220, 0, 0, 0, 0, 73, 69, 78, 68, 174, 66, 96, 130,
];

fn classification(label: &str) -> Classification {
    Classification {
        label: label.to_string(),
        description: "A test scene.".to_string(),
        tags: vec!["one".to_string(), "two".to_string(), "three".to_string()],
        confidence: Some("0.5".to_string()),
    }
}

fn create_entry(j: &mut Journal, now: u64, label: &str) -> u64 {
    let mime = "image/jpeg".to_string();
    let ticket = j.begin_create(b"not really an image", &mime).unwrap();
    let detail = j
        .commit_create(ticket, now, mime, classification(label), b"{}".to_vec())
        .unwrap();
    detail.id
}

#[test]
fn extension_follows_mime() {
    assert_eq!(ext_for_mime(&"image/png".to_string()), ImageExt::Png);
    assert_eq!(ext_for_mime(&"image/webp".to_string()), ImageExt::Webp);
    assert_eq!(ext_for_mime(&"image/jpeg".to_string()), ImageExt::Jpg);
    assert_eq!(ext_for_mime(&"application/blob".to_string()), ImageExt::Jpg);
}

#[test]
fn begin_create_probes_dimensions() {
    let mut j = Journal::new();
    let t = j.begin_create(&TINY_PNG, &"image/png".to_string()).unwrap();
    assert_eq!(t.width, Some(3));
    assert_eq!(t.height, Some(2));
    assert_eq!(t.image_ref.ext, ImageExt::Png);

    let t2 = j.begin_create(b"garbage", &"image/jpeg".to_string()).unwrap();
    assert_eq!(t2.width, None);
    assert_eq!(t2.height, None);
    assert_ne!(t.image_ref, t2.image_ref);
}

#[test]
fn created_entry_is_active_and_unshared() {
    let mut j = Journal::new();
    let mime = "image/webp".to_string();
    let ticket = j.begin_create(b"bytes", &mime).unwrap();
    let d = j
        .commit_create(ticket, 42, mime, classification("Creek"), b"{}".to_vec())
        .unwrap();
    assert!(!d.shared);
    assert_eq!(d.share_token, None);
    assert_eq!(d.created_at, 42);
    assert_eq!(d.label, "Creek");
    assert_eq!(d.tags.len(), 3);
    let list = j.list(false);
    assert_eq!(list.len(), 1);
    assert_eq!(list[0].id, d.id);
}

#[test]
fn commit_fails_without_backing_file() {
    let mut j = Journal::new();
    let mime = "image/jpeg".to_string();
    let ticket = j.begin_create(b"bytes", &mime).unwrap();
    assert!(j.abort_create(ticket.image_ref));
    assert!(j.images.files.is_empty());
    let r = j.commit_create(ticket, 1, mime, classification("Gone"), b"{}".to_vec());
    assert_eq!(r.err().unwrap(), RepoError::Storage);
    assert!(j.list(true).is_empty());
}

#[test]
fn commit_fails_on_taken_identifier() {
    let mut j = Journal::new();
    let mime = "image/jpeg".to_string();
    let ticket = j.begin_create(b"bytes", &mime).unwrap();
    j.commit_create(ticket, 1, mime.clone(), classification("First"), b"{}".to_vec())
        .unwrap();
    let r = j.commit_create(ticket, 2, mime, classification("Second"), b"{}".to_vec());
    assert_eq!(r.err().unwrap(), RepoError::Storage);
}

#[test]
fn listing_tracks_delete_state() {
    let mut j = Journal::new();
    let a = create_entry(&mut j, 10, "A");
    let b = create_entry(&mut j, 20, "B");
    assert_eq!(j.list(false).len(), 2);

    j.soft_delete(a, 30).unwrap();
    let visible = j.list(false);
    assert_eq!(visible.len(), 1);
    assert_eq!(visible[0].id, b);
    let all = j.list(true);
    assert_eq!(all.len(), 2);

    // Deleting again, or deleting something unknown, is NotFound.
    assert_eq!(j.soft_delete(a, 31).unwrap_err(), RepoError::NotFound);
    assert_eq!(j.soft_delete(999, 31).unwrap_err(), RepoError::NotFound);

    // The deleted entry is still fetchable by identifier.
    assert_eq!(j.get(a).unwrap().id, a);
    assert!(j.get_detail(a).is_some());
}

#[test]
fn listing_is_newest_first_with_stable_ties() {
    let mut j = Journal::new();
    let mid = create_entry(&mut j, 50, "Mid");
    let newest = create_entry(&mut j, 90, "New");
    let oldest = create_entry(&mut j, 10, "Old");
    let tie = create_entry(&mut j, 50, "Tie");
    let order: Vec<u64> = j.list(false).iter().map(|s| s.id).collect();
    // A tie goes to the newcomer.
    assert_eq!(order, vec![newest, tie, mid, oldest]);
}

#[test]
fn restore_succeeds_within_window_inclusive() {
    let mut j = Journal::new();
    let id = create_entry(&mut j, 100, "A");
    j.soft_delete(id, 1000).unwrap();
    // Exactly at the boundary: still within the window.
    j.restore(id, 1000 + 3600).unwrap();
    assert_eq!(j.list(false).len(), 1);
}

#[test]
fn restore_fails_past_window() {
    let mut j = Journal::new();
    let id = create_entry(&mut j, 100, "A");
    j.soft_delete(id, 1000).unwrap();
    assert_eq!(j.restore(id, 1000 + 3601).unwrap_err(), RepoError::WindowExpired);
    // The entry stays soft-deleted.
    assert!(j.list(false).is_empty());
}

#[test]
fn restore_distinguishes_missing_and_not_deleted() {
    let mut j = Journal::new();
    let id = create_entry(&mut j, 100, "A");
    assert_eq!(j.restore(999, 200).unwrap_err(), RepoError::NotFound);
    assert_eq!(j.restore(id, 200).unwrap_err(), RepoError::NotDeleted);
}

#[test]
fn share_roundtrip_and_invalidation() {
    let mut j = Journal::new();
    let id = create_entry(&mut j, 100, "A");
    let token = j.set_share(id, true).unwrap().unwrap();
    let e = j.get_by_share_token(token).unwrap();
    assert_eq!(e.id, id);
    assert!(j.get_detail(id).unwrap().shared);

    // Re-sharing hands out a fresh token; the old one keeps resolving only
    // through the new value.
    let token2 = j.set_share(id, true).unwrap().unwrap();
    assert_ne!(token, token2);
    assert!(j.get_by_share_token(token).is_none());

    assert_eq!(j.set_share(id, false).unwrap(), None);
    assert!(j.get_by_share_token(token2).is_none());
    assert!(!j.get_detail(id).unwrap().shared);

    assert_eq!(j.set_share(999, true).unwrap_err(), RepoError::NotFound);
}

#[test]
fn share_state_is_orthogonal_to_delete_state() {
    let mut j = Journal::new();
    let id = create_entry(&mut j, 100, "A");
    j.soft_delete(id, 200).unwrap();
    let token = j.set_share(id, true).unwrap().unwrap();
    assert_eq!(j.get_by_share_token(token).unwrap().id, id);
}

#[test]
fn sweeper_purges_only_expired_entries() {
    let mut j = Journal::new();
    let fresh = create_entry(&mut j, 10, "Fresh");
    let doomed = create_entry(&mut j, 20, "Doomed");
    let active = create_entry(&mut j, 30, "Active");
    j.soft_delete(doomed, 1000).unwrap();
    j.soft_delete(fresh, 4000).unwrap();

    // At the boundary the window still holds: nothing is purged.
    let purged = j.sweep(1000 + 3600);
    assert!(purged.is_empty());
    assert_eq!(j.list(true).len(), 3);

    // Past the boundary only the expired entry goes, record and file both.
    let doomed_ref = j.get(doomed).unwrap().image_ref;
    let purged = j.sweep(1000 + 3601);
    assert_eq!(purged, vec![doomed_ref]);
    assert!(j.get(doomed).is_none());
    assert!(j.get(fresh).is_some());
    assert!(j.get(active).is_some());
    assert!(!j.images.files.contains(&doomed_ref));
    // Every remaining entry still has its backing file.
    assert_eq!(j.images.files.len(), 2);
}

#[test]
fn purge_is_conditional_on_expiry() {
    let mut j = Journal::new();
    let id = create_entry(&mut j, 10, "A");
    // An active entry is never purgeable.
    assert_eq!(j.store.purge(id, 100).unwrap_err(), RepoError::NotFound);
    j.soft_delete(id, 1000).unwrap();
    // Still within the window (boundary included): the row stays.
    assert_eq!(j.store.purge(id, 1000 + 3600).unwrap_err(), RepoError::NotFound);
    let img = j.store.purge(id, 1000 + 3601).unwrap();
    assert_eq!(img.id, id);
    assert!(j.get(id).is_none());
    // Purge is irreversible, and a second attempt sees nothing.
    assert_eq!(j.store.purge(id, 1000 + 3602).unwrap_err(), RepoError::NotFound);
}

#[test]
fn upload_lifecycle_end_to_end() {
    let mut j = Journal::new();
    let mime = "image/png".to_string();
    let ticket = j.begin_create(&TINY_PNG, &mime).unwrap();
    let d = j
        .commit_create(ticket, 1000, mime, classification("Pines"), b"{}".to_vec())
        .unwrap();
    assert!(!d.shared);
    assert!(d.tags.len() >= 3 && d.tags.len() <= 6);

    j.soft_delete(d.id, 2000).unwrap();
    assert!(j.list(false).is_empty());

    // Within the hour a restore brings it back into the listing.
    j.restore(d.id, 2000 + 1800).unwrap();
    assert_eq!(j.list(false).len(), 1);

    // Deleted again and left past the window, the sweeper purges it for good.
    j.soft_delete(d.id, 5000).unwrap();
    let purged = j.sweep(5000 + 3601);
    assert_eq!(purged.len(), 1);
    assert!(j.get(d.id).is_none());
    assert_eq!(j.restore(d.id, 5000 + 3602).unwrap_err(), RepoError::NotFound);
    assert!(j.images.files.is_empty());
}

#[test]
fn public_listing_follows_settings_toggle() {
    let mut j = Journal::new();
    create_entry(&mut j, 10, "A");
    assert!(!j.get_settings());
    assert_eq!(j.list_public().unwrap_err(), RepoError::NotFound);

    j.update_settings(true);
    assert!(j.get_settings());
    let public: Vec<u64> = j.list_public().unwrap().iter().map(|s| s.id).collect();
    let private: Vec<u64> = j.list(false).iter().map(|s| s.id).collect();
    assert_eq!(public, private);

    j.update_settings(false);
    assert_eq!(j.list_public().unwrap_err(), RepoError::NotFound);
}
