use wutag::color::{default_colors, Color};
use wutag::daemon::{
    drop_if_untagged, handle_clear_cache, handle_edit_tag, handle_inspect_files,
    handle_list_files, handle_list_tags, handle_ping, handle_search, lock_retry_step,
    remove_paths, LockAttempt, LockStep, MAX_LOCK_ATTEMPTS,
};
use wutag::glob::{Glob, DEFAULT_MAX_DEPTH};
use wutag::ipc::{PayloadResult, Response};
use wutag::registry::{EntryData, TagRegistry};
use wutag::store::decide_save;
use wutag::tag::Tag;
use wutag::util::{fmt_err, fmt_ok, fmt_path, fmt_tag, needs_quoting};

fn tag(name: &str, color: Color) -> Tag {
    Tag::new(name.to_string(), color)
}

fn names(v: &[&str]) -> Vec<String> {
    v.iter().map(|s| s.to_string()).collect()
}

/// Tagging one file with two tags on an empty registry: one entry, two
/// tags, and two distinct attribute keys to write.
#[test]
fn tagging_one_file_with_two_tags() {
    let mut registry = TagRegistry::new(String::new());
    let holiday = tag("holiday", Color::Red);
    let year = tag("2020", Color::Blue);

    let (id, created) = registry.add_or_update_entry(EntryData::new("/pics/photo.png".to_string()));
    assert!(created);
    assert_eq!(registry.tag_entry(&holiday, id), None);
    assert_eq!(registry.tag_entry(&year, id), None);

    assert_eq!(registry.list_entries().len(), 1);
    assert_eq!(registry.list_tags().len(), 2);

    // the attribute side: two writes against an initially empty key list
    let mut keys: Vec<String> = vec![];
    let key1 = decide_save(&keys, "holiday").unwrap();
    keys.push(key1.clone());
    let key2 = decide_save(&keys, "2020").unwrap();
    assert_ne!(key1, key2);
    assert!(key1.starts_with("user.wutag."));
    assert!(key2.starts_with("user.wutag."));
}

/// Untagging one of two tags keeps the entry; untagging the last removes
/// it from the registry entirely.
#[test]
fn untagging_down_to_zero_removes_the_entry() {
    let mut registry = TagRegistry::new(String::new());
    let holiday = tag("holiday", Color::Red);
    let year = tag("2020", Color::Blue);
    let (id, _) = registry.add_or_update_entry(EntryData::new("/pics/photo.png".to_string()));
    registry.tag_entry(&holiday, id);
    registry.tag_entry(&year, id);

    assert_eq!(registry.untag_entry(&holiday, id), None);
    let left = registry.list_entry_tags(id).unwrap();
    assert_eq!(left.len(), 1);
    assert_eq!(left[0].name(), "2020");

    let removed = registry.untag_entry(&year, id).unwrap();
    assert_eq!(removed.path(), "/pics/photo.png");
    assert!(registry.get_entry(id).is_none());
    assert!(registry.list_tags().is_empty());
}

/// The union and intersection queries of the search handler.
#[test]
fn search_answers_any_and_all() {
    let mut registry = TagRegistry::new(String::new());
    let holiday = tag("holiday", Color::Red);
    let year = tag("2020", Color::Blue);
    let (a, _) = registry.add_or_update_entry(EntryData::new("/a".to_string()));
    let (b, _) = registry.add_or_update_entry(EntryData::new("/b".to_string()));
    registry.tag_entry(&holiday, a);
    registry.tag_entry(&holiday, b);
    registry.tag_entry(&year, b);

    match handle_search(&registry, &names(&["holiday", "2020"]), false) {
        Response::Search(PayloadResult::Value(found)) => {
            assert_eq!(found.len(), 1);
            assert_eq!(found[0].path(), "/b");
        }
        other => panic!("expected an intersection result, got {:?}", other),
    }
    match handle_search(&registry, &names(&["holiday", "2020"]), true) {
        Response::Search(PayloadResult::Value(found)) => {
            assert_eq!(found.len(), 2);
            let paths: Vec<&str> = found.iter().map(|e| e.path()).collect();
            assert!(paths.contains(&"/a"));
            assert!(paths.contains(&"/b"));
        }
        other => panic!("expected a union result, got {:?}", other),
    }
    match handle_search(&registry, &vec![], true) {
        Response::Search(PayloadResult::Error(m)) => {
            assert_eq!(m, "no tags to search for");
        }
        other => panic!("an empty name list must be rejected, got {:?}", other),
    }
}

/// A tracked path deleted behind the daemon's back is purged from the
/// registry by the reconciliation step, with no explicit untag request.
#[test]
fn externally_deleted_paths_are_purged() {
    let mut registry = TagRegistry::new(String::new());
    let holiday = tag("holiday", Color::Red);
    let (a, _) = registry.add_or_update_entry(EntryData::new("/a".to_string()));
    let (b, _) = registry.add_or_update_entry(EntryData::new("/b".to_string()));
    registry.tag_entry(&holiday, a);
    registry.tag_entry(&holiday, b);

    remove_paths(&mut registry, &names(&["/a", "/never-tracked"]));

    assert!(registry.find_entry("/a").is_none());
    assert!(registry.get_entry(a).is_none());
    let survivor = registry.get_entry(b).unwrap();
    assert_eq!(survivor.path(), "/b");
    assert_eq!(
        registry.list_entries_with_any_tags(&names(&["holiday"])),
        vec![b]
    );
}

#[test]
fn edit_tag_repaints_but_rejects_unknown_names() {
    let mut registry = TagRegistry::new(String::new());
    let (id, _) = registry.add_or_update_entry(EntryData::new("/a".to_string()));
    registry.tag_entry(&tag("holiday", Color::Red), id);

    match handle_edit_tag(&mut registry, "holiday", Color::Green) {
        Response::EditTag(PayloadResult::Value(())) => {}
        other => panic!("expected success, got {:?}", other),
    }
    assert_eq!(registry.get_tag("holiday").unwrap().color(), &Color::Green);

    match handle_edit_tag(&mut registry, "absent", Color::Green) {
        Response::EditTag(PayloadResult::Error(m)) => {
            assert_eq!(m, "tag absent doesn't exist");
        }
        other => panic!("expected a rejection, got {:?}", other),
    }
    // the entry set survived the repaint
    assert_eq!(
        registry.list_entries_with_any_tags(&names(&["holiday"])),
        vec![id]
    );
}

#[test]
fn ping_and_cache_clear() {
    assert!(matches!(handle_ping(), Response::Ping(PayloadResult::Value(()))));
    let mut registry = TagRegistry::new("/r".to_string());
    let (id, _) = registry.add_or_update_entry(EntryData::new("/a".to_string()));
    registry.tag_entry(&tag("t", Color::Red), id);
    match handle_clear_cache(&mut registry) {
        Response::ClearCache(PayloadResult::Value(())) => {}
        other => panic!("expected success, got {:?}", other),
    }
    assert!(registry.list_entries().is_empty());
    assert!(registry.list_tags().is_empty());
}

#[test]
fn lock_discipline_retries_only_on_contention() {
    assert_eq!(lock_retry_step(&LockAttempt::Acquired, 0), LockStep::Proceed);
    assert_eq!(lock_retry_step(&LockAttempt::Poisoned, 0), LockStep::Fatal);
    assert_eq!(lock_retry_step(&LockAttempt::Contended, 0), LockStep::Retry);
    assert_eq!(
        lock_retry_step(&LockAttempt::Contended, MAX_LOCK_ATTEMPTS - 1),
        LockStep::GiveUp
    );
}

#[test]
fn speculative_cleanup_drops_only_untagged_entries() {
    let mut registry = TagRegistry::new(String::new());
    let (id, _) = registry.add_or_update_entry(EntryData::new("/a".to_string()));
    // a freshly minted entry that gained no tag is dropped again
    let dropped = drop_if_untagged(&mut registry, id).unwrap();
    assert_eq!(dropped.path(), "/a");

    let (id2, _) = registry.add_or_update_entry(EntryData::new("/b".to_string()));
    registry.tag_entry(&tag("t", Color::Red), id2);
    assert!(drop_if_untagged(&mut registry, id2).is_none());
    assert!(registry.get_entry(id2).is_some());
}

#[test]
fn glob_descriptors_default_their_depth() {
    let g = Glob::new("*.png".to_string(), "/base".to_string(), None);
    assert_eq!(g.pattern, "*.png");
    assert_eq!(g.base_dir, "/base");
    assert_eq!(g.max_depth, DEFAULT_MAX_DEPTH);
    let g = Glob::new("*".to_string(), "/".to_string(), Some(9));
    assert_eq!(g.max_depth, 9);
}

#[test]
fn random_tags_draw_from_the_palette() {
    let colors = default_colors();
    let t = Tag::random("x".to_string(), &colors);
    assert_eq!(t.name(), "x");
    assert!(colors.contains(t.color()));
    let t = Tag::random("y".to_string(), &vec![]);
    assert_eq!(t.color(), &Color::BrightWhite);
}

#[test]
fn tags_compare_by_name_alone() {
    assert_eq!(tag("a", Color::Red), tag("a", Color::Blue));
    assert_ne!(tag("a", Color::Red), tag("b", Color::Red));
}

#[test]
fn display_helpers_keep_the_text() {
    assert!(fmt_err("boom").contains("ERROR"));
    assert!(fmt_err("boom").contains("boom"));
    assert!(fmt_ok("done").contains("OK"));
    assert!(fmt_ok("done").contains("done"));
    assert!(fmt_path("/a/b").contains("/a/b"));
    assert!(!needs_quoting("plain"));
    assert!(needs_quoting("two words"));
    let shown = fmt_tag(&tag("two words", Color::Red));
    assert!(shown.contains("\"two words\""));
    let shown = fmt_tag(&tag("plain", Color::TrueColor { r: 1, g: 2, b: 3 }));
    assert!(shown.contains("plain"));
}

#[test]
fn listings_mirror_the_registry() {
    let mut registry = TagRegistry::new(String::new());
    let holiday = tag("holiday", Color::Red);
    let year = tag("2020", Color::Blue);
    let (a, _) = registry.add_or_update_entry(EntryData::new("/a".to_string()));
    let (b, _) = registry.add_or_update_entry(EntryData::new("/b".to_string()));
    registry.tag_entry(&holiday, a);
    registry.tag_entry(&holiday, b);
    registry.tag_entry(&year, b);

    match handle_list_tags(&registry, true) {
        Response::ListTags(PayloadResult::Value(v)) => {
            assert_eq!(v.len(), 2);
            assert_eq!(v[0].0.name(), "holiday");
            assert_eq!(v[0].1.len(), 2);
            assert_eq!(v[1].0.name(), "2020");
            assert_eq!(v[1].1.len(), 1);
            assert_eq!(v[1].1[0].path(), "/b");
        }
        other => panic!("expected the tag listing, got {:?}", other),
    }
    match handle_list_files(&registry, true) {
        Response::ListFiles(PayloadResult::Value(v)) => {
            assert_eq!(v.len(), 2);
            assert_eq!(v[0].0.path(), "/a");
            assert_eq!(v[0].1.len(), 1);
            assert_eq!(v[1].0.path(), "/b");
            assert_eq!(v[1].1.len(), 2);
        }
        other => panic!("expected the file listing, got {:?}", other),
    }
    match handle_inspect_files(&registry, &names(&["/b", "/untracked"])) {
        Response::InspectFiles(PayloadResult::Value(v)) => {
            assert_eq!(v.len(), 1);
            assert_eq!(v[0].0.path(), "/b");
            assert_eq!(v[0].1.len(), 2);
        }
        other => panic!("expected the inspection, got {:?}", other),
    }
    match handle_inspect_files(&registry, &vec![]) {
        Response::InspectFiles(PayloadResult::Error(m)) => {
            assert_eq!(m, "no files to inspect");
        }
        other => panic!("an empty file list must be rejected, got {:?}", other),
    }
}
