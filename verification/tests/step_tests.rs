//! The daemon's batch step functions, the dispatch split, and the
//! client's response interpretation, on concrete values.

use wutag::client::{
    interpret_inspect, interpret_list_files, interpret_list_tags, interpret_multi,
    interpret_search, interpret_single, join_errors,
};
use wutag::color::{default_colors, Color};
use wutag::config::Config;
use wutag::daemon::{
    added_event, busy_response, clear_file_step, clear_files_response, clear_files_validate,
    clear_tag_step, clear_tags_response, clear_tags_validate, copy_tags_precheck,
    copy_tags_relabel, copy_tags_resolve, dispatch_query, dispatch_registry, drop_if_untagged,
    removed_event, resolve_failed_response, tag_file_begin, tag_files_response,
    tag_files_validate, tag_save_step, untag_files_response, untag_files_validate, untag_step,
    EntryEvent,
};
use wutag::error::Error;
use wutag::glob::Glob;
use wutag::ipc::{PayloadResult, Request, Response};
use wutag::registry::TagRegistry;
use wutag::tag::Tag;

fn tag(name: &str, color: Color) -> Tag {
    Tag::new(name.to_string(), color)
}

fn names(v: &[&str]) -> Vec<String> {
    v.iter().map(|s| s.to_string()).collect()
}

/// A whole tag batch through the step functions: registering the file
/// records it for the added event, each successful save lands the tag,
/// and a clean batch answers success.
#[test]
fn tag_batch_steps_land_both_tags() {
    let mut reg = TagRegistry::new(String::new());
    let holiday = tag("holiday", Color::Red);
    let year = tag("2020", Color::Blue);
    let mut new_paths: Vec<String> = Vec::new();
    let mut errors: Vec<String> = Vec::new();

    let (id, created) = tag_file_begin(&mut reg, "/pics/photo.png", &mut new_paths);
    assert!(created);
    assert_eq!(new_paths, vec!["/pics/photo.png".to_string()]);

    for t in [&holiday, &year] {
        let (line, futile) = tag_save_step(&mut reg, id, t, "/pics/photo.png", None);
        assert!(line.is_none());
        assert!(!futile);
    }
    assert!(drop_if_untagged(&mut reg, id).is_none());
    assert_eq!(reg.list_entries().len(), 1);
    assert_eq!(reg.list_tags().len(), 2);

    match added_event(new_paths) {
        Some(EntryEvent::Add(v)) => assert_eq!(v, vec!["/pics/photo.png".to_string()]),
        _ => panic!("a non-empty path list queues an add event"),
    }
    match tag_files_response(errors.clone()) {
        Response::TagFiles(PayloadResult::Value(())) => {}
        _ => panic!("a clean batch answers success"),
    }

    // re-registering the same path is an update, not a new track
    let (id2, created2) = tag_file_begin(&mut reg, "/pics/photo.png", &mut errors);
    assert_eq!(id2, id);
    assert!(!created2);
    assert!(errors.is_empty());
}

/// A failed save leaves the registry untouched and yields the exact
/// per-path-per-tag line; only a capacity failure cuts the file's batch.
#[test]
fn tag_save_failures_collect_lines_and_signal_futility() {
    let mut reg = TagRegistry::new(String::new());
    let mut scratch: Vec<String> = Vec::new();
    let (id, _) = tag_file_begin(&mut reg, "/a", &mut scratch);
    let t = tag("x", Color::Red);

    let (line, futile) = tag_save_step(&mut reg, id, &t, "/a", Some(Error::Other("boom".into())));
    assert_eq!(
        line.unwrap(),
        "Error for `/a` tag: `x`, reason: error: boom".to_string()
    );
    assert!(!futile);

    let (line, futile) = tag_save_step(&mut reg, id, &t, "/a", Some(Error::TagListFull));
    assert_eq!(
        line.unwrap(),
        "Error for `/a` tag: `x`, reason: xattributes limit reached on the file".to_string()
    );
    assert!(futile);
    assert!(reg.list_tags().is_empty());

    match tag_files_response(vec!["one".into()]) {
        Response::TagFiles(PayloadResult::Error(v)) => assert_eq!(v, vec!["one".to_string()]),
        _ => panic!("a batch with errors answers the collected lines"),
    }
}

/// Untagging through the steps: the first removal keeps the entry, the
/// last one yields its path for the untracked event; a failed removal
/// leaves the registry untouched with the exact line.
#[test]
fn untag_steps_keep_then_remove_the_entry() {
    let mut reg = TagRegistry::new(String::new());
    let holiday = tag("holiday", Color::Red);
    let year = tag("2020", Color::Blue);
    let mut scratch: Vec<String> = Vec::new();
    let (id, _) = tag_file_begin(&mut reg, "/pics/photo.png", &mut scratch);
    tag_save_step(&mut reg, id, &holiday, "/pics/photo.png", None);
    tag_save_step(&mut reg, id, &year, "/pics/photo.png", None);

    let (line, gone) = untag_step(&mut reg, id, &holiday, "/pics/photo.png", None);
    assert!(line.is_none());
    assert!(gone.is_none());
    assert!(reg.get_entry(id).is_some());

    let (line, gone) = untag_step(
        &mut reg,
        id,
        &year,
        "/pics/photo.png",
        Some(Error::TagNotFound("2020".into())),
    );
    assert_eq!(
        line.unwrap(),
        "/pics/photo.png tag: 2020, error: tag `2020` doesn't exist".to_string()
    );
    assert!(gone.is_none());
    assert!(reg.get_entry(id).is_some());

    let (line, gone) = untag_step(&mut reg, id, &year, "/pics/photo.png", None);
    assert!(line.is_none());
    assert_eq!(gone.unwrap(), "/pics/photo.png".to_string());
    assert!(reg.get_entry(id).is_none());

    match removed_event(vec!["/pics/photo.png".to_string()]) {
        Some(EntryEvent::Remove(v)) => assert_eq!(v.len(), 1),
        _ => panic!("a non-empty path list queues a remove event"),
    }
    assert!(removed_event(Vec::new()).is_none());
    assert!(added_event(Vec::new()).is_none());

    match untag_files_response(Vec::new()) {
        Response::UntagFiles(PayloadResult::Value(())) => {}
        _ => panic!("a clean batch answers success"),
    }
}

/// Clearing a tag through the step: three files carry it, one also a
/// second tag; the two single-tag files come back for disk cleanup and
/// leave the registry, the third survives; an unknown name is skipped.
#[test]
fn clear_tag_step_returns_the_orphaned_entries() {
    let mut reg = TagRegistry::new(String::new());
    let holiday = tag("holiday", Color::Red);
    let year = tag("2020", Color::Blue);
    let mut scratch: Vec<String> = Vec::new();
    let (a, _) = tag_file_begin(&mut reg, "/a", &mut scratch);
    let (b, _) = tag_file_begin(&mut reg, "/b", &mut scratch);
    let (c, _) = tag_file_begin(&mut reg, "/c", &mut scratch);
    for id in [a, b, c] {
        tag_save_step(&mut reg, id, &holiday, "x", None);
    }
    tag_save_step(&mut reg, c, &year, "x", None);

    assert!(clear_tag_step(&mut reg, "nope").is_none());
    assert_eq!(reg.list_entries().len(), 3);

    let cleared = clear_tag_step(&mut reg, "holiday").unwrap();
    let mut paths: Vec<String> = cleared.iter().map(|e| e.path().to_string()).collect();
    paths.sort();
    assert_eq!(paths, vec!["/a".to_string(), "/b".to_string()]);
    assert_eq!(reg.list_entries().len(), 1);
    assert_eq!(reg.list_entries()[0].path(), "/c");
    let left = reg.list_entry_tags(c).unwrap();
    assert_eq!(left.len(), 1);
    assert_eq!(left[0].name(), "2020");

    match clear_tags_response() {
        Response::ClearTags(PayloadResult::Value(())) => {}
        _ => panic!("a validated clear-tags batch answers success"),
    }
}

/// A failed attribute wipe keeps the entry with the exact line; a
/// successful one removes it outright.
#[test]
fn clear_file_step_removes_only_on_success() {
    let mut reg = TagRegistry::new(String::new());
    let holiday = tag("holiday", Color::Red);
    let mut scratch: Vec<String> = Vec::new();
    let (id, _) = tag_file_begin(&mut reg, "/a", &mut scratch);
    tag_save_step(&mut reg, id, &holiday, "/a", None);

    let line = clear_file_step(&mut reg, id, "/a", Some(Error::AttrsChanged));
    assert_eq!(
        line.unwrap(),
        "failed to clear tags from `/a` - xattrs changed while getting their size".to_string()
    );
    assert!(reg.get_entry(id).is_some());

    assert!(clear_file_step(&mut reg, id, "/a", None).is_none());
    assert!(reg.get_entry(id).is_none());
    assert!(reg.list_tags().is_empty());

    match clear_files_response(Vec::new()) {
        Response::ClearFiles(PayloadResult::Value(())) => {}
        _ => panic!("a clean batch answers success"),
    }
}

/// The four batch validations reject empty inputs with their exact
/// messages and pass non-empty ones through.
#[test]
fn batch_validations_reject_empty_inputs() {
    let files = names(&["/a"]);
    let tags = vec![tag("x", Color::Red)];
    let tag_names = names(&["x"]);

    match tag_files_validate(&Vec::new(), &tags) {
        Some(Response::TagFiles(PayloadResult::Error(v))) => {
            assert_eq!(v, vec!["no files to tag".to_string()])
        }
        _ => panic!("an empty file list is rejected"),
    }
    match tag_files_validate(&files, &Vec::new()) {
        Some(Response::TagFiles(PayloadResult::Error(v))) => {
            assert_eq!(v, vec!["no tags provided".to_string()])
        }
        _ => panic!("an empty tag list is rejected"),
    }
    assert!(tag_files_validate(&files, &tags).is_none());

    match untag_files_validate(&Vec::new(), &tags) {
        Some(Response::UntagFiles(PayloadResult::Error(v))) => {
            assert_eq!(v, vec!["no files to untag".to_string()])
        }
        _ => panic!("an empty file list is rejected"),
    }
    match untag_files_validate(&files, &Vec::new()) {
        Some(Response::UntagFiles(PayloadResult::Error(v))) => {
            assert_eq!(v, vec!["no tags provided".to_string()])
        }
        _ => panic!("an empty tag list is rejected"),
    }
    assert!(untag_files_validate(&files, &tags).is_none());

    match clear_files_validate(&Vec::new()) {
        Some(Response::ClearFiles(PayloadResult::Error(v))) => {
            assert_eq!(v, vec!["no files to clear".to_string()])
        }
        _ => panic!("an empty file list is rejected"),
    }
    assert!(clear_files_validate(&files).is_none());

    match clear_tags_validate(&Vec::new()) {
        Some(Response::ClearTags(PayloadResult::Error(v))) => {
            assert_eq!(v, vec!["no tags to clear".to_string()])
        }
        _ => panic!("an empty tag list is rejected"),
    }
    assert!(clear_tags_validate(&tag_names).is_none());
}

/// The read dispatch answers the union and intersection queries and
/// hands every other request back; the write dispatch answers the
/// registry-only mutations.
#[test]
fn dispatch_splits_by_lock_domain() {
    let mut reg = TagRegistry::new(String::new());
    let holiday = tag("holiday", Color::Red);
    let year = tag("2020", Color::Blue);
    let mut scratch: Vec<String> = Vec::new();
    let (a, _) = tag_file_begin(&mut reg, "/a", &mut scratch);
    let (b, _) = tag_file_begin(&mut reg, "/b", &mut scratch);
    tag_save_step(&mut reg, a, &holiday, "x", None);
    tag_save_step(&mut reg, b, &holiday, "x", None);
    tag_save_step(&mut reg, b, &year, "x", None);

    let all = dispatch_query(
        &reg,
        Request::Search { tags: names(&["holiday", "2020"]), any: false },
    );
    match all {
        Ok(Response::Search(PayloadResult::Value(v))) => {
            assert_eq!(v.len(), 1);
            assert_eq!(v[0].path(), "/b");
        }
        _ => panic!("the intersection query lists the one file carrying both"),
    }
    let any = dispatch_query(
        &reg,
        Request::Search { tags: names(&["holiday", "2020"]), any: true },
    );
    match any {
        Ok(Response::Search(PayloadResult::Value(v))) => {
            let mut paths: Vec<&str> = v.iter().map(|e| e.path()).collect();
            paths.sort();
            assert_eq!(paths, vec!["/a", "/b"]);
        }
        _ => panic!("the union query lists both files, each once"),
    }
    match dispatch_query(&reg, Request::Ping) {
        Err(Request::Ping) => {}
        _ => panic!("a non-query request is handed back unchanged"),
    }

    match dispatch_registry(
        &mut reg,
        Request::EditTag { tag: "holiday".to_string(), color: Color::Cyan },
    ) {
        Ok(Response::EditTag(PayloadResult::Value(()))) => {}
        _ => panic!("repainting a known tag succeeds"),
    }
    assert_eq!(*reg.get_tag("holiday").unwrap().color(), Color::Cyan);

    match dispatch_registry(&mut reg, Request::ClearCache) {
        Ok(Response::ClearCache(PayloadResult::Value(()))) => {}
        _ => panic!("clearing the cache succeeds"),
    }
    assert!(reg.list_entries().is_empty());

    match dispatch_registry(&mut reg, Request::ClearTags { tags: names(&["x"]) }) {
        Err(Request::ClearTags { tags }) => assert_eq!(tags, names(&["x"])),
        _ => panic!("a batch request is handed back unchanged"),
    }
}

/// The busy reply and the failed-resolution reply keep the variant of
/// the operation, pattern requests under their explicit counterpart.
#[test]
fn busy_and_resolution_failures_keep_the_variant() {
    match busy_response(&Request::ClearTags { tags: Vec::new() }) {
        Response::ClearTags(PayloadResult::Error(v)) => {
            assert_eq!(v, vec!["registry busy".to_string()])
        }
        _ => panic!("a batch busy reply is list-shaped under its own variant"),
    }
    match busy_response(&Request::Search { tags: Vec::new(), any: true }) {
        Response::Search(PayloadResult::Error(m)) => assert_eq!(m, "registry busy"),
        _ => panic!("a query busy reply is string-shaped under its own variant"),
    }
    let glob = Glob::new("*.png".to_string(), ".".to_string(), None);
    match busy_response(&Request::TagFilesPattern { glob, tags: Vec::new() }) {
        Response::TagFiles(PayloadResult::Error(v)) => {
            assert_eq!(v, vec!["registry busy".to_string()])
        }
        _ => panic!("a pattern busy reply stands under the explicit variant"),
    }

    let glob = Glob::new("*.png".to_string(), ".".to_string(), None);
    match resolve_failed_response(
        &Request::UntagFilesPattern { glob, tags: Vec::new() },
        "bad pattern".to_string(),
    ) {
        Response::UntagFiles(PayloadResult::Error(v)) => {
            assert_eq!(v, vec!["bad pattern".to_string()])
        }
        _ => panic!("a failed resolution answers under the explicit variant"),
    }
    let glob = Glob::new("*.png".to_string(), ".".to_string(), None);
    match resolve_failed_response(
        &Request::InspectFilesPattern { glob },
        "bad pattern".to_string(),
    ) {
        Response::InspectFiles(PayloadResult::Error(m)) => assert_eq!(m, "bad pattern"),
        _ => panic!("an inspection resolution failure is string-shaped"),
    }
}

/// The copy preamble and the relabelling of its outcome.
#[test]
fn copy_helpers_decide_the_preamble_and_the_label() {
    match copy_tags_precheck(Err(Error::Other("boom".into()))) {
        Err(Response::CopyTags(PayloadResult::Error(v))) => {
            assert_eq!(v, vec!["failed to copy tags - error: boom".to_string()])
        }
        _ => panic!("a failed source listing answers one error line"),
    }
    match copy_tags_precheck(Ok(Vec::new())) {
        Err(Response::CopyTags(PayloadResult::Value(()))) => {}
        _ => panic!("a source with no tags succeeds at once"),
    }
    match copy_tags_precheck(Ok(names(&["holiday"]))) {
        Ok(v) => assert_eq!(v, names(&["holiday"])),
        _ => panic!("a non-empty listing goes on to the batch"),
    }

    let mut reg = TagRegistry::new(String::new());
    let mut scratch: Vec<String> = Vec::new();
    let (id, _) = tag_file_begin(&mut reg, "/a", &mut scratch);
    tag_save_step(&mut reg, id, &tag("holiday", Color::Magenta), "x", None);
    let palette = default_colors();
    let resolved = copy_tags_resolve(&reg, &names(&["holiday", "fresh"]), &palette);
    assert_eq!(resolved.len(), 2);
    assert_eq!(resolved[0].name(), "holiday");
    assert_eq!(*resolved[0].color(), Color::Magenta);
    assert_eq!(resolved[1].name(), "fresh");
    assert!(palette.contains(resolved[1].color()));

    match copy_tags_relabel(Response::TagFiles(PayloadResult::Value(()))) {
        Response::CopyTags(PayloadResult::Value(())) => {}
        _ => panic!("a tag-batch outcome is relabelled as the copy's"),
    }
}

/// The client-side interpreters fix the result for every reply variant:
/// success only on a value payload of an accepted variant, per-item
/// errors joined, and the wrong variant a decode failure.
#[test]
fn interpreters_fix_the_result_per_variant() {
    assert_eq!(join_errors(&Vec::new()), "");
    assert_eq!(join_errors(&names(&["a", "b"])), "\n - a\n - b");

    assert!(interpret_multi(Response::TagFiles(PayloadResult::Value(()))).is_ok());
    match interpret_multi(Response::ClearFiles(PayloadResult::Error(names(&["a", "b"])))) {
        Err(Error::Other(m)) => assert_eq!(m, "\n - a\n - b"),
        _ => panic!("per-item errors are joined into one message"),
    }
    match interpret_multi(Response::Ping(PayloadResult::Value(()))) {
        Err(Error::DecodeError) => {}
        _ => panic!("a non-batch variant is a decode failure"),
    }

    assert!(interpret_single(Response::Ping(PayloadResult::Value(()))).is_ok());
    match interpret_single(Response::EditTag(PayloadResult::Error("no".to_string()))) {
        Err(Error::Other(m)) => assert_eq!(m, "no"),
        _ => panic!("a single-subject error is carried as the message"),
    }
    match interpret_single(Response::TagFiles(PayloadResult::Value(()))) {
        Err(Error::DecodeError) => {}
        _ => panic!("a batch variant is a decode failure here"),
    }

    match interpret_search(Response::Search(PayloadResult::Value(Vec::new()))) {
        Ok(v) => assert!(v.is_empty()),
        _ => panic!("a search value is handed through"),
    }
    match interpret_search(Response::Ping(PayloadResult::Value(()))) {
        Err(Error::DecodeError) => {}
        _ => panic!("the wrong variant is a decode failure"),
    }
    match interpret_list_tags(Response::ListTags(PayloadResult::Error("m".to_string()))) {
        Err(Error::Other(m)) => assert_eq!(m, "m"),
        _ => panic!("a listing error is carried as the message"),
    }
    match interpret_list_files(Response::ListFiles(PayloadResult::Value(Vec::new()))) {
        Ok(v) => assert!(v.is_empty()),
        _ => panic!("a listing value is handed through"),
    }
    match interpret_inspect(Response::Search(PayloadResult::Value(Vec::new()))) {
        Err(Error::DecodeError) => {}
        _ => panic!("the wrong variant is a decode failure"),
    }
}

/// Every error variant renders as its one documented line.
#[test]
fn error_messages_render_each_variant() {
    assert_eq!(Error::TagExists.message(), "tag already exists");
    assert_eq!(
        Error::TagNotFound("x".into()).message(),
        "tag `x` doesn't exist"
    );
    assert_eq!(
        Error::InvalidTagKey("user.k".into()).message(),
        "tag key was invalid - user.k"
    );
    assert_eq!(
        Error::TagListFull.message(),
        "xattributes limit reached on the file"
    );
    assert_eq!(
        Error::AttrsChanged.message(),
        "xattrs changed while getting their size"
    );
    assert_eq!(
        Error::InvalidColor("zz".into()).message(),
        "provided color `zz` is not a valid hex color"
    );
    assert_eq!(Error::DecodeError.message(), "failed to decode payload");
    assert_eq!(
        Error::Transport("refused".into()).message(),
        "transport failure - refused"
    );
    assert_eq!(
        Error::LockContended.message(),
        "failed to acquire lock for registry"
    );
    assert_eq!(
        Error::LockPoisoned.message(),
        "failed to acquire poisoned lock"
    );
    assert_eq!(Error::Other("boom".into()).message(), "error: boom");
}

/// The configured palette resolves each string through the color parser
/// and rejects the configuration on the first invalid one.
#[test]
fn configured_palette_parses_each_color() {
    let cfg = Config {
        max_depth: None,
        colors: Some(names(&["#ff0000", "0x00ff00"])),
        pretty_output: false,
    };
    let v = cfg.resolve_colors().unwrap();
    assert_eq!(v[0], Color::TrueColor { r: 0xff, g: 0, b: 0 });
    assert_eq!(v[1], Color::TrueColor { r: 0, g: 0xff, b: 0 });

    let bad = Config {
        max_depth: None,
        colors: Some(names(&["#ff0000", "nope"])),
        pretty_output: false,
    };
    match bad.resolve_colors() {
        Err(Error::InvalidColor(s)) => assert_eq!(s, "nope"),
        _ => panic!("one invalid color rejects the configuration"),
    }

    let none = Config { max_depth: None, colors: None, pretty_output: true };
    assert_eq!(none.resolve_colors().unwrap().len(), 13);
}
