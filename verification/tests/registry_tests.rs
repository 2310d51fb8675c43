use wutag::color::{default_colors, Color};
use wutag::registry::{EntryData, EntryRecord, TagRegistry};
use wutag::tag::Tag;

fn tag(name: &str, color: Color) -> Tag {
    Tag::new(name.to_string(), color)
}

#[test]
fn adds_and_tags_entry() {
    let path = "/tmp".to_string();
    let entry = EntryData::new(path.clone());
    let mut registry = TagRegistry::new(String::new());
    registry.add_or_update_entry(entry.duplicate());
    let id = registry.find_entry(&path).unwrap();

    let got = registry.get_entry(id).unwrap();
    assert_eq!(got.path(), entry.path());

    let tag = Tag::random("test".to_string(), &default_colors());
    let second = Tag::random("second".to_string(), &default_colors());

    assert_eq!(registry.tag_entry(&tag, id), None);
    assert_eq!(registry.list_entry_tags(id), Some(vec![tag.duplicate()]));
    assert_eq!(registry.tag_entry(&second, id), None);
    assert!(registry.list_entry_tags(id).unwrap().contains(&tag));
    assert!(registry.list_entry_tags(id).unwrap().contains(&second));
    assert_eq!(registry.untag_entry(&tag, id), None);
    assert_eq!(registry.list_entry_tags(id), Some(vec![second.duplicate()]));
    assert_eq!(registry.untag_entry(&tag, id), None);
    assert_eq!(registry.untag_entry(&second, id), Some(entry));
    assert_eq!(registry.list_entry_tags(id), None);
}

#[test]
fn registry_adds_and_tags_entry() {
    let path = "/tmp".to_string();
    let entry = EntryData::new(path.clone());
    let mut registry = TagRegistry::new(String::new());
    registry.add_or_update_entry(entry.duplicate());
    let id = registry.find_entry(&path).unwrap();

    let got = registry.get_entry(id).unwrap();
    assert_eq!(got.path(), entry.path());

    let tag = Tag::random("test".to_string(), &default_colors());
    let second = Tag::random("second".to_string(), &default_colors());

    assert_eq!(registry.tag_entry(&tag, id), None);
    assert_eq!(registry.list_entry_tags(id), Some(vec![tag.duplicate()]));
    assert_eq!(registry.tag_entry(&second, id), None);
    assert!(registry.list_entry_tags(id).unwrap().contains(&tag));
    assert!(registry.list_entry_tags(id).unwrap().contains(&second));
    assert_eq!(registry.untag_entry(&tag, id), None);
    assert_eq!(registry.list_entry_tags(id), Some(vec![second.duplicate()]));
    assert_eq!(registry.untag_entry(&tag, id), None);
    assert_eq!(registry.untag_entry(&second, id), Some(entry));
    assert_eq!(registry.list_entry_tags(id), None);
}

#[test]
fn adds_multiple_entries() {
    let mut registry = TagRegistry::new(String::new());

    let entry = EntryData::new("/tmp".to_string());
    let fst_id = registry.add_or_update_entry(entry.duplicate());
    let snd_entry = EntryData::new("/tmp/123".to_string());
    let snd_id = registry.add_or_update_entry(snd_entry.duplicate());

    assert_eq!(registry.list_entries().len(), 2);

    let entries = registry.list_entries_and_ids();
    assert!(entries.iter().any(|(i, e)| *i == fst_id.0 && *e == entry));
    assert!(entries.iter().any(|(i, e)| *i == snd_id.0 && *e == snd_entry));
}

#[test]
fn registry_adds_multiple_entries() {
    let mut registry = TagRegistry::new(String::new());

    let entry = EntryData::new("/tmp".to_string());
    registry.add_or_update_entry(entry);
    let entry = EntryData::new("/tmp/test".to_string());
    registry.add_or_update_entry(entry);

    assert_eq!(registry.list_entries().len(), 2);
}

#[test]
fn updates_tag_color() {
    let entry = EntryData::new("/tmp".to_string());

    let mut registry = TagRegistry::new(String::new());
    let id = registry.add_or_update_entry(entry);

    let t = tag("test", Color::Black);

    assert!(registry.tag_entry(&t, id.0).is_none());
    assert!(registry.update_tag_color("test", Color::Red));
    assert_eq!(registry.list_tags()[0].color(), &Color::Red);
}

#[test]
fn registry_updates_tag_color() {
    let path = "/tmp".to_string();
    let entry = EntryData::new(path.clone());

    let mut registry = TagRegistry::new(String::new());
    registry.add_or_update_entry(entry);

    let id = registry.find_entry(&path).unwrap();

    let t = tag("test", Color::Black);

    assert!(registry.tag_entry(&t, id).is_none());
    assert!(registry.update_tag_color("test", Color::Red));
    assert_eq!(registry.list_tags()[0].color(), &Color::Red);
}

#[test]
fn removes_an_entry_when_no_tags_left() {
    let entry = EntryData::new("/tmp".to_string());

    let mut registry = TagRegistry::new(String::new());
    let (id, _) = registry.add_or_update_entry(entry.duplicate());

    let tag1 = tag("test", Color::Black);
    let tag2 = tag("test2", Color::Red);

    assert!(registry.tag_entry(&tag1, id).is_none());
    let tags = registry.list_tags();
    assert_eq!(tags.len(), 1);
    assert_eq!(tags[0].name(), "test");
    assert_eq!(
        registry.list_entries_with_any_tags(&vec!["test".to_string()]),
        vec![id]
    );
    assert_eq!(registry.list_entries().len(), 1);
    assert_eq!(registry.untag_entry(&tag1, id), Some(entry.duplicate()));
    assert_eq!(registry.list_entries().len(), 0);
    assert!(registry.list_tags().is_empty());

    let (id, _) = registry.add_or_update_entry(entry.duplicate());
    assert!(registry.tag_entry(&tag2, id).is_none());
    let tags = registry.list_tags();
    assert_eq!(tags.len(), 1);
    assert_eq!(tags[0].name(), "test2");
    assert_eq!(registry.list_entries().len(), 1);
    assert_eq!(
        registry.untag_by_name(tag2.name(), id),
        Some(entry.duplicate())
    );
    assert_eq!(registry.list_entries().len(), 0);
    assert!(registry.list_tags().is_empty());

    let (id, _) = registry.add_or_update_entry(entry);
    assert!(registry.tag_entry(&tag1, id).is_none());
    assert!(registry.tag_entry(&tag2, id).is_none());
    let tags = registry.list_tags();
    assert!(tags.contains(&tag1));
    assert!(tags.contains(&tag2));
    assert_eq!(
        registry.list_entries_with_any_tags(&vec!["test".to_string()]),
        vec![id]
    );
    assert_eq!(
        registry.list_entries_with_any_tags(&vec!["test2".to_string()]),
        vec![id]
    );
    assert_eq!(registry.list_entries().len(), 1);
    registry.clear_entry(id);
    assert_eq!(registry.list_entries().len(), 0);
    assert!(registry.list_tags().is_empty());
}

#[test]
fn registry_removes_an_entry_when_no_tags_left() {
    let entry = EntryData::new("/tmp".to_string());

    let mut registry = TagRegistry::new(String::new());
    let (id, _) = registry.add_or_update_entry(entry.duplicate());

    let t = tag("test", Color::Black);
    let tag2 = tag("test2", Color::Red);

    assert_eq!(registry.list_entries().len(), 1);

    assert!(registry.tag_entry(&t, id).is_none());
    assert_eq!(registry.untag_entry(&t, id), Some(entry.duplicate()));
    assert_eq!(registry.list_entries().len(), 0);

    let (id, _) = registry.add_or_update_entry(entry.duplicate());
    assert!(registry.tag_entry(&tag2, id).is_none());
    assert_eq!(
        registry.untag_by_name(tag2.name(), id),
        Some(entry.duplicate())
    );
    assert_eq!(registry.list_entries().len(), 0);

    let (id, _) = registry.add_or_update_entry(entry);
    assert!(registry.tag_entry(&t, id).is_none());
    assert!(registry.tag_entry(&tag2, id).is_none());
    assert_eq!(registry.list_entries().len(), 1);
    registry.clear_entry(id);
    assert_eq!(registry.list_entries().len(), 0);
}

#[test]
fn lists_entry_tags() {
    let mut registry = TagRegistry::new(String::new());

    let tag1 = tag("src", Color::Black);
    let tag2 = tag("code", Color::Red);

    let entry = EntryData::new("/tmp".to_string());

    let (id, _) = registry.add_or_update_entry(entry);
    registry.tag_entry(&tag1, id);
    registry.tag_entry(&tag2, id);

    let tags = registry.list_entry_tags(id).unwrap();
    assert_eq!(tags.len(), 2);
    assert!(tags.contains(&tag1));
    assert!(tags.contains(&tag2));
}

#[test]
fn lists_entries_with_tags() {
    let mut registry = TagRegistry::new(String::new());

    let tag1 = tag("src", Color::Black);
    let tag2 = tag("code", Color::Red);

    let entry = EntryData::new("/tmp".to_string());
    let entry1 = EntryData::new("/tmp/1".to_string());
    let entry2 = EntryData::new("/tmp/2".to_string());
    let entry3 = EntryData::new("/tmp/3".to_string());
    let entry4 = EntryData::new("/tmp/4".to_string());

    let (id, _) = registry.add_or_update_entry(entry);
    let (id1, _) = registry.add_or_update_entry(entry1);
    let (id2, _) = registry.add_or_update_entry(entry2);
    let (id3, _) = registry.add_or_update_entry(entry3);
    let (id4, _) = registry.add_or_update_entry(entry4);

    registry.tag_entry(&tag1, id);
    registry.tag_entry(&tag1, id2);

    registry.tag_entry(&tag2, id1);
    registry.tag_entry(&tag2, id3);

    registry.tag_entry(&tag1, id4);
    registry.tag_entry(&tag2, id4);

    let entries1 = registry.list_entries_with_any_tags(&vec!["src".to_string()]);
    assert_eq!(entries1.len(), 3);
    assert!(entries1.contains(&id));
    assert!(entries1.contains(&id2));
    assert!(entries1.contains(&id4));

    let entries2 = registry.list_entries_with_any_tags(&vec!["code".to_string()]);
    assert_eq!(entries2.len(), 3);
    assert!(entries2.contains(&id1));
    assert!(entries2.contains(&id3));
    assert!(entries1.contains(&id4));

    let entries = registry.list_entries_with_any_tags(&vec!["code".to_string(), "src".to_string()]);
    assert_eq!(entries.len(), 5);
    assert!(entries.contains(&id));
    assert!(entries.contains(&id1));
    assert!(entries.contains(&id2));
    assert!(entries.contains(&id3));
    assert!(entries.contains(&id4));

    let entries1 = registry.list_entries_with_all_tags(&vec!["src".to_string()]);
    assert_eq!(entries1.len(), 3);
    assert!(entries1.contains(&id));
    assert!(entries1.contains(&id2));
    assert!(entries1.contains(&id4));

    let entries = registry.list_entries_with_all_tags(&vec!["code".to_string(), "src".to_string()]);
    assert_eq!(entries.len(), 1);
    assert!(entries.contains(&id4));
}

#[test]
fn saves_and_loads() {
    let mut registry = TagRegistry::new("/tmp/wutag.registry".to_string());

    let t = tag("src", Color::Black);
    let entry = EntryData::new("/tmp".to_string());

    let (id, _) = registry.add_or_update_entry(entry.duplicate());
    registry.tag_entry(&t, id);

    let bytes = registry.to_bytes();

    let registry = TagRegistry::from_bytes(&bytes).unwrap();
    let entries = registry.list_entries_and_ids();
    assert_eq!(entries.len(), 1);
    let (got_id, got_entry) = &entries[0];
    assert_eq!(*got_id, id);
    assert_eq!(got_entry, &entry);
    assert_eq!(
        registry.list_entries_with_any_tags(&vec!["src".to_string()]),
        vec![id]
    );
}

#[test]
fn empty_intersection_query_selects_nothing() {
    let mut registry = TagRegistry::new(String::new());
    let (id, _) = registry.add_or_update_entry(EntryData::new("/tmp/a".to_string()));
    registry.tag_entry(&tag("holiday", Color::Red), id);

    let none: Vec<String> = vec![];
    assert!(registry.list_entries_with_all_tags(&none).is_empty());
}

#[test]
fn tagging_twice_keeps_the_entry_set() {
    let mut registry = TagRegistry::new(String::new());
    let (id, _) = registry.add_or_update_entry(EntryData::new("/tmp/a".to_string()));
    let t = tag("t", Color::Red);

    assert_eq!(registry.tag_entry(&t, id), None);
    let before = registry.list_entries_with_any_tags(&vec!["t".to_string()]);
    assert_eq!(registry.tag_entry(&t, id), Some(id));
    let after = registry.list_entries_with_any_tags(&vec!["t".to_string()]);
    assert_eq!(before, after);
    assert_eq!(after.len(), 1);
}

#[test]
fn updating_an_entry_keeps_its_id() {
    let mut registry = TagRegistry::new(String::new());
    let (id, created) = registry.add_or_update_entry(EntryData::new("/tmp/a".to_string()));
    assert!(created);
    let t = tag("t", Color::Red);
    registry.tag_entry(&t, id);
    let (id2, created2) = registry.add_or_update_entry(EntryData::new("/tmp/a".to_string()));
    assert!(!created2);
    assert_eq!(id, id2);
}

#[test]
fn cleared_tag_returns_exactly_the_orphaned_entries() {
    let mut registry = TagRegistry::new(String::new());
    let holiday = tag("holiday", Color::Red);
    let year = tag("2020", Color::Blue);

    let (a, _) = registry.add_or_update_entry(EntryData::new("/tmp/a".to_string()));
    let (b, _) = registry.add_or_update_entry(EntryData::new("/tmp/b".to_string()));
    let (c, _) = registry.add_or_update_entry(EntryData::new("/tmp/c".to_string()));
    registry.tag_entry(&holiday, a);
    registry.tag_entry(&holiday, b);
    registry.tag_entry(&holiday, c);
    registry.tag_entry(&year, c);

    let cleared = registry.clear_tag(&holiday).unwrap();
    assert_eq!(cleared.len(), 2);
    let paths: Vec<&str> = cleared.iter().map(|e| e.path()).collect();
    assert!(paths.contains(&"/tmp/a"));
    assert!(paths.contains(&"/tmp/b"));

    assert!(registry.get_entry(a).is_none());
    assert!(registry.get_entry(b).is_none());
    let survivor = registry.get_entry(c).unwrap();
    assert_eq!(survivor.path(), "/tmp/c");
    assert_eq!(registry.list_entry_tags(c).unwrap(), vec![year]);
    assert!(registry.clear_tag(&tag("absent", Color::Red)).is_none());
}

#[test]
fn snapshots_that_break_the_invariants_are_rejected() {
    // duplicate entry ids
    let broken = TagRegistry {
        tags: vec![],
        entries: vec![
            EntryRecord { id: 1, data: EntryData::new("/a".to_string()) },
            EntryRecord { id: 1, data: EntryData::new("/b".to_string()) },
        ],
        path: String::new(),
    };
    assert!(TagRegistry::from_bytes(&broken.to_bytes()).is_none());

    // bytes that are no snapshot at all
    assert!(TagRegistry::from_bytes(&vec![1, 2, 3]).is_none());

    // an empty registry survives the round trip
    let empty = TagRegistry::new("/r".to_string());
    let back = TagRegistry::from_bytes(&empty.to_bytes()).unwrap();
    assert!(back.list_entries().is_empty());
    assert!(back.list_tags().is_empty());
}
