use symphony_model::image::Image;
use symphony_model::image_list::{
    image_list_property, Error, EventOutcome, ImageList, ImageListProperty,
};
use symphony_model::list_model::{ItemsChanged, PropertyValue};

fn ids(names: &[&str]) -> Vec<String> {
    names.iter().map(|s| s.to_string()).collect()
}

fn image(size: u64, tags: &[&str]) -> Image {
    Image::new(size, ids(tags))
}

fn removed_at(position: u32) -> ItemsChanged {
    ItemsChanged { position, removed: 1, added: 0 }
}

fn added_at(position: u32) -> ItemsChanged {
    ItemsChanged { position, removed: 0, added: 1 }
}

/// A list holding `names`, in order, each with the given size and no tags.
fn filled(names: &[&str]) -> ImageList {
    let mut list = ImageList::new();
    let plan = list.refresh_listed(&ids(names));
    for (i, id) in plan.to_inspect.into_iter().enumerate() {
        list.image_inspected(id, image(i as u64 + 1, &["tag"]));
    }
    list
}

#[test]
fn new_list_is_empty_and_idle() {
    let list = ImageList::new();
    assert_eq!(list.len(), 0);
    assert_eq!(list.n_items(), 0);
    assert_eq!(list.fetched(), 0);
    assert_eq!(list.to_fetch(), 0);
    assert!(!list.listing());
    assert!(list.item(0).is_none());
    assert_eq!(list.total_size(), 0);
    assert_eq!(list.num_unused_images(), 0);
    assert_eq!(list.unused_size(), 0);
}

#[test]
fn listing_flag_reports_only_changes() {
    let mut list = ImageList::new();
    assert!(list.begin_refresh());
    assert!(!list.begin_refresh());
    assert!(list.listing());
    let (_, changed) = list.refresh_failed();
    assert!(changed);
    let (_, changed) = list.refresh_failed();
    assert!(!changed);
    assert!(!list.listing());
}

#[test]
fn refresh_inspects_every_new_listed_id() {
    let mut list = filled(&["z"]);
    assert_eq!(list.fetched(), 1);
    assert!(list.begin_refresh());
    assert!(!list.begin_refresh());
    let plan = list.refresh_listed(&ids(&["a", "b"]));
    assert_eq!(plan.removed, vec![removed_at(0)]);
    assert_eq!(plan.to_inspect, ids(&["a", "b"]));
    assert!(plan.notify_listing);
    assert!(plan.notify_fetched);
    assert!(plan.notify_to_fetch);
    assert!(!list.listing());
    assert_eq!(list.fetched(), 0);
    assert_eq!(list.to_fetch(), 2);
    assert_eq!(list.len(), 0);
}

#[test]
fn inspected_images_come_last_and_count_as_fetched() {
    let mut list = ImageList::new();
    list.refresh_listed(&ids(&["a", "b"]));
    assert_eq!(list.image_inspected("a".to_string(), image(10, &["x:latest"])), added_at(0));
    assert_eq!(list.fetched(), 1);
    assert_eq!(list.image_inspected("b".to_string(), image(5, &[])), added_at(1));
    assert_eq!(list.fetched(), 2);
    assert_eq!(list.len(), 2);
    assert_eq!(list.total_size(), 15);
    assert_eq!(list.num_unused_images(), 1);
    assert_eq!(list.unused_size(), 5);
    assert_eq!(list.item(0).unwrap().size(), 10);
    assert_eq!(list.item(1).unwrap().repo_tags().len(), 0);
    assert!(list.item(2).is_none());
}

#[test]
fn inspecting_a_present_id_replaces_it_in_place() {
    let mut list = filled(&["a", "b"]);
    let change = list.image_inspected("a".to_string(), image(100, &[]));
    // The change names the last position, whatever place the image has.
    assert_eq!(change, added_at(1));
    assert_eq!(list.len(), 2);
    assert_eq!(list.item(0).unwrap().size(), 100);
    assert_eq!(list.item(1).unwrap().size(), 2);
}

#[test]
fn refresh_removes_unlisted_images_at_their_shifting_positions() {
    let mut list = filled(&["a", "b", "c", "d"]);
    let plan = list.refresh_listed(&ids(&["b", "d", "e"]));
    // "a" goes at 0, then "c" has moved from 2 to 1.
    assert_eq!(plan.removed, vec![removed_at(0), removed_at(1)]);
    assert_eq!(plan.to_inspect, ids(&["e"]));
    assert_eq!(list.len(), 2);
    assert_eq!(list.item(0).unwrap().size(), 2);
    assert_eq!(list.item(1).unwrap().size(), 4);
    assert_eq!(list.to_fetch(), 1);
    assert_eq!(list.fetched(), 0);
}

#[test]
fn refresh_with_nothing_listed_empties_the_list() {
    let mut list = filled(&["a", "b", "c"]);
    let plan = list.refresh_listed(&ids(&[]));
    assert_eq!(plan.removed, vec![removed_at(0), removed_at(0), removed_at(0)]);
    assert!(plan.to_inspect.is_empty());
    assert_eq!(list.len(), 0);
    assert_eq!(list.to_fetch(), 0);
}

#[test]
fn refresh_keeps_duplicate_listed_ids() {
    let mut list = ImageList::new();
    let plan = list.refresh_listed(&ids(&["a", "a"]));
    assert_eq!(plan.to_inspect, ids(&["a", "a"]));
    assert_eq!(list.to_fetch(), 2);
}

#[test]
fn refresh_failure_reports_list_error() {
    let mut list = ImageList::new();
    list.begin_refresh();
    let (error, changed) = list.refresh_failed();
    assert!(matches!(error, Error::List));
    assert!(changed);
    assert!(!list.listing());
}

#[test]
fn inspection_failure_names_the_image() {
    let mut list = ImageList::new();
    list.refresh_listed(&ids(&["abc", "def"]));
    match list.inspection_failed(&"abc".to_string()) {
        Error::Inspect(id) => assert_eq!(id, "abc"),
        Error::List => panic!("wrong error"),
    }
    list.image_inspected("def".to_string(), image(1, &[]));
    assert_eq!(list.fetched(), 1);
    assert_eq!(list.to_fetch(), 2);
    assert!(list.fetched() <= list.to_fetch());
}

#[test]
fn contains_tells_which_ids_are_listed() {
    let mut list = filled(&["a", "b"]);
    assert!(list.contains("a"));
    assert!(list.contains("b"));
    assert!(!list.contains("c"));
    list.remove_image("a");
    assert!(!list.contains("a"));
}

#[test]
fn remove_image_reports_its_position_once() {
    let mut list = filled(&["a", "b", "c"]);
    assert_eq!(list.remove_image("b"), Some(removed_at(1)));
    assert_eq!(list.len(), 2);
    assert_eq!(list.item(1).unwrap().size(), 3);
    assert_eq!(list.remove_image("b"), None);
    assert_eq!(list.len(), 2);
}

#[test]
fn events_remove_refresh_or_are_unknown() {
    let mut list = filled(&["a", "b"]);
    assert_eq!(list.handle_event("remove", "a"), EventOutcome::Removed(Some(removed_at(0))));
    assert_eq!(list.handle_event("remove", "zzz"), EventOutcome::Removed(None));
    assert_eq!(list.handle_event("pull", "x"), EventOutcome::Refresh(true));
    assert!(list.listing());
    assert_eq!(list.handle_event("build", "x"), EventOutcome::Refresh(false));
    assert_eq!(list.handle_event("tag", "b"), EventOutcome::Unknown);
    assert_eq!(list.len(), 1);
}

#[test]
fn image_list_property_names_and_values() {
    assert_eq!(image_list_property("fetched"), Some(ImageListProperty::Fetched));
    assert_eq!(image_list_property("len"), Some(ImageListProperty::Len));
    assert_eq!(image_list_property("listing"), Some(ImageListProperty::Listing));
    assert_eq!(image_list_property("to-fetch"), Some(ImageListProperty::ToFetch));
    assert_eq!(image_list_property("to_fetch"), None);
    let mut list = filled(&["a", "b"]);
    list.begin_refresh();
    assert_eq!(list.property(ImageListProperty::Len), PropertyValue::UInt(2));
    assert_eq!(list.property(ImageListProperty::Fetched), PropertyValue::UInt(2));
    assert_eq!(list.property(ImageListProperty::ToFetch), PropertyValue::UInt(2));
    assert_eq!(list.property(ImageListProperty::Listing), PropertyValue::Boolean(true));
}

#[test]
fn unused_images_are_within_all_images() {
    let mut list = ImageList::new();
    list.refresh_listed(&ids(&["a", "b", "c"]));
    list.image_inspected("a".to_string(), image(7, &[]));
    list.image_inspected("b".to_string(), image(11, &["b:1", "b:2"]));
    list.image_inspected("c".to_string(), image(13, &[]));
    assert_eq!(list.num_unused_images(), 2);
    assert_eq!(list.unused_size(), 20);
    assert_eq!(list.total_size(), 31);
    assert!(list.unused_size() <= list.total_size());
    assert!(list.num_unused_images() <= list.len() as usize);
}

#[test]
fn cloned_image_keeps_size_and_tags() {
    let original = image(42, &["one", "two"]);
    let copy = original.clone();
    assert_eq!(copy.size(), 42);
    assert_eq!(copy.repo_tags(), &ids(&["one", "two"]));
}

#[test]
fn refresh_then_inspecting_mirrors_the_listing() {
    let mut list = filled(&["a", "b", "c"]);
    let plan = list.refresh_listed(&ids(&["c", "x", "a", "y"]));
    assert_eq!(plan.removed, vec![removed_at(1)]);
    assert_eq!(plan.to_inspect, ids(&["x", "y"]));
    for id in plan.to_inspect {
        list.image_inspected(id, image(9, &[]));
    }
    assert_eq!(list.fetched(), list.to_fetch());
    assert_eq!(list.len(), 4);
    for id in ["a", "c", "x", "y"] {
        assert!(list.remove_image(id).is_some());
    }
    assert_eq!(list.len(), 0);
}

#[test]
fn unused_size_is_zero_or_total_at_the_extremes() {
    let tagged = filled(&["a", "b"]);
    assert_eq!(tagged.num_unused_images(), 0);
    assert_eq!(tagged.unused_size(), 0);
    let mut untagged = ImageList::new();
    untagged.refresh_listed(&ids(&["a", "b"]));
    untagged.image_inspected("a".to_string(), image(3, &[]));
    untagged.image_inspected("b".to_string(), image(4, &[]));
    assert_eq!(untagged.num_unused_images(), untagged.len() as usize);
    assert_eq!(untagged.unused_size(), untagged.total_size());
}

#[test]
fn successive_refreshes_keep_fetched_within_to_fetch() {
    let mut list = ImageList::new();
    list.begin_refresh();
    let plan = list.refresh_listed(&ids(&["a", "b", "c"]));
    for (n, id) in plan.to_inspect.into_iter().enumerate() {
        if n == 1 {
            list.inspection_failed(&id);
        } else {
            list.image_inspected(id, image(1, &[]));
        }
        assert!(list.fetched() <= list.to_fetch());
    }
    assert_eq!(list.fetched(), 2);
    list.begin_refresh();
    let plan = list.refresh_listed(&ids(&["c", "d"]));
    assert_eq!(plan.removed, vec![removed_at(0)]);
    assert_eq!(plan.to_inspect, ids(&["d"]));
    assert_eq!(list.fetched(), 0);
    assert_eq!(list.to_fetch(), 1);
    list.image_inspected("d".to_string(), image(1, &[]));
    assert_eq!(list.fetched(), list.to_fetch());
    assert_eq!(list.len(), 2);
}
