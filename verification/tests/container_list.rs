use symphony_model::container::{Container, ContainerRef, ContainerStatus};
use symphony_model::container_list::{
    container_list_property, ContainerListProperty, SimpleContainerList,
};
use symphony_model::list_model::{ItemsChanged, PropertyValue};

fn container(id: &str, status: ContainerStatus) -> Container {
    Container::new(id.to_string(), status)
}

fn added_at(position: u32) -> ItemsChanged {
    ItemsChanged { position, removed: 0, added: 1 }
}

#[test]
fn new_container_list_is_empty() {
    let list = SimpleContainerList::new();
    assert_eq!(list.len(), 0);
    assert_eq!(list.n_items(), 0);
    assert!(list.get(0).is_none());
    assert_eq!(list.running(), 0);
}

#[test]
fn added_containers_come_last_and_are_found() {
    let mut list = SimpleContainerList::new();
    assert_eq!(list.add_container(&container("a", ContainerStatus::Running)), added_at(0));
    assert_eq!(list.add_container(&container("b", ContainerStatus::Exited)), added_at(1));
    assert_eq!(list.add_container(&container("c", ContainerStatus::Running)), added_at(2));
    assert_eq!(list.len(), 3);
    let b = list.get(1).unwrap();
    assert_eq!(b.id(), "b");
    assert_eq!(b.status(), ContainerStatus::Exited);
    assert_eq!(list.item(2).unwrap().id(), "c");
    assert!(list.get(3).is_none());
    assert!(list.item(3).is_none());
}

#[test]
fn adding_a_present_id_keeps_its_place() {
    let mut list = SimpleContainerList::new();
    list.add_container(&container("a", ContainerStatus::Created));
    list.add_container(&container("b", ContainerStatus::Created));
    assert_eq!(list.add_container(&container("a", ContainerStatus::Paused)), added_at(0));
    assert_eq!(list.len(), 2);
    assert_eq!(list.get(0).unwrap().status(), ContainerStatus::Paused);
    assert_eq!(list.created(), 1);
    assert_eq!(list.paused(), 1);
}

#[test]
fn removing_reports_position_and_container_once() {
    let mut list = SimpleContainerList::new();
    list.add_container(&container("a", ContainerStatus::Running));
    list.add_container(&container("b", ContainerStatus::Dead));
    list.add_container(&container("c", ContainerStatus::Running));
    let (change, removed) = list.remove_container("b").unwrap();
    assert_eq!(change, ItemsChanged { position: 1, removed: 1, added: 0 });
    assert_eq!(removed.unwrap().id(), "b");
    assert_eq!(list.len(), 2);
    assert_eq!(list.get(1).unwrap().id(), "c");
    assert!(list.remove_container("b").is_none());
    assert_eq!(list.len(), 2);
}

#[test]
fn counts_by_status() {
    let mut list = SimpleContainerList::new();
    list.add_container(&container("a", ContainerStatus::Running));
    list.add_container(&container("b", ContainerStatus::Exited));
    list.add_container(&container("c", ContainerStatus::Running));
    list.add_container(&container("d", ContainerStatus::Dead));
    list.add_container(&container("e", ContainerStatus::Unknown));
    assert_eq!(list.running(), 2);
    assert_eq!(list.exited(), 1);
    assert_eq!(list.dead(), 1);
    assert_eq!(list.created(), 0);
    assert_eq!(list.paused(), 0);
    assert_eq!(list.num_containers_of_status(ContainerStatus::Unknown), 1);
    let sum = list.created() + list.dead() + list.exited() + list.paused() + list.running()
        + list.num_containers_of_status(ContainerStatus::Unknown);
    assert_eq!(sum, list.len());
}

#[test]
fn container_list_property_names_and_values() {
    assert_eq!(container_list_property("len"), Some(ContainerListProperty::Len));
    assert_eq!(container_list_property("created"), Some(ContainerListProperty::Created));
    assert_eq!(container_list_property("dead"), Some(ContainerListProperty::Dead));
    assert_eq!(container_list_property("exited"), Some(ContainerListProperty::Exited));
    assert_eq!(container_list_property("paused"), Some(ContainerListProperty::Paused));
    assert_eq!(container_list_property("running"), Some(ContainerListProperty::Running));
    assert_eq!(container_list_property("stopped"), None);
    let mut list = SimpleContainerList::new();
    list.add_container(&container("a", ContainerStatus::Running));
    list.add_container(&container("b", ContainerStatus::Paused));
    assert_eq!(list.property(ContainerListProperty::Len), PropertyValue::UInt(2));
    assert_eq!(list.property(ContainerListProperty::Running), PropertyValue::UInt(1));
    assert_eq!(list.property(ContainerListProperty::Paused), PropertyValue::UInt(1));
    assert_eq!(list.property(ContainerListProperty::Dead), PropertyValue::UInt(0));
}

#[test]
fn container_reference_leads_where_it_was_set() {
    let mut weak = ContainerRef::new();
    assert!(weak.upgrade().is_none());
    weak.set(Some(&container("x", ContainerStatus::Created)));
    let c = weak.upgrade().unwrap();
    assert_eq!(c.id(), "x");
    assert_eq!(c.status(), ContainerStatus::Created);
    weak.set(None);
    assert!(weak.upgrade().is_none());
}

#[test]
fn updated_container_shows_its_new_state_in_place() {
    let mut list = SimpleContainerList::new();
    list.add_container(&container("a", ContainerStatus::Running));
    list.add_container(&container("b", ContainerStatus::Running));
    assert_eq!(list.running(), 2);
    assert!(list.update_container(&container("a", ContainerStatus::Exited)));
    assert_eq!(list.len(), 2);
    assert_eq!(list.get(0).unwrap().status(), ContainerStatus::Exited);
    assert_eq!(list.running(), 1);
    assert_eq!(list.exited(), 1);
    assert!(!list.update_container(&container("c", ContainerStatus::Running)));
    assert_eq!(list.len(), 2);
}

#[test]
fn released_container_leads_to_nothing_but_keeps_its_entry() {
    let mut list = SimpleContainerList::new();
    list.add_container(&container("a", ContainerStatus::Running));
    list.add_container(&container("b", ContainerStatus::Paused));
    assert!(list.release_container("a"));
    assert_eq!(list.len(), 2);
    assert!(list.get(0).is_none());
    assert_eq!(list.get(1).unwrap().id(), "b");
    assert_eq!(list.running(), 0);
    assert!(!list.release_container("zzz"));
    let (change, removed) = list.remove_container("a").unwrap();
    assert_eq!(change, ItemsChanged { position: 0, removed: 1, added: 0 });
    assert!(removed.is_none());
    assert_eq!(list.len(), 1);
}
