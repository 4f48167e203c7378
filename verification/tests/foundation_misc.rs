use taphle::foundation::index_path::{for_row_in_section, section_and_row};
use taphle::foundation::ns_http_cookie_storage;
use taphle::foundation::ns_notification_center;
use taphle::foundation::ns_operation;
use taphle::foundation::sort_descriptor::{compare_with_descriptor, compare_with_descriptors};
use taphle::foundation::url::{to_rust_path, NSURLHostObject};

#[test]
fn an_index_path_reads_back_as_section_and_row() {
    let indexes = for_row_in_section(7, 3);
    assert_eq!(indexes, vec![3, 7]);
    assert_eq!(section_and_row(&indexes), (3, 7));
    assert_eq!(section_and_row(&[5]), (5, 0));
    assert_eq!(section_and_row(&[]), (0, 0));
    assert_eq!(section_and_row(&[1, 2, 3]), (1, 2));
}

#[test]
fn a_descending_descriptor_reverses_the_order() {
    assert_eq!(compare_with_descriptor(true, -1), -1);
    assert_eq!(compare_with_descriptor(false, -1), 1);
    assert_eq!(compare_with_descriptor(false, 0), 0);
}

#[test]
fn earlier_descriptors_win() {
    let results = [0, 1, -1];
    assert_eq!(compare_with_descriptors(3, |i| results[i]), 1);
    assert_eq!(compare_with_descriptors(1, |i| results[i]), 0);
    assert_eq!(compare_with_descriptors(0, |i| results[i]), 0);
    let asked = std::cell::Cell::new(0);
    assert_eq!(
        compare_with_descriptors(3, |i| {
            asked.set(asked.get() + 1);
            [-1, 1, 1][i]
        }),
        -1
    );
    assert_eq!(asked.get(), 1);
}

#[test]
fn shared_instances_are_created_once() {
    let mut queue = ns_operation::State::new();
    assert_eq!(queue.main_queue(|| 10), 10);
    assert_eq!(queue.main_queue(|| 20), 10);
    let mut cookies = ns_http_cookie_storage::State::new();
    assert_eq!(cookies.shared_storage(|| 30), 30);
    assert_eq!(cookies.shared_storage(|| 40), 30);
    let mut center = ns_notification_center::State::new();
    assert_eq!(center.default_center(|| 50), 50);
    assert_eq!(center.default_center(|| 60), 50);
}

#[test]
fn a_url_is_viewed_as_its_path() {
    let file = NSURLHostObject::FileURL {
        path: "/var/mobile/a.txt".to_string(),
        working_directory: "/".to_string(),
    };
    assert_eq!(to_rust_path(&file), "/var/mobile/a.txt");
    let other = NSURLHostObject::OtherURL {
        string: "http://example.com/levels/one.json?x=1".to_string(),
    };
    assert_eq!(to_rust_path(&other), "/levels/one.json");
    let pathless = NSURLHostObject::OtherURL {
        string: "http://example.com".to_string(),
    };
    assert_eq!(pathless.path(), None);
}
