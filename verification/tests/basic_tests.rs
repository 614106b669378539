use raid_tracker::add_two;

#[test]
fn it_works() {
    assert_eq!(add_two(2), 4);
    assert_ne!(add_two(3), 4);
}
