use filedl::thumbnails::crop_coordinates;

#[test]
fn crop_coordinates_example() {
    assert!(crop_coordinates((200, 100), (50, 50)) == (50, 0, 100, 100));
}

#[test]
fn crop_of_tall_original() {
    assert_eq!(crop_coordinates((100, 200), (50, 50)), (0, 50, 100, 100));
}

#[test]
fn crop_of_matching_aspect_is_whole_image() {
    assert_eq!(crop_coordinates((80, 60), (40, 30)), (0, 0, 80, 60));
}

#[test]
fn crop_rounds_to_nearest() {
    // 3:1 original against a square target: width rounds from 100.0.
    assert_eq!(crop_coordinates((300, 100), (50, 50)), (100, 0, 100, 100));
    // Odd leftover is split with the smaller half on the left.
    assert_eq!(crop_coordinates((201, 100), (50, 50)), (50, 0, 100, 100));
}
