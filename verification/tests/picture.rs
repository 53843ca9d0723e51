use berry::picture::{Picture, PictureCmd};

#[test]
fn empty_picture_has_no_size() {
    assert_eq!(Picture::new().size(), (0, 0));
}

#[test]
fn picture_size_is_the_footprint_of_its_rectangles() {
    let pic = Picture::new()
        .set_color(255, 255, 0, 255)
        .fill_rect(0, 0, 100, 100)
        .set_color(255, 0, 255, 255)
        .fill_rect(50, 50, 100, 100);
    assert_eq!(pic.size(), (150, 150));
    assert_eq!(pic.0.len(), 4);
    assert_eq!(pic.0[1], PictureCmd::FillRect(0, 0, 100, 100));
}
