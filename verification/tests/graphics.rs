use teensy_tft_rs::graphics::circle_bounding_box;
use teensy_tft_rs::DisplayError;

#[test]
fn circle_box_is_center_minus_radius() {
    assert_eq!(circle_bounding_box(50, 100, 20), (30, 80, 40));
    assert_eq!(circle_bounding_box(0, 0, 5), (-5, -5, 10));
    assert_eq!(circle_bounding_box(10, 10, 0), (10, 10, 0));
    assert_eq!(circle_bounding_box(i32::MAX, i32::MAX, i32::MAX as u32), (0, 0, u32::MAX - 1));
}

#[test]
fn bus_message_becomes_initialization_failure() {
    assert_eq!(DisplayError::from("SPI write error"), DisplayError::InitializationFailed);
    assert_eq!(DisplayError::from("DC pin error"), DisplayError::InitializationFailed);
}
