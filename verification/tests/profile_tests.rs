use blaze_face::profile::{ModelType, INPUT_CHANNELS, REGRESSION_SCALE};

#[test]
fn front_profile_works_on_128_pixels() {
    assert_eq!(ModelType::Front.input_size(), 128);
}

#[test]
fn back_profile_works_on_256_pixels() {
    assert_eq!(ModelType::Back.input_size(), 256);
}

#[test]
fn both_profiles_have_896_anchors() {
    assert_eq!(ModelType::Front.anchor_count(), 896);
    assert_eq!(ModelType::Back.anchor_count(), 896);
}

#[test]
fn front_profile_file_names() {
    assert_eq!(ModelType::Front.weights_file_name(), "blazeface.safetensors");
    assert_eq!(ModelType::Front.anchors_file_name(), "anchors.npy");
}

#[test]
fn back_profile_file_names() {
    assert_eq!(ModelType::Back.weights_file_name(), "blazefaceback.safetensors");
    assert_eq!(ModelType::Back.anchors_file_name(), "anchorsback.npy");
}

#[test]
fn fixed_constants() {
    assert_eq!(REGRESSION_SCALE, 100);
    assert_eq!(INPUT_CHANNELS, 3);
}
