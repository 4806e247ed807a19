use rl_matting::models::{
    available_models, first_existing, has_rembg_models, input_hw_from_shape, list_available_models,
    model_filename, needs_model_load, pick_models_dir, usable_output_len, CATALOG_LEN,
};

#[test]
fn catalogue_of_models() {
    let v = available_models();
    assert_eq!(v.len(), CATALOG_LEN);
    assert_eq!(
        v,
        vec![
            ("u2net", "u2net.onnx"),
            ("u2net_human_seg", "u2net_human_seg.onnx"),
            ("silueta", "silueta.onnx"),
        ]
    );
}

#[test]
fn model_file_for_each_key() {
    assert_eq!(model_filename("u2net"), "u2net.onnx");
    assert_eq!(model_filename("u2net_human_seg"), "u2net_human_seg.onnx");
    assert_eq!(model_filename("silueta"), "silueta.onnx");
}

#[test]
fn unknown_model_keys_fall_back_to_u2net() {
    assert_eq!(model_filename(""), "u2net.onnx");
    assert_eq!(model_filename("isnet"), "u2net.onnx");
    assert_eq!(model_filename("U2NET"), "u2net.onnx");
}

#[test]
fn present_models_in_catalogue_order() {
    assert_eq!(
        list_available_models(&[false, true, true]),
        vec!["u2net_human_seg.onnx".to_string(), "silueta.onnx".to_string()]
    );
    assert_eq!(list_available_models(&[true, false, false]), vec!["u2net.onnx".to_string()]);
    assert!(list_available_models(&[false, false, false]).is_empty());
}

#[test]
fn directory_has_models() {
    assert!(has_rembg_models(&[false, false, true]));
    assert!(has_rembg_models(&[true, false, false]));
    assert!(!has_rembg_models(&[false, false, false]));
}

#[test]
fn first_existing_candidate() {
    assert_eq!(first_existing(&[false, true, true]), Some(1));
    assert_eq!(first_existing(&[false, false]), None);
    assert_eq!(first_existing(&[]), None);
}

#[test]
fn model_directory_choice() {
    assert_eq!(pick_models_dir(&[true, true, true], &[false, true, false]), 1);
    assert_eq!(pick_models_dir(&[false, true, true], &[false, false, false]), 1);
    assert_eq!(pick_models_dir(&[false, false], &[true, true]), 0);
    assert_eq!(pick_models_dir(&[true, false, true], &[false, true, true]), 2);
}

#[test]
fn model_reload_decision() {
    assert!(!needs_model_load("u2net.onnx", "u2net.onnx", true));
    assert!(needs_model_load("u2net.onnx", "u2net.onnx", false));
    assert!(needs_model_load("u2net.onnx", "silueta.onnx", true));
    assert!(needs_model_load("", "u2net.onnx", false));
}

#[test]
fn model_input_size_from_shape() {
    assert_eq!(input_hw_from_shape(Some(&[1, 3, 320, 320])), (320, 320));
    assert_eq!(input_hw_from_shape(Some(&[1, 3, 512, 256])), (512, 256));
    assert_eq!(input_hw_from_shape(Some(&[1, 3, 0, 320])), (320, 320));
    assert_eq!(input_hw_from_shape(Some(&[1, 3])), (320, 320));
    assert_eq!(input_hw_from_shape(None), (320, 320));
    assert_eq!(input_hw_from_shape(Some(&[1, 3, -1, -1])), (u32::MAX, u32::MAX));
}

#[test]
fn usable_output_length() {
    assert_eq!(usable_output_len(&[1, 1, 320, 320], 102400, 320, 320), 102400);
    assert_eq!(usable_output_len(&[1, 1, 160, 160], 25600, 320, 320), 25600);
    assert_eq!(usable_output_len(&[1, 1, 160, 160], 100, 320, 320), 100);
    assert_eq!(usable_output_len(&[1, 320, 320], 102400, 320, 320), 102400);
    assert_eq!(usable_output_len(&[1, 10, 10], 100, 320, 320), 100);
    assert_eq!(usable_output_len(&[320, 320], 50000, 320, 320), 50000);
    assert_eq!(usable_output_len(&[5], 10, 2, 2), 4);
}
