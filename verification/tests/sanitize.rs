use ros2_bridge::sanitize::checksum_of_bytes;
use ros2_bridge::sanitize::sanitize_and_checksum;

#[test]
fn checksum_of_empty_input_is_zero() {
    assert_eq!(checksum_of_bytes(&[]), 0);
}

#[test]
fn checksum_of_single_byte_is_that_byte() {
    assert_eq!(checksum_of_bytes(&[65]), 65);
}

#[test]
fn checksum_folds_bytes_in_order() {
    // 65 * 31 + 66 = 2081
    assert_eq!(checksum_of_bytes(&[65, 66]), 2081);
    assert_ne!(checksum_of_bytes(&[66, 65]), 2081);
}

#[test]
fn sanitize_known_scenario() {
    assert_eq!(sanitize_and_checksum("robot/status!"), "ros2_robot_status_629032112");
}

#[test]
fn sanitize_empty_input() {
    assert_eq!(sanitize_and_checksum(""), "ros2_0");
}

#[test]
fn sanitize_is_deterministic() {
    let first = sanitize_and_checksum("robot/status!");
    let second = sanitize_and_checksum("robot/status!");
    assert_eq!(first, second);
}

#[test]
fn sanitize_starts_with_prefix() {
    assert!(sanitize_and_checksum("").starts_with("ros2_"));
    assert!(sanitize_and_checksum("camera").starts_with("ros2_"));
    assert!(sanitize_and_checksum("!!!").starts_with("ros2_"));
}

#[test]
fn sanitize_body_uses_legal_characters_only() {
    let out = sanitize_and_checksum("a b-c/d.e!f~");
    for c in out.chars() {
        assert!(c.is_ascii_alphanumeric() || c == '_');
    }
    assert_eq!(&out[..12], "ros2_a_b_c_d");
}

#[test]
fn sanitize_checksum_covers_raw_bytes_not_sanitized_body() {
    // A non-ASCII character becomes one underscore in the body, while the
    // checksum folds in both of its UTF-8 bytes: (195 * 31 + 169) = 6214.
    assert_eq!(sanitize_and_checksum("\u{e9}"), "ros2__6214");
}

#[test]
fn sanitize_truncates_long_input_to_exact_bound() {
    let long = "a".repeat(300);
    let out = sanitize_and_checksum(&long);
    assert_eq!(out.len(), 256);
    let expected = format!("ros2_{}935750867", "a".repeat(242));
    assert_eq!(out, expected);
}

#[test]
fn sanitize_keeps_legal_input_untruncated() {
    let name = "camera_1";
    let out = sanitize_and_checksum(name);
    assert!(out.starts_with("ros2_camera_1"));
    assert!(out.len() <= 256);
}
