use neural_net::nodes_layers::find_biggest;
use neural_net::unpacking::{
    turn_to_result, unpack_images, unpack_labels, F32_ONE_BITS, IMAGE_HEADER_LEN, IMAGE_PIXELS,
    LABEL_HEADER_LEN,
};

#[test]
fn find_biggest_reports_ties_in_position_order() {
    let values = [0.2f32, 0.9, 0.9, 0.1];
    let bits: Vec<u32> = values.iter().map(|v| v.to_bits()).collect();
    let (biggest, positions) = find_biggest(&bits);
    assert_eq!(f32::from_bits(biggest), 0.9);
    assert_eq!(positions, vec![1, 2]);
}

#[test]
fn find_biggest_single_maximum() {
    let bits: Vec<u32> = [0.1f32, 0.7, 0.3].iter().map(|v| v.to_bits()).collect();
    let (biggest, positions) = find_biggest(&bits);
    assert_eq!(f32::from_bits(biggest), 0.7);
    assert_eq!(positions, vec![1]);
}

#[test]
fn find_biggest_all_equal() {
    let bits = vec![5u32, 5, 5];
    let (biggest, positions) = find_biggest(&bits);
    assert_eq!(biggest, 5);
    assert_eq!(positions, vec![0, 1, 2]);
}

#[test]
fn find_biggest_of_zeros_counts_every_position() {
    let bits = vec![0u32, 0];
    let (biggest, positions) = find_biggest(&bits);
    assert_eq!(biggest, 0);
    assert_eq!(positions, vec![0, 1]);
}

#[test]
fn find_biggest_of_nothing() {
    let (biggest, positions) = find_biggest(&[]);
    assert_eq!(biggest, 0);
    assert!(positions.is_empty());
}

#[test]
fn one_hot_targets_have_the_pattern_of_one_at_the_label() {
    let targets = turn_to_result(vec![3, 0, 9]);
    assert_eq!(targets.len(), 3);
    for (row, label) in targets.iter().zip([3usize, 0, 9]) {
        assert_eq!(row.len(), 10);
        for (j, &bits) in row.iter().enumerate() {
            if j == label {
                assert_eq!(bits, F32_ONE_BITS);
                assert_eq!(f32::from_bits(bits), 1.0);
            } else {
                assert_eq!(bits, 0);
                assert_eq!(f32::from_bits(bits), 0.0);
            }
        }
    }
}

#[test]
fn one_hot_of_no_labels_is_empty() {
    assert!(turn_to_result(Vec::new()).is_empty());
}

#[test]
fn unpack_labels_strips_the_header() {
    let mut data: Vec<u8> = vec![0; LABEL_HEADER_LEN];
    data.extend([5u8, 0, 4, 1]);
    assert_eq!(unpack_labels(&data), vec![5, 0, 4, 1]);
}

#[test]
fn unpack_labels_of_a_bare_header_is_empty() {
    let data = vec![0u8; LABEL_HEADER_LEN];
    assert!(unpack_labels(&data).is_empty());
}

#[test]
fn unpack_images_cuts_pixel_runs() {
    let mut data: Vec<u8> = vec![0; IMAGE_HEADER_LEN];
    for i in 0..2 * IMAGE_PIXELS {
        data.push((i % 251) as u8);
    }
    let images = unpack_images(&data);
    assert_eq!(images.len(), 2);
    assert_eq!(images[0].len(), IMAGE_PIXELS);
    assert_eq!(images[1].len(), IMAGE_PIXELS);
    assert_eq!(images[0][0], 0);
    assert_eq!(images[0][250], 250 % 251);
    assert_eq!(images[1][0], (IMAGE_PIXELS % 251) as u8);
    assert_eq!(images[1][IMAGE_PIXELS - 1], ((2 * IMAGE_PIXELS - 1) % 251) as u8);
}

#[test]
fn unpack_images_of_a_bare_header_is_empty() {
    let data = vec![0u8; IMAGE_HEADER_LEN];
    assert!(unpack_images(&data).is_empty());
}
