use aco_rust::distance_matrix::{get_distance, get_distance_value};

fn matrix_bytes(values: &[f32]) -> Vec<u8> {
    values.iter().flat_map(|v| v.to_le_bytes()).collect()
}

#[test]
fn row_of_a_matrix() {
    let bytes = matrix_bytes(&[0.0, 1.5, 2.5, 1.5, 0.0, 4.0, 2.5, 4.0, 0.0]);
    let row: Vec<f32> = get_distance(&bytes, 3, 1).into_iter().map(f32::from_bits).collect();
    assert_eq!(row, vec![1.5, 0.0, 4.0]);
    let last: Vec<f32> = get_distance(&bytes, 3, 2).into_iter().map(f32::from_bits).collect();
    assert_eq!(last, vec![2.5, 4.0, 0.0]);
}

#[test]
fn single_entries_of_a_matrix() {
    let bytes = matrix_bytes(&[0.0, 1.5, 2.5, 1.5, f32::INFINITY, 4.0]);
    assert_eq!(f32::from_bits(get_distance_value(&bytes, 3, 0, 2)), 2.5);
    assert_eq!(f32::from_bits(get_distance_value(&bytes, 3, 1, 1)), f32::INFINITY);
    assert_eq!(get_distance_value(&bytes, 3, 1, 2), 4.0f32.to_bits());
}

#[test]
fn words_are_little_endian() {
    let bytes = vec![0x01, 0x02, 0x03, 0x04, 0xff, 0x00, 0x00, 0x80];
    assert_eq!(get_distance(&bytes, 2, 0), vec![0x0403_0201, 0x8000_00ff]);
    assert_eq!(get_distance_value(&bytes, 1, 1, 0), 0x8000_00ff);
}

#[test]
fn empty_rows() {
    let bytes: Vec<u8> = Vec::new();
    assert_eq!(get_distance(&bytes, 0, 5), Vec::<u32>::new());
    assert_eq!(get_distance(&bytes, -2, 3), Vec::<u32>::new());
}

#[test]
fn row_entries_agree_with_single_reads() {
    let values: Vec<f32> = (0..16).map(|i| i as f32 * 0.25).collect();
    let bytes = matrix_bytes(&values);
    for x in 0..4 {
        let row = get_distance(&bytes, 4, x);
        for y in 0..4 {
            assert_eq!(row[y as usize], get_distance_value(&bytes, 4, x, y));
        }
    }
}
