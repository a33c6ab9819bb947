use mesh::data::DrawData;

#[test]
fn new_batch_is_empty() {
    let d: DrawData<u8> = DrawData::new();
    assert!(d.vertecies().is_empty());
    assert!(d.indicies().is_empty());
    assert_eq!(d.offset(), 0);
}

#[test]
fn indices_are_shifted_by_the_vertices_before() {
    let mut d: DrawData<char> = DrawData::new();
    d.add_data(vec!['a', 'b', 'c', 'd'], [0, 1, 2, 2, 3, 0]);
    d.add_data(vec!['e', 'f', 'g', 'h'], [0, 1, 2, 2, 3, 0]);
    assert_eq!(d.vertecies(), &vec!['a', 'b', 'c', 'd', 'e', 'f', 'g', 'h']);
    assert_eq!(d.indicies(), &vec![0, 1, 2, 2, 3, 0, 4, 5, 6, 6, 7, 4]);
    assert_eq!(d.offset(), 8);
}

#[test]
fn shifted_indices_point_at_the_batch_vertices() {
    let mut d: DrawData<u32> = DrawData::new();
    d.add_data(vec![10, 11, 12], [2, 0, 1]);
    let batch = vec![20, 21, 22, 23];
    let idx = [3u32, 1, 0, 2];
    d.add_data(batch.clone(), idx);
    for k in 0..idx.len() {
        let shifted = d.indicies()[3 + k] as usize;
        assert_eq!(d.vertecies()[shifted], batch[idx[k] as usize]);
    }
}

#[test]
fn reset_drops_everything() {
    let mut d: DrawData<u8> = DrawData::new();
    d.add_data(vec![1, 2, 3], [0, 1, 2]);
    d.reset();
    assert!(d.vertecies().is_empty());
    assert!(d.indicies().is_empty());
    assert_eq!(d.offset(), 0);
    d.add_data(vec![7], [0]);
    assert_eq!(d.indicies(), &vec![0]);
}

#[test]
fn batch_without_indices_only_moves_the_offset() {
    let mut d: DrawData<u8> = DrawData::new();
    d.add_data(vec![1, 2], []);
    assert_eq!(d.offset(), 2);
    d.add_data(vec![], [5]);
    assert_eq!(d.indicies(), &vec![7]);
    assert_eq!(d.offset(), 2);
}
