use ray_marching_csg::node::{compile, CSGNode};
use ray_marching_csg::primitives::Sphere;
use ray_marching_csg::upload::upload_bytes;

#[test]
fn bytes_are_the_words_in_memory_order() {
    let words = vec![1u32, 0x3f80_0000, 0xdead_beef, 0];
    let mut expected = Vec::new();
    for word in &words {
        expected.extend_from_slice(&word.to_ne_bytes());
    }
    assert_eq!(upload_bytes(&words), expected.as_slice());
    assert_eq!(upload_bytes(&words).len(), 16);
}

#[test]
fn bytes_read_back_as_the_words() {
    let words = vec![0x0102_0304u32, 0xfffe_fdfc, 7];
    let bytes = upload_bytes(&words);
    let back: Vec<u32> = bytes
        .chunks(4)
        .map(|four| u32::from_ne_bytes([four[0], four[1], four[2], four[3]]))
        .collect();
    assert_eq!(back, words);
}

#[test]
fn no_words_give_no_bytes() {
    assert!(upload_bytes(&Vec::new()).is_empty());
}

#[test]
fn compiled_buffers_upload_four_bytes_a_word() {
    let scene = Some(CSGNode::Sphere(Sphere { center: [0, 0, 0], radius: 1.0f32.to_bits() }));
    let (count, opcodes, params) = compile(&scene).unwrap();
    assert_eq!(count, 1);
    assert_eq!(upload_bytes(&opcodes).len(), 4);
    assert_eq!(upload_bytes(&params).len(), 16);
    assert_eq!(&upload_bytes(&params)[12..16], &1.0f32.to_ne_bytes());
}
