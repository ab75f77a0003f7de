use rcgos::mm::page_table::{
    i32_to_le_bytes, page_ceil_of, translated_byte_buffer_checked, translated_refmut_write_i32, translated_str,
    u64_to_le_bytes,
};
use rcgos::mm::UserMemory;
use rcgos::syscall::process::copy_to_user;

fn space() -> UserMemory {
    let mut m = UserMemory::new(1, 4);
    m.set_mapped(0, true);
    m.set_mapped(1, true);
    m.set_mapped(3, true);
    m
}

#[test]
fn new_memory_is_unmapped_and_zero() {
    let m = UserMemory::new(5, 2);
    assert_eq!(m.num_pages(), 2);
    assert_eq!(m.bytes.len(), 8192);
    assert_eq!(m.read_byte(0), None);
    assert!(!m.addr_mapped(4096));
}

#[test]
fn translation_splits_at_page_boundaries() {
    let m = space();
    let chunks = translated_byte_buffer_checked(&m, 4000, 200).unwrap();
    assert_eq!(chunks, vec![(4000, 96), (4096, 104)]);
    assert_eq!(translated_byte_buffer_checked(&m, 8000, 200), None);
    assert_eq!(translated_byte_buffer_checked(&m, 16000, 1000), None);
    assert_eq!(translated_byte_buffer_checked(&m, 0, 0), Some(vec![]));
}

#[test]
fn copy_to_user_writes_across_pages() {
    let mut m = space();
    let src: Vec<u8> = (0..200).map(|i| i as u8).collect();
    assert!(copy_to_user(&mut m, 4000, &src));
    for i in 0..200 {
        assert_eq!(m.read_byte(4000 + i), Some(i as u8));
    }
}

#[test]
fn copy_to_user_refuses_unmapped_or_empty_ranges() {
    let mut m = space();
    let src = [1u8; 300];
    assert!(!copy_to_user(&mut m, 8100, &src));
    assert_eq!(m.bytes[8100], 0);
    assert!(!copy_to_user(&mut m, 100, &[]));
}

#[test]
fn strings_and_integers_in_user_memory() {
    let mut m = space();
    for (i, b) in b"initproc\0".iter().enumerate() {
        m.write_byte(4090 + i, *b);
    }
    assert_eq!(translated_str(&m, 4090), b"initproc".to_vec());
    translated_refmut_write_i32(&mut m, 12, -2);
    assert_eq!(m.bytes[12..16].to_vec(), (-2i32).to_le_bytes().to_vec());
}

#[test]
fn little_endian_encodings() {
    assert_eq!(u64_to_le_bytes(0x0102_0304_0506_0708), 0x0102_0304_0506_0708u64.to_le_bytes().to_vec());
    assert_eq!(i32_to_le_bytes(-5), (-5i32).to_le_bytes().to_vec());
}

#[test]
fn page_ceil_rounds_up() {
    assert_eq!(page_ceil_of(0), 0);
    assert_eq!(page_ceil_of(1), 1);
    assert_eq!(page_ceil_of(4096), 1);
    assert_eq!(page_ceil_of(4097), 2);
}

#[test]
fn fork_style_copy_and_recycle() {
    let mut m = space();
    m.write_byte(5, 9);
    let c = m.from_existed_user();
    assert_eq!(c.bytes, m.bytes);
    assert_eq!(c.mapped, m.mapped);
    m.recycle_data_pages();
    assert!(m.mapped.iter().all(|x| !*x));
    m.set_pages(1, 3, true);
    assert_eq!(m.mapped, vec![false, true, true, false]);
}
