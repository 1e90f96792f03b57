use page_cache::buffer::DoubleBuffer;

#[test]
fn new_buffer_serves_seed_from_slot_zero() {
    let b = DoubleBuffer::new("seed".to_string());
    assert_eq!(b.live_index(), 0);
    assert_eq!(b.read_live(), "seed".to_string());
}

#[test]
fn reads_before_publish_see_old_content() {
    let b = DoubleBuffer::new("old".to_string());
    for _ in 0..3 {
        assert_eq!(b.read_live(), "old".to_string());
    }
}

#[test]
fn publish_makes_new_content_live() {
    let mut b = DoubleBuffer::new("old".to_string());
    b.publish_and_swap("new".to_string());
    assert_eq!(b.live_index(), 1);
    assert_eq!(b.read_live(), "new".to_string());
}

#[test]
fn publishes_alternate_slots() {
    let mut b = DoubleBuffer::new("v0".to_string());
    b.publish_and_swap("v1".to_string());
    b.publish_and_swap("v2".to_string());
    assert_eq!(b.live_index(), 0);
    assert_eq!(b.read_live(), "v2".to_string());
    b.publish_and_swap("v3".to_string());
    assert_eq!(b.live_index(), 1);
    assert_eq!(b.read_live(), "v3".to_string());
}

#[test]
fn interleaved_reads_see_whole_versions() {
    let old = "<!DOCTYPE html>old</html>".to_string();
    let new = "<!DOCTYPE html>a much longer new page</html>".to_string();
    let mut b = DoubleBuffer::new(old.clone());
    let mut seen = Vec::new();
    seen.push(b.read_live());
    seen.push(b.read_live());
    b.publish_and_swap(new.clone());
    seen.push(b.read_live());
    for r in &seen {
        assert!(*r == old || *r == new);
    }
    assert_eq!(seen, vec![old.clone(), old, new]);
}
