use rigstats::spark::{premul_color, Sparkline};

#[test]
fn new_fills_with_zeros() {
    let s = Sparkline::new(10, 0.0f32);
    assert!(s.values().iter().all(|&v| v == 0.0));
}

#[test]
fn new_length_matches_capacity() {
    let s = Sparkline::new(80, 0.0f32);
    assert_eq!(s.values().len(), 80);
}

#[test]
fn push_evicts_oldest() {
    let mut s = Sparkline::new(3, 0.0f32);
    s.push(5.0);
    let v: Vec<f32> = s.values().iter().copied().collect();
    assert_eq!(v, vec![0.0, 0.0, 5.0]);
}

#[test]
fn push_maintains_length() {
    let mut s = Sparkline::new(5, 0.0f32);
    for i in 0..20 {
        s.push(i as f32);
    }
    assert_eq!(s.values().len(), 5);
}

#[test]
fn push_multiple_preserves_order() {
    let mut s = Sparkline::new(3, 0.0f32);
    s.push(1.0);
    s.push(2.0);
    s.push(3.0);
    let v: Vec<f32> = s.values().iter().copied().collect();
    assert_eq!(v, vec![1.0, 2.0, 3.0]);
}

#[test]
fn window_holds_the_latest_samples() {
    let mut s = Sparkline::new(4, 0u32);
    for i in 1..=10u32 {
        s.push(i);
    }
    let v: Vec<u32> = s.values().iter().copied().collect();
    assert_eq!(v, vec![7, 8, 9, 10]);
}

#[test]
fn empty_window_grows_to_one() {
    let mut s = Sparkline::new(0, 0u32);
    s.push(4);
    s.push(5);
    let v: Vec<u32> = s.values().iter().copied().collect();
    assert_eq!(v, vec![5]);
}

#[test]
fn premultiplied_colours() {
    assert_eq!(premul_color((255, 128, 0), 255), (255, 128, 0, 255));
    assert_eq!(premul_color((255, 128, 0), 0), (0, 0, 0, 0));
    assert_eq!(premul_color((200, 100, 50), 128), (100, 50, 25, 128));
}
