use sketchbook::circle::{CirclesRecursive, Range};

#[test]
fn partition_of_nothing_is_empty() {
    let c = CirclesRecursive::new(Vec::new());
    assert_eq!(c.len(), 0);
    assert!(c.partition_by_level().is_empty());
}

#[test]
fn partition_of_one_circle() {
    let c = CirclesRecursive::new(vec![4]);
    assert_eq!(c.partition_by_level(), vec![(0, 1)]);
}

#[test]
fn partition_of_one_level() {
    let c = CirclesRecursive::new(vec![2, 2, 2, 2]);
    assert_eq!(c.partition_by_level(), vec![(0, 4)]);
}

#[test]
fn partition_follows_breadth_first_levels() {
    let c = CirclesRecursive::new(vec![3, 2, 2, 1, 1, 1, 1]);
    assert_eq!(c.partition_by_level(), vec![(0, 1), (1, 3), (3, 7)]);
}

#[test]
fn partition_splits_where_a_level_returns() {
    let c = CirclesRecursive::new(vec![1, 1, 2, 1, 3, 3]);
    assert_eq!(c.partition_by_level(), vec![(0, 2), (2, 3), (3, 4), (4, 6)]);
}

#[test]
fn partition_of_alternating_levels() {
    let c = CirclesRecursive::new(vec![0, 1, 0, 1]);
    assert_eq!(c.partition_by_level(), vec![(0, 1), (1, 2), (2, 3), (3, 4)]);
}

#[test]
fn partition_covers_the_list_without_gaps() {
    let levels: Vec<usize> = (0..200).map(|i| (i * i / 37) % 5).collect();
    let c = CirclesRecursive::new(levels.clone());
    let runs = c.partition_by_level();
    assert_eq!(runs[0].0, 0);
    assert_eq!(runs[runs.len() - 1].1, levels.len());
    for k in 0..runs.len() {
        let (start, end) = runs[k];
        assert!(start < end);
        assert!(levels[start..end].iter().all(|&l| l == levels[start]));
        if k > 0 {
            assert_eq!(runs[k - 1].1, start);
            assert_ne!(levels[start - 1], levels[start]);
        }
    }
}

#[test]
fn reverse_turns_the_levels_around() {
    let mut c = CirclesRecursive::new(vec![3, 2, 2, 1]);
    c.reverse();
    assert_eq!(c.partition_by_level(), vec![(0, 1), (1, 3), (3, 4)]);
    assert_eq!(c.len(), 4);
    c.reverse();
    assert_eq!(c.partition_by_level(), vec![(0, 1), (1, 3), (3, 4)]);
    let mut c = CirclesRecursive::new(vec![5, 5, 1]);
    c.reverse();
    assert_eq!(c.partition_by_level(), vec![(0, 1), (1, 3)]);
}

#[test]
fn reverse_keeps_the_queue() {
    let mut c = CirclesRecursive::new(vec![1; 10]);
    c.add_que(4);
    c.reverse();
    assert_eq!(c.visible(), (0, 4));
}

#[test]
fn queue_starts_empty() {
    let c = CirclesRecursive::new(vec![1; 10]);
    assert!(c.is_que_empty());
    assert_eq!(c.visible(), (0, 0));
}

#[test]
fn add_que_walks_through_the_list() {
    let mut c = CirclesRecursive::new(vec![1; 10]);
    c.add_que(4);
    assert!(!c.is_que_empty());
    assert_eq!(c.visible(), (0, 4));
    c.add_que(4);
    assert_eq!(c.visible(), (5, 9));
    c.add_que(4);
    assert!(c.is_que_empty());
    assert_eq!(c.visible(), (0, 0));
    c.add_que(4);
    assert_eq!(c.visible(), (0, 4));
}

#[test]
fn visible_is_cut_off_at_the_end_of_the_list() {
    let mut c = CirclesRecursive::new(vec![1; 10]);
    c.add_que(6);
    assert_eq!(c.visible(), (0, 6));
    c.add_que(6);
    assert_eq!(c.visible(), (7, 10));
    c.add_que(6);
    assert!(c.is_que_empty());
}

#[test]
fn add_que_on_an_empty_list_queues_nothing() {
    let mut c = CirclesRecursive::new(Vec::new());
    c.add_que(40);
    assert!(c.is_que_empty());
    assert_eq!(c.visible(), (0, 0));
}

#[test]
fn add_que_of_nothing_still_moves_on() {
    let mut c = CirclesRecursive::new(vec![1; 3]);
    c.add_que(0);
    assert!(!c.is_que_empty());
    assert_eq!(c.visible(), (0, 0));
    c.add_que(0);
    assert_eq!(c.visible(), (1, 1));
    c.add_que(0);
    assert_eq!(c.visible(), (2, 2));
    c.add_que(0);
    assert!(c.is_que_empty());
}

#[test]
fn range_holds_start_and_end() {
    let r = Range { start: 2, end: 5 };
    assert_eq!(r, Range { start: 2, end: 5 });
    assert_ne!(r, Range { start: 2, end: 6 });
}

#[test]
fn update_replaces_the_circles_and_keeps_the_queue() {
    let mut c = CirclesRecursive::new(vec![2, 1, 1, 1]);
    c.add_que(2);
    c.add_que(2);
    assert_eq!(c.render_queue(), Some(Range { start: 3, end: 5 }));
    c.update(vec![3, 3, 2, 2, 2, 1]);
    assert_eq!(c.len(), 6);
    assert_eq!(c.partition_by_level(), vec![(0, 2), (2, 5), (5, 6)]);
    assert_eq!(c.render_queue(), Some(Range { start: 3, end: 5 }));
    assert_eq!(c.visible(), (3, 5));
    c.update(vec![1, 1, 1]);
    assert_eq!(c.visible(), (3, 3));
    c.update(vec![1]);
    assert_eq!(c.render_queue(), Some(Range { start: 3, end: 5 }));
    c.add_que(2);
    assert!(c.is_que_empty());
    assert_eq!(c.visible(), (0, 0));
}

#[test]
fn render_queue_reports_the_queued_range() {
    let mut c = CirclesRecursive::new(vec![1; 100]);
    assert_eq!(c.render_queue(), None);
    c.add_que(40);
    assert_eq!(c.render_queue(), Some(Range { start: 0, end: 40 }));
    c.add_que(40);
    assert_eq!(c.render_queue(), Some(Range { start: 41, end: 81 }));
    c.add_que(40);
    assert_eq!(c.render_queue(), Some(Range { start: 82, end: 122 }));
    assert_eq!(c.visible(), (82, 100));
    c.add_que(40);
    assert_eq!(c.render_queue(), None);
}
