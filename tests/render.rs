use claymore::pose::{Affine, Pose};
use claymore::render::{compare, order_opaque, quantize_depth, Object, Order, Queue, View};
use std::cmp::Ordering;

fn depths(q: &Queue<()>) -> Vec<u32> {
    q.iter().iter().map(|o| o.depth).collect()
}

#[test]
fn sort_by_ascending_depth() {
    let mut q: Queue<()> = Queue::new();
    for d in [5u32, 1, 3] {
        q.objects.push(Object::new(0, (), d));
    }
    q.sort(Order::FrontToBack);
    assert_eq!(depths(&q), vec![1, 3, 5]);
    // The objects themselves did not move.
    let stored: Vec<u32> = q.objects.iter().map(|o| o.depth).collect();
    assert_eq!(stored, vec![5, 1, 3]);
}

#[test]
fn truncate_then_update_keeps_valid_indices() {
    let mut q: Queue<()> = Queue::new();
    for d in 0..5u32 {
        q.objects.push(Object::new(0, (), d));
    }
    q.update();
    assert_eq!(q.draw_order().len(), 5);
    q.objects.truncate(2);
    q.update();
    let order = q.draw_order();
    assert_eq!(order.len(), 2);
    assert!(order.iter().all(|&i| i < 2));
    assert!(q.is_updated());
}

#[test]
fn truncate_after_sort_keeps_relative_order() {
    let mut q: Queue<()> = Queue::new();
    for d in [9u32, 4, 7, 1, 3] {
        q.objects.push(Object::new(0, (), d));
    }
    q.sort(Order::FrontToBack);
    assert_eq!(q.draw_order().to_vec(), vec![3, 4, 1, 2, 0]);
    q.objects.truncate(3);
    q.update();
    assert_eq!(q.draw_order().to_vec(), vec![1, 2, 0]);
}

#[test]
fn growth_appends_new_positions() {
    let mut q: Queue<()> = Queue::new();
    q.objects.push(Object::new(0, (), 2));
    q.objects.push(Object::new(0, (), 1));
    q.sort(Order::FrontToBack);
    assert_eq!(q.draw_order().to_vec(), vec![1, 0]);
    q.objects.push(Object::new(0, (), 0));
    assert!(!q.is_updated());
    q.update();
    assert_eq!(q.draw_order().to_vec(), vec![1, 0, 2]);
}

#[test]
fn push_truncate_sequences_stay_permutations() {
    let mut q: Queue<()> = Queue::new();
    let steps: [(usize, usize); 6] = [(3, 0), (0, 1), (4, 0), (0, 5), (2, 0), (0, 0)];
    for &(push, keep) in steps.iter() {
        for k in 0..push {
            q.objects.push(Object::new(k as u32, (), (k * 7 % 5) as u32));
        }
        if push == 0 {
            q.objects.truncate(keep);
        }
        q.sort(Order::Opaque);
        let mut seen: Vec<usize> = q.draw_order().to_vec();
        seen.sort();
        let expected: Vec<usize> = (0..q.objects.len()).collect();
        assert_eq!(seen, expected);
    }
}

#[test]
fn opaque_sort_groups_batches_then_depth() {
    let mut q: Queue<()> = Queue::new();
    let items = [(2u32, 5u32), (1, 9), (2, 1), (1, 3), (0, 100)];
    for &(b, d) in items.iter() {
        q.objects.push(Object::new(b, (), d));
    }
    q.sort(Order::Opaque);
    let got: Vec<(u32, u32)> = q.iter().iter().map(|o| (o.batch, o.depth)).collect();
    assert_eq!(got, vec![(0, 100), (1, 3), (1, 9), (2, 1), (2, 5)]);
    let ordered = q.iter();
    for k in 0..ordered.len() - 1 {
        assert_ne!(order_opaque(ordered[k], ordered[k + 1]), Ordering::Greater);
    }
}

#[test]
fn back_to_front_sorts_descending() {
    let mut q: Queue<()> = Queue::new();
    for d in [2u32, 8, 5, 8] {
        q.objects.push(Object::new(0, (), d));
    }
    q.sort(Order::BackToFront);
    assert_eq!(depths(&q), vec![8, 8, 5, 2]);
}

#[test]
fn unordered_keeps_insertion_order() {
    let mut q: Queue<()> = Queue::new();
    for d in [2u32, 8, 5] {
        q.objects.push(Object::new(0, (), d));
    }
    q.sort(Order::Unordered);
    assert_eq!(depths(&q), vec![2, 8, 5]);
}

#[test]
fn compare_orders() {
    let a = Object::new(1, (), 10);
    let b = Object::new(2, (), 3);
    assert_eq!(order_opaque(&a, &b), Ordering::Less);
    assert_eq!(order_opaque(&b, &a), Ordering::Greater);
    assert_eq!(order_opaque(&a, &a), Ordering::Equal);
    assert_eq!(compare(Order::FrontToBack, &a, &b), Ordering::Greater);
    assert_eq!(compare(Order::BackToFront, &a, &b), Ordering::Less);
    assert_eq!(compare(Order::Unordered, &a, &b), Ordering::Equal);
}

#[test]
fn midpoint_depth_is_half_range() {
    assert_eq!(quantize_depth(6, 1, 11, 1000), 500);
}

#[test]
fn depth_edges_and_clamping() {
    assert_eq!(quantize_depth(1, 1, 11, 1000), 0);
    assert_eq!(quantize_depth(11, 1, 11, 1000), 1000);
    assert_eq!(quantize_depth(-50, 1, 11, 1000), 0);
    assert_eq!(quantize_depth(50, 1, 11, 1000), 1000);
    assert_eq!(quantize_depth(11, 1, 11, u32::MAX), u32::MAX);
    assert_eq!(quantize_depth(i64::MAX, i64::MIN, i64::MAX, u32::MAX), u32::MAX);
    // Planes given far first.
    assert_eq!(quantize_depth(6, 11, 1, 1000), 500);
    assert_eq!(quantize_depth(10, 11, 1, 1000), 100);
}

#[test]
fn depth_is_monotone_between_planes() {
    let mut last = 0u32;
    for d in 1..=11i64 {
        let k = quantize_depth(d, 1, 11, 1000);
        assert!(k >= last);
        last = k;
    }
    assert!(quantize_depth(3, 1, 11, 1000) <= quantize_depth(4, 1, 11, 1000));
}

#[test]
fn view_rejects_coinciding_planes() {
    let v: Option<View<(), Affine>> = View::new(Affine::identity(), 5, 5, 1000);
    assert!(v.is_none());
}

#[test]
fn view_add_computes_depth_from_camera() {
    let mut v: View<u8, Affine> = View::new(Affine::translation(0, 0, -2), 1, 11, 1000).unwrap();
    v.add(3, 7u8, &Affine::translation(4, 4, 8), ());
    v.add(1, 9u8, &Affine::translation(0, 0, 3), ());
    let objs = &v.queue().objects;
    assert_eq!(objs[0].depth, 500);
    assert_eq!(objs[0].parameters, 7);
    assert_eq!(objs[1].depth, 0);
    let drawn: Vec<(u32, u8)> = v.render().iter().map(|o| (o.batch, o.parameters)).collect();
    assert_eq!(drawn, vec![(1, 9), (3, 7)]);
    v.clear();
    assert_eq!(v.queue().objects.len(), 0);
    assert_eq!(v.render().len(), 0);
}

#[test]
fn push_and_truncate_methods_match_the_field() {
    let mut q: Queue<()> = Queue::new();
    for d in [4u32, 2, 9] {
        q.push(Object::new(1, (), d));
    }
    assert_eq!(q.objects.len(), 3);
    q.sort(Order::FrontToBack);
    q.truncate(5);
    assert_eq!(q.objects.len(), 3);
    q.truncate(1);
    q.update();
    assert_eq!(q.draw_order().to_vec(), vec![0]);
    assert_eq!(depths(&q), vec![4]);
}
