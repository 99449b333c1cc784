use event_tracker::view::{RollingView, RENDER_WINDOW};

fn entries(n: usize) -> Vec<String> {
    (1..=n).map(|i| format!("entry {}", i)).collect()
}

#[test]
fn window_size_is_ten() {
    assert_eq!(RENDER_WINDOW, 10);
}

#[test]
fn fifteen_entries_render_last_ten_oldest_first() {
    let mut view = RollingView::new();
    view.absorb(entries(15));
    assert_eq!(view.len(), 15);
    let shown = view.render_window();
    assert_eq!(shown.len(), 10);
    // Entries 6 through 15, oldest of the window first.
    for (offset, line) in shown.iter().enumerate() {
        assert_eq!(line, &format!("entry {}", 6 + offset));
    }
}

#[test]
fn few_entries_render_all_of_them() {
    let mut view = RollingView::new();
    view.absorb(entries(3));
    let shown = view.render_window();
    assert_eq!(shown, vec!["entry 1", "entry 2", "entry 3"]);
}

#[test]
fn absorbing_in_batches_keeps_arrival_order() {
    let mut view = RollingView::new();
    view.absorb(vec!["a".to_string(), "b".to_string()]);
    view.absorb(Vec::new());
    view.absorb(vec!["c".to_string()]);
    assert_eq!(view.len(), 3);
    assert_eq!(view.render_window(), vec!["a", "b", "c"]);
}

#[test]
fn storage_is_unbounded_but_rendering_is_not() {
    let mut view = RollingView::new();
    for batch in 0..30 {
        view.absorb(vec![format!("line {}", batch)]);
    }
    assert_eq!(view.len(), 30);
    let shown = view.render_window();
    assert_eq!(shown.len(), 10);
    assert_eq!(shown[0], "line 20");
    assert_eq!(shown[9], "line 29");
}
