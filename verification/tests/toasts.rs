use gitgpui_view::toasts::{Toast, ToastKind, Toasts};

fn ids(t: &Toasts) -> Vec<u64> {
    t.toasts.iter().map(|t| t.id).collect()
}

#[test]
fn toasts_get_increasing_ids_and_kind_dependent_lifetimes() {
    let mut t = Toasts { toasts: Vec::new() };
    assert_eq!(t.push_toast(ToastKind::Success, "saved".to_string()), (1, 6));
    assert_eq!(t.push_toast(ToastKind::Error, "failed".to_string()), (2, 15));
    assert_eq!(t.push_persistent_toast(ToastKind::Success, "working".to_string()), 3);
    assert_eq!(ids(&t), vec![1, 2, 3]);
}

#[test]
fn toast_ids_wrap_around() {
    let mut t = Toasts {
        toasts: vec![Toast { id: u64::MAX, kind: ToastKind::Success, message: String::new() }],
    };
    assert_eq!(t.push_persistent_toast(ToastKind::Error, "x".to_string()), 0);
}

#[test]
fn toasts_can_be_updated_and_removed_by_id() {
    let mut t = Toasts { toasts: Vec::new() };
    let a = t.push_persistent_toast(ToastKind::Success, "one".to_string());
    let b = t.push_persistent_toast(ToastKind::Success, "two".to_string());
    assert!(t.update_toast_text(b, "two!".to_string()));
    assert_eq!(t.toasts[1].message, "two!");
    assert_eq!(t.toasts[0].message, "one");
    assert!(!t.update_toast_text(99, "none".to_string()));
    assert!(t.remove_toast(a));
    assert_eq!(ids(&t), vec![b]);
    assert!(!t.remove_toast(a));
    assert!(t.remove_toast(b));
    assert!(t.toasts.is_empty());
}
