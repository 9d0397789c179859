use opengrid_web_components::columns::{ColumnLayout, MAX_COLUMN_WIDTH, MIN_COLUMN_WIDTH, WIDTH_STEP};

fn declared() -> Vec<String> {
    ["id", "customer", "amount", "qty"]
        .iter()
        .map(|name| (*name).to_owned())
        .collect()
}

/// Without any change the attribute decides, in its own order.
#[test]
fn an_untouched_layout_is_the_attribute() {
    assert_eq!(ColumnLayout::default().effective(&declared()), declared());
}

/// A hidden column is not selected at all — the query does not ask for it.
#[test]
fn a_hidden_column_leaves_the_list() {
    let mut layout = ColumnLayout::default();
    assert!(layout.set_hidden("customer", true));
    assert_eq!(
        layout.effective(&declared()),
        ["id".to_owned(), "amount".to_owned(), "qty".to_owned()]
    );
    assert!(!layout.set_hidden("customer", true), "already hidden");
    assert!(layout.set_hidden("customer", false));
    assert_eq!(layout.effective(&declared()), declared());
}

/// Moving is among the visible columns: a hidden one is not a place a column
/// can land on.
#[test]
fn a_column_moves_among_the_visible_ones() {
    let mut layout = ColumnLayout::default();
    layout.set_hidden("customer", true);
    let moved = layout.move_column(&declared(), "id", 1).expect("moved");
    assert_eq!(
        moved,
        ["amount".to_owned(), "id".to_owned(), "qty".to_owned()]
    );

    // Unhiding puts the column back without scrambling the arrangement.
    layout.set_hidden("customer", false);
    assert_eq!(
        layout.effective(&declared()),
        [
            "amount".to_owned(),
            "id".to_owned(),
            "qty".to_owned(),
            "customer".to_owned()
        ]
    );
}

/// At either end the move does nothing and says so, instead of wrapping.
#[test]
fn a_move_off_the_end_is_refused() {
    let mut layout = ColumnLayout::default();
    assert!(layout.move_column(&declared(), "id", -1).is_none());
    assert!(layout.move_column(&declared(), "qty", 1).is_none());
    assert_eq!(layout.effective(&declared()), declared());
}

/// A width is clamped: not into nothing, not off the screen.
#[test]
fn a_width_stays_usable() {
    let mut layout = ColumnLayout::default();
    for _ in 0..50 {
        layout.resize("id", -(WIDTH_STEP as i32), 120);
    }
    assert_eq!(layout.width("id"), Some(MIN_COLUMN_WIDTH));
    for _ in 0..100 {
        layout.resize("id", WIDTH_STEP as i32, 120);
    }
    assert_eq!(layout.width("id"), Some(MAX_COLUMN_WIDTH));
}

#[test]
fn a_resize_starts_from_the_drawn_width_and_answers_the_new_one() {
    let mut layout = ColumnLayout::new();
    assert_eq!(layout.width("amount"), None);
    assert_eq!(layout.resize("amount", 24, 120), 144);
    assert_eq!(layout.width("amount"), Some(144));
    // The given width wins over the drawn one from now on.
    assert_eq!(layout.resize("amount", -24, 500), 120);
    assert_eq!(layout.width("amount"), Some(120));
}

#[test]
fn a_set_width_is_clamped_like_a_key_press() {
    let mut layout = ColumnLayout::new();
    layout.set_width("id", 5);
    layout.set_width("qty", 5000);
    layout.set_width("amount", 200);
    assert_eq!(layout.width("id"), Some(48));
    assert_eq!(layout.width("qty"), Some(800));
    assert_eq!(
        layout.widths(),
        vec![
            ("amount".to_owned(), 200),
            ("id".to_owned(), 48),
            ("qty".to_owned(), 800)
        ]
    );
}

#[test]
fn the_hidden_columns_read_back_sorted() {
    let mut layout = ColumnLayout::new();
    layout.set_hidden("qty", true);
    layout.set_hidden("amount", true);
    layout.set_hidden("customer", true);
    assert_eq!(
        layout.hidden(),
        vec!["amount".to_owned(), "customer".to_owned(), "qty".to_owned()]
    );
    assert!(layout.is_hidden("amount"));
    assert!(!layout.is_hidden("id"));
    // Hiding and showing again leaves the rest as it was.
    assert!(layout.set_hidden("id", true));
    assert!(layout.set_hidden("id", false));
    assert_eq!(
        layout.hidden(),
        vec!["amount".to_owned(), "customer".to_owned(), "qty".to_owned()]
    );
    assert!(!layout.set_hidden("id", false), "not hidden");
}

#[test]
fn an_order_the_attribute_does_not_declare_is_ignored() {
    let mut layout = ColumnLayout::new();
    layout.set_order(vec!["gone".to_owned(), "qty".to_owned(), "id".to_owned()]);
    assert_eq!(
        layout.order(),
        ["gone".to_owned(), "qty".to_owned(), "id".to_owned()]
    );
    assert_eq!(
        layout.effective(&declared()),
        [
            "qty".to_owned(),
            "id".to_owned(),
            "customer".to_owned(),
            "amount".to_owned()
        ]
    );
}

#[test]
fn a_move_left_and_a_move_back_restore_the_order() {
    let mut layout = ColumnLayout::new();
    let moved = layout.move_column(&declared(), "amount", -1).expect("moved");
    assert_eq!(
        moved,
        [
            "id".to_owned(),
            "amount".to_owned(),
            "customer".to_owned(),
            "qty".to_owned()
        ]
    );
    assert_eq!(layout.effective(&declared()), moved);
    let back = layout.move_column(&declared(), "amount", 1).expect("moved");
    assert_eq!(back, declared());
    // A column that is not visible does not move.
    layout.set_hidden("qty", true);
    assert!(layout.move_column(&declared(), "qty", -1).is_none());
}
