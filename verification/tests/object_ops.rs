use pixel_object::{BackendCall, Color, Object, Pixel};

fn px(x: u16, y: u16, color: Color) -> Pixel {
    Pixel { x, y, color }
}

fn draw(x: u16, y: u16, color: Color) -> BackendCall {
    BackendCall::Draw { x, y, color }
}

fn erase(x: u16, y: u16) -> BackendCall {
    BackendCall::Erase { x, y }
}

fn sample() -> Vec<Pixel> {
    vec![
        px(4, 2, Color::Green),
        px(0, 0, Color::Red),
        px(4, 2, Color::Green),
        px(7, 1, Color::Rgb { r: 1, g: 2, b: 3 }),
        px(0, 0, Color::Blue),
    ]
}

#[test]
fn new_keeps_pixels_in_order() {
    let object = Object::new(sample());
    assert_eq!(object.pixels, sample());
}

#[test]
fn new_accepts_no_pixels_and_any_coordinates() {
    let empty = Object::new(vec![]);
    assert!(empty.pixels.is_empty());
    let far = Object::new(vec![px(u16::MAX, u16::MAX, Color::Reset)]);
    assert_eq!(far.pixels, vec![px(65535, 65535, Color::Reset)]);
}

#[test]
fn draw_asks_one_draw_per_pixel_in_order() {
    let object = Object::new(sample());
    let calls = object.draw();
    assert_eq!(
        calls,
        vec![
            draw(4, 2, Color::Green),
            draw(0, 0, Color::Red),
            draw(4, 2, Color::Green),
            draw(7, 1, Color::Rgb { r: 1, g: 2, b: 3 }),
            draw(0, 0, Color::Blue),
        ]
    );
    assert_eq!(object.pixels, sample());
}

#[test]
fn draw_of_empty_object_asks_nothing() {
    assert_eq!(Object::new(vec![]).draw(), vec![]);
}

#[test]
fn erase_pixels_leaves_no_pixels() {
    let mut object = Object::new(sample());
    let calls = object.erase_pixels();
    assert!(object.pixels.is_empty());
    assert_eq!(calls, vec![erase(4, 2), erase(0, 0), erase(4, 2), erase(7, 1), erase(0, 0)]);
}

#[test]
fn erase_pixels_on_empty_object() {
    let mut object = Object::new(vec![]);
    assert_eq!(object.erase_pixels(), vec![]);
    assert!(object.pixels.is_empty());
    assert_eq!(object.erase_pixels(), vec![]);
}

#[test]
fn add_pixels_appends_in_order() {
    let mut object = Object::new(vec![px(1, 1, Color::Red), px(2, 2, Color::Blue)]);
    object.add_pixels(vec![px(0, 0, Color::White), px(1, 1, Color::Red)]);
    assert_eq!(
        object.pixels,
        vec![
            px(1, 1, Color::Red),
            px(2, 2, Color::Blue),
            px(0, 0, Color::White),
            px(1, 1, Color::Red),
        ]
    );
    object.add_pixels(vec![]);
    assert_eq!(object.pixels.len(), 4);
}

#[test]
fn erased_object_takes_new_pixels() {
    let mut object = Object::new(sample());
    object.erase_pixels();
    object.add_pixels(vec![px(9, 9, Color::Cyan)]);
    assert_eq!(object.pixels, vec![px(9, 9, Color::Cyan)]);
    assert_eq!(object.draw(), vec![draw(9, 9, Color::Cyan)]);
}

#[test]
fn optimize_twice_is_optimize_once() {
    let mut object = Object::new(sample());
    object.optimize();
    let once = object.pixels.clone();
    object.optimize();
    assert_eq!(object.pixels, once);
}

#[test]
fn optimize_keeps_each_distinct_pixel_once() {
    let mut object = Object::new(sample());
    object.optimize();
    assert!(object.pixels.len() <= sample().len());
    for p in sample() {
        assert_eq!(object.pixels.iter().filter(|q| **q == p).count(), 1);
    }
    for q in &object.pixels {
        assert!(sample().contains(q));
    }
    assert_eq!(
        object.pixels,
        vec![
            px(0, 0, Color::Red),
            px(0, 0, Color::Blue),
            px(4, 2, Color::Green),
            px(7, 1, Color::Rgb { r: 1, g: 2, b: 3 }),
        ]
    );
}

#[test]
fn optimize_drops_repeated_pixel() {
    let mut object =
        Object::new(vec![px(0, 0, Color::Red), px(0, 0, Color::Red), px(1, 1, Color::Blue)]);
    object.optimize();
    assert_eq!(object.pixels, vec![px(0, 0, Color::Red), px(1, 1, Color::Blue)]);
}

#[test]
fn optimize_orders_one_cell_by_color() {
    let mut object = Object::new(vec![px(3, 3, Color::Blue), px(3, 3, Color::Red)]);
    assert_eq!(object.draw().last(), Some(&draw(3, 3, Color::Red)));
    object.optimize();
    assert_eq!(object.pixels, vec![px(3, 3, Color::Red), px(3, 3, Color::Blue)]);
    assert_eq!(object.draw().last(), Some(&draw(3, 3, Color::Blue)));
}

#[test]
fn optimize_of_empty_and_single() {
    let mut empty = Object::new(vec![]);
    empty.optimize();
    assert!(empty.pixels.is_empty());
    let mut single = Object::new(vec![px(5, 6, Color::Grey)]);
    single.optimize();
    assert_eq!(single.pixels, vec![px(5, 6, Color::Grey)]);
}

#[test]
fn optimize_agrees_with_sort_and_dedup() {
    let mut state: u32 = 12345;
    let mut next = move |bound: u32| -> u32 {
        state = state.wrapping_mul(1664525).wrapping_add(1013904223);
        (state >> 8) % bound
    };
    for round in 0..40usize {
        let mut pixels = Vec::new();
        for _ in 0..(round * 7) {
            let color = match next(5) {
                0 => Color::Red,
                1 => Color::DarkRed,
                2 => Color::Rgb { r: next(3) as u8, g: next(3) as u8, b: next(3) as u8 },
                3 => Color::AnsiValue(next(4) as u8),
                _ => Color::Reset,
            };
            pixels.push(px(next(6) as u16, next(6) as u16, color));
        }
        let mut expected = pixels.clone();
        expected.sort();
        expected.dedup();
        let mut object = Object::new(pixels);
        object.optimize();
        assert_eq!(object.pixels, expected);
    }
}

#[test]
fn optimize_of_many_pixels() {
    let mut pixels = Vec::new();
    let mut state: u32 = 7;
    for _ in 0..60000 {
        state = state.wrapping_mul(1103515245).wrapping_add(12345);
        let x = ((state >> 16) % 200) as u16;
        state = state.wrapping_mul(1103515245).wrapping_add(12345);
        let y = ((state >> 16) % 100) as u16;
        let color = if state & 0x100 == 0 { Color::Yellow } else { Color::AnsiValue(x as u8) };
        pixels.push(px(x, y, color));
    }
    let mut expected = pixels.clone();
    expected.sort();
    expected.dedup();
    let mut object = Object::new(pixels);
    object.optimize();
    assert!(object.pixels.len() < 60000);
    assert_eq!(object.pixels, expected);
}

#[test]
fn change_color_sets_every_color_and_no_coordinate() {
    let mut object = Object::new(sample());
    object.change_color(Color::Magenta);
    assert_eq!(
        object.pixels,
        vec![
            px(4, 2, Color::Magenta),
            px(0, 0, Color::Magenta),
            px(4, 2, Color::Magenta),
            px(7, 1, Color::Magenta),
            px(0, 0, Color::Magenta),
        ]
    );
    let mut empty = Object::new(vec![]);
    empty.change_color(Color::Magenta);
    assert!(empty.pixels.is_empty());
}

#[test]
fn move_and_move_back_restores_pixels() {
    let deltas: [(i32, i32); 6] =
        [(2, 3), (-1, -1), (70000, -70000), (i32::MAX, -i32::MAX), (0, 0), (65536, 1)];
    for (dx, dy) in deltas {
        let mut object = Object::new(sample());
        object.move_object(dx, dy);
        object.move_object(-dx, -dy);
        assert_eq!(object.pixels, sample());
    }
}

#[test]
fn offset_moves_like_move_object_without_erasing() {
    let mut moved = Object::new(sample());
    let mut shifted = Object::new(sample());
    let move_calls = moved.move_object(-3, 10);
    let offset_calls = shifted.offset(-3, 10);
    assert_eq!(moved.pixels, shifted.pixels);
    let n = sample().len();
    assert_eq!(move_calls.len(), 2 * n);
    for (i, p) in sample().iter().enumerate() {
        assert_eq!(move_calls[i], erase(p.x, p.y));
    }
    assert_eq!(&move_calls[n..], &offset_calls[..]);
    assert_eq!(offset_calls, shifted.draw());
    assert!(offset_calls.iter().all(|c| matches!(c, BackendCall::Draw { .. })));
}

#[test]
fn move_object_erases_then_draws() {
    let mut object = Object::new(vec![px(0, 0, Color::Red), px(1, 1, Color::Blue)]);
    let calls = object.move_object(2, 3);
    assert_eq!(object.pixels, vec![px(2, 3, Color::Red), px(3, 4, Color::Blue)]);
    assert_eq!(
        calls,
        vec![erase(0, 0), erase(1, 1), draw(2, 3, Color::Red), draw(3, 4, Color::Blue)]
    );
}

#[test]
fn offset_draws_at_new_place() {
    let mut object = Object::new(vec![px(0, 0, Color::Red), px(1, 1, Color::Blue)]);
    let calls = object.offset(2, 3);
    assert_eq!(object.pixels, vec![px(2, 3, Color::Red), px(3, 4, Color::Blue)]);
    assert_eq!(calls, vec![draw(2, 3, Color::Red), draw(3, 4, Color::Blue)]);
}

#[test]
fn move_wraps_around_the_coordinate_range() {
    let mut object = Object::new(vec![px(0, 65535, Color::Red)]);
    let calls = object.move_object(-1, 1);
    assert_eq!(object.pixels, vec![px(65535, 0, Color::Red)]);
    assert_eq!(calls, vec![erase(0, 65535), draw(65535, 0, Color::Red)]);
    let mut other = Object::new(vec![px(5, 100, Color::Red)]);
    other.offset(i32::MIN, -70000);
    assert_eq!(other.pixels, vec![px(5, 61172, Color::Red)]);
    other.offset(i32::MAX, 65536);
    assert_eq!(other.pixels, vec![px(4, 61172, Color::Red)]);
}

#[test]
fn move_of_empty_object_asks_nothing() {
    let mut object = Object::new(vec![]);
    assert_eq!(object.move_object(1, 1), vec![]);
    assert_eq!(object.offset(1, 1), vec![]);
    assert!(object.pixels.is_empty());
}

#[test]
fn delete_erases_each_pixel() {
    let object = Object::new(sample());
    assert_eq!(
        object.delete(),
        vec![erase(4, 2), erase(0, 0), erase(4, 2), erase(7, 1), erase(0, 0)]
    );
    assert_eq!(Object::new(vec![]).delete(), vec![]);
}
