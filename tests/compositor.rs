use bracket_bevy::batch::{DrawBatch, DrawCommand};
use bracket_bevy::color::{ColorPair, Rgba};
use bracket_bevy::console::{Cell, Console};
use bracket_bevy::context::BracketContext;
use bracket_bevy::geometry::{Point, Rect};
use bracket_bevy::palette::ColorPalette;

fn white() -> Rgba {
    Rgba::from_u8(255, 255, 255, 255)
}

fn black() -> Rgba {
    Rgba::from_u8(0, 0, 0, 255)
}

fn red() -> Rgba {
    Rgba::from_u8(255, 0, 0, 255)
}

fn glyph(ctx: &BracketContext, layer: usize, x: usize, y: usize) -> u16 {
    ctx.layer(layer).cell(x, y).unwrap().glyph
}

fn two_layers() -> BracketContext {
    let mut ctx = BracketContext::new(ColorPalette::new());
    ctx.add_layer(Console::new(10, 5, 8, 8));
    ctx.add_layer(Console::new(10, 5, 8, 8));
    ctx
}

fn set_cmd(x: i32, y: i32, g: char) -> DrawCommand {
    DrawCommand::SetCell { pos: Point::new(x, y), color: ColorPair::new(white(), black()), glyph: g as u16 }
}

#[test]
fn lower_z_batch_replays_first() {
    // batch A (z=1) selects layer 1 after writing; batch B (z=0) writes 'Y' first.
    let mut ctx = two_layers();
    let mut a = DrawBatch::new();
    a.push(set_cmd(0, 0, 'X'));
    a.push(DrawCommand::SetTarget { console: 1 });
    let mut b = DrawBatch::new();
    b.push(set_cmd(0, 0, 'Y'));
    ctx.submit_batch(1, a);
    ctx.submit_batch(0, b);
    ctx.render_all_batches();
    // B ran first and wrote 'Y'; A then overwrote the same cell of layer 0 with 'X'.
    assert_eq!(glyph(&ctx, 0, 0, 0), 'X' as u16);
    assert_eq!(glyph(&ctx, 1, 0, 0), ' ' as u16);
    assert_eq!(ctx.current_layer(), 1);
    assert_eq!(ctx.pending_batches(), 0);
}

#[test]
fn selecting_back_lets_later_batch_write_layer_zero() {
    let mut ctx = two_layers();
    let mut a = DrawBatch::new();
    a.push(set_cmd(0, 0, 'X'));
    a.push(DrawCommand::SetTarget { console: 1 });
    let mut b = DrawBatch::new();
    b.push(set_cmd(0, 0, 'Y'));
    ctx.submit_batch(1, a);
    ctx.submit_batch(0, b);
    ctx.set_layer(0);
    ctx.render_all_batches();
    assert_eq!(glyph(&ctx, 0, 0, 0), 'X' as u16);
    let mut c = DrawBatch::new();
    c.push(DrawCommand::SetTarget { console: 0 });
    c.push(set_cmd(0, 0, 'Y'));
    ctx.submit_batch(0, c);
    ctx.render_all_batches();
    assert_eq!(glyph(&ctx, 0, 0, 0), 'Y' as u16);
}

#[test]
fn equal_z_orders_keep_submission_order() {
    let mut ctx = two_layers();
    let mut a = DrawBatch::new();
    a.push(set_cmd(1, 1, 'A'));
    let mut b = DrawBatch::new();
    b.push(set_cmd(1, 1, 'B'));
    ctx.submit_batch(3, a);
    ctx.submit_batch(3, b);
    ctx.render_all_batches();
    assert_eq!(glyph(&ctx, 0, 1, 1), 'B' as u16);
}

#[test]
fn selection_persists_into_later_batches() {
    let mut ctx = two_layers();
    let mut a = DrawBatch::new();
    a.push(DrawCommand::SetTarget { console: 1 });
    let mut b = DrawBatch::new();
    b.push(set_cmd(2, 2, 'Q'));
    ctx.submit_batch(0, a);
    ctx.submit_batch(5, b);
    ctx.render_all_batches();
    assert_eq!(glyph(&ctx, 1, 2, 2), 'Q' as u16);
    assert_eq!(glyph(&ctx, 0, 2, 2), ' ' as u16);
}

#[test]
fn empty_batch_leaves_buffer_empty() {
    let mut ctx = two_layers();
    ctx.submit_batch(7, DrawBatch::new());
    assert_eq!(ctx.pending_batches(), 1);
    ctx.render_all_batches();
    assert_eq!(ctx.pending_batches(), 0);
}

#[test]
fn sorted_batch_orders_by_key() {
    let mut ctx = two_layers();
    let mut b = DrawBatch::new();
    b.push_with_z(5, set_cmd(0, 0, 'L'));
    b.push_with_z(1, set_cmd(0, 0, 'F'));
    b.push_with_z(5, set_cmd(0, 0, 'M'));
    ctx.submit_batch(0, b);
    ctx.render_all_batches();
    // key 1 runs first, then the two key-5 commands in insertion order
    assert_eq!(glyph(&ctx, 0, 0, 0), 'M' as u16);
}

#[test]
fn sorted_batch_keeps_ties_in_insertion_order() {
    let mut b = DrawBatch::new();
    b.push_with_z(2, set_cmd(0, 0, 'a'));
    b.push_with_z(0, set_cmd(0, 0, 'b'));
    b.push_with_z(2, set_cmd(0, 0, 'c'));
    b.push_with_z(1, set_cmd(0, 0, 'd'));
    let s = b.sorted();
    let keys: Vec<usize> = s.commands().iter().map(|e| e.0).collect();
    assert_eq!(keys, vec![0, 1, 2, 2]);
    match &s.commands()[2].1 {
        DrawCommand::SetCell { glyph, .. } => assert_eq!(*glyph, 'a' as u16),
        _ => panic!("unexpected command"),
    }
}

#[test]
fn unsorted_batch_keeps_insertion_order() {
    let mut ctx = two_layers();
    let mut b = DrawBatch::new();
    b.push(set_cmd(0, 0, 'F'));
    b.push(set_cmd(0, 0, 'L'));
    assert!(!b.needs_sort());
    ctx.submit_batch(0, b);
    ctx.render_all_batches();
    assert_eq!(glyph(&ctx, 0, 0, 0), 'L' as u16);
}

#[test]
fn named_color_lookup() {
    let mut p = ColorPalette::new();
    p.insert("red", red());
    p.insert("white", white());
    p.insert("red", black());
    let ctx = BracketContext::new(p);
    assert_eq!(ctx.get_named_color("red"), Some(black()));
    assert_eq!(ctx.get_named_color("white"), Some(white()));
    assert_eq!(ctx.get_named_color("blue"), None);
    assert_eq!(ctx.get_named_color(""), None);
}

#[test]
fn pixel_size_is_componentwise_max() {
    let mut ctx = BracketContext::new(ColorPalette::new());
    assert_eq!(ctx.get_pixel_size(), (0, 0));
    ctx.add_layer(Console::new(10, 2, 8, 8));
    ctx.add_layer(Console::new(4, 6, 16, 16));
    assert_eq!(ctx.get_pixel_size(), (80, 96));
}

#[test]
fn largest_font_defaults_to_one() {
    let mut ctx = BracketContext::new(ColorPalette::new());
    assert_eq!(ctx.largest_font(), (1, 1));
    ctx.add_font(8, 16);
    ctx.add_font(12, 10);
    assert_eq!(ctx.largest_font(), (12, 16));
}

#[test]
fn resize_to_half_reaches_every_layer() {
    let mut ctx = BracketContext::new(ColorPalette::new());
    ctx.add_layer(Console::new(80, 50, 8, 8));
    ctx.add_layer(Console::new(40, 25, 16, 16));
    ctx.resize_terminals(320, 200);
    assert_eq!(ctx.layer(0).get_char_size(), (40, 25));
    assert_eq!(ctx.layer(1).get_char_size(), (20, 12));
    ctx.set_layer(1);
    assert_eq!(ctx.get_char_size(), (20, 12));
}

#[test]
fn immediate_ops_target_current_layer() {
    let mut ctx = two_layers();
    ctx.set_layer(1);
    ctx.set(3, 2, red(), black(), 65);
    assert_eq!(glyph(&ctx, 1, 3, 2), 65);
    assert_eq!(glyph(&ctx, 0, 3, 2), 32);
    assert_eq!(ctx.at(3, 2), 23);
    assert_eq!(ctx.try_at(3, 2), Some(23));
    assert_eq!(ctx.try_at(10, 0), None);
}

#[test]
fn print_variants_place_text() {
    let mut ctx = two_layers();
    ctx.print(1, 0, "ab");
    assert_eq!(glyph(&ctx, 0, 1, 0), 'a' as u16);
    assert_eq!(glyph(&ctx, 0, 2, 0), 'b' as u16);
    ctx.print_centered(1, "abcd");
    assert_eq!(glyph(&ctx, 0, 3, 1), 'a' as u16);
    assert_eq!(glyph(&ctx, 0, 6, 1), 'd' as u16);
    ctx.print_right(5, 2, "xy");
    assert_eq!(glyph(&ctx, 0, 3, 2), 'x' as u16);
    assert_eq!(glyph(&ctx, 0, 4, 2), 'y' as u16);
    assert_eq!(glyph(&ctx, 0, 5, 2), ' ' as u16);
    ctx.print_color_centered_at(5, 3, red(), black(), "pqr");
    assert_eq!(glyph(&ctx, 0, 4, 3), 'p' as u16);
    assert_eq!(ctx.layer(0).cell(4, 3).unwrap().fg, red());
}

#[test]
fn box_glyphs() {
    let mut ctx = two_layers();
    ctx.draw_box(1, 1, 3, 2, white(), black());
    assert_eq!(glyph(&ctx, 0, 1, 1), 218);
    assert_eq!(glyph(&ctx, 0, 4, 1), 191);
    assert_eq!(glyph(&ctx, 0, 1, 3), 192);
    assert_eq!(glyph(&ctx, 0, 4, 3), 217);
    assert_eq!(glyph(&ctx, 0, 2, 1), 196);
    assert_eq!(glyph(&ctx, 0, 1, 2), 179);
    ctx.draw_hollow_box_double(5, 0, 2, 2, white(), black());
    assert_eq!(glyph(&ctx, 0, 5, 0), 201);
    assert_eq!(glyph(&ctx, 0, 7, 2), 188);
}

#[test]
fn hollow_box_keeps_interior() {
    let mut ctx = two_layers();
    ctx.set(2, 2, white(), black(), 'Z' as u16);
    ctx.draw_hollow_box(1, 1, 2, 2, white(), black());
    assert_eq!(glyph(&ctx, 0, 2, 2), 'Z' as u16);
    ctx.draw_box(1, 1, 2, 2, white(), black());
    assert_eq!(glyph(&ctx, 0, 2, 2), 32);
}

#[test]
fn horizontal_bar_fill() {
    let mut ctx = two_layers();
    ctx.draw_bar_horizontal(0, 0, 10, 5, 10, white(), black());
    assert_eq!(glyph(&ctx, 0, 5, 0), 178);
    assert_eq!(glyph(&ctx, 0, 6, 0), 176);
}

#[test]
fn vertical_bar_fills_from_bottom() {
    let mut ctx = two_layers();
    ctx.draw_bar_vertical(0, 0, 4, 1, 4, white(), black());
    assert_eq!(glyph(&ctx, 0, 0, 4), 178);
    assert_eq!(glyph(&ctx, 0, 0, 3), 178);
    assert_eq!(glyph(&ctx, 0, 0, 2), 176);
}

#[test]
fn clipping_limits_writes() {
    let mut ctx = two_layers();
    ctx.set_clipping(Some(Rect::with_size(0, 0, 2, 2)));
    ctx.fill_region(Rect::with_size(0, 0, 4, 4), 'F' as u16, white(), black());
    assert_eq!(glyph(&ctx, 0, 1, 1), 'F' as u16);
    assert_eq!(glyph(&ctx, 0, 3, 3), 32);
    assert_eq!(ctx.get_clipping(), Some(Rect::with_size(0, 0, 2, 2)));
}

#[test]
fn alpha_channels_are_independent() {
    let mut ctx = two_layers();
    ctx.set_all_bg_alpha(10);
    let c: Cell = ctx.layer(0).cell(0, 0).unwrap();
    assert_eq!(c.bg.a, 10);
    assert_eq!(c.fg.a, 255);
    ctx.set_all_fg_alpha(20);
    let c = ctx.layer(0).cell(0, 0).unwrap();
    assert_eq!((c.fg.a, c.bg.a), (20, 10));
    ctx.set_all_alpha(1, 2);
    let c = ctx.layer(0).cell(0, 0).unwrap();
    assert_eq!((c.fg.a, c.bg.a), (1, 2));
}

#[test]
fn bg_alpha_command_sets_background() {
    let mut ctx = two_layers();
    let mut b = DrawBatch::new();
    b.push(DrawCommand::SetBgAlpha { alpha: 7 });
    ctx.submit_batch(0, b);
    ctx.render_all_batches();
    let c = ctx.layer(0).cell(0, 0).unwrap();
    assert_eq!((c.fg.a, c.bg.a), (255, 7));
}

#[test]
fn negative_positions_draw_nothing() {
    let mut ctx = two_layers();
    let mut b = DrawBatch::new();
    b.push(set_cmd(-1, 0, 'N'));
    ctx.submit_batch(0, b);
    ctx.render_all_batches();
    for x in 0..10 {
        assert_eq!(glyph(&ctx, 0, x, 0), 32);
    }
}

#[test]
fn mouse_position_per_layer() {
    let mut ctx = BracketContext::new(ColorPalette::new());
    ctx.add_layer(Console::new(10, 10, 8, 8));
    ctx.add_layer(Console::new(10, 10, 16, 16));
    ctx.set_mouse_pixel_position(40, 20);
    assert_eq!(ctx.get_mouse_position_in_pixels(), (40, 20));
    assert_eq!(ctx.get_mouse_position_for_current_layer(), (5, 2));
    ctx.set_layer(1);
    assert_eq!(ctx.get_mouse_position_for_current_layer(), (2, 1));
}

#[test]
fn rect_sizes() {
    let r = Rect { x1: 5, x2: 1, y1: 0, y2: 3 };
    assert_eq!(r.width(), 4);
    assert_eq!(r.height(), 3);
    assert!(Rect::with_size(0, 0, 2, 2).point_in_rect(Point::new(1, 1)));
    assert!(!Rect::with_size(0, 0, 2, 2).point_in_rect(Point::new(2, 1)));
}

#[test]
fn cls_bg_and_cls() {
    let mut ctx = two_layers();
    ctx.set(0, 0, red(), red(), 66);
    ctx.cls_bg(red());
    let c = ctx.layer(0).cell(0, 0).unwrap();
    assert_eq!((c.glyph, c.bg), (32, red()));
    ctx.cls();
    assert_eq!(ctx.layer(0).cell(0, 0).unwrap().bg, black());
}

#[test]
fn try_render_refuses_missing_layer() {
    let mut ctx = two_layers();
    let mut b = DrawBatch::new();
    b.push(DrawCommand::SetTarget { console: 5 });
    b.push(set_cmd(0, 0, 'Z'));
    ctx.submit_batch(0, b);
    assert!(!ctx.try_render_all_batches());
    assert_eq!(ctx.pending_batches(), 1);
    assert_eq!(ctx.current_layer(), 0);
    let mut ok = two_layers();
    let mut c = DrawBatch::new();
    c.push(DrawCommand::SetTarget { console: 1 });
    c.push(set_cmd(0, 0, 'Z'));
    ok.submit_batch(0, c);
    assert!(ok.try_render_all_batches());
    assert_eq!(glyph(&ok, 1, 0, 0), 'Z' as u16);
    assert_eq!(ok.pending_batches(), 0);
}

#[test]
fn batch_builders_record_commands() {
    let mut b = DrawBatch::new();
    b.cls();
    b.target(1);
    b.set(Point::new(1, 1), ColorPair::new(white(), black()), 7);
    b.print(Point::new(0, 0), String::from("hi"));
    let keys: Vec<usize> = b.commands().iter().map(|e| e.0).collect();
    assert_eq!(keys, vec![0, 1, 2, 3]);
    let mut ctx = two_layers();
    ctx.submit_batch(0, b);
    ctx.render_all_batches();
    assert_eq!(glyph(&ctx, 1, 1, 1), 7);
    assert_eq!(glyph(&ctx, 1, 0, 0), 'h' as u16);
}

#[test]
fn batched_box_and_bar_commands() {
    let mut ctx = two_layers();
    let mut b = DrawBatch::new();
    let c = ColorPair::new(white(), black());
    b.push(DrawCommand::DoubleBox { pos: Rect::with_size(0, 0, 3, 2), color: c });
    b.push(DrawCommand::BarHorizontal { pos: Point::new(0, 4), width: 4, n: 0, max: 4, color: c });
    b.push(DrawCommand::PrintColorRight { pos: Point::new(10, 3), text: String::from("end"), color: c });
    ctx.submit_batch(0, b);
    ctx.render_all_batches();
    assert_eq!(glyph(&ctx, 0, 0, 0), 201);
    assert_eq!(glyph(&ctx, 0, 3, 2), 188);
    assert_eq!(glyph(&ctx, 0, 1, 1), 32);
    assert_eq!(glyph(&ctx, 0, 0, 4), 178);
    assert_eq!(glyph(&ctx, 0, 1, 4), 176);
    assert_eq!(glyph(&ctx, 0, 7, 3), 'e' as u16);
    assert_eq!(glyph(&ctx, 0, 9, 3), 'd' as u16);
}
