use tes3map::geometry::{Dimensions, GRID_SIZE, VERTEX_CNT};

fn dims() -> Dimensions {
    Dimensions { min_x: -3, max_x: 4, min_y: -2, max_y: 5, texture_size: 2 }
}

#[test]
fn sizes_follow_the_rectangle() {
    let d = dims();
    assert_eq!(d.width(), 8);
    assert_eq!(d.height(), 8);
    assert_eq!(d.cell_size(), GRID_SIZE * 2);
    assert_eq!(d.pixel_width(VERTEX_CNT), 8 * 65);
    assert_eq!(d.pixel_height(VERTEX_CNT), 8 * 65);
    assert_eq!(d.stride(32), 8 * 32);
    assert_eq!(d.pixel_size(9), 72 * 72);
    assert_eq!(d.pixel_size_tuple(9), [72, 72]);
}

#[test]
fn canvas_puts_north_at_the_top() {
    let d = dims();
    assert_eq!(d.transform_to_canvas_x(-3), 0);
    assert_eq!(d.transform_to_canvas_x(4), 7);
    assert_eq!(d.transform_to_canvas_y(5), 0);
    assert_eq!(d.transform_to_canvas_y(-2), 7);
}

#[test]
fn canvas_round_trip_for_every_cell() {
    let d = dims();
    for x in d.min_x..=d.max_x {
        for y in d.min_y..=d.max_y {
            let cx = d.transform_to_canvas_x(x);
            let cy = d.transform_to_canvas_y(y);
            assert_eq!(d.transform_to_cell_x(cx), x);
            assert_eq!(d.transform_to_cell_y(cy), y);
        }
    }
}

#[test]
fn single_cell_rectangle() {
    let d = Dimensions { min_x: 0, max_x: 0, min_y: 0, max_y: 0, texture_size: 16 };
    assert_eq!(d.pixel_size_tuple(VERTEX_CNT), [65, 65]);
    assert_eq!(d.pixel_size_tuple(d.cell_size()), [256, 256]);
}
