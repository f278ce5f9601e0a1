use ray_tracer::canvas::{quantize, Canvas, Color};
use ray_tracer::scalar::Scalar;

fn sc(x: f64) -> Scalar {
    Scalar::from_bits(x.to_bits())
}

fn num(s: Scalar) -> f64 {
    f64::from_bits(s.to_bits())
}

fn color(r: f64, g: f64, b: f64) -> Color {
    Color::new(sc(r), sc(g), sc(b))
}

fn same_color(a: &Color, b: &Color) -> bool {
    let small_value = 0.00001;
    (num(a.red()) - num(b.red())).abs() < small_value
        && (num(a.green()) - num(b.green())).abs() < small_value
        && (num(a.blue()) - num(b.blue())).abs() < small_value
}

/// What the level of a channel is when it is computed with the machine's
/// own arithmetic.
fn level_by_arithmetic(x: f64) -> u8 {
    let r = x * 256.0;
    if r < 0.0 {
        0
    } else if r > 255.0 {
        255
    } else {
        r as u8
    }
}

fn shared_colors_red_green_blue() {
    let c = Color::from([sc(-0.5), sc(0.4), sc(1.7)]);
    assert_eq!(num(c.red()), -0.5);
    assert_eq!(num(c.green()), 0.4);
    assert_eq!(num(c.blue()), 1.7);
}

fn shared_color_at_a_pixel_after_writing() {
    let red = Color::from([sc(1.0), sc(0.0), sc(0.0)]);
    let mut canvas = Canvas::new(20, 20);
    assert!(same_color(canvas.pixel_at((2, 3)), &Color::black()));
    canvas.write_pixel((2, 3), &red);
    assert!(same_color(canvas.pixel_at((2, 3)), &red));
}

fn shared_canvas_to_ppm() {
    let mut canvas = Canvas::new(5, 3);
    let c1 = color(1.5, 0.0, 0.0);
    let c2 = color(0.0, 0.5, 0.0);
    let c3 = color(-0.5, 0.0, 1.0);
    canvas.write_pixel((0, 0), &c1);
    canvas.write_pixel((2, 1), &c2);
    canvas.write_pixel((4, 2), &c3);

    assert_eq!(
        canvas.to_ppm(),
        r#"P3
5 3
255
255 0 0 0 0 0 0 0 0 0 0 0 0 0 0 
0 0 0 0 0 0 0 128 0 0 0 0 0 0 0 
0 0 0 0 0 0 0 0 0 0 0 0 0 0 255 
"#
    );
}

#[test]
fn tests_colors_red_green_blue() {
    shared_colors_red_green_blue();
}

#[test]
fn canvas_colors_red_green_blue() {
    shared_colors_red_green_blue();
}

#[test]
fn tests_test_color_at_a_pixel_after_writing() {
    shared_color_at_a_pixel_after_writing();
}

#[test]
fn canvas_test_color_at_a_pixel_after_writing() {
    shared_color_at_a_pixel_after_writing();
}

#[test]
fn tests_test_canvas_to_ppm() {
    shared_canvas_to_ppm();
}

#[test]
fn canvas_test_canvas_to_ppm() {
    shared_canvas_to_ppm();
}

#[test]
fn a_new_canvas_is_black_all_over() {
    let canvas = Canvas::new(7, 4);
    assert_eq!(canvas.width, 7);
    assert_eq!(canvas.height, 4);
    for y in 0..4 {
        for x in 0..7 {
            let c = canvas.pixel_at((x, y));
            assert_eq!((c.red().to_bits(), c.green().to_bits(), c.blue().to_bits()), (0, 0, 0));
        }
    }
}

#[test]
fn writing_off_the_canvas_changes_nothing() {
    let mut canvas = Canvas::new(3, 2);
    let before = canvas.to_ppm();
    let red = color(1.0, 0.0, 0.0);
    canvas.write_pixel((3, 0), &red);
    canvas.write_pixel((0, 2), &red);
    canvas.write_pixel((usize::MAX, usize::MAX), &red);
    assert_eq!(canvas.to_ppm(), before);
    canvas.write_pixel((2, 1), &red);
    assert_eq!(canvas.to_ppm(), "P3\n3 2\n255\n0 0 0 0 0 0 0 0 0 \n0 0 0 0 0 0 255 0 0 \n");
}

#[test]
fn an_empty_canvas_has_only_a_header() {
    assert_eq!(Canvas::new(0, 0).to_ppm(), "P3\n0 0\n255\n");
    assert_eq!(Canvas::new(2, 0).to_ppm(), "P3\n2 0\n255\n");
    assert_eq!(Canvas::new(0, 2).to_ppm(), "P3\n0 2\n255\n\n\n");
}

#[test]
fn sizes_are_written_in_decimal() {
    let canvas = Canvas::new(1, 12);
    assert!(canvas.to_ppm().starts_with("P3\n1 12\n255\n0 0 0 \n"));
    let wide = Canvas::new(1203, 1);
    assert!(wide.to_ppm().starts_with("P3\n1203 1\n255\n0 0 0 0 0 0 "));
}

#[test]
fn levels_of_chosen_strengths() {
    assert_eq!(quantize(sc(0.0)), 0);
    assert_eq!(quantize(sc(-0.0)), 0);
    assert_eq!(quantize(sc(0.5)), 128);
    assert_eq!(quantize(sc(0.4)), 102);
    assert_eq!(quantize(sc(1.0)), 255);
    assert_eq!(quantize(sc(1.5)), 255);
    assert_eq!(quantize(sc(-0.5)), 0);
    assert_eq!(quantize(sc(1.0 / 256.0)), 1);
    assert_eq!(quantize(sc(0.0039)), 0);
    assert_eq!(quantize(sc(255.0 / 256.0)), 255);
    assert_eq!(quantize(sc(254.999 / 256.0)), 254);
    assert_eq!(quantize(sc(f64::INFINITY)), 255);
    assert_eq!(quantize(sc(f64::NEG_INFINITY)), 0);
    assert_eq!(quantize(sc(f64::NAN)), 0);
    assert_eq!(quantize(sc(f64::MIN_POSITIVE)), 0);
    assert_eq!(quantize(sc(5e-324)), 0);
    assert_eq!(quantize(sc(f64::MAX)), 255);
}

#[test]
fn levels_agree_with_the_machines_arithmetic() {
    let mut x = -2.0_f64;
    while x < 3.0 {
        assert_eq!(quantize(sc(x)), level_by_arithmetic(x), "at {}", x);
        x += 0.000977;
    }
    let mut bits: u64 = 1;
    while bits < 0x7ff8_0000_0000_0000 {
        let x = f64::from_bits(bits);
        assert_eq!(quantize(sc(x)), level_by_arithmetic(x), "at {}", x);
        assert_eq!(quantize(sc(-x)), level_by_arithmetic(-x), "at {}", -x);
        bits = bits + bits / 3 + 1;
    }
    for k in 0..=256u32 {
        let x = f64::from(k) / 256.0;
        assert_eq!(quantize(sc(x)), level_by_arithmetic(x), "at {}", x);
        let below = f64::from_bits(x.to_bits().wrapping_sub(1));
        if k > 0 {
            assert_eq!(quantize(sc(below)), level_by_arithmetic(below), "below {}", x);
        }
        let above = f64::from_bits(x.to_bits() + 1);
        assert_eq!(quantize(sc(above)), level_by_arithmetic(above), "above {}", x);
    }
}

#[test]
fn colors_keep_their_channels() {
    let c = color(0.25, 0.5, 0.75);
    let (r, g, b) = c.rgb();
    assert_eq!((num(r), num(g), num(b)), (0.25, 0.5, 0.75));
    assert_eq!(c.rgb_255(), (64, 128, 192));
    assert_eq!((c.red_255(), c.green_255(), c.blue_255()), (64, 128, 192));
    let w = Color::white();
    assert_eq!((num(w.red()), num(w.green()), num(w.blue())), (1.0, 1.0, 1.0));
    let k = Color::black();
    assert_eq!((num(k.red()), num(k.green()), num(k.blue())), (0.0, 0.0, 0.0));
}
