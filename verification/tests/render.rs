use mono_image_numbers::{Glyph, GlyphTable, MonoImageNumbers};

const VEC_NUM_1: (u8, u8, [u8; 10]) = (3, 10, [0, 44, 151, 0, 0, 0, 0, 0, 0, 0]);
const VEC_NUM_2: (u8, u8, [u8; 10]) = (5, 10, [0, 0, 232, 136, 159, 0, 0, 0, 0, 0]);
const VEC_NUM_3: (u8, u8, [u8; 10]) = (5, 10, [0, 0, 232, 132, 193, 139, 128, 0, 0, 0]);
const VEC_NUM_4: (u8, u8, [u8; 10]) = (5, 10, [0, 0, 35, 42, 95, 16, 128, 0, 0, 0]);
const VEC_NUM_5: (u8, u8, [u8; 10]) = (5, 10, [0, 0, 244, 56, 33, 139, 128, 0, 0, 0]);
const VEC_NUM_6: (u8, u8, [u8; 10]) = (5, 10, [34, 33, 232, 198, 46, 0, 0, 0, 0, 0]);
const VEC_NUM_7: (u8, u8, [u8; 10]) = (5, 10, [0, 1, 248, 200, 68, 33, 0, 0, 0, 0]);
const VEC_NUM_8: (u8, u8, [u8; 10]) = (5, 10, [116, 98, 232, 198, 46, 0, 0, 0, 0, 0]);
const VEC_NUM_9: (u8, u8, [u8; 10]) = (5, 10, [0, 0, 232, 197, 225, 17, 0, 0, 0, 0]);
const VEC_NUM_0: (u8, u8, [u8; 10]) = (5, 10, [0, 0, 232, 198, 46, 0, 0, 0, 0, 0]);
const VEC_NUM_PERIOD: (u8, u8, [u8; 10]) = (2, 10, [0, 15, 0, 0, 0, 0, 0, 0, 0, 0]);
const VEC_NUM_MINUS: (u8, u8, [u8; 7]) = (4, 10, [0, 0, 240, 0, 0, 0, 0]);

fn provider() -> GlyphTable<'static> {
    GlyphTable {
        glyphs: [
            Glyph { width: VEC_NUM_0.0, pixels: &VEC_NUM_0.2 },
            Glyph { width: VEC_NUM_1.0, pixels: &VEC_NUM_1.2 },
            Glyph { width: VEC_NUM_2.0, pixels: &VEC_NUM_2.2 },
            Glyph { width: VEC_NUM_3.0, pixels: &VEC_NUM_3.2 },
            Glyph { width: VEC_NUM_4.0, pixels: &VEC_NUM_4.2 },
            Glyph { width: VEC_NUM_5.0, pixels: &VEC_NUM_5.2 },
            Glyph { width: VEC_NUM_6.0, pixels: &VEC_NUM_6.2 },
            Glyph { width: VEC_NUM_7.0, pixels: &VEC_NUM_7.2 },
            Glyph { width: VEC_NUM_8.0, pixels: &VEC_NUM_8.2 },
            Glyph { width: VEC_NUM_9.0, pixels: &VEC_NUM_9.2 },
            Glyph { width: VEC_NUM_MINUS.0, pixels: &VEC_NUM_MINUS.2 },
            Glyph { width: VEC_NUM_PERIOD.0, pixels: &VEC_NUM_PERIOD.2 },
        ],
    }
}

fn to_s(canvas_w: usize, canvas_h: usize, data: &[bool]) -> String {
    data.iter()
        .take(canvas_w * canvas_h)
        .fold(String::new(), |a, b| a + if *b { "⬛" } else { "⬜" })
}

fn numbers() -> MonoImageNumbers<GlyphTable<'static>, [bool; 300], bool> {
    MonoImageNumbers::new(10, provider(), [false; 300], [false, true])
}

#[test]
fn test_normal() {
    let mut n = numbers();

    let (w, h) = n.update(11185);
    assert_eq!(23, w);
    assert_eq!(10, h);
    assert_eq!(
        "\
            ⬜⬜⬜⬜⬜⬜⬜⬜⬜⬜⬜⬜⬜⬛⬛⬛⬜⬜⬜⬜⬜⬜⬜\
            ⬜⬜⬜⬜⬜⬜⬜⬜⬜⬜⬜⬜⬛⬜⬜⬜⬛⬜⬜⬜⬜⬜⬜\
            ⬜⬜⬜⬜⬜⬜⬜⬜⬜⬜⬜⬜⬛⬜⬜⬜⬛⬜⬜⬜⬜⬜⬜\
            ⬜⬛⬜⬜⬜⬛⬜⬜⬜⬛⬜⬜⬜⬛⬛⬛⬜⬜⬜⬛⬛⬛⬛\
            ⬛⬛⬜⬜⬛⬛⬜⬜⬛⬛⬜⬜⬛⬜⬜⬜⬛⬜⬜⬛⬜⬜⬜\
            ⬜⬛⬜⬜⬜⬛⬜⬜⬜⬛⬜⬜⬛⬜⬜⬜⬛⬜⬜⬛⬛⬛⬜\
            ⬜⬛⬜⬜⬜⬛⬜⬜⬜⬛⬜⬜⬛⬜⬜⬜⬛⬜⬜⬜⬜⬜⬛\
            ⬛⬛⬛⬜⬛⬛⬛⬜⬛⬛⬛⬜⬜⬛⬛⬛⬜⬜⬜⬜⬜⬜⬛\
            ⬜⬜⬜⬜⬜⬜⬜⬜⬜⬜⬜⬜⬜⬜⬜⬜⬜⬜⬛⬜⬜⬜⬛\
            ⬜⬜⬜⬜⬜⬜⬜⬜⬜⬜⬜⬜⬜⬜⬜⬜⬜⬜⬜⬛⬛⬛⬜\
        ",
        to_s(w, h, n.data())
    );
}

#[test]
fn test_update() {
    let mut n = numbers();

    n.update(11185);
    let (w, h) = n.update(20);
    assert_eq!(11, w);
    assert_eq!(10, h);
    assert_eq!(
        "\
            ⬜⬜⬜⬜⬜⬜⬜⬜⬜⬜⬜\
            ⬜⬜⬜⬜⬜⬜⬜⬜⬜⬜⬜\
            ⬜⬜⬜⬜⬜⬜⬜⬜⬜⬜⬜\
            ⬜⬛⬛⬛⬜⬜⬜⬛⬛⬛⬜\
            ⬛⬜⬜⬜⬛⬜⬛⬜⬜⬜⬛\
            ⬜⬜⬜⬛⬜⬜⬛⬜⬜⬜⬛\
            ⬜⬜⬛⬜⬜⬜⬛⬜⬜⬜⬛\
            ⬛⬛⬛⬛⬛⬜⬜⬛⬛⬛⬜\
            ⬜⬜⬜⬜⬜⬜⬜⬜⬜⬜⬜\
            ⬜⬜⬜⬜⬜⬜⬜⬜⬜⬜⬜\
        ",
        to_s(w, h, n.data())
    );
}

#[test]
fn test_minus() {
    let mut n = numbers();

    let (w, h) = n.update(-119);
    assert_eq!(18, w);
    assert_eq!(10, h);
    assert_eq!(
        "\
            ⬜⬜⬜⬜⬜⬜⬜⬜⬜⬜⬜⬜⬜⬜⬜⬜⬜⬜\
            ⬜⬜⬜⬜⬜⬜⬜⬜⬜⬜⬜⬜⬜⬜⬜⬜⬜⬜\
            ⬜⬜⬜⬜⬜⬜⬜⬜⬜⬜⬜⬜⬜⬜⬜⬜⬜⬜\
            ⬜⬜⬜⬜⬜⬜⬛⬜⬜⬜⬛⬜⬜⬜⬛⬛⬛⬜\
            ⬛⬛⬛⬛⬜⬛⬛⬜⬜⬛⬛⬜⬜⬛⬜⬜⬜⬛\
            ⬜⬜⬜⬜⬜⬜⬛⬜⬜⬜⬛⬜⬜⬛⬜⬜⬜⬛\
            ⬜⬜⬜⬜⬜⬜⬛⬜⬜⬜⬛⬜⬜⬜⬛⬛⬛⬛\
            ⬜⬜⬜⬜⬜⬛⬛⬛⬜⬛⬛⬛⬜⬜⬜⬜⬜⬛\
            ⬜⬜⬜⬜⬜⬜⬜⬜⬜⬜⬜⬜⬜⬜⬜⬜⬛⬜\
            ⬜⬜⬜⬜⬜⬜⬜⬜⬜⬜⬜⬜⬜⬜⬜⬛⬜⬜\
        ",
        to_s(w, h, n.data())
    );
}

#[test]
fn test_float() {
    let mut n = numbers();

    let f: f32 = -19.1234;
    let level: usize = 2;
    let scaled = (f * (10_i32.pow(level as u32) as f32)) as isize;
    assert_eq!(-1912, scaled);
    let (w, h) = n.update_f(scaled, level);
    assert_eq!(27, w);
    assert_eq!(10, h);
    assert_eq!(
        "\
            ⬜⬜⬜⬜⬜⬜⬜⬜⬜⬜⬜⬜⬜⬜⬜⬜⬜⬜⬜⬜⬜⬜⬜⬜⬜⬜⬜\
            ⬜⬜⬜⬜⬜⬜⬜⬜⬜⬜⬜⬜⬜⬜⬜⬜⬜⬜⬜⬜⬜⬜⬜⬜⬜⬜⬜\
            ⬜⬜⬜⬜⬜⬜⬜⬜⬜⬜⬜⬜⬜⬜⬜⬜⬜⬜⬜⬜⬜⬜⬜⬜⬜⬜⬜\
            ⬜⬜⬜⬜⬜⬜⬛⬜⬜⬜⬛⬛⬛⬜⬜⬜⬜⬜⬜⬛⬜⬜⬜⬛⬛⬛⬜\
            ⬛⬛⬛⬛⬜⬛⬛⬜⬜⬛⬜⬜⬜⬛⬜⬜⬜⬜⬛⬛⬜⬜⬛⬜⬜⬜⬛\
            ⬜⬜⬜⬜⬜⬜⬛⬜⬜⬛⬜⬜⬜⬛⬜⬜⬜⬜⬜⬛⬜⬜⬜⬜⬜⬛⬜\
            ⬜⬜⬜⬜⬜⬜⬛⬜⬜⬜⬛⬛⬛⬛⬜⬛⬛⬜⬜⬛⬜⬜⬜⬜⬛⬜⬜\
            ⬜⬜⬜⬜⬜⬛⬛⬛⬜⬜⬜⬜⬜⬛⬜⬛⬛⬜⬛⬛⬛⬜⬛⬛⬛⬛⬛\
            ⬜⬜⬜⬜⬜⬜⬜⬜⬜⬜⬜⬜⬛⬜⬜⬜⬜⬜⬜⬜⬜⬜⬜⬜⬜⬜⬜\
            ⬜⬜⬜⬜⬜⬜⬜⬜⬜⬜⬜⬛⬜⬜⬜⬜⬜⬜⬜⬜⬜⬜⬜⬜⬜⬜⬜\
        ",
        to_s(w, h, n.data())
    );
}

#[test]
fn zero_is_one_glyph_without_margin() {
    let mut n = numbers();

    let (w, h) = n.update(0);
    assert_eq!(5, w);
    assert_eq!(10, h);
    assert_eq!(
        "\
            ⬜⬜⬜⬜⬜\
            ⬜⬜⬜⬜⬜\
            ⬜⬜⬜⬜⬜\
            ⬜⬛⬛⬛⬜\
            ⬛⬜⬜⬜⬛\
            ⬛⬜⬜⬜⬛\
            ⬛⬜⬜⬜⬛\
            ⬜⬛⬛⬛⬜\
            ⬜⬜⬜⬜⬜\
            ⬜⬜⬜⬜⬜\
        ",
        to_s(w, h, n.data())
    );
    assert!(n.data()[50..].iter().all(|cell| !*cell));
}

#[test]
fn width_adds_glyphs_and_margins() {
    let mut n = numbers();

    // 5 + 3 + 5 + 5, and three columns between them
    assert_eq!((21, 10), n.update(2134));
    // one glyph of 3
    assert_eq!((3, 10), n.update(1));
    // 5 + 5
    assert_eq!((11, 10), n.update(90));
}

#[test]
fn minus_adds_its_width_and_a_margin() {
    let mut n = numbers();

    let (plain, _) = n.update(119);
    let (negative, _) = n.update(-119);
    assert_eq!(13, plain);
    assert_eq!(plain + 4 + 1, negative);
}

#[test]
fn minus_fills_the_leftmost_columns() {
    let mut n = numbers();

    let (w, h) = n.update(-7);
    assert_eq!((10, 10), (w, h));
    let data = n.data();
    for y in 0..h {
        for x in 0..4 {
            assert_eq!(y == 4, data[y * w + x], "column {} of row {}", x, y);
        }
        assert!(!data[y * w + 4]);
    }
}

#[test]
fn drawing_twice_changes_nothing() {
    let mut n = numbers();

    let first = n.update(-4096);
    let once: Vec<bool> = n.data().to_vec();
    let second = n.update(-4096);
    assert_eq!(first, second);
    assert_eq!(once, n.data().to_vec());
}

#[test]
fn narrower_number_does_not_depend_on_the_wider_one_before() {
    let mut fresh = numbers();
    let (w, h) = fresh.update(31);

    let mut reused = numbers();
    reused.update(-8888);
    assert_eq!((w, h), reused.update(31));

    assert_eq!(to_s(w, h, fresh.data()), to_s(w, h, reused.data()));
}

#[test]
fn margins_are_cleared_of_older_ink() {
    let mut n = MonoImageNumbers::new(10, provider(), [true; 300], [false, true]);

    let (w, h) = n.update(17);
    assert_eq!((9, 10), (w, h));
    let data = n.data();
    for y in 0..h {
        assert!(!data[y * w + 3], "row {}", y);
    }
    // what lies behind the canvas is as it was
    assert!(data[w * h..].iter().all(|cell| *cell));
}

#[test]
fn period_adds_its_width_and_a_margin() {
    let mut n = numbers();

    let (plain, _) = n.update(-1912);
    let (fixed, _) = n.update_f(-1912, 2);
    assert_eq!(24, plain);
    assert_eq!(plain + 2 + 1, fixed);
}

#[test]
fn period_may_stand_at_either_end() {
    let mut n = numbers();

    // "15."
    let (w, h) = n.update_f(15, 0);
    assert_eq!((12, 10), (w, h));
    let data = n.data();
    for y in 0..h {
        assert_eq!(y == 6 || y == 7, data[y * w + 10], "row {}", y);
        assert_eq!(y == 6 || y == 7, data[y * w + 11], "row {}", y);
        assert!(!data[y * w + 9]);
    }

    // ".15"
    let (w, h) = n.update_f(15, 2);
    assert_eq!((12, 10), (w, h));
    let data = n.data();
    for y in 0..h {
        assert_eq!(y == 6 || y == 7, data[y * w], "row {}", y);
        assert_eq!(y == 6 || y == 7, data[y * w + 1], "row {}", y);
        assert!(!data[y * w + 2]);
    }
}

#[test]
fn try_update_draws_what_update_draws() {
    let mut checked = numbers();
    let mut plain = numbers();

    assert_eq!(Some(plain.update(11185)), checked.try_update(11185));
    assert_eq!(plain.data().to_vec(), checked.data().to_vec());

    assert_eq!(Some(plain.update_f(-1912, 2)), checked.try_update_f(-1912, 2));
    assert_eq!(plain.data().to_vec(), checked.data().to_vec());
}

#[test]
fn try_update_refuses_a_canvas_larger_than_the_store() {
    let mut n = numbers();
    n.update(20);
    let before = n.data().to_vec();

    // 35 columns of 10 rows are more than 300 cells
    assert_eq!(None, n.try_update(888888));
    assert_eq!(before, n.data().to_vec());
    // 28 columns fit, and the period makes 31 of them
    assert_eq!(Some((28, 10)), n.try_update(-8888));
    assert_eq!(None, n.try_update_f(-8888, 1));
}

#[test]
fn try_update_refuses_more_symbols_than_slots() {
    let mut n = MonoImageNumbers::new(10, provider(), [false; 1000], [false, true]);

    assert_eq!(Some((63, 10)), n.try_update(1111111111111111));
    assert_eq!(None, n.try_update(11111111111111111));
    assert_eq!(Some((64, 10)), n.try_update(-111111111111111));
    assert_eq!(None, n.try_update(-1111111111111111));
    assert_eq!(None, n.try_update(isize::MIN));
    assert_eq!(None, n.try_update(isize::MAX));
    assert_eq!(Some((62, 10)), n.try_update_f(111111111111111, 3));
    assert_eq!(None, n.try_update_f(1111111111111111, 3));
}

#[test]
fn try_update_f_refuses_a_period_beyond_the_symbols() {
    let mut n = numbers();

    assert_eq!(Some((8, 10)), n.try_update_f(5, 1));
    assert_eq!(None, n.try_update_f(5, 2));
    assert_eq!(Some((13, 10)), n.try_update_f(-5, 2));
    assert_eq!(None, n.try_update_f(-5, 3));
}

#[test]
fn try_update_refuses_a_glyph_too_short_for_the_height() {
    // the minus glyph has 56 bits: enough for 14 rows of 4, not for 15
    let mut fourteen = MonoImageNumbers::new(14, provider(), [false; 300], [false, true]);
    assert_eq!(Some((4 + 1 + 3, 14)), fourteen.try_update(-1));

    let mut fifteen = MonoImageNumbers::new(15, provider(), [false; 300], [false, true]);
    assert_eq!(Some((3, 15)), fifteen.try_update(1));
    assert_eq!(None, fifteen.try_update(-1));
}
