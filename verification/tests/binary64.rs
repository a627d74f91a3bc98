//! The arithmetic of `Binary64` against that of the machine.
use route_deviation::binary64::Binary64;

fn wrap(x: f64) -> Binary64 {
    Binary64 { bits: x.to_bits() }
}

fn unwrap(x: Binary64) -> f64 {
    f64::from_bits(x.bits)
}

/// The same number, the same zero, or both not a number.
fn same(x: Binary64, y: f64) -> bool {
    if y.is_nan() {
        unwrap(x).is_nan()
    } else {
        x.bits == y.to_bits()
    }
}

/// Numbers at and around the places where the encoding changes.
fn landmarks() -> Vec<f64> {
    let mut all: Vec<f64> = Vec::new();
    for base in [
        0.0,
        f64::from_bits(1),
        f64::from_bits(2),
        f64::from_bits(0x000f_ffff_ffff_ffff),
        f64::MIN_POSITIVE,
        f64::EPSILON,
        0.1,
        0.5,
        1.0,
        1.5,
        3.0,
        45.0,
        179.99999999999997,
        180.0,
        359.99999999999994,
        360.0,
        512.0,
        540.0,
        720.0,
        9007199254740991.0,
        9007199254740992.0,
        9007199254740993.0,
        1e300,
        f64::MAX / 2.0,
        f64::MAX,
        f64::INFINITY,
        f64::NAN,
    ] {
        all.push(base);
        all.push(-base);
    }
    all
}

struct Stream(u64);

impl Stream {
    fn next(&mut self) -> u64 {
        self.0 ^= self.0 << 13;
        self.0 ^= self.0 >> 7;
        self.0 ^= self.0 << 17;
        self.0
    }
}

fn agree(a: f64, b: f64) {
    let (x, y) = (wrap(a), wrap(b));
    assert!(same(x.add(y), a + b), "{a:e} + {b:e} gave {:e}", unwrap(x.add(y)));
    assert!(same(x.sub(y), a - b), "{a:e} - {b:e} gave {:e}", unwrap(x.sub(y)));
    assert!(same(x.rem(y), a % b), "{a:e} % {b:e} gave {:e}", unwrap(x.rem(y)));
    assert_eq!(x == y, a == b);
    assert_eq!(x < y, a < b);
    assert_eq!(x <= y, a <= b);
    assert_eq!(x > y, a > b);
    assert_eq!(x >= y, a >= b);
    assert_eq!(x.partial_cmp(&y), a.partial_cmp(&b));
    if a != 0.0 || b != 0.0 {
        assert!(same(x.max(y), a.max(b)));
    }
    assert!(same(x.abs(), a.abs()));
}

#[test]
fn arithmetic_agrees_at_landmarks() {
    let all = landmarks();
    for a in &all {
        for b in &all {
            agree(*a, *b);
        }
    }
}

#[test]
fn arithmetic_agrees_on_arbitrary_bits() {
    let mut stream = Stream(0x9e37_79b9_7f4a_7c15);
    for _ in 0..100_000 {
        agree(f64::from_bits(stream.next()), f64::from_bits(stream.next()));
    }
}

#[test]
fn arithmetic_agrees_on_numbers_of_similar_size() {
    let mut stream = Stream(0x2545_f491_4f6c_dd1d);
    for _ in 0..200_000 {
        let a = stream.next();
        let spread = stream.next() % 60;
        let exponent = (a >> 52 & 0x7ff).saturating_sub(spread);
        let b = (stream.next() & 0x800f_ffff_ffff_ffff) | exponent << 52;
        agree(f64::from_bits(a), f64::from_bits(b));
    }
}

#[test]
fn arithmetic_agrees_on_sparse_significands() {
    let mut stream = Stream(0x1234_5678_9abc_def1);
    for _ in 0..100_000 {
        let a = stream.next() & (stream.next() | 0xfff0_0000_0000_0000) & 0xfff8_0000_0000_0007;
        let b = stream.next() & 0x800c_0000_0000_0003 | (a & 0x7ff0_0000_0000_0000);
        agree(f64::from_bits(a), f64::from_bits(b));
    }
}

#[test]
fn whole_numbers_convert_exactly() {
    for n in 0..=u16::MAX {
        assert_eq!(Binary64::from_u16(n).bits, f64::from(n).to_bits());
    }
}

#[test]
fn the_larger_number_wins_over_a_nan() {
    assert_eq!(wrap(f64::NAN).max(wrap(1.0)).bits, 1.0f64.to_bits());
    assert_eq!(wrap(1.0).max(wrap(f64::NAN)).bits, 1.0f64.to_bits());
    assert_eq!(wrap(0.25).max(wrap(1.0)).bits, 1.0f64.to_bits());
    assert_eq!(wrap(2.5).max(wrap(1.0)).bits, 2.5f64.to_bits());
}
