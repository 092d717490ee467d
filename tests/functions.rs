fn is_divisible_by(lhs: u32, rhs: u32) -> bool {
    if rhs == 0 {
        return false;
    }
    lhs % rhs == 0
}

#[test]
fn test_funcs() {
    assert_eq!(true, is_divisible_by(20, 5));
    assert_eq!(false, is_divisible_by(4, 3));
    assert_eq!(false, is_divisible_by(33, 0));
}

struct Point {
    x: f64,
    y: f64,
}
impl Point {
    // static method
    fn origion() -> Point {
        Point { x: 0.0, y: 0.0 }
    }
    fn new(x: f64, y: f64) -> Point {
        Point { x, y }
    }
}

struct Rect {
    p1: Point,
    p2: Point,
}
impl Rect {
    // instance method
    // `&self` is sugar for `self: &Self`, where `Self` is the type of the caller object.
    fn area(&self) -> f64 {
        let Point { x: x1, y: y1 } = self.p1;
        let Point { x: x2, y: y2 } = self.p2;
        ((x1 - x2) * (y1 - y2)).abs()
    }
}

struct Pair(Box<i32>, Box<i32>);
impl Pair {
    fn destroy(self) {
        let Pair(first, second) = self;
        println!("Destroying Pair({}, {})", first, second);
        //`first` and `second` go out of scope and get freed.
    }
}

#[test]
fn test_methods() {
    let rect = Rect {
        p1: Point::origion(),
        p2: Point::new(3.0, 4.0),
    };
    assert_eq!(12.0, rect.area());

    let pair = Pair(Box::new(1), Box::new(2));
    pair.destroy();
}
