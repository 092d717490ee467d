#[derive(PartialEq, PartialOrd)]
struct Centimeters(f64);

#[derive(Debug)]
struct Inches(i32);

impl Inches {
    fn to_centimeters(&self) -> Centimeters {
        let &Inches(inches) = self;
        Centimeters(inches as f64 * 2.54)
    }
}

struct Seconds(i32);

#[test]
fn test_derive() {
    let _one_second = Seconds(1);
    let foot = Inches(12);
    println!("One foot equals {:?}", foot);
    let meter = Centimeters(100.0);
    let cmp = if foot.to_centimeters() < meter {
        "smaller"
    } else {
        "bigger"
    };
    println!("One foot is {} than one meter.", cmp);
}

use std::ops;
struct Foo;
struct Bar;

#[derive(Debug)]
struct FooBar;

#[derive(Debug)]
struct BarFoo;

impl<T> ops::Add<T> for Foo {
    type Output = FooBar;
    fn add(self, _rhs: T) -> Self::Output {
        println!("> Foo.add(Bar) was called");
        FooBar
    }
}
impl ops::Add<Foo> for Bar {
    type Output = BarFoo;

    fn add(self, _rhs: Foo) -> BarFoo {
        println!("> Bar.add(Foo) was called");

        BarFoo
    }
}
#[test]
fn test_ops() {
    println!("Foo + Bar = {:?}", Foo + Bar);
    println!("Foo + 1 = {:?}", Foo + 1);
    println!("Foo + 1 = {:?}", Foo + "1");
    println!("Bar + Foo = {:?}", Bar + Foo);
}
