use std::convert::AsRef;

// Obtain the number of bytes (not characters) in the given argument
fn byte_counter<T: AsRef<str>>(arg: T) -> usize {
    arg.as_ref().as_bytes().len()
}

// Obtain the number of characters (not bytes) in the given argument
fn char_counter<T: AsRef<str>>(arg: T) -> usize {
    arg.as_ref().chars().count()
}

#[test]
fn different_counts() {
    let s = "Café au lait";
    assert_ne!(char_counter(s), byte_counter(s));
}

#[test]
fn same_counts() {
    let s = "Cafe au lait";
    assert_eq!(char_counter(s), byte_counter(s));
}
