use kv::strtok::strtok;

#[test]
fn strtok_it_works() {
    let mut s = "hello world";
    assert_eq!(strtok(&mut s, ' '), "hello");
    assert_eq!(s, "world");
}

#[test]
fn strtok_without_separator_takes_everything() {
    let mut s = "hello";
    assert_eq!(strtok(&mut s, ' '), "hello");
    assert_eq!(s, "");
}

#[test]
fn strtok_multibyte_separator() {
    let mut s = "a→b→c";
    assert_eq!(strtok(&mut s, '→'), "a");
    assert_eq!(s, "b→c");
    assert_eq!(strtok(&mut s, '→'), "b");
    assert_eq!(strtok(&mut s, '→'), "c");
    assert_eq!(s, "");
}
