use kv::pb::{Request, Response};
use kv::actor::HandleCall;
use kv::encoder::{Encoder, Event};
use kv::store::Store;
use kv::user::{Gender, User};

#[test]
fn put_get_del_scenario() {
    let mut store = Store::new();
    let r = store.dispatch(&Request::new_put("hello", b"world"));
    assert_eq!(r, Response::new("hello".to_string(), b"world".to_vec()));
    let r = store.dispatch(&Request::new_get("hello"));
    assert_eq!(r, Response::new("hello".to_string(), b"world".to_vec()));
    let r = store.dispatch(&Request::new_get("world"));
    assert_eq!(r, Response::not_found("world".to_string()));
    let r = store.dispatch(&Request::new_del("hello"));
    assert_eq!(r, Response::new("hello".to_string(), b"world".to_vec()));
    let r = store.dispatch(&Request::new_get("hello"));
    assert_eq!(r.code, 404);
    assert_eq!(r.key, "hello");
    assert!(r.value.is_empty());
}

#[test]
fn miss_on_get_and_del() {
    let mut store = Store::new();
    assert_eq!(store.dispatch(&Request::new_get("nope")), Response::not_found("nope".to_string()));
    assert_eq!(store.dispatch(&Request::new_del("nope")), Response::not_found("nope".to_string()));
    let r = Response::not_found("nope".to_string());
    assert_eq!(r.code, 404);
    assert!(r.value.is_empty());
}

#[test]
fn put_overwrites() {
    let mut store = Store::new();
    store.dispatch(&Request::new_put("k", b"one"));
    store.dispatch(&Request::new_put("k", b"two"));
    assert_eq!(store.get("k"), Some(b"two".to_vec()));
    assert_eq!(store.del("k"), Some(b"two".to_vec()));
    assert_eq!(store.get("k"), None);
    assert_eq!(store.del("k"), None);
}

#[test]
fn delete_removes() {
    let mut store = Store::new();
    store.dispatch(&Request::new_put("k", b"v"));
    assert_eq!(store.dispatch(&Request::new_del("k")), Response::new("k".to_string(), b"v".to_vec()));
    assert_eq!(store.dispatch(&Request::new_get("k")).code, 404);
}

#[test]
fn unset_command_not_implemented() {
    let mut store = Store::new();
    let r = store.dispatch(&Request { command: None });
    assert_eq!(r.code, 500);
    assert_eq!(r, Response::not_impl());
    assert!(r.key.is_empty());
}

#[test]
fn distinct_puts_all_retrievable() {
    let mut store = Store::new();
    let keys: Vec<String> = (0..50).map(|i| format!("key{}", i)).collect();
    for (i, k) in keys.iter().enumerate().rev() {
        let r = store.dispatch(&Request::new_put(k, &[i as u8]));
        assert_eq!(r.code, 0);
    }
    for (i, k) in keys.iter().enumerate() {
        assert_eq!(store.dispatch(&Request::new_get(k)), Response::new(k.clone(), vec![i as u8]));
    }
}

#[test]
fn handle_call_serves_requests() {
    let mut store = Store::new();
    let r = store.handle_call(&Request::new_put("a", b"1")).unwrap();
    assert_eq!(r, Response::new("a".to_string(), b"1".to_vec()));
    let r = store.handle_call(&Request::new_get("a")).unwrap();
    assert_eq!(r, Response::new("a".to_string(), b"1".to_vec()));
}

#[test]
fn event_encodes_id_then_data() {
    let id = Request::new_get("a");
    let data = Response::not_impl();
    let mut expected = id.encode_to_vec();
    expected.extend(data.encode_to_vec());
    let e = Event::new(id, data);
    assert_eq!(e.encode().unwrap(), expected);
    assert_eq!(expected, vec![0x0a, 0x03, 0x0a, 0x01, b'a', 0x08, 0xf4, 0x03]);
}

#[test]
fn users() {
    let u = User::new("lxb".to_string(), 18, Gender::Male);
    assert_eq!(u.name, "lxb");
    assert_eq!(u.age(), 18);
    assert_eq!(u.gender, Gender::Male);
    let d = User::default();
    assert_eq!(d, User::new(String::new(), 0, Gender::Unknown));
    let t = kv::types::User::default();
    assert_eq!(t.name, "");
    assert_eq!(t.age(), 0);
}
