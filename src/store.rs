//! The key-value store, and how it serves each request.
use vstd::prelude::*;

use dashmap::DashMap;

use crate::actor::HandleCall;
use crate::pb::{Command, CommandView, Request, RequestDel, RequestGet, RequestPut, Response, ResponseView, CODE_NOT_FOUND, CODE_NOT_IMPLEMENTED, CODE_OK};

verus! {

#[verifier::external_type_specification]
#[verifier::external_body]
#[verifier::reject_recursive_types(K)]
#[verifier::reject_recursive_types(V)]
#[verifier::reject_recursive_types(S)]
pub struct ExDashMap<K, V, S>(DashMap<K, V, S>);

/// What a map from strings to bytes holds, key by key.
pub uninterp spec fn dashmap_contents(m: DashMap<String, Vec<u8>>) -> Map<Seq<char>, Seq<u8>>;

/// Relies on dashmap::DashMap::new: a map that holds nothing.
#[verifier::external_body]
fn map_new() -> (r: DashMap<String, Vec<u8>>)
    ensures
        dashmap_contents(r).dom() == Set::<Seq<char>>::empty(),
{
    DashMap::new()
}

/// Relies on dashmap::DashMap::get: the value stored under `key`, if any
/// (copied out of the guard that the map hands back).
#[verifier::external_body]
fn map_get(m: &DashMap<String, Vec<u8>>, key: &str) -> (r: Option<Vec<u8>>)
    ensures
        r is Some <==> dashmap_contents(*m).contains_key(key@),
        r matches Some(v) ==> v@ == dashmap_contents(*m)[key@],
{
    m.get(key).map(|entry| entry.value().clone())
}

/// Relies on dashmap::DashMap::insert: stores `value` under `key`, replacing
/// and handing back what was there.
#[verifier::external_body]
fn map_insert(m: &mut DashMap<String, Vec<u8>>, key: String, value: Vec<u8>) -> (r: Option<Vec<u8>>)
    ensures
        dashmap_contents(*final(m)) == dashmap_contents(*old(m)).insert(key@, value@),
        r is Some <==> dashmap_contents(*old(m)).contains_key(key@),
        r matches Some(v) ==> v@ == dashmap_contents(*old(m))[key@],
{
    m.insert(key, value)
}

/// Relies on dashmap::DashMap::remove: takes `key` out, handing back the
/// stored key and value if it was there.
#[verifier::external_body]
fn map_remove(m: &mut DashMap<String, Vec<u8>>, key: &str) -> (r: Option<(String, Vec<u8>)>)
    ensures
        dashmap_contents(*final(m)) == dashmap_contents(*old(m)).remove(key@),
        r is Some <==> dashmap_contents(*old(m)).contains_key(key@),
        r matches Some((k, v)) ==> k@ == key@ && v@ == dashmap_contents(*old(m))[key@],
{
    m.remove(key)
}

/// The key-value store: a map from string keys to byte values.
pub struct Store {
    map: DashMap<String, Vec<u8>>,
}

impl View for Store {
    type V = Map<Seq<char>, Seq<u8>>;

    closed spec fn view(&self) -> Map<Seq<char>, Seq<u8>> {
        dashmap_contents(self.map)
    }
}

impl Store {
    /// An empty store.
    pub fn new() -> (s: Self)
        ensures
            s@ == Map::<Seq<char>, Seq<u8>>::empty(),
    {
        let s = Store { map: map_new() };
        assert(s@ =~= Map::<Seq<char>, Seq<u8>>::empty());
        s
    }

    /// The value stored under `key`, if any.
    pub fn get(&self, key: &str) -> (r: Option<Vec<u8>>)
        ensures
            r is Some <==> self@.contains_key(key@),
            r matches Some(v) ==> v@ == self@[key@],
    {
        map_get(&self.map, key)
    }

    /// Stores `value` under `key`; what was there is dropped.
    pub fn put(&mut self, key: String, value: Vec<u8>)
        ensures
            final(self)@ == old(self)@.insert(key@, value@),
    {
        let _ = map_insert(&mut self.map, key, value);
    }

    /// Removes `key`, handing back the value that was stored under it.
    pub fn del(&mut self, key: &str) -> (r: Option<Vec<u8>>)
        ensures
            final(self)@ == old(self)@.remove(key@),
            r is Some <==> old(self)@.contains_key(key@),
            r matches Some(v) ==> v@ == old(self)@[key@],
    {
        match map_remove(&mut self.map, key) {
            Some((_, v)) => Some(v),
            None => None,
        }
    }
}

/// A store as a mathematical map.
pub type StoreView = Map<Seq<char>, Seq<u8>>;

/// The response to a hit on `key`: success, with the value found.
pub open spec fn hit(key: Seq<char>, value: Seq<u8>) -> ResponseView {
    ResponseView { code: CODE_OK, key, value }
}

/// The response to a miss on `key`: not found, with no value.
pub open spec fn miss(key: Seq<char>) -> ResponseView {
    ResponseView { code: CODE_NOT_FOUND, key, value: Seq::empty() }
}

/// The store after serving a request, and the response: a get looks the key
/// up; a put stores the value and echoes it; a del removes the key and hands
/// back its value; a get or del of a missing key is not found; a request with
/// no command is not implemented and changes nothing.
pub open spec fn dispatch_spec(s: StoreView, req: Option<CommandView>) -> (StoreView, ResponseView) {
    match req {
        Some(CommandView::Get { key }) => (s, if s.contains_key(key) {
            hit(key, s[key])
        } else {
            miss(key)
        }),
        Some(CommandView::Put { key, value }) => (s.insert(key, value), hit(key, value)),
        Some(CommandView::Del { key }) => (s.remove(key), if s.contains_key(key) {
            hit(key, s[key])
        } else {
            miss(key)
        }),
        None => (s, ResponseView { code: CODE_NOT_IMPLEMENTED, key: Seq::empty(), value: Seq::empty() }),
    }
}

impl Store {
    /// Serves `req` against the store and answers it.
    pub fn dispatch(&mut self, req: &Request) -> (r: Response)
        ensures
            (final(self)@, r@) == dispatch_spec(old(self)@, req@),
    {
        match &req.command {
            Some(Command::Get(RequestGet { key })) => match self.get(key.as_str()) {
                Some(v) => Response::new(key.clone(), v),
                None => Response::not_found(key.clone()),
            },
            Some(Command::Put(RequestPut { key, value })) => {
                self.put(key.clone(), value.clone());
                Response::new(key.clone(), value.clone())
            },
            Some(Command::Del(RequestDel { key })) => match self.del(key.as_str()) {
                Some(v) => Response::new(key.clone(), v),
                None => Response::not_found(key.clone()),
            },
            None => Response::not_impl(),
        }
    }
}

impl HandleCall for Store {
    type Request = Request;

    type Reply = Response;

    open spec fn handles(self, request: Request, next: Store, reply: Response) -> bool {
        (next@, reply@) == dispatch_spec(self@, request@)
    }

    open spec fn may_fail(self, request: Request) -> bool {
        false
    }

    /// Serves `request` against the store; this never fails.
    fn handle_call(&mut self, request: &Request) -> (r: Result<Response, anyhow::Error>) {
        Ok(self.dispatch(request))
    }
}

/// After a put of `value` under `key`, a get of `key` succeeds with `value`.
pub proof fn lemma_put_then_get(s: StoreView, key: Seq<char>, value: Seq<u8>)
    ensures
        ({
            let after_put = dispatch_spec(s, Some(CommandView::Put { key, value })).0;
            dispatch_spec(after_put, Some(CommandView::Get { key })).1 == hit(key, value)
        }),
{
}

/// A get or a del of a key that is not stored is not found, names the key,
/// carries no value, and leaves the store as it was.
pub proof fn lemma_miss(s: StoreView, key: Seq<char>)
    requires
        !s.contains_key(key),
    ensures
        dispatch_spec(s, Some(CommandView::Get { key })) == (s, miss(key)),
        dispatch_spec(s, Some(CommandView::Del { key })).1 == miss(key),
        dispatch_spec(s, Some(CommandView::Del { key })).0 == s,
{
    assert(s.remove(key) =~= s);
}

/// After a put of `key` and then a del of it, a get of `key` is not found.
pub proof fn lemma_put_del_get(s: StoreView, key: Seq<char>, value: Seq<u8>)
    ensures
        ({
            let after_put = dispatch_spec(s, Some(CommandView::Put { key, value })).0;
            let after_del = dispatch_spec(after_put, Some(CommandView::Del { key })).0;
            dispatch_spec(after_del, Some(CommandView::Get { key })).1 == miss(key)
        }),
{
}

/// A request with no command is answered with code 500, no key and no
/// value, and leaves the store as it was.
pub proof fn lemma_unset_command(s: StoreView)
    ensures
        dispatch_spec(s, None) == (s, ResponseView { code: CODE_NOT_IMPLEMENTED, key: Seq::empty(), value: Seq::empty() }),
{
}

/// The store after serving a run of puts, in order.
pub open spec fn put_all(s: StoreView, keys: Seq<Seq<char>>, values: Seq<Seq<u8>>) -> StoreView
    decreases keys.len(),
{
    if keys.len() == 0 || values.len() == 0 {
        s
    } else {
        let rest = put_all(s, keys.drop_last(), values.drop_last());
        dispatch_spec(rest, Some(CommandView::Put { key: keys.last(), value: values.last() })).0
    }
}

/// Puts of distinct keys, served in whatever order they arrive, each stay
/// retrievable: afterwards a get of any of those keys succeeds with the value
/// put under it.
pub proof fn lemma_distinct_puts(s: StoreView, keys: Seq<Seq<char>>, values: Seq<Seq<u8>>, i: int)
    requires
        keys.len() == values.len(),
        forall|a: int, b: int| 0 <= a < b < keys.len() ==> keys[a] != keys[b],
        0 <= i < keys.len(),
    ensures
        dispatch_spec(put_all(s, keys, values), Some(CommandView::Get { key: keys[i] })).1 == hit(keys[i], values[i]),
    decreases keys.len(),
{
    let n = keys.len() - 1;
    if i < n {
        lemma_distinct_puts(s, keys.drop_last(), values.drop_last(), i);
        assert(keys[i] != keys[n]);
    }
}

} // verus!
