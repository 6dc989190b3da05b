//! Routes and the tables that hold them: one table per method and one for
//! the routes that answer every method, each sorted by path before the first
//! lookup.

use vstd::prelude::*;
use vstd::string::*;
use vstd::utf8::*;
use crate::server::reqres::RequestType;
use crate::server::text;

verus! {

/// A handler bound to a method and a path. `H` is the type of the handler; the
/// tables never look inside it.
pub struct Route<H> {
    path: String,
    request_type: RequestType,
    handler: H,
}

impl<H> Route<H> {
    /// The path of the route.
    pub closed spec fn spec_path(&self) -> Seq<char> {
        self.path@
    }

    /// The method of the route.
    pub closed spec fn spec_request_type(&self) -> RequestType {
        self.request_type
    }

    /// The handler of the route.
    pub closed spec fn spec_handler(&self) -> H {
        self.handler
    }

    /// The bytes by which routes are ordered: the UTF-8 encoding of the path.
    pub open spec fn path_key(&self) -> Seq<u8> {
        encode_utf8(self.spec_path())
    }

    /// `path` with a `/` put in front unless it begins with one.
    pub open spec fn normalized(path: Seq<char>) -> Seq<char> {
        if path.len() > 0 && path[0] == '/' {
            path
        } else {
            seq!['/'] + path
        }
    }

    /// Binds `handler` to `request_type` and to `path`, which is made to begin
    /// with `/`.
    pub fn create(path: &str, request_type: RequestType, handler: H) -> (r: Route<H>)
        ensures
            r.spec_path() == Self::normalized(path@),
            r.spec_request_type() == request_type,
            r.spec_handler() == handler,
    {
        let mut resolved_path = String::new();
        if path.is_empty() || path.get_char(0) != '/' {
            text::push_char(&mut resolved_path, '/');
        }
        resolved_path.append(path);
        assert(resolved_path@ == Self::normalized(path@));
        Route { path: resolved_path, request_type, handler }
    }

    /// The path of the route.
    pub fn path(&self) -> (p: &String)
        ensures
            p@ == self.spec_path(),
    {
        &self.path
    }

    /// The method of the route.
    pub fn request_type(&self) -> (t: RequestType)
        ensures
            t == self.spec_request_type(),
    {
        self.request_type
    }

    /// The handler of the route.
    pub fn handler(&self) -> (h: &H)
        ensures
            *h == self.spec_handler(),
    {
        &self.handler
    }
}

/// No route of `table` comes before an earlier one in the order of paths.
pub open spec fn sorted_by_path<H>(table: Seq<Route<H>>) -> bool {
    forall|i: int, j: int|
        0 <= i < j < table.len() ==> !text::lex_less(
            #[trigger] table[j].path_key(),
            #[trigger] table[i].path_key(),
        )
}

/// Some route of `table` has the path `path`.
pub open spec fn has_path<H>(table: Seq<Route<H>>, path: Seq<char>) -> bool {
    exists|i: int| 0 <= i < table.len() && #[trigger] table[i].spec_path() == path
}

/// No two routes of `table` have the same path.
pub open spec fn unique_paths<H>(table: Seq<Route<H>>) -> bool {
    forall|i: int, j: int|
        0 <= i < table.len() && 0 <= j < table.len() && #[trigger] table[i].spec_path()
            == #[trigger] table[j].spec_path() ==> i == j
}

/// The route of `table` whose path is `path`, if there is one.
pub open spec fn route_with_path<H>(table: Seq<Route<H>>, path: Seq<char>) -> Option<Route<H>> {
    if has_path(table, path) {
        Some(table[choose|i: int| 0 <= i < table.len() && #[trigger] table[i].spec_path() == path])
    } else {
        None
    }
}

/// Two tables with the same routes, in whatever order, hold routes for the
/// same paths.
pub proof fn lemma_same_routes_same_paths<H>(a: Seq<Route<H>>, b: Seq<Route<H>>, path: Seq<char>)
    requires
        a.to_multiset() == b.to_multiset(),
    ensures
        has_path(a, path) == has_path(b, path),
{
    broadcast use vstd::seq_lib::to_multiset_contains;

    if has_path(a, path) {
        let i = choose|i: int| 0 <= i < a.len() && #[trigger] a[i].spec_path() == path;
        assert(a.contains(a[i]));
        assert(a.to_multiset().count(a[i]) > 0);
        assert(b.contains(a[i]));
        let j = choose|j: int| 0 <= j < b.len() && b[j] == a[i];
        assert(b[j].spec_path() == path);
    }
    if has_path(b, path) {
        let i = choose|i: int| 0 <= i < b.len() && #[trigger] b[i].spec_path() == path;
        assert(b.contains(b[i]));
        assert(b.to_multiset().count(b[i]) > 0);
        assert(a.contains(b[i]));
        let j = choose|j: int| 0 <= j < a.len() && a[j] == b[i];
        assert(a[j].spec_path() == path);
    }
}

/// In a table without two routes of one path, a route is known by its path.
pub proof fn lemma_route_known_by_path<H>(table: Seq<Route<H>>, route: Route<H>)
    requires
        unique_paths(table),
        table.contains(route),
    ensures
        route_with_path(table, route.spec_path()) == Some(route),
{
    let i = choose|i: int| 0 <= i < table.len() && table[i] == route;
    assert(table[i].spec_path() == route.spec_path());
    let j = choose|j: int|
        0 <= j < table.len() && #[trigger] table[j].spec_path() == route.spec_path();
    assert(i == j);
}

/// The index of a route of `table` whose path is `path`, by binary search.
fn search<H>(table: &Vec<Route<H>>, path: &String) -> (found: Option<usize>)
    requires
        sorted_by_path(table@),
    ensures
        match found {
            Some(i) => i < table.len() && table[i as int].spec_path() == path@,
            None => !has_path(table@, path@),
        },
{
    let key = path.as_str().as_bytes();
    let mut lo: usize = 0;
    let mut hi: usize = table.len();
    while lo < hi
        invariant
            lo <= hi <= table.len(),
            sorted_by_path(table@),
            key@ == encode_utf8(path@),
            forall|i: int| 0 <= i < lo ==> (#[trigger] table[i]).spec_path() != path@,
            forall|i: int| hi <= i < table.len() ==> (#[trigger] table[i]).spec_path() != path@,
        decreases hi - lo,
    {
        let mid = lo + (hi - lo) / 2;
        let here = table[mid].path.as_str().as_bytes();
        assert(here@ == table[mid as int].path_key());
        proof {
            text::lemma_lex_irreflexive(key@);
        }
        if text::bytes_less(here, key) {
            assert forall|i: int| 0 <= i < mid + 1 implies (#[trigger] table[i]).spec_path()
                != path@ by {
                if table[i].spec_path() == path@ {
                    assert(table[i].path_key() == key@);
                    if i < mid {
                        assert(!text::lex_less(table[mid as int].path_key(), table[i].path_key()));
                    }
                }
            }
            lo = mid + 1;
        } else if text::bytes_less(key, here) {
            assert forall|i: int| mid <= i < table.len() implies (#[trigger] table[i]).spec_path()
                != path@ by {
                if table[i].spec_path() == path@ {
                    assert(table[i].path_key() == key@);
                    if mid < i {
                        assert(!text::lex_less(table[i].path_key(), table[mid as int].path_key()));
                    }
                }
            }
            hi = mid;
        } else {
            proof {
                text::lemma_lex_trichotomy(here@, key@);
                text::lemma_encoding_injective(table[mid as int].spec_path(), path@);
            }
            return Some(mid);
        }
    }
    None
}

/// Whether no route of `table` comes before an earlier one.
fn is_sorted<H>(table: &Vec<Route<H>>) -> (r: bool)
    ensures
        r == sorted_by_path(table@),
{
    if table.len() < 2 {
        return true;
    }
    let mut i: usize = 1;
    while i < table.len()
        invariant
            1 <= i <= table.len(),
            sorted_by_path(table@.take(i as int)),
        decreases table.len() - i,
    {
        if text::bytes_less(
            table[i].path.as_str().as_bytes(),
            table[i - 1].path.as_str().as_bytes(),
        ) {
            assert(text::lex_less(table@[i as int].path_key(), table@[i - 1].path_key()));
            return false;
        }
        proof {
            let next = table@.take(i + 1);
            let seen = table@.take(i as int);
            assert forall|a: int, b: int| 0 <= a < b < next.len() implies !text::lex_less(
                #[trigger] next[b].path_key(),
                #[trigger] next[a].path_key(),
            ) by {
                if b < i {
                    assert(seen[a] == next[a] && seen[b] == next[b]);
                } else if a < i - 1 {
                    assert(seen[a] == next[a] && seen[i - 1] == next[i - 1]);
                    text::lemma_lex_not_after_transitive(
                        next[a].path_key(),
                        next[i - 1].path_key(),
                        next[b].path_key(),
                    );
                }
            }
        }
        i += 1;
    }
    assert(table@.take(i as int) == table@);
    true
}

/// The elements of `v` in the opposite order.
fn reversed<T>(v: Vec<T>) -> (r: Vec<T>)
    ensures
        r@ == v@.reverse(),
{
    let mut v = v;
    let ghost all = v@;
    let mut r: Vec<T> = Vec::new();
    while v.len() > 0
        invariant
            v@ == all.take(v.len() as int),
            r.len() + v.len() == all.len(),
            forall|k: int| 0 <= k < r.len() ==> r[k] == all[all.len() - 1 - k],
        decreases v.len(),
    {
        let x = v.pop().unwrap();
        r.push(x);
    }
    assert(r@ =~= all.reverse());
    r
}

/// Merges two sorted tables into one sorted table that holds the routes of
/// both.
fn merge<H>(left: Vec<Route<H>>, right: Vec<Route<H>>) -> (merged: Vec<Route<H>>)
    requires
        sorted_by_path(left@),
        sorted_by_path(right@),
    ensures
        sorted_by_path(merged@),
        merged@.to_multiset() == left@.to_multiset().add(right@.to_multiset()),
{
    let mut a = left;
    let mut b = right;
    // `out` collects the routes from the last to the first.
    let mut out: Vec<Route<H>> = Vec::new();
    proof {
        assert(out@.to_multiset() =~= vstd::multiset::Multiset::<Route<H>>::empty()) by {
            out@.to_multiset_ensures();
        }
    }
    while a.len() > 0 || b.len() > 0
        invariant
            sorted_by_path(a@),
            sorted_by_path(b@),
            forall|i: int, j: int|
                0 <= i < j < out.len() ==> !text::lex_less(
                    #[trigger] out[i].path_key(),
                    #[trigger] out[j].path_key(),
                ),
            forall|i: int, k: int|
                0 <= i < out.len() && 0 <= k < a.len() ==> !text::lex_less(
                    #[trigger] out[i].path_key(),
                    #[trigger] a[k].path_key(),
                ),
            forall|i: int, k: int|
                0 <= i < out.len() && 0 <= k < b.len() ==> !text::lex_less(
                    #[trigger] out[i].path_key(),
                    #[trigger] b[k].path_key(),
                ),
            a@.to_multiset().add(b@.to_multiset()).add(out@.to_multiset())
                == left@.to_multiset().add(right@.to_multiset()),
        decreases a.len() + b.len(),
    {
        let ghost a0 = a@;
        let ghost b0 = b@;
        let ghost out0 = out@;
        let take_left = if b.len() == 0 {
            true
        } else if a.len() == 0 {
            false
        } else {
            text::bytes_less(
                b[b.len() - 1].path.as_str().as_bytes(),
                a[a.len() - 1].path.as_str().as_bytes(),
            )
        };
        if take_left {
            let x = a.pop().unwrap();
            proof {
                assert(a0 == a@.push(x));
                vstd::seq_lib::to_multiset_build(a@, x);
                vstd::seq_lib::to_multiset_build(out0, x);
                assert forall|k: int| 0 <= k < b.len() implies !text::lex_less(
                    x.path_key(),
                    #[trigger] b[k].path_key(),
                ) by {
                    let last = b[b.len() - 1];
                    text::lemma_lex_trichotomy(last.path_key(), x.path_key());
                    if k < b.len() - 1 {
                        text::lemma_lex_not_after_transitive(
                            b[k].path_key(),
                            last.path_key(),
                            x.path_key(),
                        );
                    }
                }
                assert forall|k: int| 0 <= k < a.len() implies !text::lex_less(
                    x.path_key(),
                    #[trigger] a[k].path_key(),
                ) by {
                    assert(a0[k] == a[k]);
                    assert(a0[a0.len() - 1] == x);
                }
            }
            out.push(x);
            proof {
                assert(a0.to_multiset().add(b0.to_multiset()).add(out0.to_multiset())
                    =~= a@.to_multiset().add(b@.to_multiset()).add(out@.to_multiset()));
            }
        } else {
            let x = b.pop().unwrap();
            proof {
                assert(b0 == b@.push(x));
                vstd::seq_lib::to_multiset_build(b@, x);
                vstd::seq_lib::to_multiset_build(out0, x);
                assert forall|k: int| 0 <= k < a.len() implies !text::lex_less(
                    x.path_key(),
                    #[trigger] a[k].path_key(),
                ) by {
                    let last = a[a.len() - 1];
                    if k < a.len() - 1 {
                        text::lemma_lex_not_after_transitive(
                            a[k].path_key(),
                            last.path_key(),
                            x.path_key(),
                        );
                    }
                }
                assert forall|k: int| 0 <= k < b.len() implies !text::lex_less(
                    x.path_key(),
                    #[trigger] b[k].path_key(),
                ) by {
                    assert(b0[k] == b[k]);
                    assert(b0[b0.len() - 1] == x);
                }
            }
            out.push(x);
            proof {
                assert(a0.to_multiset().add(b0.to_multiset()).add(out0.to_multiset())
                    =~= a@.to_multiset().add(b@.to_multiset()).add(out@.to_multiset()));
            }
        }
    }
    let ghost collected = out@;
    let merged = reversed(out);
    proof {
        collected.lemma_reverse_to_multiset();
        a@.to_multiset_ensures();
        b@.to_multiset_ensures();
        assert(a@.to_multiset() =~= vstd::multiset::Multiset::<Route<H>>::empty());
        assert(b@.to_multiset() =~= vstd::multiset::Multiset::<Route<H>>::empty());
        assert(merged@.to_multiset() =~= left@.to_multiset().add(right@.to_multiset()));
        assert forall|i: int, j: int| 0 <= i < j < merged.len() implies !text::lex_less(
            #[trigger] merged[j].path_key(),
            #[trigger] merged[i].path_key(),
        ) by {
            assert(merged[j] == collected[collected.len() - 1 - j]);
            assert(merged[i] == collected[collected.len() - 1 - i]);
        }
    }
    merged
}

/// Sorts a table by path.
fn merge_sort<H>(table: Vec<Route<H>>) -> (sorted: Vec<Route<H>>)
    ensures
        sorted_by_path(sorted@),
        sorted@.to_multiset() == table@.to_multiset(),
    decreases table.len(),
{
    if table.len() <= 1 {
        return table;
    }
    let mut left = table;
    let ghost all = left@;
    let right = left.split_off(left.len() / 2);
    proof {
        assert(all == left@ + right@);
        vstd::seq_lib::lemma_multiset_commutative(left@, right@);
    }
    let left = merge_sort(left);
    let right = merge_sort(right);
    merge(left, right)
}

/// Sorts a table by path, in place.
fn sort_table<H>(table: &mut Vec<Route<H>>)
    ensures
        sorted_by_path(final(table)@),
        final(table)@.to_multiset() == old(table)@.to_multiset(),
{
    let mut taken: Vec<Route<H>> = Vec::new();
    core::mem::swap(table, &mut taken);
    let mut sorted = merge_sort(taken);
    core::mem::swap(table, &mut sorted);
}

/// The routes of a server: a table for each of the four methods and one for
/// the routes registered under `Any`.
pub struct RouteStorage<H> {
    routes_get: Vec<Route<H>>,
    routes_post: Vec<Route<H>>,
    routes_put: Vec<Route<H>>,
    routes_delete: Vec<Route<H>>,
    routes_any: Vec<Route<H>>,
}

impl<H> RouteStorage<H> {

    /// The table of the routes registered under `request_type`.
    pub closed spec fn table(&self, request_type: RequestType) -> Seq<Route<H>> {
        match request_type {
            RequestType::Get => self.routes_get@,
            RequestType::Post => self.routes_post@,
            RequestType::Put => self.routes_put@,
            RequestType::Delete => self.routes_delete@,
            RequestType::Any => self.routes_any@,
        }
    }

    /// Every table is sorted by path.
    pub open spec fn spec_is_prepared(&self) -> bool {
        forall|t: RequestType| sorted_by_path(#[trigger] self.table(t))
    }

    /// What a lookup of `path` under `request_type` may answer with: a route
    /// of that method's table with exactly this path if there is one; else,
    /// unless the method is `Any` itself, such a route of the table of `Any`;
    /// else nothing.
    pub open spec fn answers(
        &self,
        request_type: RequestType,
        path: Seq<char>,
        found: Option<Route<H>>,
    ) -> bool {
        match found {
            Some(route) => {
                &&& route.spec_path() == path
                &&& {
                    ||| self.table(request_type).contains(route)
                    ||| {
                        &&& !request_type.is_any()
                        &&& !has_path(self.table(request_type), path)
                        &&& self.table(RequestType::Any).contains(route)
                    }
                }
            },
            None => {
                &&& !has_path(self.table(request_type), path)
                &&& request_type.is_any() || !has_path(self.table(RequestType::Any), path)
            },
        }
    }

    /// The route that answers `path` under `request_type`: the one of that
    /// method's table with exactly this path; else, unless the method is `Any`
    /// itself, the one of the table of `Any`; else none.
    pub open spec fn lookup(&self, request_type: RequestType, path: Seq<char>) -> Option<Route<H>> {
        match route_with_path(self.table(request_type), path) {
            Some(route) => Some(route),
            None => if request_type.is_any() {
                None
            } else {
                route_with_path(self.table(RequestType::Any), path)
            },
        }
    }

    /// Register routes such that no method has two of one path, sort the
    /// tables, and look a path up under a method. The answer is the registered
    /// route of that method with exactly this path if there is one, else the
    /// one registered under `Any`, else none.
    ///
    /// `registered` is the storage when the last route has been added,
    /// `prepared` is what `prep` makes of it, and `found` is an answer that
    /// `handler` may give on `prepared`.
    pub proof fn lemma_lookup_finds_registered(
        registered: RouteStorage<H>,
        prepared: RouteStorage<H>,
        request_type: RequestType,
        path: Seq<char>,
        found: Option<Route<H>>,
    )
        requires
            forall|t: RequestType| unique_paths(#[trigger] registered.table(t)),
            forall|t: RequestType|
                (#[trigger] prepared.table(t)).to_multiset() == registered.table(t).to_multiset(),
            prepared.answers(request_type, path, found),
        ensures
            found == registered.lookup(request_type, path),
    {
        broadcast use vstd::seq_lib::to_multiset_contains;

        let own = registered.table(request_type);
        let any = registered.table(RequestType::Any);
        assert(prepared.table(request_type).to_multiset() == own.to_multiset());
        assert(prepared.table(RequestType::Any).to_multiset() == any.to_multiset());
        lemma_same_routes_same_paths(prepared.table(request_type), own, path);
        lemma_same_routes_same_paths(prepared.table(RequestType::Any), any, path);
        match found {
            Some(route) => {
                if prepared.table(request_type).contains(route) {
                    assert(own.to_multiset().count(route) > 0);
                    assert(own.contains(route));
                    lemma_route_known_by_path(own, route);
                } else {
                    assert(any.to_multiset().count(route) > 0);
                    assert(any.contains(route));
                    lemma_route_known_by_path(any, route);
                }
            },
            None => {},
        }
    }

    /// Storage without routes.
    pub fn new() -> (s: RouteStorage<H>)
        ensures
            forall|t: RequestType| #[trigger] s.table(t) == Seq::<Route<H>>::empty(),
    {
        RouteStorage {
            routes_get: Vec::new(),
            routes_post: Vec::new(),
            routes_put: Vec::new(),
            routes_delete: Vec::new(),
            routes_any: Vec::new(),
        }
    }

    /// Whether every table is sorted by path, as a lookup needs it.
    #[verifier::when_used_as_spec(spec_is_prepared)]
    pub fn is_prepared(&self) -> (b: bool)
        ensures
            b == self.spec_is_prepared(),
    {
        let b = is_sorted(&self.routes_get) && is_sorted(&self.routes_post) && is_sorted(
            &self.routes_put,
        ) && is_sorted(&self.routes_delete) && is_sorted(&self.routes_any);
        proof {
            if b {
                assert forall|t: RequestType| sorted_by_path(#[trigger] self.table(t)) by {}
            } else {
                assert(!sorted_by_path(self.table(RequestType::Get)) || !sorted_by_path(
                    self.table(RequestType::Post),
                ) || !sorted_by_path(self.table(RequestType::Put)) || !sorted_by_path(
                    self.table(RequestType::Delete),
                ) || !sorted_by_path(self.table(RequestType::Any)));
            }
        }
        b
    }

    /// Looks up the route for a request.
    pub fn handler(&self, request_type: &RequestType, path: &String) -> (found: Option<&Route<H>>)
        requires
            self.is_prepared(),
        ensures
            self.answers(
                *request_type,
                path@,
                match found {
                    Some(route) => Some(*route),
                    None => None,
                },
            ),
    {
        assert(sorted_by_path(self.table(*request_type)));
        assert(sorted_by_path(self.table(RequestType::Any)));
        let handler_cat = match request_type {
            RequestType::Get => &self.routes_get,
            RequestType::Post => &self.routes_post,
            RequestType::Put => &self.routes_put,
            RequestType::Delete => &self.routes_delete,
            RequestType::Any => &self.routes_any,
        };
        assert(handler_cat@ == self.table(*request_type));
        if let Some(handler_ix) = search(handler_cat, path) {
            Some(&handler_cat[handler_ix])
        } else if !request_type.is_any() {
            match search(&self.routes_any, path) {
                Some(any_ix) => Some(&self.routes_any[any_ix]),
                None => None,
            }
        } else {
            None
        }
    }

    /// Appends `route` to the table of its method.
    pub fn add(&mut self, route: Route<H>)
        ensures
            final(self).table(route.spec_request_type()) == old(self).table(
                route.spec_request_type(),
            ).push(route),
            forall|t: RequestType|
                t != route.spec_request_type() ==> #[trigger] final(self).table(t) == old(
                    self,
                ).table(t),
    {
        match route.request_type {
            RequestType::Get => self.routes_get.push(route),
            RequestType::Post => self.routes_post.push(route),
            RequestType::Put => self.routes_put.push(route),
            RequestType::Delete => self.routes_delete.push(route),
            RequestType::Any => self.routes_any.push(route),
        }
    }

    /// Sorts each table by path; every table keeps its routes.
    pub fn prep(&mut self)
        ensures
            final(self).spec_is_prepared(),
            forall|t: RequestType|
                #![trigger final(self).table(t)]
                sorted_by_path(final(self).table(t)) && final(self).table(t).to_multiset() == old(
                    self,
                ).table(t).to_multiset(),
    {
        sort_table(&mut self.routes_get);
        sort_table(&mut self.routes_post);
        sort_table(&mut self.routes_put);
        sort_table(&mut self.routes_delete);
        sort_table(&mut self.routes_any);
    }
}

} // verus!
