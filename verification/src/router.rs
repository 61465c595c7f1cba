//! Exact-path dispatch over a route table.
//!
//! A route table maps paths to handlers of an arbitrary type `H` (the
//! server instantiates `H` with its handler functions) and holds one
//! fallback handler for unmatched paths. Lookup is an exact string
//! match: no normalization of any kind. Registering a path that is
//! already bound replaces its handler (last write wins).

use vstd::prelude::*;
use vstd::map::*;
use vstd::string::StringExecFns;

verus! {

/// The map a sequence of `(path, handler)` entries denotes; a later
/// entry with the same path wins.
pub open spec fn routes_map<H>(es: Seq<(String, H)>) -> Map<Seq<char>, H>
    decreases es.len(),
{
    if es.len() == 0 {
        Map::empty()
    } else {
        routes_map(es.drop_last()).insert(es.last().0@, es.last().1)
    }
}

/// A path that no entry carries is not in the map.
pub proof fn lemma_routes_map_absent<H>(es: Seq<(String, H)>, k: Seq<char>)
    requires
        forall|j: int| 0 <= j < es.len() ==> (#[trigger] es[j]).0@ != k,
    ensures
        !routes_map(es).contains_key(k),
    decreases es.len(),
{
    if es.len() > 0 {
        assert(es[es.len() - 1].0@ != k);
        lemma_routes_map_absent(es.drop_last(), k);
    }
}

/// The handler of a path held by exactly one entry.
pub proof fn lemma_routes_map_value<H>(es: Seq<(String, H)>, i: int)
    requires
        0 <= i < es.len(),
        forall|j: int| 0 <= j < es.len() && j != i ==> (#[trigger] es[j]).0@ != es[i].0@,
    ensures
        routes_map(es).contains_key(es[i].0@),
        routes_map(es)[es[i].0@] == es[i].1,
    decreases es.len(),
{
    if i == es.len() - 1 {
    } else {
        assert(es.drop_last()[i] == es[i]);
        lemma_routes_map_value(es.drop_last(), i);
        assert(es[es.len() - 1].0@ != es[i].0@);
    }
}

/// Replacing the handler of the one entry that holds a path updates the map.
pub proof fn lemma_routes_map_update<H>(es: Seq<(String, H)>, i: int, p: String, h: H)
    requires
        0 <= i < es.len(),
        p@ == es[i].0@,
        forall|j: int| 0 <= j < es.len() && j != i ==> (#[trigger] es[j]).0@ != es[i].0@,
    ensures
        routes_map(es.update(i, (p, h))) == routes_map(es).insert(es[i].0@, h),
    decreases es.len(),
{
    let k = es[i].0@;
    let es2 = es.update(i, (p, h));
    if i == es.len() - 1 {
        assert(es2.drop_last() =~= es.drop_last());
        assert(es2.last() == (p, h));
        assert_maps_equal!(
            routes_map(es.drop_last()).insert(k, es[i].1).insert(k, h),
            routes_map(es.drop_last()).insert(k, h)
        );
    } else {
        assert(es2.last() == es.last());
        assert(es2.drop_last() =~= es.drop_last().update(i, (p, h)));
        assert(es.drop_last()[i] == es[i]);
        lemma_routes_map_update(es.drop_last(), i, p, h);
        assert(es[es.len() - 1].0@ != k);
        assert_maps_equal!(
            routes_map(es.drop_last()).insert(k, h).insert(es.last().0@, es.last().1),
            routes_map(es.drop_last()).insert(es.last().0@, es.last().1).insert(k, h)
        );
    }
}

/// A static mapping from exact paths to handlers, plus one fallback
/// handler for every other path.
pub struct RouteTable<H> {
    pub routes: Vec<(String, H)>,
    pub fallback: H,
}

impl<H> RouteTable<H> {
    /// Each path is bound by at most one entry.
    pub open spec fn wf(&self) -> bool {
        forall|i: int, j: int|
            0 <= i < self.routes@.len() && 0 <= j < self.routes@.len() && i != j
                ==> (#[trigger] self.routes@[i]).0@ != (#[trigger] self.routes@[j]).0@
    }

    /// The mapping from paths to registered handlers.
    pub open spec fn spec_routes(&self) -> Map<Seq<char>, H> {
        routes_map(self.routes@)
    }

    /// The handler of every unmatched path.
    pub open spec fn spec_fallback(&self) -> H {
        self.fallback
    }

    /// An empty table whose fallback is `fallback`.
    pub fn new(fallback: H) -> (r: RouteTable<H>)
        ensures
            r.wf(),
            r.spec_routes() == Map::<Seq<char>, H>::empty(),
            r.spec_fallback() == fallback,
    {
        RouteTable { routes: Vec::new(), fallback }
    }

    /// Binds `path` to `handler`; an earlier binding of the same path is
    /// replaced (last write wins).
    pub fn route(&mut self, path: &'static str, handler: H)
        requires
            old(self).wf(),
        ensures
            final(self).wf(),
            final(self).spec_routes() == old(self).spec_routes().insert(path@, handler),
            final(self).spec_fallback() == old(self).spec_fallback(),
    {
        let ghost es = old(self).routes@;
        let key = path.to_owned();
        let n = self.routes.len();
        let mut i: usize = 0;
        while i < n
            invariant
                i <= n,
                n == es.len(),
                es == old(self).routes@,
                self.routes@ == es,
                self.fallback == old(self).fallback,
                old(self).wf(),
                key@ == path@,
                forall|k: int| 0 <= k < i ==> (#[trigger] es[k]).0@ != path@,
            decreases n - i,
        {
            if self.routes[i].0 == key {
                proof {
                    assert(es[i as int].0@ == path@);
                }
                self.routes.remove(i);
                self.routes.insert(i, (key, handler));
                proof {
                    let np = self.routes@[i as int];
                    assert(np.0@ == path@);
                    assert(self.routes@ =~= es.update(i as int, np));
                    assert forall|j: int| 0 <= j < es.len() && j != i as int
                        implies (#[trigger] es[j]).0@ != es[i as int].0@ by {
                        assert(old(self).routes@[j].0@ != old(self).routes@[i as int].0@);
                    };
                    lemma_routes_map_update(es, i as int, np.0, np.1);
                    assert(self.wf()) by {
                        assert forall|p: int, q: int|
                            0 <= p < self.routes@.len() && 0 <= q < self.routes@.len() && p != q
                            implies (#[trigger] self.routes@[p]).0@
                                != (#[trigger] self.routes@[q]).0@ by {
                            assert(old(self).routes@[p].0@ != old(self).routes@[q].0@);
                            assert(self.routes@[p].0@ == es[p].0@);
                            assert(self.routes@[q].0@ == es[q].0@);
                        };
                    };
                }
                return ;
            }
            i += 1;
        }
        self.routes.push((key, handler));
        proof {
            assert(self.routes@.drop_last() =~= es);
            assert(self.routes@.last().0@ == path@);
            assert(self.wf()) by {
                assert forall|p: int, q: int|
                    0 <= p < self.routes@.len() && 0 <= q < self.routes@.len() && p != q
                    implies (#[trigger] self.routes@[p]).0@ != (#[trigger] self.routes@[q]).0@ by {
                    if p < es.len() && q < es.len() {
                        assert(old(self).routes@[p].0@ != old(self).routes@[q].0@);
                        assert(self.routes@[p].0@ == es[p].0@);
                        assert(self.routes@[q].0@ == es[q].0@);
                    }
                };
            };
        }
    }

    /// Replaces the fallback handler.
    pub fn route404(&mut self, handler: H)
        ensures
            old(self).wf() ==> final(self).wf(),
            final(self).spec_routes() == old(self).spec_routes(),
            final(self).spec_fallback() == handler,
    {
        self.fallback = handler;
        proof {
            if old(self).wf() {
                assert forall|i: int, j: int|
                    0 <= i < self.routes@.len() && 0 <= j < self.routes@.len() && i != j
                    implies (#[trigger] self.routes@[i]).0@ != (#[trigger] self.routes@[j]).0@ by {
                    assert(old(self).routes@[i].0@ != old(self).routes@[j].0@);
                };
            }
        }
    }

    /// Resolves a path: the registered handler on an exact match, the
    /// fallback handler on any other path.
    pub fn lookup(&self, path: &String) -> (h: &H)
        requires
            self.wf(),
        ensures
            self.spec_routes().contains_key(path@) ==> *h == self.spec_routes()[path@],
            !self.spec_routes().contains_key(path@) ==> *h == self.spec_fallback(),
    {
        let n = self.routes.len();
        let mut i: usize = 0;
        while i < n
            invariant
                i <= n,
                n == self.routes@.len(),
                self.wf(),
                forall|k: int| 0 <= k < i ==> (#[trigger] self.routes@[k]).0@ != path@,
            decreases n - i,
        {
            if self.routes[i].0 == *path {
                proof {
                    lemma_routes_map_value(self.routes@, i as int);
                }
                return &self.routes[i].1;
            }
            i += 1;
        }
        proof {
            lemma_routes_map_absent(self.routes@, path@);
        }
        &self.fallback
    }
}

/// Dispatch follows registration: once `p` is bound to `h`, resolving
/// `p` yields `h`; resolving any other path is unchanged, and still
/// falls back where nothing is registered. Re-binding `p` replaces the
/// earlier handler, since binding is map insertion (last write wins).
pub proof fn lemma_route_then_lookup<H>(m: Map<Seq<char>, H>, p: Seq<char>, h: H, q: Seq<char>)
    ensures
        m.insert(p, h).contains_key(p) && m.insert(p, h)[p] == h,
        q != p ==> (m.insert(p, h).contains_key(q) <==> m.contains_key(q)),
        q != p && m.contains_key(q) ==> m.insert(p, h)[q] == m[q],
{
}

} // verus!
