//! A pool of interned strings: equal strings are stored once and handed out
//! as shared `Arc<str>` references.

use vstd::prelude::*;
use std::sync::Arc;
use crate::text::str_eq;

verus! {

/// A shared copy of `s` (`Arc::<str>::from`).
#[verifier::external_body]
fn shared_str(s: &str) -> (r: Arc<str>)
    ensures
        r@ == s@,
{
    Arc::from(s)
}

/// Another handle to the same shared string (`Arc::clone`).
#[verifier::external_body]
fn share(a: &Arc<str>) -> (r: Arc<str>)
    ensures
        r == *a,
{
    Arc::clone(a)
}

/// The contents of a list of shared strings.
pub open spec fn shared_views(v: Seq<Arc<str>>) -> Seq<Seq<char>> {
    Seq::new(v.len(), |i: int| v[i]@)
}

/// Interned strings, each stored once.
pub struct StringPool {
    pool: Vec<Arc<str>>,
}

impl StringPool {
    #[verifier::type_invariant]
    spec fn inv(&self) -> bool {
        shared_views(self.pool@).no_duplicates()
    }

    /// The strings held, each once.
    pub closed spec fn spec_strings(&self) -> Set<Seq<char>> {
        shared_views(self.pool@).to_set()
    }

    /// The handle the pool holds for `s`, when it holds `s`.
    pub closed spec fn spec_handle(&self, s: Seq<char>) -> Arc<str> {
        self.pool@[shared_views(self.pool@).index_of(s)]
    }

    /// An empty pool.
    pub fn new() -> (p: StringPool)
        ensures
            p.spec_strings() == Set::<Seq<char>>::empty(),
    {
        let p = StringPool { pool: Vec::new() };
        assert(shared_views(p.pool@) =~= Seq::empty());
        p
    }


    /// A shared reference to `s`. When the pool already holds `s` the
    /// stored handle is returned, so every interned copy of a string shares
    /// one allocation; otherwise `s` is added.
    pub fn intern(&mut self, s: &str) -> (r: Arc<str>)
        ensures
            r@ == s@,
            final(self).spec_strings() == old(self).spec_strings().insert(s@),
            old(self).spec_strings().contains(s@) ==> r == old(self).spec_handle(s@),
            final(self).spec_handle(s@) == r,
            forall|t: Seq<char>|
                old(self).spec_strings().contains(t) ==> #[trigger] final(self).spec_handle(t)
                    == old(self).spec_handle(t),
    {
        proof {
            use_type_invariant(&*self);
        }
        let ghost views = shared_views(self.pool@);
        let mut i: usize = 0;
        while i < self.pool.len()
            invariant
                i <= self.pool@.len(),
                views == shared_views(self.pool@),
                views.no_duplicates(),
                forall|k: int| 0 <= k < i ==> views[k] != s@,
            decreases self.pool.len() - i,
        {
            if str_eq(&self.pool[i], s) {
                proof {
                    assert(views[i as int] == s@);
                    assert(views.contains(s@));
                    let j = views.index_of(s@);
                    assert(views[j] == s@);
                    assert(j == i);
                    assert(views.to_set().insert(s@) =~= views.to_set());
                }
                return share(&self.pool[i]);
            }
            i = i + 1;
        }
        let a = shared_str(s);
        let mut pool: Vec<Arc<str>> = Vec::new();
        std::mem::swap(&mut pool, &mut self.pool);
        let ghost old_pool = pool@;
        pool.push(share(&a));
        proof {
            let nv = shared_views(pool@);
            assert(nv =~= views.push(s@));
            assert(!views.contains(s@));
            assert(nv.no_duplicates());
            assert forall|x: Seq<char>| nv.contains(x) <==> views.contains(x) || x == s@ by {
                if views.contains(x) {
                    let k = choose|k: int| 0 <= k < views.len() && views[k] == x;
                    assert(nv[k] == x);
                }
                if x == s@ {
                    assert(nv[views.len() as int] == x);
                }
                if nv.contains(x) {
                    let k = choose|k: int| 0 <= k < nv.len() && nv[k] == x;
                    if k < views.len() {
                        assert(views[k] == x);
                    }
                }
            }
            assert(nv.to_set() =~= views.to_set().insert(s@));
            assert(nv.contains(s@));
            let j = nv.index_of(s@);
            assert(nv[j] == s@);
            assert(j == views.len());
            assert forall|t: Seq<char>| views.contains(t) implies nv.index_of(t) == views.index_of(
                t,
            ) by {
                let a1 = views.index_of(t);
                let b1 = nv.index_of(t);
                assert(views[a1] == t);
                assert(nv[a1] == t);
                assert(nv.contains(t));
                assert(nv[b1] == t);
            }
            assert(pool@[views.len() as int] == a);
            assert(forall|k: int| 0 <= k < views.len() ==> pool@[k] == old_pool[k]);
        }
        self.pool = pool;
        a
    }

    /// The number of distinct strings held.
    pub fn size(&self) -> (n: usize)
        ensures
            n == self.spec_strings().len(),
    {
        proof {
            use_type_invariant(self);
            shared_views(self.pool@).unique_seq_to_set();
        }
        self.pool.len()
    }

    /// Drops every string.
    pub fn clear(&mut self)
        ensures
            final(self).spec_strings() == Set::<Seq<char>>::empty(),
    {
        self.pool = Vec::new();
        assert(shared_views(self.pool@) =~= Seq::empty());
    }
}


impl Default for StringPool {
    /// An empty pool.
    fn default() -> (p: StringPool)
        ensures
            p.spec_strings() == Set::<Seq<char>>::empty(),
    {
        StringPool::new()
    }
}

} // verus!
