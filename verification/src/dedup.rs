//! The duplicate filter: a bounded, two-generation cache of identity keys.
//! The server may redeliver an update; an update whose identity key is
//! already cached is suppressed. When the active generation outgrows its
//! bound the generations rotate, so the cache holds at most two bounds'
//! worth of keys.

use vstd::prelude::*;

use crate::update::UpdateKey;

verus! {

/// The identity keys a sequence of `UpdateKey`s denotes.
pub open spec fn keys_view(s: Seq<UpdateKey>) -> Seq<(int, Seq<char>)> {
    s.map_values(|k: UpdateKey| k@)
}

/// The mathematical state of a duplicate filter: the active generation,
/// the older generation, and the size bound of the active one.
#[verifier::ext_equal]
pub ghost struct FilterModel {
    pub active: Seq<(int, Seq<char>)>,
    pub older: Seq<(int, Seq<char>)>,
    pub bound: nat,
}

impl FilterModel {
    /// Whether `k` is cached in either generation.
    pub open spec fn known(self, k: (int, Seq<char>)) -> bool {
        self.active.contains(k) || self.older.contains(k)
    }

    /// Whether an update with key `k` passes the filter.
    pub open spec fn emits(self, k: (int, Seq<char>)) -> bool {
        !self.known(k)
    }

    /// The state after one key is fed through: the key joins the active
    /// generation, and the generations rotate when the active one then
    /// exceeds its bound.
    pub open spec fn step(self, k: (int, Seq<char>)) -> FilterModel {
        let mid = if self.active.contains(k) {
            self.active
        } else {
            self.active.push(k)
        };
        if mid.len() > self.bound {
            FilterModel { active: Seq::empty(), older: mid, bound: self.bound }
        } else {
            FilterModel { active: mid, older: self.older, bound: self.bound }
        }
    }

    /// Whether feeding `k` rotates the generations: the active one,
    /// with `k` joined, exceeds its bound.
    pub open spec fn rotates(self, k: (int, Seq<char>)) -> bool {
        (if self.active.contains(k) {
            self.active
        } else {
            self.active.push(k)
        }).len() > self.bound
    }

    /// Each generation is a set (no repeats), the active one within its
    /// bound, the older one within one past it (its size when it rotated
    /// out).
    pub open spec fn wf(self) -> bool {
        &&& self.active.no_duplicates()
        &&& self.older.no_duplicates()
        &&& self.active.len() <= self.bound
        &&& self.older.len() <= self.bound + 1
    }
}

/// Feeding a key caches it: the immediate repeat of any key is suppressed,
/// whether or not the first occurrence was itself emitted.
pub proof fn lemma_duplicate_suppressed(m: FilterModel, k: (int, Seq<char>))
    ensures
        !m.step(k).emits(k),
{
    let mid = if m.active.contains(k) {
        m.active
    } else {
        m.active.push(k)
    };
    if !m.active.contains(k) {
        assert(mid[mid.len() - 1] == k);
    }
    assert(mid.contains(k));
}

/// One step keeps the filter well formed: in particular the active
/// generation never outgrows its bound, so the cache stays finite however
/// long the feed runs.
pub proof fn lemma_step_preserves_wf(m: FilterModel, k: (int, Seq<char>))
    requires
        m.wf(),
    ensures
        m.step(k).wf(),
{
    let mid = if m.active.contains(k) {
        m.active
    } else {
        m.active.push(k)
    };
    if !m.active.contains(k) {
        assert forall|i: int, j: int| 0 <= i < j < mid.len() implies mid[i] != mid[j] by {
            if j < mid.len() - 1 {
                assert(m.active[i] != m.active[j]);
            } else {
                assert(m.active.contains(m.active[i]));
            }
        }
        assert(mid.no_duplicates());
    }
}

/// A step that rotates forgets the older generation whole: afterwards a
/// key is remembered exactly when it sat in the generation that was
/// active just before, or is the key just fed. This is what bounds the
/// duplicate-detection window: a key is rotated out, and passes the
/// filter again, once two rotations have gone by without it.
pub proof fn lemma_rotation_forgets(m: FilterModel, k: (int, Seq<char>))
    requires
        m.rotates(k),
    ensures
        forall|k2: (int, Seq<char>)|
            #[trigger] m.step(k).known(k2) <==> (m.active.contains(k2) || k2 == k),
{
    let mid = if m.active.contains(k) {
        m.active
    } else {
        m.active.push(k)
    };
    assert forall|k2: (int, Seq<char>)|
        #[trigger] m.step(k).known(k2) <==> (m.active.contains(k2) || k2 == k) by {
        if m.step(k).known(k2) {
            assert(mid.contains(k2));
            let w = choose|w: int| 0 <= w < mid.len() && mid[w] == k2;
            if !m.active.contains(k) && w == mid.len() - 1 {
                assert(k2 == k);
            } else {
                assert(m.active.contains(k2));
            }
        }
        if m.active.contains(k2) {
            let w = choose|w: int| 0 <= w < m.active.len() && m.active[w] == k2;
            assert(mid[w] == k2);
            assert(m.step(k).older.contains(k2));
        }
        if k2 == k {
            if m.active.contains(k) {
                assert(mid.contains(k2));
            } else {
                assert(mid[mid.len() - 1] == k);
            }
            assert(m.step(k).older.contains(k2));
        }
    }
}

/// The duplicate filter as it runs: two generations of identity keys and
/// a flag naming the active one.
pub struct DuplicateFilter {
    gen_a: Vec<UpdateKey>,
    gen_b: Vec<UpdateKey>,
    b_active: bool,
    bound: usize,
}

impl View for DuplicateFilter {
    type V = FilterModel;

    closed spec fn view(&self) -> FilterModel {
        FilterModel {
            active: keys_view(if self.b_active {
                self.gen_b@
            } else {
                self.gen_a@
            }),
            older: keys_view(if self.b_active {
                self.gen_a@
            } else {
                self.gen_b@
            }),
            bound: self.bound as nat,
        }
    }
}

/// Whether `v` holds a key with `key`'s identity.
fn holds_key(v: &Vec<UpdateKey>, key: &UpdateKey) -> (r: bool)
    ensures
        r == keys_view(v@).contains(key@),
{
    let n = v.len();
    let mut j: usize = 0;
    while j < n
        invariant
            j <= n,
            n == v@.len(),
            forall|t: int| 0 <= t < j ==> (#[trigger] v@[t])@ != key@,
        decreases n - j,
    {
        let e = &v[j];
        if e.chat == key.chat && e.msg == key.msg {
            proof {
                assert(keys_view(v@)[j as int] == key@);
            }
            return true;
        }
        j = j + 1;
    }
    proof {
        assert forall|t: int| 0 <= t < keys_view(v@).len() implies keys_view(v@)[t]
            != key@ by {
            assert(v@[t]@ != key@);
        }
    }
    false
}

impl DuplicateFilter {
    /// How many keys the active generation may hold before rotation.
    pub const GENERATION_BOUND: usize = 10000;

    /// A fresh, empty filter whose active generation rotates past
    /// `bound` keys.
    pub fn with_bound(bound: usize) -> (f: DuplicateFilter)
        ensures
            f@ == (FilterModel {
                active: Seq::<(int, Seq<char>)>::empty(),
                older: Seq::<(int, Seq<char>)>::empty(),
                bound: bound as nat,
            }),
            f@.wf(),
    {
        let f = DuplicateFilter { gen_a: Vec::new(), gen_b: Vec::new(), b_active: false, bound };
        proof {
            assert(keys_view(f.gen_a@) =~= Seq::<(int, Seq<char>)>::empty());
            assert(keys_view(f.gen_b@) =~= Seq::<(int, Seq<char>)>::empty());
        }
        f
    }

    /// A fresh, empty filter with the standard generation bound.
    pub fn new() -> (f: DuplicateFilter)
        ensures
            f@ == (FilterModel {
                active: Seq::<(int, Seq<char>)>::empty(),
                older: Seq::<(int, Seq<char>)>::empty(),
                bound: DuplicateFilter::GENERATION_BOUND as nat,
            }),
            f@.wf(),
    {
        DuplicateFilter::with_bound(DuplicateFilter::GENERATION_BOUND)
    }

    /// Feeds one identity key through the filter. Returns whether an
    /// update with this key passes (true) or is a suppressed duplicate
    /// (false), and advances the cache by one step.
    pub fn filter(&mut self, key: UpdateKey) -> (emitted: bool)
        ensures
            final(self)@ == old(self)@.step(key@),
            emitted == old(self)@.emits(key@),
    {
        let ghost pre = self@;
        let ghost kv = key@;
        let in_active = if self.b_active {
            holds_key(&self.gen_b, &key)
        } else {
            holds_key(&self.gen_a, &key)
        };
        let in_older = if self.b_active {
            holds_key(&self.gen_a, &key)
        } else {
            holds_key(&self.gen_b, &key)
        };
        let emitted = !(in_active || in_older);
        if !in_active {
            if self.b_active {
                self.gen_b.push(key);
            } else {
                self.gen_a.push(key);
            }
            proof {
                let act = if self.b_active {
                    self.gen_b@
                } else {
                    self.gen_a@
                };
                assert(keys_view(act) =~= pre.active.push(kv));
            }
        }
        let act_len = if self.b_active {
            self.gen_b.len()
        } else {
            self.gen_a.len()
        };
        if act_len > self.bound {
            self.b_active = !self.b_active;
            if self.b_active {
                self.gen_b.clear();
            } else {
                self.gen_a.clear();
            }
            proof {
                assert(keys_view(Seq::<UpdateKey>::empty()) =~= Seq::<(int, Seq<char>)>::empty());
                assert(keys_view(if self.b_active {
                    self.gen_b@
                } else {
                    self.gen_a@
                }) =~= Seq::<(int, Seq<char>)>::empty());
                assert(self@ =~~= pre.step(key@));
            }
        } else {
            proof {
                assert(self@ =~~= pre.step(key@));
            }
        }
        emitted
    }
}

} // verus!
