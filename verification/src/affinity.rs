//! Per-credential affinity: which conversations each credential's receive
//! stream has shown. Entries are only added, never removed; the dispatcher
//! reads the table to keep a conversation's outbound traffic on the
//! credential that last saw it.

use vstd::prelude::*;

verus! {

/// Maps each credential index to the set of conversations observed on
/// that credential's receive stream.
pub struct AffinityTracker {
    rooms: Vec<Vec<i64>>,
}

impl AffinityTracker {
    /// How many credential indices the tracker covers.
    pub closed spec fn spec_len(self) -> nat {
        self.rooms@.len()
    }

    /// Each per-credential list of conversations holds no repeats.
    pub closed spec fn wf(self) -> bool {
        forall|i: int|
            0 <= i < self.rooms@.len() ==> (#[trigger] self.rooms@[i])@.no_duplicates()
    }

    /// Whether credential `i` has seen conversation `chat`.
    pub closed spec fn sees(self, i: int, chat: int) -> bool {
        &&& 0 <= i < self.rooms@.len()
        &&& exists|j: int|
            0 <= j < self.rooms@[i]@.len() && (#[trigger] self.rooms@[i]@[j]) as int == chat
    }

    /// The eligible indices below `n` for conversation `chat`, in
    /// increasing order: those whose credential has seen `chat`.
    pub open spec fn spec_eligible_upto(self, chat: int, n: int) -> Seq<int>
        decreases n,
    {
        if n <= 0 {
            Seq::empty()
        } else if self.sees(n - 1, chat) {
            self.spec_eligible_upto(chat, n - 1).push(n - 1)
        } else {
            self.spec_eligible_upto(chat, n - 1)
        }
    }

    /// All eligible indices for conversation `chat`, in increasing order.
    pub open spec fn spec_eligible(self, chat: int) -> Seq<int> {
        self.spec_eligible_upto(chat, self.spec_len() as int)
    }

    /// Only an index the tracker covers can have seen a conversation.
    pub proof fn lemma_sees_in_range(self, i: int, chat: int)
        requires
            self.sees(i, chat),
        ensures
            0 <= i < self.spec_len(),
    {
    }

    /// An index stands among the eligible ones below `n` exactly when its
    /// credential has seen the conversation.
    pub proof fn lemma_eligible_membership(self, chat: int, n: int)
        requires
            n <= self.spec_len(),
        ensures
            forall|k: int|
                #[trigger] self.spec_eligible_upto(chat, n).contains(k) <==> (k < n && self.sees(
                    k,
                    chat,
                )),
        decreases n,
    {
        if n > 0 {
            self.lemma_eligible_membership(chat, n - 1);
            let prev = self.spec_eligible_upto(chat, n - 1);
            let here = self.spec_eligible_upto(chat, n);
            assert forall|k: int| here.contains(k) implies (k < n && self.sees(k, chat)) by {
                let w = choose|w: int| 0 <= w < here.len() && here[w] == k;
                assert(0 <= w < here.len() && here[w] == k);
                if self.sees(n - 1, chat) {
                    assert(here == prev.push(n - 1));
                    if w < prev.len() {
                        assert(here[w] == prev[w]);
                        assert(prev.contains(k));
                        assert(k < n - 1);
                    } else {
                        assert(here[w] == n - 1);
                        assert(k == n - 1);
                    }
                } else {
                    assert(here == prev);
                    assert(prev.contains(k));
                    assert(k < n - 1);
                }
                assert(k < n);
            }
            assert forall|k: int| (k < n && self.sees(k, chat)) implies here.contains(k) by {
                if k < n - 1 {
                    assert(prev.contains(k));
                    let w = choose|w: int| 0 <= w < prev.len() && prev[w] == k;
                    assert(here[w] == k);
                } else {
                    assert(here[here.len() - 1] == k);
                }
            }
        }
    }

    /// The eligible indices are strictly increasing.
    pub proof fn lemma_eligible_increasing(self, chat: int, n: int)
        requires
            n <= self.spec_len(),
        ensures
            forall|a: int, b: int|
                0 <= a < b < self.spec_eligible_upto(chat, n).len()
                    ==> #[trigger] self.spec_eligible_upto(chat, n)[a]
                    < #[trigger] self.spec_eligible_upto(chat, n)[b],
        decreases n,
    {
        if n > 0 {
            self.lemma_eligible_increasing(chat, n - 1);
            self.lemma_eligible_membership(chat, n - 1);
            let prev = self.spec_eligible_upto(chat, n - 1);
            let here = self.spec_eligible_upto(chat, n);
            assert forall|a: int, b: int|
                0 <= a < b < here.len() implies #[trigger] here[a] < #[trigger] here[b] by {
                if self.sees(n - 1, chat) {
                    assert(here == prev.push(n - 1));
                    assert(a < prev.len());
                    assert(here[a] == prev[a]);
                    assert(prev.contains(prev[a]));
                    assert(prev[a] < n - 1);
                    if b < prev.len() {
                        assert(here[b] == prev[b]);
                        assert(prev[a] < prev[b]);
                    } else {
                        assert(here[b] == n - 1);
                    }
                    assert(here[a] < here[b]);
                } else {
                    assert(here == prev);
                    assert(here[a] < here[b]);
                }
            }
        }
    }

    /// A fresh tracker covering `n` credential indices, none of which has
    /// seen any conversation yet.
    pub fn new(n: usize) -> (t: AffinityTracker)
        ensures
            t.spec_len() == n,
            t.wf(),
            forall|i: int, c: int| !t.sees(i, c),
    {
        let mut rooms: Vec<Vec<i64>> = Vec::new();
        let mut k: usize = 0;
        while k < n
            invariant
                k <= n,
                rooms@.len() == k,
                forall|i: int| 0 <= i < k ==> (#[trigger] rooms@[i])@.len() == 0,
            decreases n - k,
        {
            rooms.push(Vec::new());
            k = k + 1;
        }
        AffinityTracker { rooms }
    }

    /// Whether credential `idx` has seen conversation `chat`.
    pub fn contains(&self, idx: usize, chat: i64) -> (r: bool)
        requires
            idx < self.spec_len(),
        ensures
            r == self.sees(idx as int, chat as int),
    {
        let room = &self.rooms[idx];
        let n = room.len();
        let mut j: usize = 0;
        while j < n
            invariant
                j <= n,
                n == room@.len(),
                room == self.rooms@[idx as int],
                idx < self.rooms@.len(),
                forall|t: int| 0 <= t < j ==> (#[trigger] room@[t]) != chat,
            decreases n - j,
        {
            if room[j] == chat {
                return true;
            }
            j = j + 1;
        }
        false
    }

    /// The indices of all credentials that have seen conversation
    /// `chat`, in increasing order.
    pub fn eligible(&self, chat: i64) -> (r: Vec<usize>)
        ensures
            r@.map_values(|x: usize| x as int) == self.spec_eligible(chat as int),
    {
        let n = self.rooms.len();
        let mut r: Vec<usize> = Vec::new();
        let mut i: usize = 0;
        while i < n
            invariant
                i <= n,
                n == self.spec_len(),
                r@.map_values(|x: usize| x as int) == self.spec_eligible_upto(chat as int, i as int),
            decreases n - i,
        {
            if self.contains(i, chat) {
                r.push(i);
                proof {
                    assert(r@.map_values(|x: usize| x as int) =~= self.spec_eligible_upto(
                        chat as int,
                        i + 1,
                    ));
                }
            } else {
                proof {
                    assert(r@.map_values(|x: usize| x as int) =~= self.spec_eligible_upto(
                        chat as int,
                        i + 1,
                    ));
                }
            }
            i = i + 1;
        }
        proof {
            assert(self.spec_eligible_upto(chat as int, n as int) == self.spec_eligible(
                chat as int,
            ));
        }
        r
    }

    /// Records that credential `idx` saw conversation `chat`: an
    /// idempotent insert that touches no other entry.
    pub fn record(&mut self, idx: usize, chat: i64)
        requires
            idx < old(self).spec_len(),
            old(self).wf(),
        ensures
            final(self).wf(),
            final(self).spec_len() == old(self).spec_len(),
            forall|i: int, c: int|
                final(self).sees(i, c) <==> (old(self).sees(i, c) || (i == idx as int && c
                    == chat as int)),
    {
        if !self.contains(idx, chat) {
            let ghost pre = *self;
            let room = &mut self.rooms[idx];
            room.push(chat);
            proof {
                assert forall|i: int, c: int|
                    self.sees(i, c) <==> (pre.sees(i, c) || (i == idx as int && c
                        == chat as int)) by {
                    let post_room = self.rooms@[idx as int]@;
                    let pre_room = pre.rooms@[idx as int]@;
                    assert(post_room == pre_room.push(chat));
                    if i == idx as int {
                        if c == chat as int {
                            assert(post_room[post_room.len() - 1] as int == c);
                            assert(self.sees(i, c));
                        } else {
                            if self.sees(i, c) {
                                let j = choose|j: int|
                                    0 <= j < post_room.len() && post_room[j] as int == c;
                                assert(j < pre_room.len());
                                assert(pre.sees(i, c));
                            }
                            if pre.sees(i, c) {
                                let j = choose|j: int|
                                    0 <= j < pre_room.len() && pre_room[j] as int == c;
                                assert(post_room[j] as int == c);
                            }
                        }
                    } else {
                        if 0 <= i < self.rooms@.len() {
                            assert(self.rooms@[i] == pre.rooms@[i]);
                        }
                    }
                }
            }
        }
    }
}

} // verus!
