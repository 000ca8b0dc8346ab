//! The Api: the credential registry, the routing of outbound requests
//! across credentials, and the merged inbound update feed.
//!
//! The registry keeps, per logical credential, three connector bindings
//! (low-priority send, high-priority send, receive), each identified here
//! by its credential token; the driver that owns the actual transport
//! objects indexes them the same way. Routing consults the affinity
//! tracker and a priority policy to pick a binding; the update feed tags
//! each inbound update with its source index, records affinity, and runs
//! the duplicate filter.

use vstd::arithmetic::div_mod::lemma_mod_bound;
use vstd::arithmetic::div_mod::lemma_mod_equivalence;
use vstd::arithmetic::div_mod::lemma_small_mod;
use vstd::prelude::*;

use crate::affinity::AffinityTracker;
use crate::dedup::DuplicateFilter;
use crate::dedup::FilterModel;
use crate::update::identity_key;
use crate::update::spec_conversation;
use crate::update::spec_identity_key;
use crate::update::Update;

verus! {

/// The priority class of an outbound request: which send binding it uses
/// and which routing rule picks the credential.
#[derive(Debug, Clone, Copy, PartialEq, Eq)]
pub enum SendType {
    LOWPRIO,
    HIGHPRIO,
    DETERMINISTIC,
}

/// The outcome of racing a request against a delay: whichever resolved
/// first is binding.
pub enum RaceWinner<T> {
    /// The delay fired before the request resolved.
    Timeout,
    /// The request resolved first, with this result.
    Request(T),
}

/// The result a timed-out call reports: empty on timeout, the request's
/// own result otherwise. The loser's eventual outcome is discarded.
pub fn race_result<T>(winner: RaceWinner<T>) -> (r: Option<T>)
    ensures
        r == (match winner {
            RaceWinner::Timeout => None::<T>,
            RaceWinner::Request(v) => Some(v),
        }),
{
    match winner {
        RaceWinner::Timeout => None,
        RaceWinner::Request(v) => Some(v),
    }
}

/// The connector binding an outbound request is to use: a credential
/// index, the priority class of the binding, and the credential's token.
pub struct Route {
    pub index: usize,
    pub high_priority: bool,
    pub token: String,
}

/// A round-robin counter after one more dispatch.
pub open spec fn next_counter(c: nat) -> nat {
    if c == usize::MAX {
        0
    } else {
        c + 1
    }
}

/// Main type for routing requests to the bot API over several
/// credentials and for merging their update feeds.
pub struct Api {
    snd: Vec<String>,
    sndhp: Vec<String>,
    rcv: Vec<String>,
    rr: usize,
    rrhp: usize,
    rooms: AffinityTracker,
}

impl Api {
    /// How many credentials are registered.
    pub closed spec fn spec_len(self) -> nat {
        self.snd@.len()
    }

    /// The tokens of the low-priority send bindings, in credential order.
    pub closed spec fn snd_tokens(self) -> Seq<Seq<char>> {
        self.snd@.map_values(|s: String| s@)
    }

    /// The tokens of the high-priority send bindings.
    pub closed spec fn sndhp_tokens(self) -> Seq<Seq<char>> {
        self.sndhp@.map_values(|s: String| s@)
    }

    /// The tokens of the receive bindings.
    pub closed spec fn rcv_tokens(self) -> Seq<Seq<char>> {
        self.rcv@.map_values(|s: String| s@)
    }

    /// The round-robin counter of the low-priority class.
    pub closed spec fn counter(self) -> nat {
        self.rr as nat
    }

    /// The round-robin counter of the high-priority class.
    pub closed spec fn counter_hp(self) -> nat {
        self.rrhp as nat
    }

    /// The affinity table.
    pub closed spec fn affinity(self) -> AffinityTracker {
        self.rooms
    }

    /// Whether credential `i` has seen conversation `c`.
    pub open spec fn sees(self, i: int, c: int) -> bool {
        self.affinity().sees(i, c)
    }

    /// The eligible credential indices for conversation `chat`, in
    /// increasing order: those whose receive stream has shown `chat`.
    pub open spec fn eligible(self, chat: int) -> Seq<int> {
        self.affinity().spec_eligible(chat)
    }

    /// The three per-credential binding sequences have one common length
    /// and agree, index by index, on the credential's token; the affinity
    /// table covers the same indices.
    pub closed spec fn wf(self) -> bool {
        &&& self.sndhp@.len() == self.snd@.len()
        &&& self.rcv@.len() == self.snd@.len()
        &&& self.rooms.spec_len() == self.snd@.len()
        &&& self.rooms.wf()
        &&& forall|i: int|
            0 <= i < self.snd@.len() ==> #[trigger] self.sndhp@[i]@ == self.snd@[i]@
        &&& forall|i: int|
            0 <= i < self.snd@.len() ==> #[trigger] self.rcv@[i]@ == self.snd@[i]@
    }

    /// The credential index a request for conversation `chat` with class
    /// `st` routes to: the first eligible index for the deterministic
    /// class; the eligible index the bumped round-robin counter picks for
    /// the low- and high-priority classes; index zero where no credential
    /// has seen the conversation.
    pub open spec fn spec_selected_index(self, chat: int, st: SendType) -> int {
        let el = self.eligible(chat);
        match st {
            SendType::DETERMINISTIC => if el.len() > 0 {
                el[0]
            } else {
                0
            },
            SendType::LOWPRIO => if el.len() > 0 {
                el[next_counter(self.counter()) as int % (el.len() as int)]
            } else {
                0
            },
            SendType::HIGHPRIO => if el.len() > 0 {
                el[next_counter(self.counter_hp()) as int % (el.len() as int)]
            } else {
                0
            },
        }
    }

    /// Registers one credential per token. Each credential gets three
    /// bindings — low-priority send, high-priority send, receive — all
    /// carrying that token; index `i` refers to the `i`-th token in every
    /// sequence. Counters start at zero and no affinity is recorded yet.
    pub fn build_multi(tokens: &Vec<String>) -> (api: Api)
        ensures
            api.wf(),
            api.spec_len() == tokens@.len(),
            api.snd_tokens() == tokens@.map_values(|s: String| s@),
            api.sndhp_tokens() == tokens@.map_values(|s: String| s@),
            api.rcv_tokens() == tokens@.map_values(|s: String| s@),
            api.counter() == 0,
            api.counter_hp() == 0,
            forall|i: int, c: int| !api.sees(i, c),
    {
        let n = tokens.len();
        let mut v1: Vec<String> = Vec::new();
        let mut v2: Vec<String> = Vec::new();
        let mut v3: Vec<String> = Vec::new();
        let mut t: usize = 0;
        while t < n
            invariant
                t <= n,
                n == tokens@.len(),
                v1@.len() == t,
                v2@.len() == t,
                v3@.len() == t,
                forall|i: int| 0 <= i < t ==> #[trigger] v1@[i]@ == tokens@[i]@,
                forall|i: int| 0 <= i < t ==> #[trigger] v2@[i]@ == tokens@[i]@,
                forall|i: int| 0 <= i < t ==> #[trigger] v3@[i]@ == tokens@[i]@,
            decreases n - t,
        {
            v1.push(tokens[t].clone());
            v2.push(tokens[t].clone());
            v3.push(tokens[t].clone());
            t = t + 1;
        }
        let api = Api {
            snd: v1,
            sndhp: v3,
            rcv: v2,
            rr: 0,
            rrhp: 0,
            rooms: AffinityTracker::new(n),
        };
        proof {
            assert(api.snd_tokens() =~= tokens@.map_values(|s: String| s@));
            assert(api.sndhp_tokens() =~= tokens@.map_values(|s: String| s@));
            assert(api.rcv_tokens() =~= tokens@.map_values(|s: String| s@));
        }
        api
    }

    /// How many credentials are registered.
    pub fn len(&self) -> (n: usize)
        ensures
            n == self.spec_len(),
    {
        self.snd.len()
    }

    /// Whether credential `idx`'s receive stream has shown conversation
    /// `chat`.
    pub fn has_affinity(&self, idx: usize, chat: i64) -> (r: bool)
        requires
            self.wf(),
            idx < self.spec_len(),
        ensures
            r == self.sees(idx as int, chat as int),
    {
        self.rooms.contains(idx, chat)
    }

    /// Picks the send binding for one outbound request: consults the
    /// affinity table for the conversation's eligible credentials and
    /// applies the class's routing rule, bumping the class's round-robin
    /// counter when it is consulted. The caller then serializes the
    /// request and performs the transport call on the returned binding.
    pub fn send(&mut self, chatid: i64, send_type: SendType) -> (r: Route)
        requires
            old(self).wf(),
            old(self).spec_len() > 0,
        ensures
            final(self).wf(),
            final(self).spec_len() == old(self).spec_len(),
            final(self).snd_tokens() == old(self).snd_tokens(),
            final(self).sndhp_tokens() == old(self).sndhp_tokens(),
            final(self).rcv_tokens() == old(self).rcv_tokens(),
            final(self).affinity() == old(self).affinity(),
            r.index < old(self).spec_len(),
            r.index as int == old(self).spec_selected_index(chatid as int, send_type),
            r.high_priority == (send_type is HIGHPRIO),
            r.token@ == (if send_type is HIGHPRIO {
                old(self).sndhp_tokens()
            } else {
                old(self).snd_tokens()
            })[r.index as int],
            final(self).counter() == (if send_type is LOWPRIO && old(self).eligible(
                chatid as int,
            ).len() > 0 {
                next_counter(old(self).counter())
            } else {
                old(self).counter()
            }),
            final(self).counter_hp() == (if send_type is HIGHPRIO && old(self).eligible(
                chatid as int,
            ).len() > 0 {
                next_counter(old(self).counter_hp())
            } else {
                old(self).counter_hp()
            }),
    {
        let idxs = self.rooms.eligible(chatid);
        let m = idxs.len();
        let ghost el = self.eligible(chatid as int);
        proof {
            assert(el.len() == m);
            self.rooms.lemma_eligible_membership(chatid as int, self.rooms.spec_len() as int);
        }
        let rx: usize = match send_type {
            SendType::DETERMINISTIC => {
                if m > 0 {
                    proof {
                        assert(el.contains(el[0]));
                    }
                    idxs[0]
                } else {
                    0
                }
            },
            SendType::HIGHPRIO => {
                if m > 0 {
                    self.rrhp = if self.rrhp == usize::MAX {
                        0
                    } else {
                        self.rrhp + 1
                    };
                    let k = self.rrhp % m;
                    proof {
                        assert(el.contains(el[k as int]));
                    }
                    idxs[k]
                } else {
                    0
                }
            },
            SendType::LOWPRIO => {
                if m > 0 {
                    self.rr = if self.rr == usize::MAX {
                        0
                    } else {
                        self.rr + 1
                    };
                    let k = self.rr % m;
                    proof {
                        assert(el.contains(el[k as int]));
                    }
                    idxs[k]
                } else {
                    0
                }
            },
        };
        let high = match send_type {
            SendType::HIGHPRIO => true,
            _ => false,
        };
        let token = if high {
            self.sndhp[rx].clone()
        } else {
            self.snd[rx].clone()
        };
        Route { index: rx, high_priority: high, token }
    }

    /// The same routing decision as `send`; the caller races the
    /// transport call against a delay and settles the race with
    /// `race_result`, reporting empty on timeout.
    pub fn send_timeout(&mut self, chatid: i64, send_type: SendType) -> (r: Route)
        requires
            old(self).wf(),
            old(self).spec_len() > 0,
        ensures
            final(self).wf(),
            final(self).spec_len() == old(self).spec_len(),
            final(self).snd_tokens() == old(self).snd_tokens(),
            final(self).sndhp_tokens() == old(self).sndhp_tokens(),
            final(self).rcv_tokens() == old(self).rcv_tokens(),
            final(self).affinity() == old(self).affinity(),
            r.index < old(self).spec_len(),
            r.index as int == old(self).spec_selected_index(chatid as int, send_type),
            r.high_priority == (send_type is HIGHPRIO),
            r.token@ == (if send_type is HIGHPRIO {
                old(self).sndhp_tokens()
            } else {
                old(self).snd_tokens()
            })[r.index as int],
            final(self).counter() == (if send_type is LOWPRIO && old(self).eligible(
                chatid as int,
            ).len() > 0 {
                next_counter(old(self).counter())
            } else {
                old(self).counter()
            }),
            final(self).counter_hp() == (if send_type is HIGHPRIO && old(self).eligible(
                chatid as int,
            ).len() > 0 {
                next_counter(old(self).counter_hp())
            } else {
                old(self).counter_hp()
            }),
    {
        self.send(chatid, send_type)
    }

    /// The token of the receive binding of one credential, addressed by
    /// index: the direct, routing-free path for calls that are not
    /// scoped to a conversation. The caller performs serialization, the
    /// transport call and deserialization on that binding.
    pub fn rcv(&self, idx: usize) -> (token: String)
        requires
            self.wf(),
            idx < self.spec_len(),
        ensures
            token@ == self.rcv_tokens()[idx as int],
    {
        self.rcv[idx].clone()
    }

    /// The same binding choice as `rcv`; the caller races the transport
    /// call against a delay and settles the race with `race_result`.
    pub fn rcv_timeout(&self, idx: usize) -> (token: String)
        requires
            self.wf(),
            idx < self.spec_len(),
        ensures
            token@ == self.rcv_tokens()[idx as int],
    {
        self.rcv(idx)
    }

    /// Begins a fresh merged update feed over all credentials: a new
    /// duplicate filter with empty generations. Each call starts a new
    /// feed; feeds are not restartable.
    pub fn stream(&self) -> (s: UpdatesStream)
        ensures
            s@ == (FilterModel {
                active: Seq::<(int, Seq<char>)>::empty(),
                older: Seq::<(int, Seq<char>)>::empty(),
                bound: DuplicateFilter::GENERATION_BOUND as nat,
            }),
            s@.wf(),
    {
        UpdatesStream { filter: DuplicateFilter::new() }
    }
}

/// For any well-formed `Api` over `N` registered credentials, the three
/// per-credential binding sequences all have length `N`, and index `i`
/// names the same credential token in all three.
pub proof fn lemma_registry_consistent(api: Api)
    requires
        api.wf(),
    ensures
        api.snd_tokens().len() == api.spec_len(),
        api.sndhp_tokens().len() == api.spec_len(),
        api.rcv_tokens().len() == api.spec_len(),
        forall|i: int|
            0 <= i < api.spec_len() ==> #[trigger] api.sndhp_tokens()[i] == api.snd_tokens()[i],
        forall|i: int|
            0 <= i < api.spec_len() ==> #[trigger] api.rcv_tokens()[i] == api.snd_tokens()[i],
{
}

/// Deterministic routing is sticky: while exactly one credential `k` has
/// seen conversation `chat`, the eligible sequence is `[k]` and a
/// deterministic send selects `k`. By `send`'s contract such a send
/// changes neither counters nor affinity, so every repeated deterministic
/// send for `chat` selects `k` again.
pub proof fn lemma_deterministic_affinity(api: Api, chat: int, k: int)
    requires
        api.wf(),
        api.sees(k, chat),
        forall|j: int| j != k ==> !api.sees(j, chat),
    ensures
        api.eligible(chat) == seq![k],
        api.spec_selected_index(chat, SendType::DETERMINISTIC) == k,
{
    let tr = api.affinity();
    let n = tr.spec_len() as int;
    tr.lemma_eligible_membership(chat, n);
    tr.lemma_eligible_increasing(chat, n);
    let el = tr.spec_eligible(chat);
    assert(el == tr.spec_eligible_upto(chat, n));
    tr.lemma_sees_in_range(k, chat);
    assert(tr.spec_eligible_upto(chat, n).contains(k));
    assert(el.contains(k));
    assert forall|w: int| 0 <= w < el.len() implies el[w] == k by {
        assert(tr.spec_eligible_upto(chat, n)[w] == el[w]);
        assert(tr.spec_eligible_upto(chat, n).contains(el[w]));
        assert(api.sees(el[w], chat));
        if el[w] != k {
            assert(!api.sees(el[w], chat));
        }
    }
    let w0 = choose|w: int| 0 <= w < el.len() && el[w] == k;
    assert(el.len() > 0);
    if el.len() > 1 {
        assert(el[0] < el[1]);
        assert(false);
    }
    assert(el =~= seq![k]);
}

/// The eligible position a round-robin dispatch picks: the `t`-th of a
/// run of dispatches that started with counter value `c0` picks position
/// `(c0 + 1 + t) mod m` of the eligible sequence, `m` being its length.
/// (Each dispatch bumps the class's counter by one and indexes with the
/// bumped value, per `send`'s contract.)
pub open spec fn rr_position(c0: nat, t: int, m: int) -> int
    recommends
        m > 0,
{
    (c0 + 1 + t) % m
}

/// The dispatch, within a run of `m`, that reaches eligible position
/// `p`: the inverse of `rr_position`.
pub open spec fn rr_source(c0: nat, p: int, m: int) -> int
    recommends
        m > 0,
{
    (p - 1 - c0) % m
}

/// Round-robin fairness: over a fixed eligible sequence of length
/// `m > 0`, the positions picked by `m` consecutive dispatches of one
/// priority class — counter values `c0 + 1` through `c0 + m`, none of
/// them wrapping — are pairwise distinct and cover every eligible
/// position, so each eligible index is visited exactly once, in
/// increasing counter order.
pub proof fn lemma_round_robin_fairness(c0: nat, m: int)
    requires
        m > 0,
    ensures
        forall|s: int, t: int|
            0 <= s < t < m ==> #[trigger] rr_position(c0, s, m) != #[trigger] rr_position(
                c0,
                t,
                m,
            ),
        forall|t: int| 0 <= t < m ==> 0 <= #[trigger] rr_position(c0, t, m) < m,
        forall|p: int|
            0 <= p < m ==> (0 <= rr_source(c0, p, m) < m && #[trigger] rr_position(
                c0,
                rr_source(c0, p, m),
                m,
            ) == p),
{
    assert forall|s: int, t: int|
        0 <= s < t < m implies #[trigger] rr_position(c0, s, m) != #[trigger] rr_position(
        c0,
        t,
        m,
    ) by {
        let a = c0 + 1 + s;
        let b = c0 + 1 + t;
        let d = t - s;
        lemma_mod_equivalence(b, a, m);
        lemma_small_mod(d as nat, m as nat);
        assert((b - a) % m == d);
    }
    assert forall|t: int| 0 <= t < m implies 0 <= #[trigger] rr_position(c0, t, m) < m by {
        lemma_mod_bound(c0 + 1 + t, m);
    }
    assert forall|p: int|
        0 <= p < m implies (0 <= rr_source(c0, p, m) < m && #[trigger] rr_position(
        c0,
        rr_source(c0, p, m),
        m,
    ) == p) by {
        let x = p - 1 - (c0 as int);
        let t = x % m;
        assert(t == rr_source(c0, p, m));
        lemma_mod_bound(x, m);
        lemma_small_mod(t as nat, m as nat);
        lemma_mod_equivalence(t, x, m);
        assert((t - x) % m == 0);
        assert((c0 + 1 + t) - p == t - x);
        lemma_mod_equivalence(c0 + 1 + t, p, m);
        lemma_small_mod(p as nat, m as nat);
        assert(rr_position(c0, t, m) == p);
    }
}

/// Along a run of low-priority dispatches for one conversation — each
/// state leaving the previous one as `send` does: affinity untouched,
/// the class counter bumped — the counter advances by one per step and
/// the eligible sequence stays fixed.
proof fn lemma_run_state(apis: Seq<Api>, chat: int, m: int, t: int)
    requires
        0 < m,
        apis.len() == m + 1,
        0 <= t <= m,
        apis[0].counter() + m <= usize::MAX,
        forall|u: int| 0 <= u < m ==> #[trigger] apis[u + 1].affinity() == apis[u].affinity(),
        forall|u: int|
            0 <= u < m ==> #[trigger] apis[u + 1].counter() == next_counter(apis[u].counter()),
    ensures
        apis[t].counter() == apis[0].counter() + t,
        apis[t].affinity() == apis[0].affinity(),
    decreases t,
{
    if t > 0 {
        lemma_run_state(apis, chat, m, t - 1);
        let u = t - 1;
        assert(apis[u + 1].counter() == next_counter(apis[u].counter()));
        assert(apis[u + 1].affinity() == apis[u].affinity());
        assert(apis[t] == apis[u + 1]);
    }
}

/// Round-robin fairness over a whole run: take `m` consecutive
/// low-priority dispatches for conversation `chat`, starting from a
/// state whose eligible sequence has length `m` and whose counter does
/// not wrap during the run; each dispatch changes the state as `send`'s
/// contract says (affinity untouched, counter bumped). Then no two
/// dispatches select the same credential, and for every eligible
/// position `p` the dispatch numbered `rr_source` selects exactly the
/// eligible index at `p`: each eligible credential is visited exactly
/// once, in increasing counter order.
pub proof fn lemma_round_robin_run(apis: Seq<Api>, chat: int, m: int)
    requires
        0 < m,
        apis.len() == m + 1,
        apis[0].eligible(chat).len() == m,
        apis[0].counter() + m <= usize::MAX,
        forall|u: int| 0 <= u < m ==> #[trigger] apis[u + 1].affinity() == apis[u].affinity(),
        forall|u: int|
            0 <= u < m ==> #[trigger] apis[u + 1].counter() == next_counter(apis[u].counter()),
    ensures
        forall|s: int, t: int|
            0 <= s < t < m ==> #[trigger] apis[s].spec_selected_index(chat, SendType::LOWPRIO)
                != #[trigger] apis[t].spec_selected_index(chat, SendType::LOWPRIO),
        forall|p: int|
            0 <= p < m ==> {
                let t = rr_source(apis[0].counter(), p, m);
                &&& 0 <= t < m
                &&& apis[t].spec_selected_index(chat, SendType::LOWPRIO) == #[trigger] apis[0].eligible(
                    chat,
                )[p]
            },
{
    let el = apis[0].eligible(chat);
    let c0 = apis[0].counter();
    let tr = apis[0].affinity();
    lemma_round_robin_fairness(c0, m);
    tr.lemma_eligible_increasing(chat, tr.spec_len() as int);
    assert forall|t: int|
        0 <= t < m implies #[trigger] apis[t].spec_selected_index(chat, SendType::LOWPRIO)
        == el[rr_position(c0, t, m)] by {
        lemma_run_state(apis, chat, m, t);
        assert(apis[t].eligible(chat) == el);
        assert(apis[t].counter() == c0 + t);
        assert(next_counter((c0 + t) as nat) == c0 + t + 1);
        assert(next_counter(apis[t].counter()) as int % (m as int) == rr_position(c0, t, m));
    }
    assert forall|s: int, t: int|
        0 <= s < t < m implies #[trigger] apis[s].spec_selected_index(chat, SendType::LOWPRIO)
        != #[trigger] apis[t].spec_selected_index(chat, SendType::LOWPRIO) by {
        let ps = rr_position(c0, s, m);
        let pt = rr_position(c0, t, m);
        assert(ps != pt);
        assert(0 <= ps < m && 0 <= pt < m);
        if ps < pt {
            assert(el[ps] < el[pt]);
        } else {
            assert(el[pt] < el[ps]);
        }
    }
    assert forall|p: int|
        0 <= p < m implies {
        let t = rr_source(c0, p, m);
        &&& 0 <= t < m
        &&& apis[t].spec_selected_index(chat, SendType::LOWPRIO) == #[trigger] el[p]
    } by {
        let t = rr_source(c0, p, m);
        assert(0 <= t < m && rr_position(c0, t, m) == p);
    }
}

/// One merged, duplicate-free update feed: the state the multiplexer
/// keeps between updates. The driver merges the per-credential receive
/// streams fairly and hands each ready update, tagged with its source
/// index, to `process`.
pub struct UpdatesStream {
    filter: DuplicateFilter,
}

impl View for UpdatesStream {
    type V = FilterModel;

    closed spec fn view(&self) -> FilterModel {
        self.filter@
    }
}

impl UpdatesStream {
    /// Passes one inbound update through the multiplexer: records the
    /// update's conversation in the affinity table entry of its source
    /// credential first, then runs the duplicate filter; the update is
    /// delivered exactly when its identity key was not yet cached. The
    /// affinity entry is updated for suppressed updates too.
    pub fn process(&mut self, api: &mut Api, idx: usize, update: Update) -> (r: Option<Update>)
        requires
            old(api).wf(),
            idx < old(api).spec_len(),
        ensures
            final(api).wf(),
            final(api).spec_len() == old(api).spec_len(),
            final(api).snd_tokens() == old(api).snd_tokens(),
            final(api).sndhp_tokens() == old(api).sndhp_tokens(),
            final(api).rcv_tokens() == old(api).rcv_tokens(),
            final(api).counter() == old(api).counter(),
            final(api).counter_hp() == old(api).counter_hp(),
            forall|i: int, c: int|
                final(api).sees(i, c) <==> (old(api).sees(i, c) || (i == idx as int && c
                    == spec_conversation(update))),
            final(api).sees(idx as int, spec_conversation(update)),
            final(self)@ == old(self)@.step(spec_identity_key(update)),
            r == (if old(self)@.emits(spec_identity_key(update)) {
                Some(update)
            } else {
                None::<Update>
            }),
    {
        let key = identity_key(&update);
        api.rooms.record(idx, key.chat);
        let keep = self.filter.filter(key);
        if keep {
            Some(update)
        } else {
            None
        }
    }
}

} // verus!
