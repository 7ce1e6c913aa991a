//! The two pure decisions that the prober makes: when a wire's reachability changes, and which
//! port the bond should be active on.

use vstd::prelude::*;

use crate::model::lookup::place_of;
use crate::model::views;
use crate::text::{str_eq, texts};

verus! {

/// Consecutive observations before `reachable` flips, each way.
pub const HYSTERESIS: u8 = 3;

/// One wire's reachability. It starts reachable: the fabric is presumed to work until
/// consecutive probes say otherwise.
#[derive(Debug, Clone, Copy, PartialEq, Eq, Structural)]
pub struct Hysteresis {
    reachable: bool,
    /// Consecutive observations of the state that this is not in.
    streak: u8,
}

#[verifier::ext_equal]
pub struct HysteresisV {
    pub reachable: bool,
    pub streak: nat,
}

impl View for Hysteresis {
    type V = HysteresisV;

    closed spec fn view(&self) -> HysteresisV {
        HysteresisV { reachable: self.reachable, streak: self.streak as nat }
    }
}

/// The state before any observation.
pub open spec fn presumed() -> HysteresisV {
    HysteresisV { reachable: true, streak: 0 }
}

/// The state after one more observation.
pub open spec fn observed(h: HysteresisV, replied: bool) -> HysteresisV {
    if replied == h.reachable {
        HysteresisV { reachable: h.reachable, streak: 0 }
    } else if h.streak + 1 >= HYSTERESIS {
        HysteresisV { reachable: replied, streak: 0 }
    } else {
        HysteresisV { reachable: h.reachable, streak: h.streak + 1 }
    }
}

/// The state after something was heard: live at once.
pub open spec fn heard(h: HysteresisV) -> HysteresisV {
    HysteresisV { reachable: true, streak: 0 }
}

/// The state from which one more miss calls a reachable wire dead.
pub open spec fn precharged(h: HysteresisV) -> HysteresisV {
    if h.reachable {
        HysteresisV { reachable: true, streak: (HYSTERESIS - 1) as nat }
    } else {
        h
    }
}

/// The state after a whole run of observations.
pub open spec fn observed_all(h: HysteresisV, replies: Seq<bool>) -> HysteresisV
    decreases replies.len(),
{
    if replies.len() == 0 {
        h
    } else {
        observed(observed_all(h, replies.drop_last()), replies.last())
    }
}

impl Default for Hysteresis {
    fn default() -> (r: Hysteresis)
        ensures
            r@ == presumed(),
    {
        Hysteresis { reachable: true, streak: 0 }
    }
}

impl Hysteresis {
    /// Fold in one answer. Returns the state after folding.
    pub fn observe(&mut self, replied: bool) -> (r: bool)
        ensures
            final(self)@ == observed(old(self)@, replied),
            r == final(self)@.reachable,
    {
        if replied == self.reachable {
            self.streak = 0;
        } else if self.streak >= HYSTERESIS - 1 {
            self.reachable = replied;
            self.streak = 0;
        } else {
            self.streak = self.streak + 1;
        }
        self.reachable
    }

    /// Something arrived over the wire: it is live.
    pub fn heard(&mut self)
        ensures
            final(self)@ == heard(old(self)@),
    {
        self.reachable = true;
        self.streak = 0;
    }

    /// The wire is under suspicion: the next miss confirms it.
    pub fn precharge(&mut self)
        ensures
            final(self)@ == precharged(old(self)@),
    {
        if self.reachable {
            self.streak = HYSTERESIS - 1;
        }
    }

    pub fn reachable(&self) -> (r: bool)
        ensures
            r == self@.reachable,
    {
        self.reachable
    }
}

/// Three consecutive equal observations settle the state, whatever it was.
pub proof fn lemma_three_settle(h: HysteresisV, b: bool)
    ensures
        observed(observed(observed(h, b), b), b).reachable == b,
{
}

/// A wire changes its state only when the last three observations all say so.
pub proof fn lemma_flip_needs_three(replies: Seq<bool>, b: bool)
    requires
        observed_all(presumed(), replies).reachable != b,
        observed_all(presumed(), replies.push(b)).reachable == b,
    ensures
        replies.len() >= 2,
        replies[replies.len() - 1] == b,
        replies[replies.len() - 2] == b,
{
    let h = observed_all(presumed(), replies);
    assert(replies.push(b).drop_last() =~= replies);
    lemma_streak(replies);
    assert(h.streak == 2);
    assert(replies[replies.len() - 1] != h.reachable);
    assert(replies[replies.len() - 2] != h.reachable);
}

/// The streak counts the last observations that disagree with the state.
proof fn lemma_streak(replies: Seq<bool>)
    ensures
        ({
            let h = observed_all(presumed(), replies);
            &&& h.streak < HYSTERESIS
            &&& h.streak <= replies.len()
            &&& forall|i: int|
                replies.len() - h.streak <= i < replies.len() ==> #[trigger] replies[i]
                    != h.reachable
        }),
    decreases replies.len(),
{
    if replies.len() > 0 {
        lemma_streak(replies.drop_last());
        let h = observed_all(presumed(), replies);
        let g = observed_all(presumed(), replies.drop_last());
        assert forall|i: int| replies.len() - h.streak <= i < replies.len() implies #[trigger] replies[i]
            != h.reachable by {
            if i < replies.len() - 1 {
                assert(replies.drop_last()[i] == replies[i]);
            }
        }
    }
}

/// One port that the bond could be active on.
#[derive(Debug, PartialEq, Eq)]
pub struct Candidate {
    /// The port netdev.
    pub ifname: String,
    /// The physical wire under it, which the zone's preference order ranks.
    pub wire: String,
    /// Something on the other side answers over it.
    pub reachable: bool,
    /// Its netdev has carrier.
    pub carrier: bool,
    /// The bonding driver itself considers it up.
    pub link_up: bool,
}

pub struct CandidateV {
    pub ifname: Seq<char>,
    pub wire: Seq<char>,
    pub reachable: bool,
    pub carrier: bool,
    pub link_up: bool,
}

impl View for Candidate {
    type V = CandidateV;

    open spec fn view(&self) -> CandidateV {
        CandidateV {
            ifname: self.ifname@,
            wire: self.wire@,
            reachable: self.reachable,
            carrier: self.carrier,
            link_up: self.link_up,
        }
    }
}

/// Can the bond be put here? The kernel refuses a port without carrier, and one that the driver
/// still holds below up.
pub open spec fn usable(c: CandidateV) -> bool {
    c.reachable && c.carrier && c.link_up
}

impl Candidate {
    pub fn usable(&self) -> (r: bool)
        ensures
            r == usable(self@),
    {
        self.reachable && self.carrier && self.link_up
    }
}

/// Where a wire stands in the preference order; behind all others where it does not.
pub open spec fn rank(prefs: Seq<Seq<char>>, wire: Seq<char>) -> int {
    place_of(prefs, wire, 0)
}

/// The best of the first `n` candidates: usable, of the best rank, and the first of those.
pub open spec fn best(c: Seq<CandidateV>, prefs: Seq<Seq<char>>, n: int) -> Option<int>
    decreases n,
{
    if n <= 0 {
        None
    } else {
        let b = best(c, prefs, n - 1);
        if usable(c[n - 1]) && (b is None || rank(prefs, c[n - 1].wire) < rank(
            prefs,
            c[b->0].wire,
        )) {
            Some(n - 1)
        } else {
            b
        }
    }
}

/// The first candidate from `i` on of this name, or the number of candidates.
pub open spec fn named(c: Seq<CandidateV>, ifname: Seq<char>, i: int) -> int
    decreases c.len() - i,
{
    if i >= c.len() {
        c.len() as int
    } else if c[i].ifname == ifname {
        i
    } else {
        named(c, ifname, i + 1)
    }
}

/// The candidate that the bond is active on, if it is one.
pub open spec fn active_candidate(active: Option<Seq<char>>, c: Seq<CandidateV>) -> Option<int> {
    match active {
        Some(a) => if named(c, a, 0) < c.len() {
            Some(named(c, a, 0))
        } else {
            None
        },
        None => None,
    }
}

/// Which candidate the bond should move to, or `None` to leave it alone: with nothing usable
/// the kernel's own choice stands, and an active port that is usable and as preferred as any
/// other stays.
pub open spec fn decision(
    active: Option<Seq<char>>,
    c: Seq<CandidateV>,
    prefs: Seq<Seq<char>>,
) -> Option<int> {
    match best(c, prefs, c.len() as int) {
        None => None,
        Some(b) => match active_candidate(active, c) {
            Some(k) => if usable(c[k]) && rank(prefs, c[k].wire) <= rank(prefs, c[b].wire) {
                None
            } else {
                Some(b)
            },
            None => Some(b),
        },
    }
}

/// What an optional text is.
pub open spec fn opt_text(s: Option<&str>) -> Option<Seq<char>> {
    match s {
        Some(t) => Some(t@),
        None => None,
    }
}

fn rank_of(prefs: &Vec<String>, wire: &str) -> (r: usize)
    ensures
        r as int == rank(texts(prefs@), wire@),
        r <= prefs@.len(),
{
    let mut i: usize = 0;
    while i < prefs.len()
        invariant
            i <= prefs@.len(),
            place_of(texts(prefs@), wire@, 0) == place_of(texts(prefs@), wire@, i as int),
        decreases prefs@.len() - i,
    {
        if str_eq(prefs[i].as_str(), wire) {
            return i;
        }
        i = i + 1;
    }
    i
}

fn best_of(c: &Vec<Candidate>, prefs: &Vec<String>) -> (r: Option<usize>)
    ensures
        match r {
            Some(i) => best(views(c@), texts(prefs@), c@.len() as int) == Some(i as int) && i < c@.len(),
            None => best(views(c@), texts(prefs@), c@.len() as int) is None,
        },
{
    let mut b: Option<usize> = None;
    let mut i: usize = 0;
    while i < c.len()
        invariant
            i <= c@.len(),
            match b {
                Some(k) => best(views(c@), texts(prefs@), i as int) == Some(k as int) && k < i,
                None => best(views(c@), texts(prefs@), i as int) is None,
            },
        decreases c@.len() - i,
    {
        if c[i].usable() {
            match b {
                None => {
                    b = Some(i);
                },
                Some(k) => {
                    if rank_of(prefs, c[i].wire.as_str()) < rank_of(prefs, c[k].wire.as_str()) {
                        b = Some(i);
                    }
                },
            }
        }
        i = i + 1;
    }
    b
}

fn named_of(c: &Vec<Candidate>, ifname: &str) -> (r: usize)
    ensures
        r as int == named(views(c@), ifname@, 0),
        r <= c@.len(),
{
    let mut i: usize = 0;
    while i < c.len()
        invariant
            i <= c@.len(),
            named(views(c@), ifname@, 0) == named(views(c@), ifname@, i as int),
        decreases c@.len() - i,
    {
        if str_eq(c[i].ifname.as_str(), ifname) {
            return i;
        }
        i = i + 1;
    }
    i
}

/// Which candidate the bond is active on, if it is one.
pub fn active_place(active: Option<&str>, c: &Vec<Candidate>) -> (r: Option<usize>)
    ensures
        match r {
            Some(i) => active_candidate(opt_text(active), views(c@)) == Some(i as int) && i < c@.len(),
            None => active_candidate(opt_text(active), views(c@)) is None,
        },
{
    match active {
        Some(a) => {
            let k = named_of(c, a);
            if k < c.len() {
                Some(k)
            } else {
                None
            }
        },
        None => None,
    }
}

/// The place of the candidate that the bond should move to.
pub fn decide_place(active: Option<&str>, c: &Vec<Candidate>, prefs: &Vec<String>) -> (r: Option<
    usize,
>)
    ensures
        match r {
            Some(i) => decision(opt_text(active), views(c@), texts(prefs@)) == Some(i as int) && i
                < c@.len(),
            None => decision(opt_text(active), views(c@), texts(prefs@)) is None,
        },
{
    match best_of(c, prefs) {
        None => None,
        Some(b) => match active_place(active, c) {
            Some(k) => if c[k].usable() && rank_of(prefs, c[k].wire.as_str()) <= rank_of(
                prefs,
                c[b].wire.as_str(),
            ) {
                None
            } else {
                Some(b)
            },
            None => Some(b),
        },
    }
}

/// Which port the bond should be active on, or `None` to leave it alone.
pub fn decide(active: Option<&str>, cands: &Vec<Candidate>, prefs: &Vec<String>) -> (r: Option<
    String,
>)
    ensures
        match r {
            Some(s) => decision(opt_text(active), views(cands@), texts(prefs@)) is Some && s
                == cands@[decision(opt_text(active), views(cands@), texts(prefs@))->0].ifname,
            None => decision(opt_text(active), views(cands@), texts(prefs@)) is None,
        },
{
    match decide_place(active, cands, prefs) {
        Some(i) => Some(cands[i].ifname.clone()),
        None => None,
    }
}

/// The best-ranked of the first `n` candidates that has no carrier and outranks `limit`.
pub open spec fn darkest(
    c: Seq<CandidateV>,
    prefs: Seq<Seq<char>>,
    limit: int,
    n: int,
) -> Option<int>
    decreases n,
{
    if n <= 0 {
        None
    } else {
        let b = darkest(c, prefs, limit, n - 1);
        if !c[n - 1].carrier && rank(prefs, c[n - 1].wire) < limit && (b is None || rank(
            prefs,
            c[n - 1].wire,
        ) < rank(prefs, c[b->0].wire)) {
            Some(n - 1)
        } else {
            b
        }
    }
}

/// The wire that the bond would be expected on, were it not without carrier.
pub open spec fn skipped(
    active: Option<Seq<char>>,
    c: Seq<CandidateV>,
    prefs: Seq<Seq<char>>,
) -> Option<int> {
    match active_candidate(active, c) {
        Some(k) => darkest(c, prefs, rank(prefs, c[k].wire), c.len() as int),
        None => None,
    }
}

/// The best-preferred wire without carrier that outranks the one the bond is on, if there is
/// one.
pub fn skipped_for_carrier(active: Option<&str>, c: &Vec<Candidate>, prefs: &Vec<String>) -> (r:
    Option<usize>)
    ensures
        match r {
            Some(i) => skipped(opt_text(active), views(c@), texts(prefs@)) == Some(i as int) && i
                < c@.len(),
            None => skipped(opt_text(active), views(c@), texts(prefs@)) is None,
        },
{
    match active_place(active, c) {
        None => None,
        Some(k) => {
            let limit = rank_of(prefs, c[k].wire.as_str());
            let mut b: Option<usize> = None;
            let mut i: usize = 0;
            while i < c.len()
                invariant
                    i <= c@.len(),
                    match b {
                        Some(j) => darkest(views(c@), texts(prefs@), limit as int, i as int) == Some(
                            j as int,
                        ) && j < i,
                        None => darkest(views(c@), texts(prefs@), limit as int, i as int) is None,
                    },
                decreases c@.len() - i,
            {
                if !c[i].carrier {
                    let r = rank_of(prefs, c[i].wire.as_str());
                    if r < limit {
                        match b {
                            None => {
                                b = Some(i);
                            },
                            Some(j) => {
                                if r < rank_of(prefs, c[j].wire.as_str()) {
                                    b = Some(i);
                                }
                            },
                        }
                    }
                }
                i = i + 1;
            }
            b
        },
    }
}

/// The best candidate is usable, none that is usable outranks it, and of equals it is the first.
pub proof fn lemma_best(c: Seq<CandidateV>, prefs: Seq<Seq<char>>, n: int)
    requires
        0 <= n <= c.len(),
    ensures
        match best(c, prefs, n) {
            Some(b) => {
                &&& 0 <= b < n
                &&& usable(c[b])
                &&& forall|i: int|
                    0 <= i < n && usable(#[trigger] c[i]) ==> rank(prefs, c[b].wire) <= rank(
                        prefs,
                        c[i].wire,
                    ) && (rank(prefs, c[b].wire) == rank(prefs, c[i].wire) ==> b <= i)
            },
            None => forall|i: int| 0 <= i < n ==> !usable(#[trigger] c[i]),
        },
    decreases n,
{
    if n > 0 {
        lemma_best(c, prefs, n - 1);
    }
}

/// With nothing usable the bond is left alone.
pub proof fn lemma_nothing_usable_never_moves(
    active: Option<Seq<char>>,
    c: Seq<CandidateV>,
    prefs: Seq<Seq<char>>,
)
    requires
        forall|i: int| 0 <= i < c.len() ==> !usable(#[trigger] c[i]),
    ensures
        decision(active, c, prefs) is None,
{
    lemma_best(c, prefs, c.len() as int);
}

/// Where the bond is moved, it is moved to a usable port that no usable port outranks.
pub proof fn lemma_target_is_best(
    active: Option<Seq<char>>,
    c: Seq<CandidateV>,
    prefs: Seq<Seq<char>>,
)
    requires
        decision(active, c, prefs) is Some,
    ensures
        0 <= decision(active, c, prefs)->0 < c.len(),
        usable(c[decision(active, c, prefs)->0]),
        forall|i: int|
            0 <= i < c.len() && usable(#[trigger] c[i]) ==> rank(
                prefs,
                c[decision(active, c, prefs)->0].wire,
            ) <= rank(prefs, c[i].wire),
{
    lemma_best(c, prefs, c.len() as int);
}

proof fn lemma_named(c: Seq<CandidateV>, ifname: Seq<char>, i: int)
    requires
        0 <= i <= c.len(),
    ensures
        i <= named(c, ifname, i) <= c.len(),
        named(c, ifname, i) < c.len() ==> c[named(c, ifname, i)].ifname == ifname,
        forall|j: int| i <= j < named(c, ifname, i) ==> (#[trigger] c[j]).ifname != ifname,
    decreases c.len() - i,
{
    if i < c.len() && c[i].ifname != ifname {
        lemma_named(c, ifname, i + 1);
    }
}

/// A decision does not flap: with the bond where it was decided to be, and nothing else changed,
/// it stays.
pub proof fn lemma_decision_is_stable(
    active: Option<Seq<char>>,
    c: Seq<CandidateV>,
    prefs: Seq<Seq<char>>,
)
    requires
        decision(active, c, prefs) is Some,
        forall|i: int, j: int|
            0 <= i < j < c.len() ==> (#[trigger] c[i]).ifname != (#[trigger] c[j]).ifname,
    ensures
        decision(Some(c[decision(active, c, prefs)->0].ifname), c, prefs) is None,
{
    let b = decision(active, c, prefs)->0;
    lemma_best(c, prefs, c.len() as int);
    lemma_named(c, c[b].ifname, 0);
}

} // verus!
