//! The engine's northbound: which provider owns a change, and the two phases of a commit.

use vstd::prelude::*;

use crate::error::{is_fatal, Error};
use crate::json::read::json_parsed;
use crate::json::{Json, JsonV};
use crate::text::{cat2, cat3, cat4, dec, dec_u64, rfind, split_at_last};
use crate::textmap::TextMap;

verus! {

// ---- errors ----

/// An error of the YANG library: its message and the path it is about, where it has them.
#[derive(Debug, PartialEq, Eq)]
pub struct YangError {
    pub msg: Option<String>,
    pub code: u32,
    pub path: Option<String>,
}

pub open spec fn yang_error_text(e: YangError) -> Seq<char> {
    let said = match e.msg {
        Some(m) => m@,
        None => "libyang error "@ + dec(e.code as nat),
    };
    match e.path {
        Some(p) => said + " (path "@ + p@ + ")"@,
        None => said,
    }
}

pub fn yang_err(e: &YangError) -> (r: String)
    ensures
        r@ == yang_error_text(*e),
{
    let said = match &e.msg {
        Some(m) => m.clone(),
        None => cat2("libyang error ", dec_u64(e.code as u64).as_str()),
    };
    match &e.path {
        Some(p) => cat4(said.as_str(), " (path ", p.as_str(), ")"),
        None => said,
    }
}

/// An error of a provider. `shown` is the provider's own words.
#[derive(Debug, PartialEq, Eq)]
pub enum NbError {
    Validate { message: String, path: String },
    Parse { path: String, shown: String },
    Prepare { message: String, path: String },
    Plain { shown: String },
    Yang { shown: String, error: YangError },
}

pub open spec fn nb_error_text(e: NbError) -> Seq<char> {
    match e {
        NbError::Validate { message, path } => message@ + " at "@ + path@,
        NbError::Parse { path, shown } => "cannot parse change at "@ + path@ + ": "@ + shown@,
        NbError::Prepare { message, path } => message@ + " at "@ + path@,
        NbError::Plain { shown } => shown@,
        NbError::Yang { shown, error } => shown@ + ": "@ + yang_error_text(error),
    }
}

/// The path and the detail of a provider's error, spelled out.
pub fn nb_err(e: &NbError) -> (r: String)
    ensures
        r@ == nb_error_text(*e),
{
    match e {
        NbError::Validate { message, path } => cat3(message.as_str(), " at ", path.as_str()),
        NbError::Parse { path, shown } => cat4(
            "cannot parse change at ",
            path.as_str(),
            ": ",
            shown.as_str(),
        ),
        NbError::Prepare { message, path } => cat3(message.as_str(), " at ", path.as_str()),
        NbError::Plain { shown } => shown.clone(),
        NbError::Yang { shown, error } => cat3(shown.as_str(), ": ", yang_err(error).as_str()),
    }
}

/// The refusal of a candidate tree.
pub fn rejected_tree(e: &YangError) -> (r: Error)
    ensures
        is_fatal(r, "engine: configuration tree rejected: "@ + yang_error_text(*e)),
{
    Error::Fatal(cat2("engine: configuration tree rejected: ", yang_err(e).as_str()))
}

/// The refusal of a candidate that does not validate.
pub fn invalid_configuration(e: &NbError) -> (r: Error)
    ensures
        is_fatal(r, "engine: configuration validation failed: "@ + nb_error_text(*e)),
{
    Error::Fatal(cat2("engine: configuration validation failed: ", nb_err(e).as_str()))
}

// ---- who owns a path ----

/// The provider of the closest registered ancestor of a path, the path itself included.
pub open spec fn owner(registered: TextMap<usize>, path: Seq<char>) -> Option<usize>
    decreases path.len(),
{
    let k = rfind(path, '/', path.len() as int);
    if registered.has(path) {
        Some(registered.value_of(path))
    } else if 0 <= k < path.len() {
        owner(registered, path.subrange(0, k))
    } else {
        None
    }
}

proof fn lemma_rfind_below(s: Seq<char>, c: char, j: int)
    requires
        0 <= j,
    ensures
        -1 <= rfind(s, c, j) < j || (j == 0 && rfind(s, c, j) == -1),
    decreases j,
{
    if j > 0 {
        lemma_rfind_below(s, c, j - 1);
    }
}

fn owner_of(registered: &TextMap<usize>, path: &str) -> (r: Option<usize>)
    requires
        registered.wf(),
    ensures
        r == owner(*registered, path@),
{
    let mut at = String::from_str(path);
    loop
        invariant
            registered.wf(),
            owner(*registered, path@) == owner(*registered, at@),
        decreases at@.len(),
    {
        if let Some(i) = registered.get(at.as_str()) {
            return Some(*i);
        }
        proof {
            lemma_rfind_below(at@, '/', at@.len() as int);
        }
        match split_at_last(at.as_str(), '/') {
            Some(p) => {
                at = p.0;
            },
            None => {
                return None;
            },
        }
    }
}

/// Is this one of the first `n` paths?
pub open spec fn is_path(paths: Seq<String>, n: int, x: Seq<char>) -> bool {
    exists|i: int| 0 <= i < n && (#[trigger] paths[i])@ == x
}

/// Map every configuration path to the provider that owns its closest registered ancestor. A
/// path without one is absent.
pub fn resolve_provider_paths(paths: &Vec<String>, registered: &TextMap<usize>) -> (r: TextMap<usize>)
    requires
        registered.wf(),
    ensures
        r.wf(),
        forall|x: Seq<char>| #[trigger]
            r.has(x) <==> is_path(paths@, paths@.len() as int, x) && owner(*registered, x) is Some,
        forall|x: Seq<char>|
            r.has(x) ==> owner(*registered, x) == Some(#[trigger] r.value_of(x)),
{
    let mut out: TextMap<usize> = TextMap::new();
    let mut i: usize = 0;
    while i < paths.len()
        invariant
            i <= paths@.len(),
            registered.wf(),
            out.wf(),
            forall|x: Seq<char>| #[trigger]
                out.has(x) <==> is_path(paths@, i as int, x) && owner(*registered, x) is Some,
            forall|x: Seq<char>|
                out.has(x) ==> owner(*registered, x) == Some(#[trigger] out.value_of(x)),
        decreases paths@.len() - i,
    {
        let ghost before = out;
        if let Some(k) = owner_of(registered, paths[i].as_str()) {
            out.insert(paths[i].clone(), k);
        }
        proof {
            let p = paths@[i as int]@;
            assert forall|x: Seq<char>| #[trigger]
                out.has(x) <==> is_path(paths@, i + 1, x) && owner(*registered, x) is Some by {
                if is_path(paths@, i as int, x) {
                    let j = choose|j: int| 0 <= j < i && (#[trigger] paths@[j])@ == x;
                    assert(paths@[j]@ == x);
                }
                if x == p {
                    assert(paths@[i as int]@ == x);
                } else {
                    assert(out.has(x) == before.has(x));
                }
            }
            assert forall|x: Seq<char>| out.has(x) implies owner(*registered, x) == Some(
                #[trigger] out.value_of(x),
            ) by {
                if x != p {
                    assert(out.has(x) == before.has(x));
                    assert(before.value_of(x) == out.value_of(x));
                } else {
                    assert(before.has(x) ==> owner(*registered, x) == Some(before.value_of(x)));
                }
            }
        }
        i = i + 1;
    }
    out
}

// ---- a change ----

/// What is done to a node.
#[derive(Debug, Clone, Copy, PartialEq, Eq, Structural)]
pub enum ChangeOp {
    Create,
    Modify,
    Delete,
}

/// One change: the schema path that decides who owns it, what is done there, and the data path
/// it is at.
#[derive(Debug, Clone, PartialEq, Eq)]
pub struct ConfigChange {
    pub path: String,
    pub op: ChangeOp,
    pub data_path: String,
}

pub struct ConfigChangeV {
    pub path: Seq<char>,
    pub op: ChangeOp,
    pub data_path: Seq<char>,
}

impl View for ConfigChange {
    type V = ConfigChangeV;

    open spec fn view(&self) -> ConfigChangeV {
        ConfigChangeV { path: self.path@, op: self.op, data_path: self.data_path@ }
    }
}

pub open spec fn changes_view(v: Seq<ConfigChange>) -> Seq<ConfigChangeV> {
    Seq::new(v.len(), |i: int| v[i]@)
}

/// The first change from `i` on that nobody owns, or their number.
pub open spec fn unmapped_from(
    changes: Seq<ConfigChangeV>,
    paths: TextMap<usize>,
    i: int,
) -> int
    decreases changes.len() - i,
{
    if i >= changes.len() {
        changes.len() as int
    } else if !paths.has(changes[i].path) {
        i
    } else {
        unmapped_from(changes, paths, i + 1)
    }
}

/// The data path of the first change that nobody owns.
pub open spec fn unmapped(changes: Seq<ConfigChangeV>, paths: TextMap<usize>) -> Option<Seq<char>> {
    let k = unmapped_from(changes, paths, 0);
    if k < changes.len() {
        Some(changes[k].data_path)
    } else {
        None
    }
}

/// The first change that no provider owns.
pub fn first_unmapped<'a>(
    changes: &'a Vec<ConfigChange>,
    provider_paths: &TextMap<usize>,
) -> (r: Option<&'a str>)
    requires
        provider_paths.wf(),
    ensures
        match r {
            Some(p) => unmapped(changes_view(changes@), *provider_paths) == Some(p@),
            None => unmapped(changes_view(changes@), *provider_paths) is None,
        },
{
    let ghost c = changes_view(changes@);
    let mut i: usize = 0;
    while i < changes.len()
        invariant
            i <= changes@.len(),
            provider_paths.wf(),
            c == changes_view(changes@),
            unmapped_from(c, *provider_paths, 0) == unmapped_from(c, *provider_paths, i as int),
        decreases changes@.len() - i,
    {
        assert(c[i as int] == changes@[i as int]@);
        if provider_paths.find(changes[i].path.as_str()).is_none() {
            return Some(changes[i].data_path.as_str());
        }
        i = i + 1;
    }
    None
}

/// Where nothing changed there is nothing to commit; a change that nobody owns refuses the whole
/// commit.
pub fn to_commit(
    nothing_differs: bool,
    changes: &Vec<ConfigChange>,
    provider_paths: &TextMap<usize>,
) -> (r: Result<bool, Error>)
    requires
        provider_paths.wf(),
    ensures
        match r {
            Ok(go) => go == !nothing_differs && (go ==> unmapped(
                changes_view(changes@),
                *provider_paths,
            ) is None),
            Err(e) => !nothing_differs && unmapped(changes_view(changes@), *provider_paths) is Some
                && is_fatal(
                e,
                "engine: no provider owns configuration path "@ + unmapped(
                    changes_view(changes@),
                    *provider_paths,
                )->0
                    + " (holo-yang module set and started providers disagree; refusing to drop it silently)"@,
            ),
        },
{
    if nothing_differs {
        return Ok(false);
    }
    match first_unmapped(changes, provider_paths) {
        Some(path) => Err(
            Error::Fatal(
                cat3(
                    "engine: no provider owns configuration path ",
                    path,
                    " (holo-yang module set and started providers disagree; refusing to drop it silently)",
                ),
            ),
        ),
        None => Ok(true),
    }
}

/// The changes among the first `n` that belong to a provider, in their order.
pub open spec fn batch(
    changes: Seq<ConfigChangeV>,
    paths: TextMap<usize>,
    provider: int,
    n: int,
) -> Seq<ConfigChangeV>
    decreases n,
{
    if n <= 0 {
        seq![]
    } else {
        let b = batch(changes, paths, provider, n - 1);
        let c = changes[n - 1];
        if paths.has(c.path) && paths.value_of(c.path) == provider {
            b.push(c)
        } else {
            b
        }
    }
}

/// The changes, parted by the provider that owns them.
pub fn batches(
    changes: &Vec<ConfigChange>,
    provider_paths: &TextMap<usize>,
    providers: usize,
) -> (r: Vec<Vec<ConfigChange>>)
    requires
        provider_paths.wf(),
    ensures
        r@.len() == providers,
        forall|p: int|
            0 <= p < providers ==> changes_view((#[trigger] r@[p])@) == batch(
                changes_view(changes@),
                *provider_paths,
                p,
                changes@.len() as int,
            ),
{
    let ghost c = changes_view(changes@);
    let mut out: Vec<Vec<ConfigChange>> = Vec::new();
    let mut k: usize = 0;
    while k < providers
        invariant
            k <= providers,
            out@.len() == k,
            forall|p: int| 0 <= p < k ==> (#[trigger] out@[p])@.len() == 0,
        decreases providers - k,
    {
        out.push(Vec::new());
        k = k + 1;
    }
    proof {
        assert forall|p: int| 0 <= p < providers implies changes_view((#[trigger] out@[p])@)
            == batch(c, *provider_paths, p, 0) by {
            assert(changes_view(out@[p]@) =~= seq![]);
        }
    }
    let mut i: usize = 0;
    while i < changes.len()
        invariant
            i <= changes@.len(),
            provider_paths.wf(),
            c == changes_view(changes@),
            out@.len() == providers,
            forall|p: int|
                0 <= p < providers ==> changes_view((#[trigger] out@[p])@) == batch(
                    c,
                    *provider_paths,
                    p,
                    i as int,
                ),
        decreases changes@.len() - i,
    {
        let ghost o = out@;
        assert(c[i as int] == changes@[i as int]@);
        if let Some(index) = provider_paths.get(changes[i].path.as_str()) {
            let index: usize = *index;
            if index < out.len() {
                let x = ConfigChange {
                    path: changes[i].path.clone(),
                    op: changes[i].op,
                    data_path: changes[i].data_path.clone(),
                };
                let ghost was = out@[index as int]@;
                out[index].push(x);
                assert(changes_view(was.push(x)) =~= changes_view(was).push(x@));
                assert(out@[index as int]@ == was.push(x));
            }
        }
        proof {
            assert forall|p: int| 0 <= p < providers implies changes_view((#[trigger] out@[p])@)
                == batch(c, *provider_paths, p, i + 1) by {
                assert(changes_view(o[p]@) == batch(c, *provider_paths, p, i as int));
                let x = c[i as int];
                if provider_paths.has(x.path) && provider_paths.value_of(x.path) == p {
                    assert(changes_view(out@[p]@) == changes_view(o[p]@).push(x));
                } else {
                    assert(out@[p] == o[p]);
                }
            }
        }
        i = i + 1;
    }
    out
}

// ---- the two phases ----

#[derive(Debug, Clone, Copy, PartialEq, Eq, Structural)]
pub enum CommitPhase {
    Prepare,
    Apply,
    Abort,
}

pub open spec fn phase_word(p: CommitPhase) -> Seq<char> {
    match p {
        CommitPhase::Prepare => "Prepare"@,
        CommitPhase::Apply => "Apply"@,
        CommitPhase::Abort => "Abort"@,
    }
}

impl CommitPhase {
    pub fn word(self) -> (r: &'static str)
        ensures
            r@ == phase_word(self),
    {
        match self {
            CommitPhase::Prepare => "Prepare",
            CommitPhase::Apply => "Apply",
            CommitPhase::Abort => "Abort",
        }
    }
}

/// What came of asking a provider.
#[derive(Debug, PartialEq, Eq)]
pub enum Reply {
    Accepted,
    /// The request could not be handed over.
    Exited,
    /// No answer will come.
    Dropped,
    Rejected(NbError),
}

/// Why a commit fails with this reply.
pub open spec fn reply_error(phase: CommitPhase, r: Reply) -> Seq<char> {
    match r {
        Reply::Accepted => seq![],
        Reply::Exited => "engine: a provider exited during commit"@,
        Reply::Dropped => "engine: a provider dropped its commit response"@,
        Reply::Rejected(e) => "engine: commit "@ + phase_word(phase) + " rejected: "@
            + nb_error_text(e),
    }
}

fn reply_error_of(phase: CommitPhase, r: &Reply) -> (t: String)
    requires
        *r !is Accepted,
    ensures
        t@ == reply_error(phase, *r),
{
    match r {
        Reply::Accepted => String::new(),
        Reply::Exited => String::from_str("engine: a provider exited during commit"),
        Reply::Dropped => String::from_str("engine: a provider dropped its commit response"),
        Reply::Rejected(e) => cat4(
            "engine: commit ",
            phase.word(),
            " rejected: ",
            nb_err(e).as_str(),
        ),
    }
}

/// How far a commit has come. The provider to ask next is `next`; `why` is the error that an
/// abort goes back to.
#[derive(Debug, PartialEq, Eq)]
pub enum Commit {
    Asking { phase: CommitPhase, next: usize, providers: usize, why: String },
    /// The candidate is what runs now.
    Applied,
    Failed { why: String },
}

pub enum CommitV {
    Asking { phase: CommitPhase, next: int, providers: int, why: Seq<char> },
    Applied,
    Failed { why: Seq<char> },
}

impl View for Commit {
    type V = CommitV;

    open spec fn view(&self) -> CommitV {
        match self {
            Commit::Asking { phase, next, providers, why } => CommitV::Asking {
                phase: *phase,
                next: *next as int,
                providers: *providers as int,
                why: why@,
            },
            Commit::Applied => CommitV::Applied,
            Commit::Failed { why } => CommitV::Failed { why: why@ },
        }
    }
}

/// Where a commit goes once `next` providers have accepted a phase.
pub open spec fn asking(phase: CommitPhase, next: int, providers: int, why: Seq<char>) -> CommitV {
    if next < providers {
        CommitV::Asking { phase, next, providers, why }
    } else if phase == CommitPhase::Prepare && providers > 0 {
        CommitV::Asking { phase: CommitPhase::Apply, next: 0, providers, why }
    } else if phase == CommitPhase::Abort {
        CommitV::Failed { why }
    } else {
        CommitV::Applied
    }
}

/// A commit that nobody has been asked about yet.
pub open spec fn commit_start(providers: int) -> CommitV {
    asking(CommitPhase::Prepare, 0, providers, seq![])
}

/// One reply further. A provider that refuses to prepare has everybody abort, and the commit
/// fails with that refusal; one that refuses to apply fails the commit at once.
pub open spec fn commit_step(c: CommitV, r: Reply) -> CommitV {
    match c {
        CommitV::Asking { phase, next, providers, why } => if r is Accepted {
            asking(phase, next + 1, providers, why)
        } else {
            match phase {
                CommitPhase::Prepare => CommitV::Asking {
                    phase: CommitPhase::Abort,
                    next: 0,
                    providers,
                    why: reply_error(phase, r),
                },
                CommitPhase::Apply => CommitV::Failed { why: reply_error(phase, r) },
                CommitPhase::Abort => CommitV::Failed { why },
            }
        },
        _ => c,
    }
}

impl Commit {
    /// Is the next provider one that there is?
    pub open spec fn wf(self) -> bool {
        self matches Commit::Asking { next, providers, .. } ==> next < providers
    }

    fn asking(phase: CommitPhase, next: usize, providers: usize, why: String) -> (r: Commit)
        ensures
            r@ == asking(phase, next as int, providers as int, why@),
            r.wf(),
    {
        if next < providers {
            return Commit::Asking { phase, next, providers, why };
        }
        match phase {
            CommitPhase::Prepare => if providers > 0 {
                Commit::Asking { phase: CommitPhase::Apply, next: 0, providers, why }
            } else {
                Commit::Applied
            },
            CommitPhase::Apply => Commit::Applied,
            CommitPhase::Abort => Commit::Failed { why },
        }
    }

    pub fn start(providers: usize) -> (r: Commit)
        ensures
            r@ == commit_start(providers as int),
            r.wf(),
    {
        let none = String::new();
        assert(none@ =~= seq![]);
        Self::asking(CommitPhase::Prepare, 0, providers, none)
    }

    /// Take the reply of the provider that was asked.
    pub fn step(self, reply: &Reply) -> (r: Commit)
        requires
            self.wf(),
        ensures
            r@ == commit_step(self@, *reply),
            r.wf(),
    {
        match self {
            Commit::Asking { phase, next, providers, why } => {
                if let Reply::Accepted = reply {
                    return Self::asking(phase, next + 1, providers, why);
                }
                match phase {
                    CommitPhase::Prepare => Commit::Asking {
                        phase: CommitPhase::Abort,
                        next: 0,
                        providers,
                        why: reply_error_of(phase, reply),
                    },
                    CommitPhase::Apply => Commit::Failed { why: reply_error_of(phase, reply) },
                    CommitPhase::Abort => Commit::Failed { why },
                }
            },
            other => other,
        }
    }
}

// ---- reading the state ----

/// The operational tree that the providers' merged print is: an empty print is an empty tree.
pub open spec fn state_tree(text: Seq<char>) -> Option<JsonV> {
    if text.len() == 0 {
        Some(JsonV::empty())
    } else {
        json_parsed(text)
    }
}

pub fn read_state(text: &str) -> (r: Option<Json>)
    ensures
        match r {
            Some(j) => state_tree(text@) == Some(j@),
            None => state_tree(text@) is None,
        },
{
    if text.is_empty() {
        Some(Json::empty())
    } else {
        Json::parse(text)
    }
}

// ---- laws ----

/// A commit after the first `n` replies.
pub open spec fn commit_after(providers: int, replies: Seq<Reply>, n: int) -> CommitV
    decreases n,
{
    if n <= 0 {
        commit_start(providers)
    } else {
        commit_step(commit_after(providers, replies, n - 1), replies[n - 1])
    }
}

/// Were the first `n` replies all acceptances?
pub open spec fn all_accepted(replies: Seq<Reply>, n: int) -> bool {
    forall|i: int| 0 <= i < n ==> (#[trigger] replies[i]) is Accepted
}

/// While everybody accepts, each provider is asked once in each phase, in order: first all to
/// prepare, then all to apply.
proof fn lemma_while_accepted(providers: int, replies: Seq<Reply>, n: int)
    requires
        0 < providers,
        0 <= n <= 2 * providers,
        n <= replies.len(),
        all_accepted(replies, n),
    ensures
        n < providers ==> commit_after(providers, replies, n) == (CommitV::Asking {
            phase: CommitPhase::Prepare,
            next: n,
            providers,
            why: seq![],
        }),
        providers <= n < 2 * providers ==> commit_after(providers, replies, n) == (
        CommitV::Asking { phase: CommitPhase::Apply, next: n - providers, providers, why: seq![] }),
        n == 2 * providers ==> commit_after(providers, replies, n) is Applied,
    decreases n,
{
    if n > 0 {
        lemma_while_accepted(providers, replies, n - 1);
    }
}

/// Nobody is asked to apply, and nothing is applied, before every provider has accepted to
/// prepare; and a commit that was applied was applied by every provider.
pub proof fn lemma_apply_follows_every_prepare(providers: int, replies: Seq<Reply>, n: int)
    requires
        0 < providers,
        0 <= n <= replies.len(),
    ensures
        commit_after(providers, replies, n) matches CommitV::Asking {
            phase: CommitPhase::Apply,
            next,
            ..
        } ==> n == providers + next && all_accepted(replies, n),
        commit_after(providers, replies, n) is Applied ==> n >= 2 * providers && all_accepted(
            replies,
            2 * providers,
        ),
    decreases n,
{
    if n > 0 {
        lemma_apply_follows_every_prepare(providers, replies, n - 1);
        let c = commit_after(providers, replies, n - 1);
        if all_accepted(replies, n - 1) && n - 1 <= 2 * providers {
            lemma_while_accepted(providers, replies, n - 1);
        } else {
            lemma_not_applying(providers, replies, n - 1);
        }
    }
}

/// Once somebody has refused, nothing is applied any more.
proof fn lemma_not_applying(providers: int, replies: Seq<Reply>, n: int)
    requires
        0 < providers,
        0 <= n <= replies.len(),
        !all_accepted(replies, n) || n > 2 * providers,
    ensures
        ({
            let c = commit_after(providers, replies, n);
            ||| c is Failed
            ||| (c is Applied && n >= 2 * providers && all_accepted(replies, 2 * providers))
            ||| c matches CommitV::Asking { phase: CommitPhase::Abort, .. }
        }),
    decreases n,
{
    if n > 0 {
        if all_accepted(replies, n - 1) && n - 1 <= 2 * providers {
            lemma_while_accepted(providers, replies, n - 1);
        } else {
            lemma_not_applying(providers, replies, n - 1);
        }
    }
}

/// A provider that refuses to prepare is the reason that the commit fails with, whatever comes of
/// the abort.
pub proof fn lemma_refused_prepare_is_reported(providers: int, replies: Seq<Reply>, k: int, n: int)
    requires
        0 <= k < providers,
        k < n <= replies.len(),
        all_accepted(replies, k),
        replies[k] !is Accepted,
    ensures
        commit_after(providers, replies, n) matches CommitV::Asking { phase, why, .. } ==> phase
            == CommitPhase::Abort && why == reply_error(CommitPhase::Prepare, replies[k]),
        commit_after(providers, replies, n) matches CommitV::Failed { why } ==> why == reply_error(
            CommitPhase::Prepare,
            replies[k],
        ),
        commit_after(providers, replies, n) !is Applied,
    decreases n,
{
    if n == k + 1 {
        lemma_while_accepted(providers, replies, k);
    } else {
        lemma_refused_prepare_is_reported(providers, replies, k, n - 1);
    }
}

} // verus!
