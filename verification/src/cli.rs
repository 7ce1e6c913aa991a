//! What the command line chooses and what it prints: which declaration, which member, and the
//! lines of `check` and of the forwarding watchdog.

use vstd::prelude::*;

use crate::derive::{MemberView, MemberViewV};
use crate::error::{is_fatal, Error};
use crate::model::validate::{sorted_names, sorted_set};
use crate::model::{FabricV, MemberKind, SegmentV};
use crate::text::lines::{words, words_of};
use crate::text::{
    cat2, cat3, cat4, dec, dec_u64, has_text, join, join_texts, lemma_texts_push, opt_string,
    split, split_on, str_eq, texts, trim, trimmed,
};

pub mod saying;

verus! {

/// Where an installed declaration is.
pub const INSTALLED_CONFIG: &'static str = "/etc/cfab/fabric.conf";

/// The declaration of last resort.
pub const LOCAL_CONFIG: &'static str = "fabric.conf";

/// Which declaration is read: the one that was asked for, else the one beside the program, else
/// the installed one, else the one in the current directory.
pub open spec fn config_choice(
    asked: Option<Seq<char>>,
    beside: Option<Seq<char>>,
    installed: bool,
) -> Seq<char> {
    match asked {
        Some(p) => p,
        None => match beside {
            Some(p) => p,
            None => if installed {
                INSTALLED_CONFIG@
            } else {
                LOCAL_CONFIG@
            },
        },
    }
}

/// `beside` is the path beside the program, where there is a file; `installed` says whether there
/// is one at the installed place.
pub fn config_path(asked: &Option<String>, beside: &Option<String>, installed: bool) -> (r: String)
    ensures
        r@ == config_choice(opt_string(*asked), opt_string(*beside), installed),
{
    match asked {
        Some(p) => p.clone(),
        None => match beside {
            Some(p) => p.clone(),
            None => if installed {
                String::from_str(INSTALLED_CONFIG)
            } else {
                String::from_str(LOCAL_CONFIG)
            },
        },
    }
}

/// Is a path, taken component by component, this one name? What stands behind it between
/// slashes, nothing or a dot, is no component.
pub open spec fn is_local_path(path: Seq<char>, name: Seq<char>) -> bool {
    let parts = split(path, '/');
    &&& parts.len() > 0 && parts[0] == name
    &&& forall|i: int|
        1 <= i < parts.len() ==> (#[trigger] parts[i]).len() == 0 || parts[i] == "."@
}

fn is_local(path: &str, name: &str) -> (r: bool)
    ensures
        r == is_local_path(path@, name@),
{
    let parts = split_on(path, '/');
    let ghost all = split(path@, '/');
    if parts.len() == 0 || !str_eq(parts[0].as_str(), name) {
        assert(all.len() == 0 || all[0] == parts@[0]@);
        return false;
    }
    let mut i: usize = 1;
    while i < parts.len()
        invariant
            1 <= i <= parts@.len(),
            texts(parts@) == all,
            all == split(path@, '/'),
            forall|j: int| 1 <= j < i ==> (#[trigger] all[j]).len() == 0 || all[j] == "."@,
        decreases parts@.len() - i,
    {
        assert(all[i as int] == parts@[i as int]@);
        if !str_eq(parts[i].as_str(), "") && !str_eq(parts[i].as_str(), ".") {
            proof {
                reveal_strlit("");
                assert(parts@[i as int]@.len() == 0 ==> parts@[i as int]@ =~= ""@);
            }
            return false;
        }
        proof {
            reveal_strlit("");
        }
        i = i + 1;
    }
    assert(all[0] == parts@[0]@);
    true
}

/// The line for a member without a declaration. Where none was asked for and none was found, it
/// names the place where one belongs.
pub fn no_config_line(asked: &Option<String>, resolved: &str) -> (r: String)
    ensures
        r@ == "DOWN (no "@ + (if asked is None && is_local_path(resolved@, LOCAL_CONFIG@) {
            INSTALLED_CONFIG@
        } else {
            resolved@
        }) + ")"@,
{
    if asked.is_none() && is_local(resolved, LOCAL_CONFIG) {
        cat3("DOWN (no ", INSTALLED_CONFIG, ")")
    } else {
        cat3("DOWN (no ", resolved, ")")
    }
}

/// The refusal of a file that cannot be read.
pub fn unreadable(path: &str, e: &str) -> (r: Error)
    ensures
        is_fatal(r, "cannot read "@ + path@ + ": "@ + e@),
{
    Error::Fatal(cat4("cannot read ", path, ": ", e))
}

/// The member that was asked for, else the one that the environment names, if either is there.
pub open spec fn chosen_name(asked: Option<Seq<char>>, env: Option<Seq<char>>) -> Option<Seq<char>> {
    match asked {
        Some(h) => Some(h),
        None => match env {
            Some(h) => if h.len() > 0 {
                Some(h)
            } else {
                None
            },
            None => None,
        },
    }
}

/// Which member this is: the one that was chosen, else the host's own name.
pub fn member_name(
    asked: &Option<String>,
    env: &Option<String>,
    hostname: &Result<String, String>,
) -> (r: Result<String, Error>)
    ensures
        match r {
            Ok(n) => match chosen_name(opt_string(*asked), opt_string(*env)) {
                Some(h) => n@ == h,
                None => hostname is Ok && n@ == trim(hostname->Ok_0@),
            },
            Err(e) => chosen_name(opt_string(*asked), opt_string(*env)) is None && hostname is Err
                && is_fatal(e, "cannot read hostname: "@ + hostname->Err_0@),
        },
{
    if let Some(h) = asked {
        return Ok(h.clone());
    }
    if let Some(h) = env {
        if !h.as_str().is_empty() {
            return Ok(h.clone());
        }
    }
    match hostname {
        Ok(h) => Ok(trimmed(h.as_str())),
        Err(m) => Err(Error::Fatal(cat2("cannot read hostname: ", m.as_str()))),
    }
}

// ---- check ----

/// How many of the first `n` segments are universal.
pub open spec fn universal_count(s: Seq<SegmentV>, n: int) -> nat
    decreases n,
{
    if n <= 0 {
        0
    } else {
        universal_count(s, n - 1) + if s[n - 1].scope is None {
            1nat
        } else {
            0nat
        }
    }
}

pub open spec fn kind_word(k: MemberKind) -> Seq<char> {
    match k {
        MemberKind::Host => "host"@,
        MemberKind::Leaf => "leaf"@,
    }
}

pub open spec fn fabric_line(f: FabricV) -> Seq<char> {
    let n = universal_count(f.segments, f.segments.len() as int);
    "fabric.conf OK: "@ + dec(f.zones.len()) + " zones, "@ + dec(
        (f.segments.len() - n) as nat,
    ) + " segments, "@ + dec(n) + " fallback legs, "@ + dec(f.members.len()) + " members\n"@
}

/// The wires that carry a segment on the member, in order.
pub open spec fn carrying_wires(v: MemberViewV) -> Seq<Seq<char>> {
    let w = Seq::new(v.class_rows.len(), |i: int| v.class_rows[i].wire);
    sorted_set(w, w.len() as int)
}

pub open spec fn member_line(v: MemberViewV) -> Seq<char> {
    "this member: "@ + v.member.name + " (node "@ + dec(v.member.node as nat) + ", "@ + kind_word(
        v.member.kind,
    ) + "); "@ + dec(v.class_rows.len()) + " segment sub-ifs on wires ["@ + join(
        carrying_wires(v),
        " "@,
    ) + "], "@ + dec(v.fallback_rows.len()) + " fallback leg(s), "@ + dec(v.gw_rows.len())
        + " ingress leg(s)\n"@
}

/// The two lines that `check` prints: the fabric as it is declared, and what this member gets of
/// it, every leg that would be built included.
pub fn check_report(view: &MemberView) -> (r: String)
    ensures
        r@ == fabric_line(view@.fabric) + member_line(view@),
{
    broadcast use lemma_texts_push;

    let segments = &view.fabric.segments;
    let ghost f = view@.fabric;
    let mut legs: usize = 0;
    let mut i: usize = 0;
    while i < segments.len()
        invariant
            i <= segments@.len(),
            f == view@.fabric,
            *segments == view.fabric.segments,
            legs as nat == universal_count(f.segments, i as int),
            legs <= i,
        decreases segments@.len() - i,
    {
        assert(f.segments[i as int] == segments@[i as int]@);
        if segments[i].scope.is_universal() {
            legs = legs + 1;
        }
        i = i + 1;
    }
    let ghost w = Seq::new(view@.class_rows.len(), |i: int| view@.class_rows[i].wire);
    let mut wires: Vec<String> = Vec::new();
    let mut i: usize = 0;
    while i < view.class_rows.len()
        invariant
            i <= view.class_rows@.len(),
            w == Seq::new(view@.class_rows.len(), |i: int| view@.class_rows[i].wire),
            texts(wires@) =~= w.take(i as int),
        decreases view.class_rows@.len() - i,
    {
        assert(view@.class_rows[i as int] == view.class_rows@[i as int]@);
        wires.push(view.class_rows[i].wire.clone());
        assert(w.take(i + 1) =~= w.take(i as int).push(w[i as int]));
        i = i + 1;
    }
    assert(w.take(i as int) =~= w);
    assert(texts(wires@).len() == wires@.len());
    let sorted = sorted_names(&wires);
    let kind = match view.member.kind {
        MemberKind::Host => "host",
        MemberKind::Leaf => "leaf",
    };
    let mut s = String::from_str("fabric.conf OK: ");
    s.append(dec_u64(view.fabric.zones.len() as u64).as_str());
    s.append(" zones, ");
    s.append(dec_u64((segments.len() - legs) as u64).as_str());
    s.append(" segments, ");
    s.append(dec_u64(legs as u64).as_str());
    s.append(" fallback legs, ");
    s.append(dec_u64(view.fabric.members.len() as u64).as_str());
    s.append(" members\n");
    assert(s@ == fabric_line(f));
    let mut t = String::from_str("this member: ");
    t.append(view.member.name.as_str());
    t.append(" (node ");
    t.append(dec_u64(view.member.node as u64).as_str());
    t.append(", ");
    t.append(kind);
    t.append("); ");
    t.append(dec_u64(view.class_rows.len() as u64).as_str());
    t.append(" segment sub-ifs on wires [");
    t.append(join_texts(&sorted, " ").as_str());
    t.append("], ");
    t.append(dec_u64(view.fallback_rows.len() as u64).as_str());
    t.append(" fallback leg(s), ");
    t.append(dec_u64(view.gw_rows.len() as u64).as_str());
    t.append(" ingress leg(s)\n");
    assert(t@ == member_line(view@));
    cat2(s.as_str(), t.as_str())
}

// ---- which wires are up ----

/// Is a wire up? The list in the environment decides where there is one, else the wire's carrier.
/// A wire of which nothing is known is not demoted.
pub open spec fn is_up(
    list: Option<Seq<char>>,
    carrier: Option<Seq<char>>,
    wire: Seq<char>,
) -> bool {
    match list {
        Some(l) => words(l).contains(wire),
        None => match carrier {
            Some(c) => trim(c) == "1"@,
            None => true,
        },
    }
}

pub fn wire_is_up(list: &Option<String>, carrier: &Option<String>, wire: &str) -> (r: bool)
    ensures
        r == is_up(opt_string(*list), opt_string(*carrier), wire@),
{
    match list {
        Some(l) => {
            let w = words_of(l.as_str());
            let r = has_text(&w, w.len(), wire);
            proof {
                if r {
                    let k = choose|k: int| 0 <= k < w@.len() && w@[k]@ == wire@;
                    assert(texts(w@)[k] == wire@);
                }
                if texts(w@).contains(wire@) {
                    let k = choose|k: int| 0 <= k < texts(w@).len() && texts(w@)[k] == wire@;
                    assert(w@[k]@ == wire@);
                }
            }
            r
        },
        None => match carrier {
            Some(c) => str_eq(trimmed(c.as_str()).as_str(), "1"),
            None => true,
        },
    }
}

// ---- the forwarding watchdog ----

/// What one round of the forwarding watchdog did.
#[derive(Debug)]
pub struct WatchdogReport {
    pub restored: Vec<String>,
    pub downed: Vec<String>,
    pub unrestored: Vec<String>,
    pub resolved: Option<String>,
    pub blocked: Vec<String>,
    pub failed: Option<String>,
}

/// One line for each of the first `n` texts.
pub open spec fn lines_with(head: Seq<char>, v: Seq<Seq<char>>, n: int) -> Seq<Seq<char>>
    decreases n,
{
    if n <= 0 {
        seq![]
    } else {
        lines_with(head, v, n - 1).push(head + v[n - 1])
    }
}

pub open spec fn all_with(head: Seq<char>, v: Seq<Seq<char>>) -> Seq<Seq<char>> {
    lines_with(head, v, v.len() as int)
}

pub open spec fn one_with(head: Seq<char>, v: Option<Seq<char>>) -> Seq<Seq<char>> {
    match v {
        Some(t) => seq![head + t],
        None => seq![],
    }
}

pub open spec fn watchdog_lines(r: WatchdogReport) -> Seq<Seq<char>> {
    all_with("cfab fwd-watchdog: restored: "@, texts(r.restored@)) + all_with(
        "cfab fwd-watchdog: ACTUATED: "@,
        texts(r.downed@),
    ) + all_with("cfab fwd-watchdog: COULD NOT RESTORE: "@, texts(r.unrestored@)) + one_with(
        "cfab fwd-watchdog: installed foreign-stack accept: "@,
        opt_string(r.resolved),
    ) + all_with("cfab fwd-watchdog: BLOCKED by a foreign ruleset: "@, texts(r.blocked@)) + one_with(
        "cfab fwd-watchdog: FAIL-CLOSED: "@,
        opt_string(r.failed),
    )
}

fn push_all(head: &str, v: &Vec<String>, out: &mut Vec<String>)
    ensures
        texts(final(out)@) == texts(old(out)@) + all_with(head@, texts(v@)),
{
    broadcast use lemma_texts_push;

    let ghost before = texts(out@);
    let ghost t = texts(v@);
    let mut i: usize = 0;
    assert(before + seq![] =~= before);
    while i < v.len()
        invariant
            i <= v@.len(),
            t == texts(v@),
            texts(out@) == before + lines_with(head@, t, i as int),
        decreases v@.len() - i,
    {
        let line = cat2(head, v[i].as_str());
        proof {
            let e = lines_with(head@, t, i as int);
            assert(t[i as int] == v@[i as int]@);
            assert((before + e).push(line@) =~= before + e.push(line@));
        }
        out.push(line);
        i = i + 1;
    }
}

fn push_one(head: &str, v: &Option<String>, out: &mut Vec<String>)
    ensures
        texts(final(out)@) == texts(old(out)@) + one_with(head@, opt_string(*v)),
{
    broadcast use lemma_texts_push;

    let ghost before = texts(out@);
    match v {
        Some(t) => {
            let line = cat2(head, t.as_str());
            assert(before.push(line@) =~= before + seq![line@]);
            out.push(line);
        },
        None => {
            assert(before + seq![] =~= before);
        },
    }
}

/// What the watchdog says of its round.
pub fn watchdog_report(r: &WatchdogReport) -> (out: Vec<String>)
    ensures
        texts(out@) == watchdog_lines(*r),
{
    let mut out: Vec<String> = Vec::new();
    assert(texts(out@) =~= seq![]);
    push_all("cfab fwd-watchdog: restored: ", &r.restored, &mut out);
    assert(texts(out@) =~= all_with("cfab fwd-watchdog: restored: "@, texts(r.restored@)));
    push_all("cfab fwd-watchdog: ACTUATED: ", &r.downed, &mut out);
    push_all("cfab fwd-watchdog: COULD NOT RESTORE: ", &r.unrestored, &mut out);
    push_one("cfab fwd-watchdog: installed foreign-stack accept: ", &r.resolved, &mut out);
    push_all("cfab fwd-watchdog: BLOCKED by a foreign ruleset: ", &r.blocked, &mut out);
    push_one("cfab fwd-watchdog: FAIL-CLOSED: ", &r.failed, &mut out);
    out
}

/// Does the round count as a success? Not where it failed closed, had to take something down,
/// could not restore something, or is blocked by somebody else's rules.
pub fn watchdog_ok(r: &WatchdogReport) -> (ok: bool)
    ensures
        ok == (r.failed is None && r.downed@.len() == 0 && r.unrestored@.len() == 0
            && r.blocked@.len() == 0),
{
    r.failed.is_none() && r.downed.len() == 0 && r.unrestored.len() == 0 && r.blocked.len() == 0
}

} // verus!
