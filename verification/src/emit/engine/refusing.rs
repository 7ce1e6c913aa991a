//! Why no configuration can be emitted.

use vstd::prelude::*;

use crate::derive::{zone_named, MemberViewV};
use crate::emit::engine::gw_refusal;
use crate::model::lookup::{has_zone, zone_refusal};

verus! {

proof fn lemma_refused_at(v: MemberViewV, i: int, k: int)
    requires
        0 <= i <= k <= v.gw_rows.len(),
        forall|j: int|
            i <= j < k ==> has_zone(v.fabric, (#[trigger] v.gw_rows[j]).zone) && zone_named(
                v,
                v.gw_rows[j].zone,
            ).gw is Some,
        k < v.gw_rows.len() ==> !has_zone(v.fabric, v.gw_rows[k].zone) || zone_named(
            v,
            v.gw_rows[k].zone,
        ).gw is None,
    ensures
        gw_refusal(v, i) == gw_refusal(v, k),
    decreases k - i,
{
    if i < k {
        assert(has_zone(v.fabric, v.gw_rows[i].zone));
        lemma_refused_at(v, i + 1, k);
    }
}

/// A configuration can be emitted where every ingress row is of a declared zone with a router;
/// otherwise the first row that is not is complained of.
pub proof fn lemma_why_no_configuration_is_emitted(v: MemberViewV, k: int)
    requires
        0 <= k <= v.gw_rows.len(),
        forall|j: int|
            0 <= j < k ==> has_zone(v.fabric, (#[trigger] v.gw_rows[j]).zone) && zone_named(
                v,
                v.gw_rows[j].zone,
            ).gw is Some,
        k < v.gw_rows.len() ==> !has_zone(v.fabric, v.gw_rows[k].zone) || zone_named(
            v,
            v.gw_rows[k].zone,
        ).gw is None,
    ensures
        k == v.gw_rows.len() ==> gw_refusal(v, 0) is None,
        k < v.gw_rows.len() && !has_zone(v.fabric, v.gw_rows[k].zone) ==> gw_refusal(v, 0)
            == zone_refusal(v.fabric, v.gw_rows[k].zone) && gw_refusal(v, 0) is Some,
        k < v.gw_rows.len() && has_zone(v.fabric, v.gw_rows[k].zone) ==> gw_refusal(v, 0) == Some(
            "zone "@ + zone_named(v, v.gw_rows[k].zone).name
                + " carries an ingress leg but no gw"@,
        ),
{
    lemma_refused_at(v, 0, k);
}

} // verus!
