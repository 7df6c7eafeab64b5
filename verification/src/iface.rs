//! Interface management requests and the interfaces offered as WAN.
use vstd::prelude::*;

verus! {

/// A request to create a bridge.
#[derive(Debug, Clone)]
pub struct BridgeCreate {
    pub name: String,
}

/// A request to attach a link to a bridge (or detach it, without a master).
#[derive(Debug, Clone)]
pub struct AddController {
    pub link_name: String,
    pub link_ifindex: u32,
    pub master_name: Option<String>,
    pub master_ifindex: Option<u32>,
}

pub open spec fn names_view(v: Seq<String>) -> Seq<Seq<char>> {
    v.map_values(|s: String| s@)
}

/// The names, followed by each extra name that is not among them yet.
pub open spec fn merged_names(names: Seq<Seq<char>>, extra: Seq<Seq<char>>) -> Seq<Seq<char>>
    decreases extra.len(),
{
    if extra.len() == 0 {
        names
    } else {
        let m = merged_names(names, extra.drop_last());
        if m.contains(extra.last()) {
            m
        } else {
            m.push(extra.last())
        }
    }
}

fn holds_name(names: &Vec<String>, name: &String) -> (r: bool)
    ensures
        r == names_view(names@).contains(name@),
{
    let mut i: usize = 0;
    while i < names.len()
        invariant
            i <= names@.len(),
            forall|j: int| 0 <= j < i ==> names@[j]@ != name@,
        decreases names@.len() - i,
    {
        if names[i] == *name {
            assert(names_view(names@)[i as int] == name@);
            return true;
        }
        i = i + 1;
    }
    assert forall|j: int| 0 <= j < names@.len() implies names_view(names@)[j] != name@ by {
        assert(names@[j]@ != name@);
    }
    false
}

/// The interfaces that can serve as WAN: the configured WAN interfaces, then
/// the PPPoE interfaces not among them (see `merged_names`).
pub fn merge_wan_candidates(names: Vec<String>, pppd_ifaces: Vec<String>) -> (r: Vec<String>)
    ensures
        names_view(r@) == merged_names(names_view(names@), names_view(pppd_ifaces@)),
{
    let ghost n0 = names_view(names@);
    let ghost ex = names_view(pppd_ifaces@);
    let mut out = names;
    let mut i: usize = 0;
    while i < pppd_ifaces.len()
        invariant
            i <= pppd_ifaces@.len(),
            ex == names_view(pppd_ifaces@),
            names_view(out@) == merged_names(n0, ex.take(i as int)),
        decreases pppd_ifaces@.len() - i,
    {
        assert(ex.take(i + 1).drop_last() =~= ex.take(i as int));
        assert(ex.take(i + 1).last() == pppd_ifaces@[i as int]@);
        if !holds_name(&out, &pppd_ifaces[i]) {
            let ghost before = names_view(out@);
            out.push(pppd_ifaces[i].clone());
            assert(names_view(out@) =~= before.push(pppd_ifaces@[i as int]@));
        }
        i = i + 1;
    }
    assert(ex.take(i as int) =~= ex);
    out
}

} // verus!
