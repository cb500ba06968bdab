//! ENS pipeline: the store of domain records.
use vstd::prelude::*;
use crate::store::StoreWrite;

verus! {

/// A domain record with its ENS name.
pub struct Domain<D> {
    pub ens_name: String,
    pub record: D,
}

/// The domain records of a block.
pub struct Domains<D> {
    pub items: Vec<Domain<D>>,
}

/// The store key of the domain named `name`: `Domain:` then the name.
pub open spec fn domain_key(name: Seq<char>) -> Seq<char> {
    seq!['D', 'o', 'm', 'a', 'i', 'n', ':'] + name
}

/// One write per domain, in order, at ordinal 0: key `Domain:<name>`,
/// value the domain's record.
pub fn store_ens_record<D>(map_domains: Domains<D>) -> (r: Vec<StoreWrite<D>>)
    ensures
        r@.len() == map_domains.items@.len(),
        forall|i: int|
            0 <= i < r@.len() ==> {
                &&& (#[trigger] r@[i]).ordinal == 0
                &&& r@[i].key@ == domain_key(map_domains.items@[i].ens_name@)
                &&& r@[i].value == map_domains.items@[i].record
            },
{
    let ghost items = map_domains.items@;
    let mut domains = map_domains.items;
    let mut r: Vec<StoreWrite<D>> = Vec::new();
    let mut rest: Vec<StoreWrite<D>> = Vec::new();
    while domains.len() > 0
        invariant
            domains@.len() + rest@.len() == items.len(),
            domains@ == items.take(domains@.len() as int),
            forall|i: int|
                0 <= i < rest@.len() ==> {
                    let j = items.len() - 1 - i;
                    &&& (#[trigger] rest@[i]).ordinal == 0
                    &&& rest@[i].key@ == domain_key(items[j].ens_name@)
                    &&& rest@[i].value == items[j].record
                },
        decreases domains.len(),
    {
        let ghost before = domains@;
        let d = domains.pop().unwrap();
        proof {
            assert(d == items[before.len() - 1]);
            assert(domains@ =~= items.take(domains@.len() as int));
        }
        proof {
            reveal_strlit("Domain:");
        }
        let mut key = String::from_str("Domain:");
        key.append(d.ens_name.as_str());
        rest.push(StoreWrite { ordinal: 0, key, value: d.record });
    }
    while rest.len() > 0
        invariant
            r@.len() + rest@.len() == items.len(),
            forall|i: int|
                0 <= i < rest@.len() ==> {
                    let j = items.len() - 1 - i;
                    &&& (#[trigger] rest@[i]).ordinal == 0
                    &&& rest@[i].key@ == domain_key(items[j].ens_name@)
                    &&& rest@[i].value == items[j].record
                },
            forall|i: int|
                0 <= i < r@.len() ==> {
                    &&& (#[trigger] r@[i]).ordinal == 0
                    &&& r@[i].key@ == domain_key(items[i].ens_name@)
                    &&& r@[i].value == items[i].record
                },
        decreases rest.len(),
    {
        let w = rest.pop().unwrap();
        r.push(w);
    }
    r
}

} // verus!
