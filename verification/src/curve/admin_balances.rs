//! Admin-balance changes of a pool, read from the deltas of the balance store.
use vstd::prelude::*;
use crate::bigint::BigInteger;
use super::store_key::{StoreKey, spec_unique_key, lemma_unique_key_injective};

verus! {

/// A change of one entry of the balance store: its key and its values before
/// and after.
pub struct Delta {
    pub key: String,
    pub old_value: BigInteger,
    pub new_value: BigInteger,
}

/// The values of a sequence of integers.
pub open spec fn ints(s: Seq<BigInteger>) -> Seq<int> {
    s.map_values(|b: BigInteger| b@)
}

/// The change recorded for `key` by the last delta of that key; zero when no
/// delta has it.
pub open spec fn last_change(deltas: Seq<Delta>, key: Seq<char>) -> int
    decreases deltas.len(),
{
    if deltas.len() == 0 {
        0
    } else if deltas.last().key@ == key {
        deltas.last().new_value@ - deltas.last().old_value@
    } else {
        last_change(deltas.drop_last(), key)
    }
}

/// Law: the change recorded for a key is that of the last delta of that key
/// (new value minus old value), whatever deltas of other keys follow it.
pub proof fn lemma_last_delta_wins(deltas: Seq<Delta>, key: Seq<char>, i: int)
    requires
        0 <= i < deltas.len(),
        deltas[i].key@ == key,
        forall|j: int| i < j < deltas.len() ==> (#[trigger] deltas[j]).key@ != key,
    ensures
        last_change(deltas, key) == deltas[i].new_value@ - deltas[i].old_value@,
    decreases deltas.len(),
{
    let n = deltas.len() - 1;
    if i < n {
        assert(deltas[n] == deltas.last());
        let prev = deltas.drop_last();
        assert forall|j: int| i < j < prev.len() implies (#[trigger] prev[j]).key@ != key by {
            assert(prev[j] == deltas[j]);
        }
        assert(prev[i] == deltas[i]);
        lemma_last_delta_wins(prev, key, i);
    }
}

/// Law: a key that no delta has shows no change.
pub proof fn lemma_no_delta_no_change(deltas: Seq<Delta>, key: Seq<char>)
    requires
        forall|j: int| 0 <= j < deltas.len() ==> (#[trigger] deltas[j]).key@ != key,
    ensures
        last_change(deltas, key) == 0,
    decreases deltas.len(),
{
    if deltas.len() > 0 {
        let prev = deltas.drop_last();
        assert(deltas[deltas.len() - 1] == deltas.last());
        assert forall|j: int| 0 <= j < prev.len() implies (#[trigger] prev[j]).key@ != key by {
            assert(prev[j] == deltas[j]);
        }
        lemma_no_delta_no_change(prev, key);
    }
}

/// The changes of the admin balances of the four tokens of the pool whose
/// address text is `address`.
pub open spec fn admin_balance_changes(deltas: Seq<Delta>, address: Seq<char>) -> Seq<int> {
    seq![
        last_change(deltas, spec_unique_key(StoreKey::AdminBalanceToken0, address)),
        last_change(deltas, spec_unique_key(StoreKey::AdminBalanceToken1, address)),
        last_change(deltas, spec_unique_key(StoreKey::AdminBalanceToken2, address)),
        last_change(deltas, spec_unique_key(StoreKey::AdminBalanceToken3, address)),
    ]
}

/// The change of each of the four admin balances of the pool `address`:
/// for token `i`, new value minus old value of the last delta whose key is
/// the `ABTi` key of `address`, or zero when there is none.
pub fn get_admin_balances(deltas: &Vec<Delta>, address: &str) -> (r: Vec<BigInteger>)
    ensures
        ints(r@) == admin_balance_changes(deltas@, address@),
{
    let k0 = StoreKey::AdminBalanceToken0.get_unique_key(address);
    let k1 = StoreKey::AdminBalanceToken1.get_unique_key(address);
    let k2 = StoreKey::AdminBalanceToken2.get_unique_key(address);
    let k3 = StoreKey::AdminBalanceToken3.get_unique_key(address);
    let mut balances: Vec<BigInteger> = Vec::new();
    balances.push(BigInteger::zero());
    balances.push(BigInteger::zero());
    balances.push(BigInteger::zero());
    balances.push(BigInteger::zero());
    proof {
        assert(deltas@.take(0) =~= Seq::<Delta>::empty());
        assert(ints(balances@) =~= admin_balance_changes(deltas@.take(0), address@));
    }
    let mut i: usize = 0;
    while i < deltas.len()
        invariant
            i <= deltas.len(),
            k0@ == spec_unique_key(StoreKey::AdminBalanceToken0, address@),
            k1@ == spec_unique_key(StoreKey::AdminBalanceToken1, address@),
            k2@ == spec_unique_key(StoreKey::AdminBalanceToken2, address@),
            k3@ == spec_unique_key(StoreKey::AdminBalanceToken3, address@),
            balances.len() == 4,
            ints(balances@) == admin_balance_changes(deltas@.take(i as int), address@),
        decreases deltas.len() - i,
    {
        let d = &deltas[i];
        let ghost pre = deltas@.take(i as int);
        let ghost cur = deltas@.take((i + 1) as int);
        proof {
            assert(cur.drop_last() =~= pre);
            assert(cur.last() == *d);
        }
        if d.key == k0 {
            proof {
                if d.key@ == k1@ {
                    lemma_unique_key_injective(StoreKey::AdminBalanceToken0, address@, StoreKey::AdminBalanceToken1, address@);
                }
                if d.key@ == k2@ {
                    lemma_unique_key_injective(StoreKey::AdminBalanceToken0, address@, StoreKey::AdminBalanceToken2, address@);
                }
                if d.key@ == k3@ {
                    lemma_unique_key_injective(StoreKey::AdminBalanceToken0, address@, StoreKey::AdminBalanceToken3, address@);
                }
            }
            balances.set(0, d.new_value.sub(&d.old_value));
        } else if d.key == k1 {
            proof {
                if d.key@ == k2@ {
                    lemma_unique_key_injective(StoreKey::AdminBalanceToken1, address@, StoreKey::AdminBalanceToken2, address@);
                }
                if d.key@ == k3@ {
                    lemma_unique_key_injective(StoreKey::AdminBalanceToken1, address@, StoreKey::AdminBalanceToken3, address@);
                }
            }
            balances.set(1, d.new_value.sub(&d.old_value));
        } else if d.key == k2 {
            proof {
                if d.key@ == k3@ {
                    lemma_unique_key_injective(StoreKey::AdminBalanceToken2, address@, StoreKey::AdminBalanceToken3, address@);
                }
            }
            balances.set(2, d.new_value.sub(&d.old_value));
        } else if d.key == k3 {
            balances.set(3, d.new_value.sub(&d.old_value));
        }
        proof {
            assert(ints(balances@) =~= admin_balance_changes(cur, address@));
        }
        i = i + 1;
    }
    proof {
        assert(deltas@.take(deltas.len() as int) =~= deltas@);
    }
    balances
}

} // verus!
