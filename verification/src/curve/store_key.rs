//! Keys under which the Curve pipeline stores pool markers and admin balances.
use vstd::prelude::*;

verus! {

/// The kinds of entries kept in the admin-balance store.
#[derive(Clone, Copy)]
pub enum StoreKey {
    Pool,
    AdminBalanceToken0,
    AdminBalanceToken1,
    AdminBalanceToken2,
    AdminBalanceToken3,
}

/// The identifier written in front of every key of the given kind.
pub open spec fn spec_unique_id(k: StoreKey) -> Seq<char> {
    match k {
        StoreKey::Pool => seq!['P', 'o', 'o', 'l'],
        StoreKey::AdminBalanceToken0 => seq!['A', 'B', 'T', '0'],
        StoreKey::AdminBalanceToken1 => seq!['A', 'B', 'T', '1'],
        StoreKey::AdminBalanceToken2 => seq!['A', 'B', 'T', '2'],
        StoreKey::AdminBalanceToken3 => seq!['A', 'B', 'T', '3'],
    }
}

/// The full key: the kind's identifier, a colon, then `key`.
pub open spec fn spec_unique_key(k: StoreKey, key: Seq<char>) -> Seq<char> {
    spec_unique_id(k) + seq![':'] + key
}


proof fn lemma_ids_distinct(k1: StoreKey, k2: StoreKey)
    requires
        spec_unique_id(k1) == spec_unique_id(k2),
    ensures
        k1 == k2,
{
    let a = spec_unique_id(k1);
    let b = spec_unique_id(k2);
    assert(a[0] == b[0] && a[3] == b[3]);
}

/// Law: a store key determines its kind and the key it was formed from, so
/// entries of different kinds, or of different keys, never collide.
pub proof fn lemma_unique_key_injective(k1: StoreKey, a: Seq<char>, k2: StoreKey, b: Seq<char>)
    requires
        spec_unique_key(k1, a) == spec_unique_key(k2, b),
    ensures
        k1 == k2,
        a == b,
{
    let x = spec_unique_key(k1, a);
    let y = spec_unique_key(k2, b);
    assert(spec_unique_id(k1).len() == 4);
    assert(spec_unique_id(k2).len() == 4);
    assert(x.subrange(0, 4) =~= spec_unique_id(k1));
    assert(y.subrange(0, 4) =~= spec_unique_id(k2));
    lemma_ids_distinct(k1, k2);
    assert(x.skip(5) =~= a);
    assert(y.skip(5) =~= b);
}

impl StoreKey {
    /// `"<id>:<key>"`, the store key of `key` under this kind.
    pub fn get_unique_key(&self, key: &str) -> (r: String)
        ensures
            r@ == spec_unique_key(*self, key@),
    {
        let id = self.unique_id();
        let mut r = id;
        r.append(":");
        r.append(key);
        proof {
            reveal_strlit(":");
        }
        r
    }

    /// The identifier of this kind: `Pool`, `ABT0`, `ABT1`, `ABT2` or `ABT3`.
    pub fn unique_id(&self) -> (r: String)
        ensures
            r@ == spec_unique_id(*self),
    {
        match self {
            StoreKey::Pool => {
                proof { reveal_strlit("Pool"); }
                String::from_str("Pool")
            },
            StoreKey::AdminBalanceToken0 => {
                proof { reveal_strlit("ABT0"); }
                String::from_str("ABT0")
            },
            StoreKey::AdminBalanceToken1 => {
                proof { reveal_strlit("ABT1"); }
                String::from_str("ABT1")
            },
            StoreKey::AdminBalanceToken2 => {
                proof { reveal_strlit("ABT2"); }
                String::from_str("ABT2")
            },
            StoreKey::AdminBalanceToken3 => {
                proof { reveal_strlit("ABT3"); }
                String::from_str("ABT3")
            },
        }
    }
}

} // verus!
