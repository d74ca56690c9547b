//! Secrets kept in the system keyring, as a source of variables.
use vstd::prelude::*;

use crate::library::secrets::keyring::{MemberValue, MemberView, SecretsDoc};
use crate::library::utils::str_map::{sorted_keys, EnvVarsMap};
use crate::library::utils::text::key_lt;

verus! {

/// The string members of the stored object as keyring variables.
pub open spec fn keyring_map(m: Map<Seq<char>, MemberView>) -> Map<Seq<char>, (Seq<char>, Seq<char>)> {
    Map::new(
        |k: Seq<char>| m.contains_key(k) && m[k] is Text,
        |k: Seq<char>| (m[k]->Text_0, "keyring"@),
    )
}

/// The strings as values.
pub open spec fn strings_view(v: Seq<String>) -> Seq<Seq<char>> {
    v.map_values(|s: String| s@)
}

/// The keyring variables, with the names of the members that could not be
/// used because their value is not a string.
pub struct KeyringEnvVars {
    pub env_vars: EnvVarsMap,
    /// Names of members whose value is not a string (they are skipped), in
    /// ascending order.
    pub rejected: Vec<String>,
}

/// The keyring variables of the stored secrets: each member whose value is
/// a string. `None` when the stored secrets are not an object (there is
/// then no secrets map).
pub fn get_env_variables(secrets: &SecretsDoc) -> (r: Option<KeyringEnvVars>)
    ensures
        r is None <==> !(secrets@ is Object),
        r matches Some(k) ==> k.env_vars@ == keyring_map(secrets@->Object_0),
        r matches Some(k) ==> sorted_keys(strings_view(k.rejected@)),
        r matches Some(k) ==> forall|x: Seq<char>|
            #[trigger] strings_view(k.rejected@).contains(x) <==> (
            secrets@->Object_0.contains_key(x) && secrets@->Object_0[x] is Json),
{
    let m = match secrets {
        SecretsDoc::Object(m) => m,
        _ => {
            return None;
        },
    };
    let n = m.len();
    let ghost ks = m.key_seq();
    let ghost target = keyring_map(m@);
    let mut env_vars = EnvVarsMap::new();
    let mut rejected: Vec<String> = Vec::new();
    let mut i: usize = 0;
    while i < n
        invariant
            n == ks.len(),
            ks == m.key_seq(),
            i <= n,
            sorted_keys(ks),
            forall|k: Seq<char>| m@.contains_key(k) <==> ks.contains(k),
            target == keyring_map(m@),
            env_vars@ == target.restrict(ks.take(i as int).to_set()),
            sorted_keys(rejected@.map_values(|s: String| s@)),
            forall|x: Seq<char>|
                rejected@.map_values(|s: String| s@).contains(x) <==> (ks.take(i as int).contains(x)
                    && m@[x] is Json),
        decreases n - i,
    {
        let key = m.key_at(i);
        let ghost kk = ks[i as int];
        let ghost s0 = ks.take(i as int).to_set();
        let ghost s1 = ks.take(i + 1).to_set();
        let ghost rv = rejected@.map_values(|s: String| s@);
        proof {
            assert(ks.take(i + 1) =~= ks.take(i as int).push(kk));
            ks.take(i as int).lemma_push_to_set_commute(kk);
            assert(s1 =~= s0.insert(kk));
            assert(ks.contains(kk));
        }
        match m.value_at(i) {
            MemberValue::Text(value) => {
                env_vars.insert(key.clone(), (value.clone(), "keyring".to_owned()));
                proof {
                    assert(target.restrict(s1) =~= target.restrict(s0).insert(kk, target[kk]));
                }
                assert forall|x: Seq<char>|
                    rejected@.map_values(|s: String| s@).contains(x) <==> (ks.take(i + 1).contains(x)
                        && m@[x] is Json) by {
                    if ks.take(i + 1).contains(x) && !ks.take(i as int).contains(x) {
                        assert(s1.contains(x));
                        assert(x == kk);
                    }
                    if ks.take(i as int).contains(x) {
                        assert(s1.contains(x));
                    }
                }
            },
            MemberValue::Json(_) => {
                rejected.push(key.clone());
                proof {
                    assert(target.restrict(s1) =~= target.restrict(s0));
                    let rv2 = rejected@.map_values(|s: String| s@);
                    assert(rv2 =~= rv.push(kk));
                    assert forall|a: int, b: int| 0 <= a < b < rv2.len() implies key_lt(
                        #[trigger] rv2[a],
                        #[trigger] rv2[b],
                    ) by {
                        if b == rv.len() {
                            let x = rv[a];
                            assert(rv.contains(x));
                            assert(ks.take(i as int).contains(x));
                            let j = ks.take(i as int).index_of(x);
                            assert(ks.take(i as int)[j] == ks[j]);
                            assert(key_lt(ks[j], ks[i as int]));
                            assert(rv2[a] == x);
                            assert(rv2[b] == kk);
                        } else {
                            assert(rv2[a] == rv[a] && rv2[b] == rv[b]);
                        }
                    }
                    assert forall|x: Seq<char>|
                        rv2.contains(x) <==> (ks.take(i + 1).contains(x) && m@[x] is Json) by {
                        if rv2.contains(x) && !rv.contains(x) {
                            let j = rv2.index_of(x);
                            assert(j == rv.len());
                        }
                        if rv.contains(x) {
                            let j = rv.index_of(x);
                            assert(rv2[j] == x);
                        }
                        if ks.take(i + 1).contains(x) && !ks.take(i as int).contains(x) {
                            assert(s1.contains(x));
                            assert(x == kk);
                            assert(rv2[rv.len() as int] == x);
                        }
                        if ks.take(i as int).contains(x) {
                            assert(s1.contains(x));
                        }
                    }
                }
            },
        }
        i = i + 1;
    }
    proof {
        assert(ks.take(n as int) =~= ks);
        assert forall|k: Seq<char>| target.contains_key(k) implies ks.to_set().contains(k) by {
            assert(ks.contains(k));
        }
        assert(target.restrict(ks.to_set()) =~= target);
    }
    proof {
        assert forall|x: Seq<char>| #[trigger] strings_view(rejected@).contains(x) <==> (
            m@.contains_key(x) && m@[x] is Json) by {
            assert(ks.take(n as int).contains(x) <==> ks.contains(x));
        }
    }
    Some(KeyringEnvVars { env_vars, rejected })
}

} // verus!
