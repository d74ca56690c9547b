//! Aliases: variables that take the value of another variable.
use vstd::prelude::*;

use crate::library::utils::env_vars::{get_from_all, lookup_all};
use crate::library::utils::str_map::{EnvVarsMap, StringMap};
use crate::library::utils::text::push_str;
use crate::models::full_config::FullConfig;

verus! {

/// The value an alias to `target` takes, if `target` is found.
pub open spec fn alias_target_value(
    target: Seq<char>,
    local: Map<Seq<char>, (Seq<char>, Seq<char>)>,
    process: Map<Seq<char>, (Seq<char>, Seq<char>)>,
    sources: Map<Seq<char>, (Seq<char>, Seq<char>)>,
    keyring: Map<Seq<char>, (Seq<char>, Seq<char>)>,
) -> Option<Seq<char>> {
    lookup_all(target, Map::empty(), local, process, keyring, sources)
}

/// Each alias whose target is found, with the target's value and the
/// source `aliased to TARGET`.
pub open spec fn aliased(
    aliases: Map<Seq<char>, Seq<char>>,
    local: Map<Seq<char>, (Seq<char>, Seq<char>)>,
    process: Map<Seq<char>, (Seq<char>, Seq<char>)>,
    sources: Map<Seq<char>, (Seq<char>, Seq<char>)>,
    keyring: Map<Seq<char>, (Seq<char>, Seq<char>)>,
) -> Map<Seq<char>, (Seq<char>, Seq<char>)> {
    Map::new(
        |k: Seq<char>|
            aliases.contains_key(k) && alias_target_value(
                aliases[k],
                local,
                process,
                sources,
                keyring,
            ) is Some,
        |k: Seq<char>|
            (
                alias_target_value(aliases[k], local, process, sources, keyring).unwrap(),
                "aliased to "@ + aliases[k],
            ),
    )
}

/// The aliases whose target is not found, with their target.
pub open spec fn unresolved(
    aliases: Map<Seq<char>, Seq<char>>,
    local: Map<Seq<char>, (Seq<char>, Seq<char>)>,
    process: Map<Seq<char>, (Seq<char>, Seq<char>)>,
    sources: Map<Seq<char>, (Seq<char>, Seq<char>)>,
    keyring: Map<Seq<char>, (Seq<char>, Seq<char>)>,
) -> Map<Seq<char>, Seq<char>> {
    Map::new(
        |k: Seq<char>|
            aliases.contains_key(k) && alias_target_value(
                aliases[k],
                local,
                process,
                sources,
                keyring,
            ) is None,
        |k: Seq<char>| aliases[k],
    )
}

/// Every alias is either resolved or reported, never both.
pub proof fn lemma_aliases_partitioned(
    aliases: Map<Seq<char>, Seq<char>>,
    local: Map<Seq<char>, (Seq<char>, Seq<char>)>,
    process: Map<Seq<char>, (Seq<char>, Seq<char>)>,
    sources: Map<Seq<char>, (Seq<char>, Seq<char>)>,
    keyring: Map<Seq<char>, (Seq<char>, Seq<char>)>,
)
    ensures
        aliased(aliases, local, process, sources, keyring).dom() + unresolved(
            aliases,
            local,
            process,
            sources,
            keyring,
        ).dom() == aliases.dom(),
        aliased(aliases, local, process, sources, keyring).dom().disjoint(
            unresolved(aliases, local, process, sources, keyring).dom(),
        ),
{
    assert(aliased(aliases, local, process, sources, keyring).dom() + unresolved(
        aliases,
        local,
        process,
        sources,
        keyring,
    ).dom() =~= aliases.dom());
}

/// Resolves the aliases of `config`: the variables they define, and the
/// aliases that were skipped because their target was not found.
pub fn add(
    config: &FullConfig,
    local_env_vars_map: &EnvVarsMap,
    process_env_vars_map: &EnvVarsMap,
    sources_env_vars_map: &EnvVarsMap,
    keyring_env_vars_map: &EnvVarsMap,
) -> (r: (EnvVarsMap, StringMap))
    ensures
        r.0@ == aliased(
            config.aliases@,
            local_env_vars_map@,
            process_env_vars_map@,
            sources_env_vars_map@,
            keyring_env_vars_map@,
        ),
        r.1@ == unresolved(
            config.aliases@,
            local_env_vars_map@,
            process_env_vars_map@,
            sources_env_vars_map@,
            keyring_env_vars_map@,
        ),
{
    let ghost good = aliased(
        config.aliases@,
        local_env_vars_map@,
        process_env_vars_map@,
        sources_env_vars_map@,
        keyring_env_vars_map@,
    );
    let ghost bad = unresolved(
        config.aliases@,
        local_env_vars_map@,
        process_env_vars_map@,
        sources_env_vars_map@,
        keyring_env_vars_map@,
    );
    let empty = EnvVarsMap::new();
    let mut aliases_env_vars_map = EnvVarsMap::new();
    let mut skipped = StringMap::new();
    let n = config.aliases.len();
    let ghost ks = config.aliases.key_seq();
    let mut i: usize = 0;
    while i < n
        invariant
            n == ks.len(),
            ks == config.aliases.key_seq(),
            i <= n,
            empty@ == Map::<Seq<char>, (Seq<char>, Seq<char>)>::empty(),
            forall|k: Seq<char>| config.aliases@.contains_key(k) <==> ks.contains(k),
            good == aliased(
                config.aliases@,
                local_env_vars_map@,
                process_env_vars_map@,
                sources_env_vars_map@,
                keyring_env_vars_map@,
            ),
            bad == unresolved(
                config.aliases@,
                local_env_vars_map@,
                process_env_vars_map@,
                sources_env_vars_map@,
                keyring_env_vars_map@,
            ),
            aliases_env_vars_map@ == good.restrict(ks.take(i as int).to_set()),
            skipped@ == bad.restrict(ks.take(i as int).to_set()),
        decreases n - i,
    {
        let key = config.aliases.key_at(i);
        let value = config.aliases.value_at(i);
        let ghost s0 = ks.take(i as int).to_set();
        let ghost s1 = ks.take(i + 1).to_set();
        proof {
            assert(ks.take(i + 1) =~= ks.take(i as int).push(ks[i as int]));
            ks.take(i as int).lemma_push_to_set_commute(ks[i as int]);
            assert(s1 =~= s0.insert(ks[i as int]));
            assert(ks.contains(ks[i as int]));
        }
        match get_from_all(
            value.as_str(),
            &empty,
            local_env_vars_map,
            process_env_vars_map,
            keyring_env_vars_map,
            sources_env_vars_map,
        ) {
            Some(alias_value) => {
                let mut source = String::new();
                push_str(&mut source, "aliased to ");
                push_str(&mut source, value.as_str());
                aliases_env_vars_map.insert(key.clone(), (alias_value, source));
                proof {
                    assert(good.restrict(s1) =~= good.restrict(s0).insert(
                        ks[i as int],
                        good[ks[i as int]],
                    ));
                    assert(bad.restrict(s1) =~= bad.restrict(s0));
                }
            },
            None => {
                skipped.insert(key.clone(), value.clone());
                proof {
                    assert(bad.restrict(s1) =~= bad.restrict(s0).insert(
                        ks[i as int],
                        bad[ks[i as int]],
                    ));
                    assert(good.restrict(s1) =~= good.restrict(s0));
                }
            },
        }
        i = i + 1;
    }
    proof {
        assert(ks.take(n as int) =~= ks);
        assert forall|k: Seq<char>| good.contains_key(k) implies ks.to_set().contains(k) by {
            assert(ks.contains(k));
        }
        assert forall|k: Seq<char>| bad.contains_key(k) implies ks.to_set().contains(k) by {
            assert(ks.contains(k));
        }
        assert(good.restrict(ks.to_set()) =~= good);
        assert(bad.restrict(ks.to_set()) =~= bad);
    }
    (aliases_env_vars_map, skipped)
}

/// An alias takes the value of its target from the first source that
/// defines the target, in the order `.env` file, process, secrets sources,
/// keyring, with the source `aliased to TARGET`; it is reported as
/// unresolved, with its target, exactly when no source defines the target.
/// A name that is not an alias is neither resolved nor reported.
pub proof fn lemma_alias_takes_first_defined_value(
    aliases: Map<Seq<char>, Seq<char>>,
    local: Map<Seq<char>, (Seq<char>, Seq<char>)>,
    process: Map<Seq<char>, (Seq<char>, Seq<char>)>,
    sources: Map<Seq<char>, (Seq<char>, Seq<char>)>,
    keyring: Map<Seq<char>, (Seq<char>, Seq<char>)>,
    k: Seq<char>,
)
    ensures
        !aliases.contains_key(k) ==> !aliased(aliases, local, process, sources, keyring).contains_key(k)
            && !unresolved(aliases, local, process, sources, keyring).contains_key(k),
        aliases.contains_key(k) ==> (aliased(aliases, local, process, sources, keyring).contains_key(k)
            <==> (local.contains_key(aliases[k]) || process.contains_key(aliases[k])
            || sources.contains_key(aliases[k]) || keyring.contains_key(aliases[k]))),
        aliases.contains_key(k) ==> (unresolved(aliases, local, process, sources, keyring).contains_key(k)
            <==> !(local.contains_key(aliases[k]) || process.contains_key(aliases[k])
            || sources.contains_key(aliases[k]) || keyring.contains_key(aliases[k]))),
        unresolved(aliases, local, process, sources, keyring).contains_key(k) ==> unresolved(
            aliases,
            local,
            process,
            sources,
            keyring,
        )[k] == aliases[k],
        aliased(aliases, local, process, sources, keyring).contains_key(k) ==> aliased(
            aliases,
            local,
            process,
            sources,
            keyring,
        )[k].1 == "aliased to "@ + aliases[k],
        aliases.contains_key(k) && local.contains_key(aliases[k]) ==> aliased(
            aliases,
            local,
            process,
            sources,
            keyring,
        )[k].0 == local[aliases[k]].0,
        aliases.contains_key(k) && !local.contains_key(aliases[k]) && process.contains_key(
            aliases[k],
        ) ==> aliased(aliases, local, process, sources, keyring)[k].0 == process[aliases[k]].0,
        aliases.contains_key(k) && !local.contains_key(aliases[k]) && !process.contains_key(
            aliases[k],
        ) && sources.contains_key(aliases[k]) ==> aliased(aliases, local, process, sources, keyring)[k].0
            == sources[aliases[k]].0,
        aliases.contains_key(k) && !local.contains_key(aliases[k]) && !process.contains_key(
            aliases[k],
        ) && !sources.contains_key(aliases[k]) && keyring.contains_key(aliases[k]) ==> aliased(
            aliases,
            local,
            process,
            sources,
            keyring,
        )[k].0 == keyring[aliases[k]].0,
{
}

} // verus!
