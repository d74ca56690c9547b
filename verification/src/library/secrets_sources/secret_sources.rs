//! Combining the variables of all sources into one map.
use vstd::prelude::*;

use crate::library::utils::env_vars::lookup_all;
use crate::library::utils::str_map::{EnvVarsMap, StringMap};
use crate::models::full_config::FullConfig;
use crate::models::secret_source::SecretsSource;

use super::aliases;

verus! {

/// Whether some source is a Bitwarden source, whose command-line client
/// must then be installed (every source is one, so: whether there is any).
pub fn check(config: &FullConfig) -> (r: bool)
    ensures
        r <==> config.secrets_sources@.len() > 0,
        r <==> exists|i: int|
            0 <= i < config.secrets_sources@.len() && (#[trigger] config.secrets_sources@[i]) is Bitwarden,
        r ==> config.secrets_sources@[0] is Bitwarden,
{
    let mut check_bitwarden_installation = false;
    let mut i: usize = 0;
    while i < config.secrets_sources.len()
        invariant
            i <= config.secrets_sources@.len(),
            check_bitwarden_installation <==> i > 0,
        decreases config.secrets_sources.len() - i,
    {
        match &config.secrets_sources[i] {
            SecretsSource::Bitwarden(_) => {
                check_bitwarden_installation = true;
            },
        }
        i = i + 1;
    }
    proof {
        if config.secrets_sources@.len() > 0 {
            match config.secrets_sources@[0] {
                SecretsSource::Bitwarden(_) => {},
            }
        }
    }
    check_bitwarden_installation
}

/// The map of `pairs`, each value tagged with `source`; a later pair wins.
pub open spec fn tagged_map(pairs: Seq<(Seq<char>, Seq<char>)>, source: Seq<char>) -> Map<
    Seq<char>,
    (Seq<char>, Seq<char>),
>
    decreases pairs.len(),
{
    if pairs.len() == 0 {
        Map::empty()
    } else {
        tagged_map(pairs.drop_last(), source).insert(pairs.last().0, (pairs.last().1, source))
    }
}

/// The variables `pairs`, each tagged with `source`.
pub fn from_pairs(pairs: &Vec<(String, String)>, source: &str) -> (r: EnvVarsMap)
    ensures
        r@ == tagged_map(pairs@.map_values(|p: (String, String)| p@), source@),
{
    let ghost ps = pairs@.map_values(|p: (String, String)| p@);
    let mut r = EnvVarsMap::new();
    let mut i: usize = 0;
    while i < pairs.len()
        invariant
            ps == pairs@.map_values(|p: (String, String)| p@),
            i <= pairs@.len(),
            r@ == tagged_map(ps.take(i as int), source@),
        decreases pairs.len() - i,
    {
        let (k, v) = (pairs[i].0.clone(), pairs[i].1.clone());
        r.insert(k, (v, source.to_owned()));
        proof {
            assert(ps.take(i + 1).drop_last() =~= ps.take(i as int));
        }
        i = i + 1;
    }
    assert(ps.take(pairs@.len() as int) =~= ps);
    r
}

/// The process variables that some other source also defines; a value of
/// the `.env` file or of an alias takes the place of the process value.
pub open spec fn clean_process(
    aliases: Map<Seq<char>, (Seq<char>, Seq<char>)>,
    local: Map<Seq<char>, (Seq<char>, Seq<char>)>,
    process: Map<Seq<char>, (Seq<char>, Seq<char>)>,
    sources: Map<Seq<char>, (Seq<char>, Seq<char>)>,
    keyring: Map<Seq<char>, (Seq<char>, Seq<char>)>,
) -> Map<Seq<char>, (Seq<char>, Seq<char>)> {
    Map::new(
        |k: Seq<char>|
            process.contains_key(k) && (keyring.contains_key(k) || sources.contains_key(k)
                || local.contains_key(k) || aliases.contains_key(k)),
        |k: Seq<char>|
            if aliases.contains_key(k) {
                aliases[k]
            } else if local.contains_key(k) {
                local[k]
            } else {
                process[k]
            },
    )
}

/// The keys of `from` that `process` also has, with the value of `from`
/// (`own_value`) or of `process`.
pub open spec fn shared_with_process(
    from: Map<Seq<char>, (Seq<char>, Seq<char>)>,
    process: Map<Seq<char>, (Seq<char>, Seq<char>)>,
    own_value: bool,
) -> Map<Seq<char>, (Seq<char>, Seq<char>)> {
    Map::new(
        |k: Seq<char>| from.contains_key(k) && process.contains_key(k),
        |k: Seq<char>|
            if own_value {
                from[k]
            } else {
                process[k]
            },
    )
}

fn insert_shared(dst: &mut EnvVarsMap, from: &EnvVarsMap, process: &EnvVarsMap, own_value: bool)
    ensures
        final(dst)@ == old(dst)@.union_prefer_right(
            shared_with_process(from@, process@, own_value),
        ),
{
    let n = from.len();
    let ghost ks = from.key_seq();
    let ghost sh = shared_with_process(from@, process@, own_value);
    let mut i: usize = 0;
    while i < n
        invariant
            n == ks.len(),
            ks == from.key_seq(),
            sh == shared_with_process(from@, process@, own_value),
            i <= n,
            forall|k: Seq<char>| from@.contains_key(k) <==> ks.contains(k),
            dst@ == old(dst)@.union_prefer_right(sh.restrict(ks.take(i as int).to_set())),
        decreases n - i,
    {
        let key = from.key_at(i);
        let ghost s0 = ks.take(i as int).to_set();
        let ghost s1 = ks.take(i + 1).to_set();
        proof {
            assert(ks.take(i + 1) =~= ks.take(i as int).push(ks[i as int]));
            ks.take(i as int).lemma_push_to_set_commute(ks[i as int]);
            assert(s1 =~= s0.insert(ks[i as int]));
            assert(ks.contains(ks[i as int]));
        }
        match process.get(key.as_str()) {
            Some(pv) => {
                if own_value {
                    let v = from.value_at(i);
                    dst.insert(key.clone(), (v.0.clone(), v.1.clone()));
                } else {
                    dst.insert(key.clone(), (pv.0.clone(), pv.1.clone()));
                }
                proof {
                    assert(sh.restrict(s1) =~= sh.restrict(s0).insert(ks[i as int], sh[ks[i as int]]));
                    assert(dst@ =~= old(dst)@.union_prefer_right(sh.restrict(s1)));
                }
            },
            None => {
                proof {
                    assert(sh.restrict(s1) =~= sh.restrict(s0));
                }
            },
        }
        i = i + 1;
    }
    proof {
        assert(ks.take(n as int) =~= ks);
        assert forall|k: Seq<char>| sh.contains_key(k) implies ks.to_set().contains(k) by {
            assert(ks.contains(k));
        }
        assert(sh.restrict(ks.to_set()) =~= sh);
    }
}

/// Get the process environment variables that are also defined in other sources
pub fn get_clean_process_env_vars(
    aliases_env_vars: &EnvVarsMap,
    local_env_vars: &EnvVarsMap,
    process_env_vars: &EnvVarsMap,
    sources_env_vars: &EnvVarsMap,
    keyring_env_vars: &EnvVarsMap,
) -> (r: EnvVarsMap)
    ensures
        r@ == clean_process(
            aliases_env_vars@,
            local_env_vars@,
            process_env_vars@,
            sources_env_vars@,
            keyring_env_vars@,
        ),
{
    let mut clean = EnvVarsMap::new();
    insert_shared(&mut clean, keyring_env_vars, process_env_vars, false);
    insert_shared(&mut clean, sources_env_vars, process_env_vars, false);
    // From here on, the other sources override the process variables.
    insert_shared(&mut clean, local_env_vars, process_env_vars, true);
    insert_shared(&mut clean, aliases_env_vars, process_env_vars, true);
    assert(clean@ =~= clean_process(
        aliases_env_vars@,
        local_env_vars@,
        process_env_vars@,
        sources_env_vars@,
        keyring_env_vars@,
    ));
    clean
}

/// All variables, each source overriding the ones before it: keyring,
/// secrets sources, process (where shared), `.env` file, aliases.
pub open spec fn produced(
    aliases: Map<Seq<char>, (Seq<char>, Seq<char>)>,
    local: Map<Seq<char>, (Seq<char>, Seq<char>)>,
    process: Map<Seq<char>, (Seq<char>, Seq<char>)>,
    sources: Map<Seq<char>, (Seq<char>, Seq<char>)>,
    keyring: Map<Seq<char>, (Seq<char>, Seq<char>)>,
) -> Map<Seq<char>, (Seq<char>, Seq<char>)> {
    keyring.union_prefer_right(sources).union_prefer_right(
        clean_process(aliases, local, process, sources, keyring),
    ).union_prefer_right(local).union_prefer_right(aliases)
}

/// Merges the maps of all sources in the order of `produced`.
pub fn produce_env_vars_map(
    aliases_env_vars: &EnvVarsMap,
    local_env_vars: &EnvVarsMap,
    process_env_vars: &EnvVarsMap,
    sources_env_vars: &EnvVarsMap,
    keyring_env_vars: &EnvVarsMap,
) -> (r: EnvVarsMap)
    ensures
        r@ == produced(
            aliases_env_vars@,
            local_env_vars@,
            process_env_vars@,
            sources_env_vars@,
            keyring_env_vars@,
        ),
{
    let mut env_vars_map = EnvVarsMap::new();
    let clean_process_env_vars = get_clean_process_env_vars(
        aliases_env_vars,
        local_env_vars,
        process_env_vars,
        sources_env_vars,
        keyring_env_vars,
    );
    env_vars_map.update(keyring_env_vars);
    env_vars_map.update(sources_env_vars);
    env_vars_map.update(&clean_process_env_vars);
    env_vars_map.update(local_env_vars);
    env_vars_map.update(aliases_env_vars);
    assert(Map::<Seq<char>, (Seq<char>, Seq<char>)>::empty().union_prefer_right(keyring_env_vars@)
        =~= keyring_env_vars@);
    env_vars_map
}

/// The combined map holds exactly the variables that the aliases, the
/// `.env` file, the secrets sources or the keyring define (process
/// variables only where another source defines them too), and each with the
/// value that `get_from_all` finds first.
pub proof fn lemma_produced_agrees_with_lookup(
    aliases: Map<Seq<char>, (Seq<char>, Seq<char>)>,
    local: Map<Seq<char>, (Seq<char>, Seq<char>)>,
    process: Map<Seq<char>, (Seq<char>, Seq<char>)>,
    sources: Map<Seq<char>, (Seq<char>, Seq<char>)>,
    keyring: Map<Seq<char>, (Seq<char>, Seq<char>)>,
    name: Seq<char>,
)
    ensures
        produced(aliases, local, process, sources, keyring).contains_key(name) <==> (
        aliases.contains_key(name) || local.contains_key(name) || sources.contains_key(name)
            || keyring.contains_key(name)),
        produced(aliases, local, process, sources, keyring).contains_key(name) ==> Some(
            produced(aliases, local, process, sources, keyring)[name].0,
        ) == lookup_all(name, aliases, local, process, keyring, sources),
{
}

/// Combines the variables read from every source: aliases are resolved,
/// then all maps are merged by `produce_env_vars_map`. Also gives the
/// aliases whose target was not found (alias name to target).
pub fn sync(
    config: &FullConfig,
    local_env_vars_map: &EnvVarsMap,
    process_env_vars_map: &EnvVarsMap,
    keyring_env_vars_map: &EnvVarsMap,
    sources_env_vars_map: &EnvVarsMap,
) -> (r: (EnvVarsMap, StringMap))
    ensures
        r.0@ == produced(
            aliases::aliased(
                config.aliases@,
                local_env_vars_map@,
                process_env_vars_map@,
                sources_env_vars_map@,
                keyring_env_vars_map@,
            ),
            local_env_vars_map@,
            process_env_vars_map@,
            sources_env_vars_map@,
            keyring_env_vars_map@,
        ),
        r.1@ == aliases::unresolved(
            config.aliases@,
            local_env_vars_map@,
            process_env_vars_map@,
            sources_env_vars_map@,
            keyring_env_vars_map@,
        ),
{
    let (aliases_env_vars, skipped) = aliases::add(
        config,
        local_env_vars_map,
        process_env_vars_map,
        sources_env_vars_map,
        keyring_env_vars_map,
    );
    let env_vars_map = produce_env_vars_map(
        &aliases_env_vars,
        local_env_vars_map,
        process_env_vars_map,
        sources_env_vars_map,
        keyring_env_vars_map,
    );
    (env_vars_map, skipped)
}

/// The variables of the secrets sources, in the order of the
/// configuration: a later source overrides an earlier one.
pub open spec fn sources_merged(maps: Seq<Map<Seq<char>, (Seq<char>, Seq<char>)>>) -> Map<
    Seq<char>,
    (Seq<char>, Seq<char>),
>
    decreases maps.len(),
{
    if maps.len() == 0 {
        Map::empty()
    } else {
        sources_merged(maps.drop_last()).union_prefer_right(maps.last())
    }
}

/// Combines the variables read from each secrets source, in order.
pub fn merge_sources(maps: &Vec<EnvVarsMap>) -> (r: EnvVarsMap)
    ensures
        r@ == sources_merged(maps@.map_values(|m: EnvVarsMap| m@)),
{
    let ghost mv = maps@.map_values(|m: EnvVarsMap| m@);
    let mut r = EnvVarsMap::new();
    let mut i: usize = 0;
    while i < maps.len()
        invariant
            mv == maps@.map_values(|m: EnvVarsMap| m@),
            i <= maps@.len(),
            r@ == sources_merged(mv.take(i as int)),
        decreases maps.len() - i,
    {
        r.update(&maps[i]);
        proof {
            assert(mv.take(i + 1).drop_last() =~= mv.take(i as int));
            assert(mv.take(i + 1).last() == maps@[i as int]@);
        }
        i = i + 1;
    }
    assert(mv.take(maps@.len() as int) =~= mv);
    r
}

} // verus!
