//! The full configuration: the user configuration overridden by the
//! project configuration.
use vstd::prelude::*;

use crate::library::utils::str_map::{Duplicate, StringMap};
use crate::models::full_config::FullConfig;
use crate::models::project_config::ProjectConfig;
use crate::models::secret_source::{SecretsSource, SecretsSourceView};
use crate::models::user_config::UserConfig;

verus! {

/// The sources as values.
pub open spec fn sources_view(v: Seq<SecretsSource>) -> Seq<SecretsSourceView> {
    v.map_values(|s: SecretsSource| s@)
}

/// One step of the merge: a source already present makes the entry at
/// position `index` leave and the source be added twice; another source is
/// added once.
pub open spec fn merge_step(full: Seq<SecretsSourceView>, index: int, s: SecretsSourceView) -> Seq<
    SecretsSourceView,
> {
    if full.contains(s) {
        full.remove(index).push(s).push(s)
    } else {
        full.push(s)
    }
}

/// The merge of `b` into `a`, step by step.
pub open spec fn merged(a: Seq<SecretsSourceView>, b: Seq<SecretsSourceView>) -> Seq<
    SecretsSourceView,
>
    decreases b.len(),
{
    if b.len() == 0 {
        a
    } else {
        merge_step(merged(a, b.drop_last()), b.len() - 1, b.last())
    }
}

/// The number of sources of `b` that were already present when merged.
pub open spec fn replaced_count(a: Seq<SecretsSourceView>, b: Seq<SecretsSourceView>) -> nat
    decreases b.len(),
{
    if b.len() == 0 {
        0
    } else {
        replaced_count(a, b.drop_last()) + if merged(a, b.drop_last()).contains(b.last()) {
            1nat
        } else {
            0nat
        }
    }
}

/// No source occurs twice.
pub open spec fn distinct_sources(b: Seq<SecretsSourceView>) -> bool {
    forall|i: int, j: int| 0 <= i < j < b.len() ==> b[i] != b[j]
}

/// Every step adds one entry in all; merged into nothing, distinct sources
/// stay as they are.
pub proof fn lemma_merged_len(a: Seq<SecretsSourceView>, b: Seq<SecretsSourceView>)
    requires
        a.len() > 0 || distinct_sources(b),
    ensures
        merged(a, b).len() == a.len() + b.len(),
        a.len() == 0 ==> merged(a, b) == b,
    decreases b.len(),
{
    if b.len() > 0 {
        let p = b.drop_last();
        assert(a.len() > 0 || distinct_sources(p)) by {
            if a.len() == 0 {
                assert forall|i: int, j: int| 0 <= i < j < p.len() implies p[i] != p[j] by {
                    assert(p[i] == b[i] && p[j] == b[j]);
                }
            }
        }
        lemma_merged_len(a, p);
        let m = merged(a, p);
        if a.len() == 0 {
            if m.contains(b.last()) {
                let w = choose|w: int| 0 <= w < m.len() && m[w] == b.last();
                assert(b[w] == b[b.len() - 1]);
            }
            assert(merged(a, b) =~= b);
        } else if m.contains(b.last()) {
            assert(b.len() - 1 < m.len());
        }
    }
}

fn contains_source(v: &Vec<SecretsSource>, s: &SecretsSource) -> (r: bool)
    ensures
        r == sources_view(v@).contains(s@),
{
    let ghost sv = sources_view(v@);
    let mut j: usize = 0;
    while j < v.len()
        invariant
            sv == sources_view(v@),
            j <= v@.len(),
            forall|k: int| 0 <= k < j ==> sv[k] != s@,
        decreases v.len() - j,
    {
        if v[j] == *s {
            assert(sv[j as int] == s@);
            return true;
        }
        j = j + 1;
    }
    false
}

/// Merges the sources of the second list into the first, as the full
/// configuration does (user sources first, then project sources). Gives
/// the merged list and how many sources were already present. The merge
/// removes the entry at the position of the source in the second list;
/// that position exists unless the first list is empty and the second
/// repeats a source, so those inputs are left out.
pub fn merge_secrets_sources(
    project_secrets_sources: &Vec<SecretsSource>,
    user_secrets_sources: &Vec<SecretsSource>,
) -> (r: (Vec<SecretsSource>, usize))
    requires
        project_secrets_sources@.len() > 0 || distinct_sources(sources_view(user_secrets_sources@)),
    ensures
        sources_view(r.0@) == merged(
            sources_view(project_secrets_sources@),
            sources_view(user_secrets_sources@),
        ),
        r.1 == replaced_count(
            sources_view(project_secrets_sources@),
            sources_view(user_secrets_sources@),
        ),
        r.0@.len() == project_secrets_sources@.len() + user_secrets_sources@.len(),
{
    let ghost a = sources_view(project_secrets_sources@);
    let ghost b = sources_view(user_secrets_sources@);
    let mut full_secrets_sources: Vec<SecretsSource> = Vec::new();
    let mut k: usize = 0;
    while k < project_secrets_sources.len()
        invariant
            k <= project_secrets_sources@.len(),
            sources_view(full_secrets_sources@) == sources_view(project_secrets_sources@).take(
                k as int,
            ),
        decreases project_secrets_sources.len() - k,
    {
        let ghost before = sources_view(full_secrets_sources@);
        full_secrets_sources.push(project_secrets_sources[k].duplicate());
        proof {
            assert(sources_view(full_secrets_sources@) =~= before.push(
                project_secrets_sources@[k as int]@,
            ));
            assert(sources_view(project_secrets_sources@).take(k + 1) =~= sources_view(
                project_secrets_sources@,
            ).take(k as int).push(project_secrets_sources@[k as int]@));
        }
        k = k + 1;
    }
    assert(a.take(a.len() as int) =~= a);
    let mut replaced_sources: usize = 0;
    let mut index: usize = 0;
    while index < user_secrets_sources.len()
        invariant
            a == sources_view(project_secrets_sources@),
            b == sources_view(user_secrets_sources@),
            a.len() > 0 || distinct_sources(b),
            index <= b.len(),
            sources_view(full_secrets_sources@) == merged(a, b.take(index as int)),
            replaced_sources == replaced_count(a, b.take(index as int)),
            replaced_sources <= index,
        decreases b.len() - index,
    {
        let source = &user_secrets_sources[index];
        let ghost cur = merged(a, b.take(index as int));
        proof {
            assert(b.take(index + 1).drop_last() =~= b.take(index as int));
            assert(b.take(index + 1).last() == b[index as int]);
            assert(a.len() > 0 || distinct_sources(b.take(index as int))) by {
                if a.len() == 0 {
                    assert forall|i: int, j: int|
                        0 <= i < j < b.take(index as int).len() implies b.take(index as int)[i]
                        != b.take(index as int)[j] by {
                        assert(b.take(index as int)[i] == b[i]);
                        assert(b.take(index as int)[j] == b[j]);
                    }
                }
            }
            lemma_merged_len(a, b.take(index as int));
        }
        if contains_source(&full_secrets_sources, source) {
            proof {
                if a.len() == 0 {
                    let w = choose|w: int| 0 <= w < cur.len() && cur[w] == source@;
                    assert(cur[w] == b[w]);
                    assert(b[w] != b[index as int]);
                }
                assert(index < cur.len());
            }
            replaced_sources = replaced_sources + 1;
            let _ = full_secrets_sources.remove(index);
            full_secrets_sources.push(source.duplicate());
            full_secrets_sources.push(source.duplicate());
            proof {
                assert(sources_view(full_secrets_sources@) =~= cur.remove(index as int).push(
                    source@,
                ).push(source@));
            }
        } else {
            full_secrets_sources.push(source.duplicate());
            proof {
                assert(sources_view(full_secrets_sources@) =~= cur.push(source@));
            }
        }
        index = index + 1;
    }
    proof {
        assert(b.take(b.len() as int) =~= b);
        lemma_merged_len(a, b);
    }
    (full_secrets_sources, replaced_sources)
}

/// `initial_map` with every entry of `override_map` put in (the override
/// wins on shared keys).
pub fn replace_hash_map(initial_map: &StringMap, override_map: &StringMap) -> (r: StringMap)
    ensures
        r@ == initial_map@.union_prefer_right(override_map@),
{
    let mut new_map = initial_map.copy();
    new_map.update(override_map);
    new_map
}

/// The full configuration: the general settings of the user; the user's
/// secrets sources merged with the project's; commands, pre-commands and
/// aliases of the user with those of the project taking precedence.
pub fn get(project_config: &ProjectConfig, user_config: &UserConfig) -> (r: FullConfig)
    requires
        user_config.secrets_sources@.len() > 0 || distinct_sources(
            sources_view(project_config.secrets_sources@),
        ),
    ensures
        r.general == user_config.general,
        sources_view(r.secrets_sources@) == merged(
            sources_view(user_config.secrets_sources@),
            sources_view(project_config.secrets_sources@),
        ),
        r.commands@ == user_config.commands@.union_prefer_right(project_config.commands@),
        r.pre_commands@ == user_config.pre_commands@.union_prefer_right(
            project_config.pre_commands@,
        ),
        r.aliases@ == user_config.aliases@.union_prefer_right(project_config.aliases@),
{
    let (secrets_sources, _) = merge_secrets_sources(
        &user_config.secrets_sources,
        &project_config.secrets_sources,
    );
    FullConfig {
        general: user_config.general,
        secrets_sources,
        commands: replace_hash_map(&user_config.commands, &project_config.commands),
        pre_commands: replace_hash_map(&user_config.pre_commands, &project_config.pre_commands),
        aliases: replace_hash_map(&user_config.aliases, &project_config.aliases),
    }
}

/// Merging the source `s` that stands at position `i` of the second list
/// into what the earlier sources gave: the entries before position `i`
/// never move; a source not yet present is added at the end and nothing
/// else changes; a source already present makes exactly the entry at
/// position `i` leave (the later entries move up one place, in order) and
/// is then added twice at the end.
pub proof fn lemma_merge_step_positions(a: Seq<SecretsSourceView>, b: Seq<SecretsSourceView>)
    requires
        b.len() > 0,
        a.len() > 0 || distinct_sources(b),
    ensures
        merged(a, b).len() == merged(a, b.drop_last()).len() + 1,
        forall|j: int|
            0 <= j < b.len() - 1 && j < merged(a, b.drop_last()).len() ==> #[trigger] merged(a, b)[j]
                == merged(a, b.drop_last())[j],
        !merged(a, b.drop_last()).contains(b.last()) ==> merged(a, b) == merged(
            a,
            b.drop_last(),
        ).push(b.last()),
        merged(a, b.drop_last()).contains(b.last()) ==> {
            &&& b.len() - 1 < merged(a, b.drop_last()).len()
            &&& forall|j: int|
                b.len() - 1 <= j < merged(a, b.drop_last()).len() - 1 ==> #[trigger] merged(a, b)[j]
                    == merged(a, b.drop_last())[j + 1]
            &&& merged(a, b)[merged(a, b.drop_last()).len() - 1] == b.last()
            &&& merged(a, b)[merged(a, b.drop_last()).len() as int] == b.last()
        },
{
    let p = b.drop_last();
    let m = merged(a, p);
    let i = b.len() - 1;
    assert(a.len() > 0 || distinct_sources(p)) by {
        if a.len() == 0 {
            assert forall|x: int, y: int| 0 <= x < y < p.len() implies p[x] != p[y] by {
                assert(p[x] == b[x] && p[y] == b[y]);
            }
        }
    }
    lemma_merged_len(a, p);
    if m.contains(b.last()) {
        if a.len() == 0 {
            let w = choose|w: int| 0 <= w < m.len() && m[w] == b.last();
            assert(b[w] == b[i]);
        }
        assert(i < m.len());
    }
}

} // verus!
