//! Bitwarden Secrets Manager: the access token, and the variables in the
//! `env` output of `bws secret list`.
use vstd::prelude::*;

use crate::library::utils::env_vars::{get_from_all, lookup_all};
use crate::library::utils::str_map::EnvVarsMap;
use crate::library::utils::text::{chars_of, opt_view, string_of_range};
use crate::models::secret_source::BitwardenCredentials;

verus! {

/// The access token: the variable that the credentials name, looked up in
/// the `.env` file, the process and the keyring.
pub fn access_token(
    credentials: &BitwardenCredentials,
    local_env_vars: &EnvVarsMap,
    process_env_vars: &EnvVarsMap,
    keyring_env_vars: &EnvVarsMap,
) -> (r: Option<String>)
    ensures
        opt_view(r) == lookup_all(
            credentials.access_token_name@,
            Map::empty(),
            local_env_vars@,
            process_env_vars@,
            keyring_env_vars@,
            Map::empty(),
        ),
{
    let empty = EnvVarsMap::new();
    get_from_all(
        credentials.access_token_name.as_str(),
        &empty,
        local_env_vars,
        process_env_vars,
        keyring_env_vars,
        &empty,
    )
}

/// `[A-Z0-9_]`.
pub open spec fn key_char(c: char) -> bool {
    ||| 65 <= (c as int) <= 90
    ||| 48 <= (c as int) <= 57
    ||| c == '_'
}

/// The end of the run of key characters that starts at `i`.
pub open spec fn key_run_end(l: Seq<char>, i: int) -> int
    decreases l.len() - i,
{
    if 0 <= i < l.len() && key_char(l[i]) {
        key_run_end(l, i + 1)
    } else {
        i
    }
}

/// A run of key characters stays within the line.
pub proof fn lemma_key_run_end(l: Seq<char>, i: int)
    requires
        0 <= i <= l.len(),
    ensures
        i <= key_run_end(l, i) <= l.len(),
        forall|j: int| i <= j < key_run_end(l, i) ==> key_char(#[trigger] l[j]),
    decreases l.len() - i,
{
    if i < l.len() && key_char(l[i]) {
        lemma_key_run_end(l, i + 1);
    }
}

/// The last position not after `j` that holds `c`, or -1.
pub open spec fn last_index_of(l: Seq<char>, c: char, j: int) -> int
    decreases j + 1,
{
    if j < 0 {
        -1
    } else if j < l.len() && l[j] == c {
        j
    } else {
        last_index_of(l, c, j - 1)
    }
}

/// A line `KEY="VALUE"...`: the match of `^([A-Z0-9_]+)="(.+)"` (the value
/// runs to the last quote of the line and is not empty).
pub open spec fn env_line(l: Seq<char>) -> Option<(Seq<char>, Seq<char>)> {
    let ke = key_run_end(l, 0);
    if ke > 0 && ke + 1 < l.len() && l[ke] == '=' && l[ke + 1] == '"' {
        let q = last_index_of(l, '"', l.len() - 1);
        if q > ke + 2 {
            Some((l.subrange(0, ke), l.subrange(ke + 2, q)))
        } else {
            None
        }
    } else {
        None
    }
}

/// The first `\n` at or after `i`, or the end of `t`.
pub open spec fn newline_from(t: Seq<char>, i: int) -> int
    decreases t.len() - i,
{
    if 0 <= i < t.len() && t[i] != '\n' {
        newline_from(t, i + 1)
    } else {
        i
    }
}

/// The line that starts at `i` holds no line break.
pub proof fn lemma_newline_from(t: Seq<char>, i: int)
    requires
        0 <= i <= t.len(),
    ensures
        i <= newline_from(t, i) <= t.len(),
        newline_from(t, i) < t.len() ==> t[newline_from(t, i)] == '\n',
        forall|j: int| i <= j < newline_from(t, i) ==> #[trigger] t[j] != '\n',
    decreases t.len() - i,
{
    if i < t.len() && t[i] != '\n' {
        lemma_newline_from(t, i + 1);
    }
}

/// The line from `i` to the line break at `e`, as `str::lines` gives it
/// (without `\r` before a `\n`).
pub open spec fn line_at(t: Seq<char>, i: int, e: int) -> Seq<char> {
    if i < e < t.len() && t[e - 1] == '\r' {
        t.subrange(i, e - 1)
    } else {
        t.subrange(i, e)
    }
}

/// The variables of the lines of `t` from position `i` on, added to `m`;
/// a later line wins.
pub open spec fn parsed_from(
    t: Seq<char>,
    i: int,
    m: Map<Seq<char>, (Seq<char>, Seq<char>)>,
) -> Map<Seq<char>, (Seq<char>, Seq<char>)>
    decreases t.len() + 1 - i,
{
    if i < 0 || i >= t.len() {
        m
    } else {
        let e = newline_from(t, i);
        proof {
            lemma_newline_from(t, i);
        }
        let m2 = match env_line(line_at(t, i, e)) {
            Some(kv) => m.insert(kv.0, (kv.1, "bitwarden"@)),
            None => m,
        };
        parsed_from(t, e + 1, m2)
    }
}

/// The variables in the `env` output of `bws secret list`.
pub open spec fn parsed_output(t: Seq<char>) -> Map<Seq<char>, (Seq<char>, Seq<char>)> {
    parsed_from(t, 0, Map::empty())
}

proof fn lemma_key_run_end_exact(l: Seq<char>, i: int, k: int)
    requires
        0 <= i <= k < l.len(),
        forall|j: int| i <= j < k ==> key_char(#[trigger] l[j]),
        !key_char(l[k]),
    ensures
        key_run_end(l, i) == k,
    decreases k - i,
{
    if i < k {
        lemma_key_run_end_exact(l, i + 1, k);
    }
}

/// What a line `KEY="VALUE"` says is read back: a key of `[A-Z0-9_]` and
/// a value that is not empty and holds no line break give back that key
/// with that value and the source `bitwarden`.
pub proof fn lemma_env_line_round_trip(key: Seq<char>, value: Seq<char>)
    requires
        key.len() > 0,
        forall|i: int| 0 <= i < key.len() ==> key_char(#[trigger] key[i]),
        value.len() > 0,
        !value.contains('\n'),
    ensures
        env_line(key + "=\""@ + value + "\""@) == Some((key, value)),
        parsed_output(key + "=\""@ + value + "\""@) == Map::<Seq<char>, (Seq<char>, Seq<char>)>::empty().insert(
            key,
            (value, "bitwarden"@),
        ),
{
    let l = key + "=\""@ + value + "\""@;
    reveal_strlit("=\"");
    reveal_strlit("\"");
    let n = l.len() as int;
    assert(n == key.len() + value.len() + 3);
    assert(l[key.len() as int] == '=');
    assert(l[key.len() + 1int] == '"');
    assert(l[n - 1] == '"');
    assert forall|j: int| 0 <= j < key.len() implies key_char(#[trigger] l[j]) by {
        assert(l[j] == key[j]);
    }
    lemma_key_run_end_exact(l, 0, key.len() as int);
    assert(last_index_of(l, '"', n - 1) == n - 1);
    assert(l.subrange(0, key.len() as int) =~= key);
    assert(l.subrange(key.len() + 2int, n - 1) =~= value);
    assert forall|j: int| 0 <= j < n implies #[trigger] l[j] != '\n' by {
        if key.len() + 2 <= j < n - 1 {
            assert(l[j] == value[j - key.len() - 2]);
        } else if j < key.len() {
            assert(l[j] == key[j]);
        }
    }
    lemma_newline_exact(l, 0);
    assert(line_at(l, 0, n) =~= l);
    assert(parsed_from(l, n + 1int, Map::empty().insert(key, (value, "bitwarden"@))) == Map::<
        Seq<char>,
        (Seq<char>, Seq<char>),
    >::empty().insert(key, (value, "bitwarden"@)));
}

proof fn lemma_newline_exact(t: Seq<char>, i: int)
    requires
        0 <= i <= t.len(),
        forall|j: int| 0 <= j < t.len() ==> #[trigger] t[j] != '\n',
    ensures
        newline_from(t, i) == t.len(),
    decreases t.len() - i,
{
    if i < t.len() {
        lemma_newline_exact(t, i + 1);
    }
}

/// Parses one line.
fn parse_line(l: &Vec<char>) -> (r: Option<(String, String)>)
    ensures
        match r {
            Some(kv) => env_line(l@) == Some((kv.0@, kv.1@)),
            None => env_line(l@) is None,
        },
{
    let n = l.len();
    let mut ke: usize = 0;
    while ke < n && (('A' <= l[ke] && l[ke] <= 'Z') || ('0' <= l[ke] && l[ke] <= '9') || l[ke]
        == '_')
        invariant
            ke <= n,
            n == l@.len(),
            key_run_end(l@, 0) == key_run_end(l@, ke as int),
        decreases n - ke,
    {
        ke = ke + 1;
    }
    assert(key_run_end(l@, ke as int) == ke);
    if ke > 0 && n - ke > 1 && l[ke] == '=' && l[ke + 1] == '"' {
        let mut j: usize = n;
        while j > 0 && l[j - 1] != '"'
            invariant
                j <= n,
                n == l@.len(),
                n > 0,
                last_index_of(l@, '"', n - 1) == last_index_of(l@, '"', j - 1),
            decreases j,
        {
            j = j - 1;
        }
        // `j - 1` is the last quote, or `j == 0` when there is none.
        if j > ke && j - ke > 3 {
            let key = string_of_range(l, 0, ke);
            let value = string_of_range(l, ke + 2, j - 1);
            Some((key, value))
        } else {
            None
        }
    } else {
        None
    }
}

/// The variables in the `env` output of `bws secret list`: each line
/// `KEY="VALUE"` gives `KEY` the value `VALUE` and the source `bitwarden`;
/// other lines are ignored, and a later line wins.
pub fn get_env_variables(output: &str) -> (r: EnvVarsMap)
    ensures
        r@ == parsed_output(output@),
        forall|k: Seq<char>| #[trigger] r@.contains_key(k) ==> k.len() > 0 && forall|i: int|
            0 <= i < k.len() ==> key_char(#[trigger] k[i]),
{
    let t = chars_of(output);
    let n = t.len();
    let mut env_vars = EnvVarsMap::new();
    let mut i: usize = 0;
    while i < n
        invariant
            t@ == output@,
            n == t@.len(),
            i <= n,
            parsed_from(output@, i as int, env_vars@) == parsed_output(output@),
            forall|k: Seq<char>| #[trigger] env_vars@.contains_key(k) ==> k.len() > 0 && forall|j: int|
                0 <= j < k.len() ==> key_char(#[trigger] k[j]),
        decreases n - i,
    {
        let mut e = i;
        while e < n && t[e] != '\n'
            invariant
                t@ == output@,
                n == t@.len(),
                i <= e <= n,
                newline_from(output@, i as int) == newline_from(output@, e as int),
            decreases n - e,
        {
            e = e + 1;
        }
        let le = if e < n && e > i && t[e - 1] == '\r' {
            e - 1
        } else {
            e
        };
        let mut line: Vec<char> = Vec::new();
        let mut j = i;
        while j < le
            invariant
                t@ == output@,
                i <= j <= le,
                le <= n,
                n == t@.len(),
                line@ == t@.subrange(i as int, j as int),
            decreases le - j,
        {
            line.push(t[j]);
            j = j + 1;
            assert(line@ =~= t@.subrange(i as int, j as int));
        }
        assert(line@ == line_at(output@, i as int, e as int));
        assert(newline_from(output@, e as int) == e);
        let ghost before = env_vars@;
        match parse_line(&line) {
            Some(kv) => {
                proof {
                    let l = line@;
                    lemma_key_run_end(l, 0);
                    assert(kv.0@ =~= l.subrange(0, key_run_end(l, 0)));
                }
                env_vars.insert(kv.0, (kv.1, "bitwarden".to_owned()));
            },
            None => {},
        }
        proof {
            let m2 = match env_line(line_at(output@, i as int, e as int)) {
                Some(kv) => before.insert(kv.0, (kv.1, "bitwarden"@)),
                None => before,
            };
            assert(env_vars@ == m2);
            assert(parsed_from(output@, i as int, before) == parsed_from(output@, e + 1, m2));
        }
        if e < n {
            i = e + 1;
        } else {
            i = n;
        }
    }
    env_vars
}

} // verus!
