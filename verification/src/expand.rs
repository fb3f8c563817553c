//! Expansion of `$NAME` references with values from an environment snapshot.
//!
//! Expansion runs on the coerced string form of a value, in a single left to
//! right pass: at each `$`, the defined environment name that matches the
//! following characters is substituted; where several names match, the
//! longest wins (and among equally long ones the earliest in the snapshot),
//! so the result does not depend on the order in which the environment is
//! walked. Substituted text is never re-expanded, and a reference to an
//! undefined name is left verbatim.

use vstd::prelude::*;

verus! {

/// The characters of an environment snapshot: each pair of name and value.
pub open spec fn env_views(env: Seq<(String, String)>) -> Seq<(Seq<char>, Seq<char>)> {
    env.map_values(|p: (String, String)| (p.0@, p.1@))
}

/// The environment pair chosen for the text `rest` standing after a `$`:
/// among the pairs whose name is a prefix of `rest`, the one with the
/// longest name, and among those the earliest in the snapshot; `None` when
/// no name matches.
pub open spec fn best_ref(rest: Seq<char>, env: Seq<(Seq<char>, Seq<char>)>) -> Option<
    (Seq<char>, Seq<char>),
>
    decreases env.len(),
{
    if env.len() == 0 {
        None::<(Seq<char>, Seq<char>)>
    } else {
        let prev = best_ref(rest, env.drop_last());
        let last = env.last();
        let better = last.0.is_prefix_of(rest) && match prev {
            None => true,
            Some(p) => last.0.len() > p.0.len(),
        };
        if better {
            Some(last)
        } else {
            prev
        }
    }
}

/// A chosen pair's name is a prefix of the text it was chosen for.
pub proof fn lemma_best_ref_prefix(rest: Seq<char>, env: Seq<(Seq<char>, Seq<char>)>)
    ensures
        best_ref(rest, env) matches Some(p) ==> p.0.is_prefix_of(rest) && p.0.len() <= rest.len(),
    decreases env.len(),
{
    if env.len() > 0 {
        lemma_best_ref_prefix(rest, env.drop_last());
    }
}

/// The expansion of `s` under the snapshot `env`, one pass, left to right.
pub open spec fn expand_chars(s: Seq<char>, env: Seq<(Seq<char>, Seq<char>)>) -> Seq<char>
    decreases s.len(),
    via expand_chars_decreases
{
    if s.len() == 0 {
        s
    } else if s[0] == '$' {
        match best_ref(s.skip(1), env) {
            Some(p) => p.1 + expand_chars(s.skip(1 + p.0.len() as int), env),
            None => seq!['$'] + expand_chars(s.skip(1), env),
        }
    } else {
        seq![s[0]] + expand_chars(s.skip(1), env)
    }
}

#[via_fn]
proof fn expand_chars_decreases(s: Seq<char>, env: Seq<(Seq<char>, Seq<char>)>) {
    if s.len() > 0 && s[0] == '$' {
        lemma_best_ref_prefix(s.skip(1), env);
    }
}

/// Holds when `s` has no `$` followed by a name defined in `env`.
pub open spec fn no_env_reference(s: Seq<char>, env: Seq<(Seq<char>, Seq<char>)>) -> bool {
    forall|i: int|
        0 <= i < s.len() && s[i] == '$' ==> #[trigger] best_ref(s.skip(i + 1), env) is None
}

/// Expansion is the identity on any string in which no `$name` substring
/// matches a name defined in the environment snapshot.
pub proof fn lemma_expand_identity(s: Seq<char>, env: Seq<(Seq<char>, Seq<char>)>)
    requires
        no_env_reference(s, env),
    ensures
        expand_chars(s, env) == s,
    decreases s.len(),
{
    if s.len() > 0 {
        assert forall|i: int|
            0 <= i < s.skip(1).len() && s.skip(1)[i] == '$' implies #[trigger] best_ref(
            s.skip(1).skip(i + 1),
            env,
        ) is None by {
            assert(s.skip(1)[i] == s[i + 1]);
            assert(s.skip(1).skip(i + 1) =~= s.skip(i + 2));
            assert(best_ref(s.skip(i + 1 + 1), env) is None);
        }
        lemma_expand_identity(s.skip(1), env);
        if s[0] == '$' {
            assert(best_ref(s.skip(0int + 1), env) is None);
            assert(seq!['$'] + s.skip(1) =~= s);
        } else {
            assert(seq![s[0]] + s.skip(1) =~= s);
        }
    }
}

/// Returns true when the characters of `name` stand in `s` at `pos`.
fn name_matches_at(s: &str, s_len: usize, pos: usize, name: &str) -> (r: bool)
    requires
        s_len == s@.len(),
        pos <= s_len,
    ensures
        r == name@.is_prefix_of(s@.skip(pos as int)),
{
    let m = name.unicode_len();
    if m > s_len - pos {
        proof {
            assert(!name@.is_prefix_of(s@.skip(pos as int)));
        }
        return false;
    }
    let mut j: usize = 0;
    while j < m
        invariant
            m == name@.len(),
            s_len == s@.len(),
            pos + m <= s_len,
            j <= m,
            forall|k: int| 0 <= k < j ==> name@[k] == s@[pos + k],
        decreases m - j,
    {
        if name.get_char(j) != s.get_char(pos + j) {
            proof {
                assert(s@.skip(pos as int).subrange(0, m as int)[j as int] == s@[pos + j]);
                assert(!name@.is_prefix_of(s@.skip(pos as int)));
            }
            return false;
        }
        j = j + 1;
    }
    proof {
        assert forall|k: int| 0 <= k < m implies name@[k] == s@.skip(pos as int).subrange(
            0,
            m as int,
        )[k] by {
            assert(s@.skip(pos as int).subrange(0, m as int)[k] == s@[pos + k]);
        }
        assert(name@ =~= s@.skip(pos as int).subrange(0, m as int));
    }
    true
}

/// Finds the index of the environment pair that `best_ref` chooses for the
/// text standing at `pos`, if any name matches there.
fn best_match_at(s: &str, s_len: usize, pos: usize, env: &Vec<(String, String)>) -> (r: Option<
    usize,
>)
    requires
        s_len == s@.len(),
        pos <= s_len,
    ensures
        match r {
            Some(idx) => idx < env@.len() && best_ref(s@.skip(pos as int), env_views(env@))
                == Some(env_views(env@)[idx as int]),
            None => best_ref(s@.skip(pos as int), env_views(env@)) is None,
        },
{
    let ghost ev = env_views(env@);
    let ghost rest = s@.skip(pos as int);
    let mut best: Option<usize> = None;
    let mut k: usize = 0;
    while k < env.len()
        invariant
            s_len == s@.len(),
            pos <= s_len,
            ev == env_views(env@),
            rest == s@.skip(pos as int),
            k <= env@.len(),
            match best {
                Some(b) => b < k && best_ref(rest, ev.take(k as int)) == Some(ev[b as int]),
                None => best_ref(rest, ev.take(k as int)) is None,
            },
        decreases env@.len() - k,
    {
        proof {
            assert(ev.take(k + 1).drop_last() =~= ev.take(k as int));
            assert(ev.take(k + 1).last() == ev[k as int]);
            assert(ev[k as int] == (env@[k as int].0@, env@[k as int].1@));
        }
        let matches_here = name_matches_at(s, s_len, pos, env[k].0.as_str());
        let better = matches_here && match best {
            None => true,
            Some(b) => env[k].0.unicode_len() > env[b].0.unicode_len(),
        };
        if better {
            best = Some(k);
        }
        k = k + 1;
    }
    proof {
        assert(ev.take(env@.len() as int) =~= ev);
    }
    best
}

/// Replaces, in one pass over `s`, each `$name` whose name is defined in
/// the snapshot `env` by that name's value; the longest defined name wins
/// at each `$`, undefined references stay verbatim, and substituted text
/// is not re-expanded.
pub fn expand(s: &str, env: &Vec<(String, String)>) -> (r: String)
    ensures
        r@ == expand_chars(s@, env_views(env@)),
{
    let ghost ev = env_views(env@);
    let n = s.unicode_len();
    let mut out = String::new();
    let mut i: usize = 0;
    proof {
        assert(s@.skip(0) =~= s@);
        assert(out@ + expand_chars(s@.skip(0), ev) =~= expand_chars(s@, ev));
    }
    while i < n
        invariant
            n == s@.len(),
            i <= n,
            ev == env_views(env@),
            expand_chars(s@, ev) == out@ + expand_chars(s@.skip(i as int), ev),
        decreases n - i,
    {
        let c = s.get_char(i);
        proof {
            assert(s@.skip(i as int)[0] == s@[i as int]);
            assert(s@.skip(i as int).skip(1) =~= s@.skip(i + 1));
        }
        if c == '$' {
            match best_match_at(s, n, i + 1, env) {
                Some(idx) => {
                    let ghost pre = out@;
                    out.append(env[idx].1.as_str());
                    let m = env[idx].0.unicode_len();
                    proof {
                        lemma_best_ref_prefix(s@.skip(i + 1), ev);
                        assert(ev[idx as int] == (env@[idx as int].0@, env@[idx as int].1@));
                        assert(m <= n - (i + 1));
                        assert(s@.skip(i as int).skip(1 + m) =~= s@.skip(i + 1 + m));
                        assert(expand_chars(s@.skip(i as int), ev) == env@[idx as int].1@
                            + expand_chars(s@.skip(i + 1 + m), ev));
                        assert(pre + expand_chars(s@.skip(i as int), ev) =~= out@ + expand_chars(
                            s@.skip(i + 1 + m),
                            ev,
                        ));
                    }
                    i = i + 1 + m;
                },
                None => {
                    let ghost pre = out@;
                    out.push('$');
                    proof {
                        assert(expand_chars(s@.skip(i as int), ev) == seq!['$'] + expand_chars(
                            s@.skip(i + 1),
                            ev,
                        ));
                        assert(pre + expand_chars(s@.skip(i as int), ev) =~= out@ + expand_chars(
                            s@.skip(i + 1),
                            ev,
                        ));
                    }
                    i = i + 1;
                },
            }
        } else {
            let ghost pre = out@;
            out.push(c);
            proof {
                assert(expand_chars(s@.skip(i as int), ev) == seq![c] + expand_chars(
                    s@.skip(i + 1),
                    ev,
                ));
                assert(pre + expand_chars(s@.skip(i as int), ev) =~= out@ + expand_chars(
                    s@.skip(i + 1),
                    ev,
                ));
            }
            i = i + 1;
        }
    }
    proof {
        assert(s@.skip(n as int).len() == 0);
        assert(out@ + expand_chars(s@.skip(n as int), ev) =~= out@);
    }
    out
}

} // verus!
