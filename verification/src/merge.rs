//! Merging of extracted nodes into the accumulating environment mapping.
//!
//! For each source in list order, for each extracted object node, each
//! member is coerced, optionally expanded, and inserted: a later binding of
//! a key always overwrites an earlier one. Nodes that are not objects are
//! ignored, and a member with an empty key contributes nothing, since an
//! environment entry's key must be non-empty.

use vstd::prelude::*;
use crate::coerce::{coerce, coerced};
use crate::env_map::EnvMap;
use crate::expand::{env_views, expand, expand_chars};
use crate::value::{
    JsonData, JsonValue, lemma_pair_views_of_list, lemma_views_of_list, pair_views_of_list,
    view_of, views_of_list,
};

verus! {

/// The final string contributed by one value: its coerced form, expanded
/// under the snapshot `env` when `do_expand` is set.
pub open spec fn entry_string(d: JsonData, do_expand: bool, env: Seq<(Seq<char>, Seq<char>)>) -> Seq<
    char,
> {
    if do_expand {
        expand_chars(coerced(d), env)
    } else {
        coerced(d)
    }
}

/// Folds the members of one object node into the map, in member order.
pub open spec fn obj_fold(
    m: Map<Seq<char>, Seq<char>>,
    pairs: Seq<(Seq<char>, JsonData)>,
    do_expand: bool,
    env: Seq<(Seq<char>, Seq<char>)>,
) -> Map<Seq<char>, Seq<char>>
    decreases pairs.len(),
{
    if pairs.len() == 0 {
        m
    } else {
        let prev = obj_fold(m, pairs.drop_last(), do_expand, env);
        if pairs.last().0.len() > 0 {
            prev.insert(pairs.last().0, entry_string(pairs.last().1, do_expand, env))
        } else {
            prev
        }
    }
}

/// Folds a list of extracted nodes into the map: each object node
/// contributes its members, every other node is ignored.
pub open spec fn nodes_fold(
    m: Map<Seq<char>, Seq<char>>,
    nodes: Seq<JsonData>,
    do_expand: bool,
    env: Seq<(Seq<char>, Seq<char>)>,
) -> Map<Seq<char>, Seq<char>>
    decreases nodes.len(),
{
    if nodes.len() == 0 {
        m
    } else {
        let prev = nodes_fold(m, nodes.drop_last(), do_expand, env);
        match nodes.last() {
            JsonData::Obj(pairs) => obj_fold(prev, pairs, do_expand, env),
            _ => prev,
        }
    }
}

/// Merging keeps every key that was already bound.
pub proof fn lemma_obj_fold_monotone(
    m: Map<Seq<char>, Seq<char>>,
    pairs: Seq<(Seq<char>, JsonData)>,
    do_expand: bool,
    env: Seq<(Seq<char>, Seq<char>)>,
)
    ensures
        forall|k: Seq<char>|
            m.contains_key(k) ==> #[trigger] obj_fold(m, pairs, do_expand, env).contains_key(k),
    decreases pairs.len(),
{
    if pairs.len() > 0 {
        lemma_obj_fold_monotone(m, pairs.drop_last(), do_expand, env);
        assert forall|k: Seq<char>| m.contains_key(k) implies #[trigger] obj_fold(
            m,
            pairs,
            do_expand,
            env,
        ).contains_key(k) by {
            assert(obj_fold(m, pairs.drop_last(), do_expand, env).contains_key(k));
        }
    }
}

/// Merging a further list of nodes keeps every key that was already bound.
pub proof fn lemma_nodes_fold_monotone(
    m: Map<Seq<char>, Seq<char>>,
    nodes: Seq<JsonData>,
    do_expand: bool,
    env: Seq<(Seq<char>, Seq<char>)>,
)
    ensures
        forall|k: Seq<char>|
            m.contains_key(k) ==> #[trigger] nodes_fold(m, nodes, do_expand, env).contains_key(k),
    decreases nodes.len(),
{
    if nodes.len() > 0 {
        lemma_nodes_fold_monotone(m, nodes.drop_last(), do_expand, env);
        if nodes.last() is Obj {
            lemma_obj_fold_monotone(
                nodes_fold(m, nodes.drop_last(), do_expand, env),
                nodes.last()->Obj_0,
                do_expand,
                env,
            );
        }
        assert forall|k: Seq<char>| m.contains_key(k) implies #[trigger] nodes_fold(
            m,
            nodes,
            do_expand,
            env,
        ).contains_key(k) by {
            assert(nodes_fold(m, nodes.drop_last(), do_expand, env).contains_key(k));
        }
    }
}

/// Where an object's members do not bind a key themselves, merging them
/// leaves that key exactly as it was.
pub proof fn lemma_obj_fold_frame(
    m: Map<Seq<char>, Seq<char>>,
    pairs: Seq<(Seq<char>, JsonData)>,
    do_expand: bool,
    env: Seq<(Seq<char>, Seq<char>)>,
    k: Seq<char>,
)
    requires
        !obj_fold(Map::<Seq<char>, Seq<char>>::empty(), pairs, do_expand, env).contains_key(k),
    ensures
        obj_fold(m, pairs, do_expand, env).contains_key(k) <==> m.contains_key(k),
        m.contains_key(k) ==> obj_fold(m, pairs, do_expand, env)[k] == m[k],
    decreases pairs.len(),
{
    if pairs.len() > 0 {
        lemma_obj_fold_frame(m, pairs.drop_last(), do_expand, env, k);
    }
}

/// Where an object's members bind a key themselves, merging them binds the
/// key to that same value whatever was merged before.
pub proof fn lemma_obj_fold_overrides(
    m: Map<Seq<char>, Seq<char>>,
    pairs: Seq<(Seq<char>, JsonData)>,
    do_expand: bool,
    env: Seq<(Seq<char>, Seq<char>)>,
    k: Seq<char>,
)
    requires
        obj_fold(Map::<Seq<char>, Seq<char>>::empty(), pairs, do_expand, env).contains_key(k),
    ensures
        obj_fold(m, pairs, do_expand, env).contains_key(k),
        obj_fold(m, pairs, do_expand, env)[k] == obj_fold(
            Map::<Seq<char>, Seq<char>>::empty(),
            pairs,
            do_expand,
            env,
        )[k],
    decreases pairs.len(),
{
    if pairs.len() > 0 {
        if pairs.last().0.len() > 0 && pairs.last().0 == k {
        } else {
            lemma_obj_fold_overrides(m, pairs.drop_last(), do_expand, env, k);
        }
    }
}

/// Where a list of nodes itself binds a key, merging those nodes binds the
/// key to that same value whatever was merged before: a later source's
/// binding of a key always stands.
pub proof fn lemma_nodes_fold_overrides(
    m: Map<Seq<char>, Seq<char>>,
    nodes: Seq<JsonData>,
    do_expand: bool,
    env: Seq<(Seq<char>, Seq<char>)>,
    k: Seq<char>,
)
    requires
        nodes_fold(Map::<Seq<char>, Seq<char>>::empty(), nodes, do_expand, env).contains_key(k),
    ensures
        nodes_fold(m, nodes, do_expand, env).contains_key(k),
        nodes_fold(m, nodes, do_expand, env)[k] == nodes_fold(
            Map::<Seq<char>, Seq<char>>::empty(),
            nodes,
            do_expand,
            env,
        )[k],
    decreases nodes.len(),
{
    let empty = Map::<Seq<char>, Seq<char>>::empty();
    if nodes.len() > 0 {
        let rest = nodes.drop_last();
        match nodes.last() {
            JsonData::Obj(pairs) => {
                if obj_fold(empty, pairs, do_expand, env).contains_key(k) {
                    lemma_obj_fold_overrides(
                        nodes_fold(m, rest, do_expand, env),
                        pairs,
                        do_expand,
                        env,
                        k,
                    );
                    lemma_obj_fold_overrides(
                        nodes_fold(empty, rest, do_expand, env),
                        pairs,
                        do_expand,
                        env,
                        k,
                    );
                } else {
                    lemma_obj_fold_frame(
                        nodes_fold(m, rest, do_expand, env),
                        pairs,
                        do_expand,
                        env,
                        k,
                    );
                    lemma_obj_fold_frame(
                        nodes_fold(empty, rest, do_expand, env),
                        pairs,
                        do_expand,
                        env,
                        k,
                    );
                    lemma_nodes_fold_overrides(m, rest, do_expand, env, k);
                }
            },
            _ => {
                lemma_nodes_fold_overrides(m, rest, do_expand, env, k);
            },
        }
    }
}

/// Adds to `map` the members of every object node among `values`, coercing
/// each member's value and expanding it under `env` when `do_expand` is set.
pub fn add_values_to_map(
    values: &Vec<JsonValue>,
    do_expand: bool,
    env: &Vec<(String, String)>,
    map: &mut EnvMap,
)
    requires
        old(map).wf(),
    ensures
        final(map).wf(),
        final(map)@ == nodes_fold(old(map)@, views_of_list(values@), do_expand, env_views(env@)),
{
    let ghost m0 = map@;
    let ghost vs = views_of_list(values@);
    let ghost ev = env_views(env@);
    proof {
        lemma_views_of_list(values@);
    }
    let mut i: usize = 0;
    while i < values.len()
        invariant
            map.wf(),
            i <= values@.len(),
            vs == views_of_list(values@),
            ev == env_views(env@),
            vs.len() == values@.len(),
            forall|j: int| 0 <= j < values@.len() ==> #[trigger] vs[j] == view_of(values@[j]),
            map@ == nodes_fold(m0, vs.take(i as int), do_expand, ev),
        decreases values@.len() - i,
    {
        proof {
            assert(vs.take(i + 1).drop_last() =~= vs.take(i as int));
            assert(vs.take(i + 1).last() == vs[i as int]);
        }
        match &values[i] {
            JsonValue::Obj(pairs) => {
                let ghost inner0 = map@;
                let ghost ps = pair_views_of_list(pairs@);
                proof {
                    lemma_pair_views_of_list(pairs@);
                    assert(vs[i as int] == JsonData::Obj(ps));
                }
                let mut j: usize = 0;
                while j < pairs.len()
                    invariant
                        map.wf(),
                        j <= pairs@.len(),
                        ev == env_views(env@),
                        ps == pair_views_of_list(pairs@),
                        ps.len() == pairs@.len(),
                        forall|q: int|
                            0 <= q < pairs@.len() ==> #[trigger] ps[q] == (
                            pairs@[q].0@,
                            view_of(pairs@[q].1),
                            ),
                        map@ == obj_fold(inner0, ps.take(j as int), do_expand, ev),
                    decreases pairs@.len() - j,
                {
                    proof {
                        assert(ps.take(j + 1).drop_last() =~= ps.take(j as int));
                        assert(ps.take(j + 1).last() == ps[j as int]);
                    }
                    if !pairs[j].0.as_str().is_empty() {
                        let coerced_text = coerce(&pairs[j].1);
                        let value_text = if do_expand {
                            expand(coerced_text.as_str(), env)
                        } else {
                            coerced_text
                        };
                        map.insert(pairs[j].0.clone(), value_text);
                    }
                    j = j + 1;
                }
                proof {
                    assert(ps.take(pairs@.len() as int) =~= ps);
                }
            },
            _ => {
                proof {
                    assert(!(vs[i as int] is Obj));
                }
            },
        }
        i = i + 1;
    }
    proof {
        assert(vs.take(values@.len() as int) =~= vs);
    }
}

} // verus!
