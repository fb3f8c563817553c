//! End-to-end resolution: from a list of sources, each a document text with
//! a path expression, to the final environment mapping.
//!
//! Sources are processed in list order; a later source's binding of a key
//! overwrites an earlier one's. A source whose document or expression is
//! malformed is a parse error; one whose expression selects no object node
//! at all — nothing, or only non-object nodes — is a path error, distinct
//! from a success with an empty object. No partial result is returned.

use vstd::prelude::*;
use crate::env_map::EnvMap;
use crate::expand::env_views;
use crate::merge::{
    add_values_to_map, lemma_nodes_fold_monotone, lemma_nodes_fold_overrides, nodes_fold,
};
use crate::path_guard::path_supported;
use crate::query::{query_document, selection_outcome};
use crate::value::{JsonData, JsonValue, lemma_views_of_list, view_of, views_of_list};

verus! {

/// Why a resolution failed, and on which source.
#[derive(Debug)]
pub enum ResolveError {
    /// The source's document or path expression is malformed.
    Parse { source: usize, message: String },
    /// The source's expression selected no object node.
    Path { source: usize },
}

/// The characters of a list of sources: each pair of document text and
/// path expression.
pub open spec fn source_views(sources: Seq<(String, String)>) -> Seq<(Seq<char>, Seq<char>)> {
    sources.map_values(|s: (String, String)| (s.0@, s.1@))
}

/// Whether some selected node is an object, so that the source can
/// contribute key/value pairs.
pub open spec fn has_object_node(nodes: Seq<JsonData>) -> bool {
    exists|i: int| 0 <= i < nodes.len() && nodes[i] is Obj
}

/// A source is usable when its document and expression are well formed and
/// the selection holds at least one object node.
pub open spec fn source_usable(s: (Seq<char>, Seq<char>)) -> bool {
    &&& selection_outcome(s.0, s.1) is Some
    &&& has_object_node(selection_outcome(s.0, s.1)->0)
}

/// Folds the selections of the sources into the map, in list order.
pub open spec fn sources_fold(
    m: Map<Seq<char>, Seq<char>>,
    sources: Seq<(Seq<char>, Seq<char>)>,
    do_expand: bool,
    env: Seq<(Seq<char>, Seq<char>)>,
) -> Map<Seq<char>, Seq<char>>
    decreases sources.len(),
{
    if sources.len() == 0 {
        m
    } else {
        let prev = sources_fold(m, sources.drop_last(), do_expand, env);
        match selection_outcome(sources.last().0, sources.last().1) {
            Some(nodes) => nodes_fold(prev, nodes, do_expand, env),
            None => prev,
        }
    }
}

/// Appending a further source can add bindings or override earlier ones,
/// but never removes a key bound by the sources before it.
pub proof fn lemma_append_source_monotone(
    m: Map<Seq<char>, Seq<char>>,
    sources: Seq<(Seq<char>, Seq<char>)>,
    s: (Seq<char>, Seq<char>),
    do_expand: bool,
    env: Seq<(Seq<char>, Seq<char>)>,
)
    ensures
        forall|k: Seq<char>|
            sources_fold(m, sources, do_expand, env).contains_key(k)
                ==> #[trigger] sources_fold(m, sources.push(s), do_expand, env).contains_key(k),
{
    assert(sources.push(s).drop_last() =~= sources);
    assert(sources.push(s).last() == s);
    let prev = sources_fold(m, sources, do_expand, env);
    match selection_outcome(s.0, s.1) {
        Some(nodes) => {
            lemma_nodes_fold_monotone(prev, nodes, do_expand, env);
        },
        None => {},
    }
}

/// Of sources that define the same key, the last one's binding stands:
/// where the final source's own selection binds a key, the whole
/// resolution binds that key to the final source's value, whatever the
/// sources before it said.
pub proof fn lemma_later_source_wins(
    sources: Seq<(Seq<char>, Seq<char>)>,
    s: (Seq<char>, Seq<char>),
    do_expand: bool,
    env: Seq<(Seq<char>, Seq<char>)>,
    k: Seq<char>,
)
    requires
        selection_outcome(s.0, s.1) matches Some(nodes) && nodes_fold(
            Map::<Seq<char>, Seq<char>>::empty(),
            nodes,
            do_expand,
            env,
        ).contains_key(k),
    ensures
        sources_fold(
            Map::<Seq<char>, Seq<char>>::empty(),
            sources.push(s),
            do_expand,
            env,
        ).contains_key(k),
        sources_fold(Map::<Seq<char>, Seq<char>>::empty(), sources.push(s), do_expand, env)[k]
            == nodes_fold(
            Map::<Seq<char>, Seq<char>>::empty(),
            selection_outcome(s.0, s.1)->0,
            do_expand,
            env,
        )[k],
{
    let empty = Map::<Seq<char>, Seq<char>>::empty();
    assert(sources.push(s).drop_last() =~= sources);
    assert(sources.push(s).last() == s);
    let nodes = selection_outcome(s.0, s.1)->0;
    lemma_nodes_fold_overrides(sources_fold(empty, sources, do_expand, env), nodes, do_expand, env, k);
}

/// Returns true when some node among `nodes` is an object.
fn contains_object_node(nodes: &Vec<JsonValue>) -> (r: bool)
    ensures
        r == has_object_node(views_of_list(nodes@)),
{
    let ghost vs = views_of_list(nodes@);
    proof {
        lemma_views_of_list(nodes@);
    }
    let mut i: usize = 0;
    while i < nodes.len()
        invariant
            i <= nodes@.len(),
            vs == views_of_list(nodes@),
            vs.len() == nodes@.len(),
            forall|j: int| 0 <= j < nodes@.len() ==> #[trigger] vs[j] == view_of(nodes@[j]),
            forall|j: int| 0 <= j < i ==> !(#[trigger] vs[j] is Obj),
        decreases nodes@.len() - i,
    {
        match &nodes[i] {
            JsonValue::Obj(_) => {
                proof {
                    assert(vs[i as int] is Obj);
                }
                return true;
            },
            _ => {
                proof {
                    assert(!(vs[i as int] is Obj));
                }
            },
        }
        i = i + 1;
    }
    false
}

/// Resolves the sources, in list order, into one environment mapping.
///
/// Each source is a pair of document text and path expression. On success
/// every source was usable and the mapping is the fold of their selections;
/// otherwise the error names the first source that is malformed or selects
/// no object node, and nothing is returned for the sources before it.
pub fn resolve_sources(
    sources: &Vec<(String, String)>,
    do_expand: bool,
    env: &Vec<(String, String)>,
) -> (r: Result<EnvMap, ResolveError>)
    ensures
        match r {
            Ok(m) => {
                &&& m.wf()
                &&& forall|i: int|
                    0 <= i < sources@.len() ==> source_usable(#[trigger] source_views(sources@)[i])
                &&& m@ == sources_fold(
                    Map::<Seq<char>, Seq<char>>::empty(),
                    source_views(sources@),
                    do_expand,
                    env_views(env@),
                )
            },
            Err(ResolveError::Parse { source, message }) => {
                &&& source < sources@.len()
                &&& selection_outcome(
                    source_views(sources@)[source as int].0,
                    source_views(sources@)[source as int].1,
                ) is None
                &&& forall|i: int|
                    0 <= i < source ==> source_usable(#[trigger] source_views(sources@)[i])
            },
            Err(ResolveError::Path { source }) => {
                &&& source < sources@.len()
                &&& selection_outcome(
                    source_views(sources@)[source as int].0,
                    source_views(sources@)[source as int].1,
                ) matches Some(nodes) && !has_object_node(nodes)
                &&& forall|i: int|
                    0 <= i < source ==> source_usable(#[trigger] source_views(sources@)[i])
            },
        },
{
    let ghost sv = source_views(sources@);
    let ghost ev = env_views(env@);
    let mut map = EnvMap::new();
    let mut i: usize = 0;
    while i < sources.len()
        invariant
            map.wf(),
            i <= sources@.len(),
            sv == source_views(sources@),
            ev == env_views(env@),
            sv.len() == sources@.len(),
            forall|j: int| 0 <= j < i ==> source_usable(#[trigger] sv[j]),
            map@ == sources_fold(
                Map::<Seq<char>, Seq<char>>::empty(),
                sv.take(i as int),
                do_expand,
                ev,
            ),
        decreases sources@.len() - i,
    {
        proof {
            assert(sv.take(i + 1).drop_last() =~= sv.take(i as int));
            assert(sv.take(i + 1).last() == sv[i as int]);
            assert(sv[i as int] == (sources@[i as int].0@, sources@[i as int].1@));
        }
        if !path_supported(sources[i].1.as_str()) {
            return Err(
                ResolveError::Parse {
                    source: i,
                    message: String::from_str("unsupported path expression"),
                },
            );
        }
        match query_document(sources[i].0.as_str(), sources[i].1.as_str()) {
            Ok(nodes) => {
                if !contains_object_node(&nodes) {
                    return Err(ResolveError::Path { source: i });
                }
                add_values_to_map(&nodes, do_expand, env, &mut map);
            },
            Err(message) => {
                return Err(ResolveError::Parse { source: i, message });
            },
        }
        i = i + 1;
    }
    proof {
        assert(sv.take(sources@.len() as int) =~= sv);
    }
    Ok(map)
}

} // verus!
