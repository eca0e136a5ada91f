//! The prompt registry: prompt names with their definitions, in the order in
//! which the names were first defined.
//!
//! The registry is an `indexmap::IndexMap`. Its content is named by
//! [`registry_entries`]; what the map's methods do to that content is stated
//! here and believed, not proved.

use vstd::prelude::*;
use indexmap::IndexMap;
use crate::model::PromptSpec;
use crate::model::PromptSpecView;

verus! {

/// `indexmap::IndexMap`: a hash map that keeps its entries in the order in
/// which their keys were first inserted. Nothing inside it is visible here.
#[verifier::external_type_specification]
#[verifier::external_body]
#[verifier::reject_recursive_types(K)]
#[verifier::reject_recursive_types(V)]
#[verifier::reject_recursive_types(S)]
pub struct ExIndexMap<K, V, S>(IndexMap<K, V, S>);

/// `IndexMap::clone`, for the types that derive `Clone` around a map. Nothing
/// is claimed of the copy.
pub assume_specification<K: Clone, V: Clone, S: Clone>[ <IndexMap<K, V, S> as Clone>::clone ](
    map: &IndexMap<K, V, S>,
) -> IndexMap<K, V, S>
;

/// The entries of a registry in their order: each name with its definition.
pub uninterp spec fn registry_entries(registry: IndexMap<String, PromptSpec>) -> Seq<
    (Seq<char>, PromptSpec),
>;

/// The first place at which `entries` holds the name `name`.
pub open spec fn position_of<V>(entries: Seq<(Seq<char>, V)>, name: Seq<char>) -> Option<int>
    decreases entries.len(),
{
    if entries.len() == 0 {
        None
    } else {
        match position_of(entries.drop_last(), name) {
            Some(place) => Some(place),
            None => if entries.last().0 == name {
                Some(entries.len() - 1)
            } else {
                None
            },
        }
    }
}

/// The value that `entries` holds for `name`.
pub open spec fn lookup<V>(entries: Seq<(Seq<char>, V)>, name: Seq<char>) -> Option<V> {
    match position_of(entries, name) {
        Some(place) => Some(entries[place].1),
        None => None,
    }
}

/// `entries` after `name` was given the value `value`: in place where the
/// name was there, at the end where it was not.
pub open spec fn inserted<V>(entries: Seq<(Seq<char>, V)>, name: Seq<char>, value: V) -> Seq<
    (Seq<char>, V),
> {
    match position_of(entries, name) {
        Some(place) => entries.update(place, (name, value)),
        None => entries.push((name, value)),
    }
}

/// Whether no name occurs twice in `entries`.
pub open spec fn distinct_names<V>(entries: Seq<(Seq<char>, V)>) -> bool {
    forall|i: int, j: int|
        0 <= i < j < entries.len() ==> (#[trigger] entries[i]).0 != (#[trigger] entries[j]).0
}

/// The entries with each definition replaced by its view.
pub open spec fn entries_view(entries: Seq<(Seq<char>, PromptSpec)>) -> Seq<
    (Seq<char>, PromptSpecView),
> {
    Seq::new(entries.len(), |i: int| (entries[i].0, entries[i].1@))
}

/// The view of a registry: its names and the views of their definitions.
pub open spec fn registry_view(registry: IndexMap<String, PromptSpec>) -> Seq<
    (Seq<char>, PromptSpecView),
> {
    entries_view(registry_entries(registry))
}

/// `IndexMap::new`: a map without entries.
#[verifier::external_body]
pub(crate) fn empty_registry() -> (registry: IndexMap<String, PromptSpec>)
    ensures
        registry_entries(registry) == Seq::<(Seq<char>, PromptSpec)>::empty(),
{
    IndexMap::new()
}

/// `IndexMap::insert`: a name that the map holds keeps its place and gets the
/// new definition, and the old one is returned; a new name goes to the end.
#[verifier::external_body]
pub(crate) fn insert_prompt(
    registry: &mut IndexMap<String, PromptSpec>,
    name: String,
    spec: PromptSpec,
) -> (previous: Option<PromptSpec>)
    ensures
        registry_entries(*final(registry)) == inserted(
            registry_entries(*old(registry)),
            name@,
            spec,
        ),
        previous == lookup(registry_entries(*old(registry)), name@),
{
    registry.insert(name, spec)
}

/// `IndexMap::get`: the definition stored under the name, if there is one.
#[verifier::external_body]
pub(crate) fn get_prompt<'a>(registry: &'a IndexMap<String, PromptSpec>, name: &str) -> (found:
    Option<&'a PromptSpec>)
    ensures
        match lookup(registry_entries(*registry), name@) {
            Some(spec) => found == Some(&spec),
            None => found is None,
        },
{
    registry.get(name)
}

/// `IndexMap::len`: the number of entries.
#[verifier::external_body]
pub(crate) fn prompt_count(registry: &IndexMap<String, PromptSpec>) -> (count: usize)
    ensures
        count == registry_entries(*registry).len(),
{
    registry.len()
}

/// `IndexMap::is_empty`: whether the map has no entry.
#[verifier::external_body]
pub(crate) fn no_prompts(registry: &IndexMap<String, PromptSpec>) -> (empty: bool)
    ensures
        empty == (registry_entries(*registry).len() == 0),
{
    registry.is_empty()
}

/// `IndexMap::get_index`: the entry at a place in the order, if the place is
/// below the number of entries.
#[verifier::external_body]
pub(crate) fn prompt_at<'a>(registry: &'a IndexMap<String, PromptSpec>, place: usize) -> (entry:
    Option<(&'a String, &'a PromptSpec)>)
    ensures
        match entry {
            Some(pair) => place < registry_entries(*registry).len() && pair.0@ == registry_entries(
                *registry,
            )[place as int].0 && *pair.1 == registry_entries(*registry)[place as int].1,
            None => place >= registry_entries(*registry).len(),
        },
{
    registry.get_index(place)
}

/// Replacing the definitions by their views does not move a name.
pub proof fn lemma_position_in_view(entries: Seq<(Seq<char>, PromptSpec)>, name: Seq<char>)
    ensures
        position_of(entries_view(entries), name) == position_of(entries, name),
    decreases entries.len(),
{
    if entries.len() > 0 {
        assert(entries_view(entries).drop_last() =~= entries_view(entries.drop_last()));
        lemma_position_in_view(entries.drop_last(), name);
    }
}

/// A place that [`position_of`] returns is in range and holds the name, and
/// no earlier place holds it; where it returns none, no place holds the name.
pub proof fn lemma_position_of<V>(entries: Seq<(Seq<char>, V)>, name: Seq<char>)
    ensures
        match position_of(entries, name) {
            Some(place) => 0 <= place < entries.len() && entries[place].0 == name && forall|k: int|
                0 <= k < place ==> (#[trigger] entries[k]).0 != name,
            None => forall|k: int| 0 <= k < entries.len() ==> (#[trigger] entries[k]).0 != name,
        },
    decreases entries.len(),
{
    if entries.len() > 0 {
        let shorter = entries.drop_last();
        lemma_position_of(shorter, name);
        assert forall|k: int| 0 <= k < shorter.len() implies shorter[k] == entries[k] by {}
        match position_of(shorter, name) {
            Some(place) => {
                assert forall|k: int| 0 <= k < place implies (#[trigger] entries[k]).0 != name by {
                    assert(shorter[k] == entries[k]);
                }
            },
            None => {
                assert forall|k: int| 0 <= k < shorter.len() implies (#[trigger] entries[k]).0
                    != name by {
                    assert(shorter[k] == entries[k]);
                }
            },
        }
    }
}

/// Inserting commutes with taking views.
pub proof fn lemma_inserted_view(entries: Seq<(Seq<char>, PromptSpec)>, name: Seq<char>, spec: PromptSpec)
    ensures
        entries_view(inserted(entries, name, spec)) == inserted(entries_view(entries), name, spec@),
        lookup(entries_view(entries), name) == match lookup(entries, name) {
            Some(previous) => Some(previous@),
            None => None,
        },
{
    lemma_position_in_view(entries, name);
    lemma_position_of(entries, name);
    assert(entries_view(inserted(entries, name, spec)) =~= inserted(
        entries_view(entries),
        name,
        spec@,
    ));
}

/// Inserting keeps the names distinct.
pub proof fn lemma_inserted_distinct<V>(entries: Seq<(Seq<char>, V)>, name: Seq<char>, value: V)
    requires
        distinct_names(entries),
    ensures
        distinct_names(inserted(entries, name, value)),
{
    lemma_position_of(entries, name);
    let after = inserted(entries, name, value);
    assert forall|i: int, j: int| 0 <= i < j < after.len() implies (#[trigger] after[i]).0 != (
    #[trigger] after[j]).0 by {
        match position_of(entries, name) {
            Some(place) => {
                assert(after[i].0 == entries[i].0);
                assert(after[j].0 == entries[j].0);
            },
            None => {
                if j < entries.len() {
                    assert(after[i] == entries[i] && after[j] == entries[j]);
                } else {
                    assert(after[i] == entries[i]);
                }
            },
        }
    }
}

/// The first place that holds a name is the place that [`position_of`] finds.
pub proof fn lemma_first_place<V>(entries: Seq<(Seq<char>, V)>, name: Seq<char>, place: int)
    requires
        0 <= place < entries.len(),
        entries[place].0 == name,
        forall|k: int| 0 <= k < place ==> (#[trigger] entries[k]).0 != name,
    ensures
        position_of(entries, name) == Some(place),
{
    lemma_position_of(entries, name);
}

/// After an insertion the name has the new value, every other name has the
/// value it had, and the registry has grown by one exactly if the name is new.
pub proof fn lemma_lookup_inserted<V>(
    entries: Seq<(Seq<char>, V)>,
    name: Seq<char>,
    value: V,
    other: Seq<char>,
)
    ensures
        lookup(inserted(entries, name, value), name) == Some(value),
        other != name ==> lookup(inserted(entries, name, value), other) == lookup(entries, other),
        inserted(entries, name, value).len() == entries.len() + (if lookup(entries, name) is Some {
            0int
        } else {
            1int
        }),
{
    let after = inserted(entries, name, value);
    lemma_position_of(entries, name);
    lemma_position_of(entries, other);
    match position_of(entries, name) {
        Some(place) => {
            assert forall|k: int| 0 <= k < place implies (#[trigger] after[k]).0 != name by {
                assert(after[k] == entries[k]);
            }
            lemma_first_place(after, name, place);
        },
        None => {
            assert forall|k: int| 0 <= k < entries.len() implies (#[trigger] after[k]).0
                != name by {
                assert(after[k] == entries[k]);
            }
            lemma_first_place(after, name, entries.len() as int);
        },
    }
    if other != name {
        match position_of(entries, other) {
            Some(place) => {
                assert forall|k: int| 0 <= k < place implies (#[trigger] after[k]).0 != other by {
                    assert(after[k].0 == entries[k].0);
                }
                assert(after[place] == entries[place]);
                lemma_first_place(after, other, place);
            },
            None => {
                lemma_position_of(after, other);
                if position_of(after, other) is Some {
                    let found = position_of(after, other)->0;
                    if found < entries.len() {
                        assert(after[found].0 == entries[found].0);
                    }
                }
            },
        }
    }
}

} // verus!
