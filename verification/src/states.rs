//! The entities of one poll, and the patterns that select among them.

use vstd::prelude::*;

use crate::entity::Entity;
use crate::glob::{
    fits, fits_any_case, glob_match, law_star_on_both_sides_fits_occurrences, occurs_at,
};
use crate::json::{contents, member, Json};
use crate::table::Table;
use crate::text::{contains_char, lemma_precedes_irreflexive, lowered, precedes};

verus! {

/// The entities come in ascending order of their ids, so no id occurs twice.
pub open spec fn ids_ascending(entities: Seq<Entity>) -> bool {
    forall|i: int, j: int|
        0 <= i < j < entities.len() ==> precedes(
            (#[trigger] entities[i]).entity_id@,
            (#[trigger] entities[j]).entity_id@,
        )
}

/// The entity at `i` is the last one of its id.
pub open spec fn last_of_id(entities: Seq<Entity>, i: int) -> bool {
    &&& 0 <= i < entities.len()
    &&& forall|j: int|
        i < j < entities.len() ==> (#[trigger] entities[j]).entity_id@ != entities[i].entity_id@
}

/// The entities that Home Assistant reported, by id.
#[derive(Debug)]
pub struct States {
    table: Table<Entity>,
}

impl View for States {
    type V = Seq<Entity>;

    /// The entities in ascending order of their ids.
    closed spec fn view(&self) -> Seq<Entity> {
        self.table.keys().map_values(|id: Seq<char>| self.table@[id])
    }
}

impl States {
    #[verifier::type_invariant]
    spec fn keyed_by_id(self) -> bool {
        forall|id: Seq<char>| #[trigger]
            self.table@.contains_key(id) ==> self.table@[id].entity_id@ == id
    }

    /// Files entities by id. Of several with one id, the last one stays.
    pub fn new(entities: Vec<Entity>) -> (states: States)
        ensures
            ids_ascending(states@),
            forall|e: Entity| #[trigger]
                states@.contains(e) <==> exists|i: int| #[trigger]
                    last_of_id(entities@, i) && entities@[i] == e,
    {
        let ghost all = entities@;
        let mut table: Table<Entity> = Table::new();
        for entity in it: entities
            invariant
                it.seq() == all,
                table.walks_contents(),
                forall|id: Seq<char>| #[trigger]
                    table@.contains_key(id) ==> table@[id].entity_id@ == id,
                forall|id: Seq<char>| #[trigger]
                    table@.contains_key(id) ==> exists|i: int|
                        #![trigger all.take(it.index() as int)[i]]
                        last_of_id(all.take(it.index() as int), i) && all.take(it.index() as int)[i]
                            == table@[id],
                forall|i: int| #[trigger]
                    last_of_id(all.take(it.index() as int), i) ==> table@.contains_key(
                        all[i].entity_id@,
                    ) && table@[all[i].entity_id@] == all[i],
        {
            let ghost n = it.index() as int;
            let ghost before_table = table@;
            let key = entity.entity_id.clone();
            table.insert(key, entity);
            proof {
                lemma_file(all, n, before_table, table@);
            }
        }
        assert(all.take(all.len() as int) =~= all);
        let states = States { table };
        proof {
            lemma_filed(states, all);
        }
        states
    }

    /// The number of entities.
    fn len(&self) -> (n: usize)
        ensures
            n == self@.len(),
            ids_ascending(self@),
    {
        proof {
            use_type_invariant(&*self);
        }
        let n = self.table.len();
        proof {
            lemma_walk(*self);
        }
        n
    }

    /// The entity at a place in the order of ids.
    fn at(&self, i: usize) -> (entity: &Entity)
        requires
            i < self@.len(),
        ensures
            *entity == self@[i as int],
    {
        self.table.value_at(i)
    }

    /// The entity of an id.
    fn get(&self, id: &str) -> (entity: Option<&Entity>)
        ensures
            match entity {
                Some(e) => e.entity_id@ == id@ && self@.contains(*e),
                None => forall|e: Entity| #[trigger] self@.contains(e) ==> e.entity_id@ != id@,
            },
    {
        proof {
            use_type_invariant(&*self);
        }
        let entity = self.table.get(id);
        proof {
            lemma_walk(*self);
            if self.table@.contains_key(id@) {
                let k = choose|k: int|
                    0 <= k < self.table.keys().len() && self.table.keys()[k] == id@;
                assert(self@[k] == self.table@[id@]);
            } else {
                assert forall|e: Entity| #[trigger] self@.contains(e) implies e.entity_id@ != id@ by {
                    let k = choose|k: int| 0 <= k < self@.len() && self@[k] == e;
                    assert(self.table.keys().contains(self.table.keys()[k]));
                }
            }
        }
        entity
    }
}

/// What a pattern selects: without `*`, the entity of exactly that id; otherwise every entity
/// whose id or friendly name fits it.
pub open spec fn selects(pattern: Seq<char>, entity: Entity) -> bool {
    if pattern.contains('*') {
        ||| fits_any_case(pattern, entity.entity_id@)
        ||| match entity.text_attribute("friendly_name"@) {
            Some(name) => fits_any_case(pattern, name),
            None => false,
        }
    } else {
        entity.entity_id@ == pattern
    }
}

/// The entities that a pattern selects, in the order in which they stand.
pub open spec fn selected(entities: Seq<Entity>, pattern: Seq<char>) -> Seq<Entity> {
    entities.filter(|entity: Entity| selects(pattern, entity))
}

/// Resolves a configured entity pattern to the entities it matches, in ascending order of
/// their ids.
///
/// A pattern without `*` is an exact entity id. Otherwise it is matched against both the
/// entity id and the friendly name.
pub fn resolve<'a>(states: &'a States, pattern: &str) -> (hits: Vec<&'a Entity>)
    ensures
        hits@.unref() == selected(states@, pattern@),
        ids_ascending(states@),
{
    let mut hits: Vec<&'a Entity> = Vec::new();
    let ghost chosen = |entity: Entity| selects(pattern@, entity);
    let n = states.len();
    if !contains_char(pattern, '*') {
        match states.get(pattern) {
            Some(entity) => {
                hits.push(entity);
                proof {
                    lemma_only_one(states@, pattern@, *entity);
                    assert(hits@.unref() =~= seq![*entity]);
                }
            },
            None => {
                proof {
                    lemma_none(states@, pattern@);
                    assert(hits@.unref() =~= Seq::<Entity>::empty());
                }
            },
        }
        return hits;
    }
    let mut i: usize = 0;
    proof {
        assert(states@.take(0) =~= Seq::<Entity>::empty());
        reveal(Seq::filter);
        assert(hits@.unref() =~= states@.take(0).filter(chosen));
    }
    while i < n
        invariant
            i <= n,
            n == states@.len(),
            pattern@.contains('*'),
            chosen == (|entity: Entity| selects(pattern@, entity)),
            hits@.unref() == states@.take(i as int).filter(chosen),
        decreases n - i,
    {
        let entity = states.at(i);
        let ghost so_far = hits@;
        proof {
            reveal(Seq::filter);
            assert(states@.take(i + 1).drop_last() =~= states@.take(i as int));
            assert(states@.take(i + 1).last() == *entity);
        }
        let hit = glob_match(pattern, entity.entity_id.as_str()) || match entity.attr_str(
            "friendly_name",
        ) {
            Some(name) => glob_match(pattern, name),
            None => false,
        };
        if hit {
            hits.push(entity);
            assert(hits@.unref() =~= so_far.unref().push(*entity));
        }
        i += 1;
    }
    assert(states@.take(n as int) =~= states@);
    hits
}

/// What a pattern comes to that is meant for one entity.
#[derive(Debug)]
pub enum Pick<'a> {
    /// It selects no entity.
    NoMatch,
    /// It selects several entities, with these ids.
    Ambiguous(Vec<String>),
    /// It selects one entity, which is not available.
    Unavailable(&'a Entity),
    /// It selects one entity, which is available.
    Ready(&'a Entity),
}

/// What a pattern comes to that is meant for one entity.
pub enum Picked {
    NoMatch,
    Ambiguous(Seq<Seq<char>>),
    Unavailable(Entity),
    Ready(Entity),
}

/// Texts behind strings.
pub open spec fn string_views(strings: Seq<String>) -> Seq<Seq<char>> {
    strings.map_values(|string: String| string@)
}

/// The ids of entities.
pub open spec fn ids_of(entities: Seq<Entity>) -> Seq<Seq<char>> {
    entities.map_values(|entity: Entity| entity.entity_id@)
}

impl<'a> View for Pick<'a> {
    type V = Picked;

    open spec fn view(&self) -> Picked {
        match self {
            Pick::NoMatch => Picked::NoMatch,
            Pick::Ambiguous(ids) => Picked::Ambiguous(string_views(ids@)),
            Pick::Unavailable(entity) => Picked::Unavailable(**entity),
            Pick::Ready(entity) => Picked::Ready(**entity),
        }
    }
}

/// What a pattern comes to that is meant for one entity: with no entity or several, nothing is
/// picked.
pub open spec fn picked(entities: Seq<Entity>, pattern: Seq<char>) -> Picked {
    let hits = selected(entities, pattern);
    if hits.len() == 0 {
        Picked::NoMatch
    } else if hits.len() > 1 {
        Picked::Ambiguous(ids_of(hits))
    } else if !hits[0].available() {
        Picked::Unavailable(hits[0])
    } else {
        Picked::Ready(hits[0])
    }
}

/// Picks the one entity that a pattern selects.
pub fn pick<'a>(states: &'a States, pattern: &str) -> (choice: Pick<'a>)
    ensures
        choice@ == picked(states@, pattern@),
{
    let hits = resolve(states, pattern);
    let ghost chosen = selected(states@, pattern@);
    assert(hits@.unref().len() == hits@.len());
    if hits.len() == 0 {
        return Pick::NoMatch;
    }
    if hits.len() > 1 {
        let mut ids: Vec<String> = Vec::new();
        let mut i: usize = 0;
        while i < hits.len()
            invariant
                i <= hits.len(),
                hits@.unref() == chosen,
                string_views(ids@) == ids_of(chosen).take(i as int),
            decreases hits.len() - i,
        {
            let ghost so_far = ids@;
            assert(*hits@[i as int] == chosen[i as int]);
            ids.push(hits[i].entity_id.clone());
            assert(string_views(ids@) =~= string_views(so_far).push(chosen[i as int].entity_id@));
            assert(ids_of(chosen).take(i + 1) =~= ids_of(chosen).take(i as int).push(
                chosen[i as int].entity_id@,
            ));
            i += 1;
        }
        assert(ids_of(chosen).take(i as int) =~= ids_of(chosen));
        return Pick::Ambiguous(ids);
    }
    let entity = hits[0];
    assert(*entity == chosen[0]);
    if entity.is_available() {
        Pick::Ready(entity)
    } else {
        Pick::Unavailable(entity)
    }
}

/// A pattern selects exactly the entities that fit it, and keeps them in the order of their
/// ids.
pub proof fn law_selection_is_exact_and_ordered(entities: Seq<Entity>, pattern: Seq<char>)
    requires
        ids_ascending(entities),
    ensures
        forall|e: Entity| #[trigger]
            selected(entities, pattern).contains(e) <==> entities.contains(e) && selects(
                pattern,
                e,
            ),
        ids_ascending(selected(entities, pattern)),
    decreases entities.len(),
{
    reveal(Seq::filter);
    let hits = selected(entities, pattern);
    if entities.len() > 0 {
        let rest = entities.drop_last();
        let last = entities.last();
        law_selection_is_exact_and_ordered(rest, pattern);
        let fewer = selected(rest, pattern);
        assert(entities =~= rest.push(last));
        assert forall|e: Entity| #[trigger] hits.contains(e) <==> entities.contains(e) && selects(
            pattern,
            e,
        ) by {
            if entities.contains(e) {
                let k = choose|k: int| 0 <= k < entities.len() && entities[k] == e;
                if k < rest.len() {
                    assert(rest[k] == e);
                    assert(rest.contains(e));
                }
            }
            if rest.contains(e) {
                let k = choose|k: int| 0 <= k < rest.len() && rest[k] == e;
                assert(entities[k] == e);
            }
            if fewer.contains(e) {
                let k = choose|k: int| 0 <= k < fewer.len() && fewer[k] == e;
                assert(hits[k] == e);
            }
            if hits.contains(e) {
                let k = choose|k: int| 0 <= k < hits.len() && hits[k] == e;
                if k < fewer.len() {
                    assert(fewer[k] == e);
                    assert(fewer.contains(e));
                }
            }
            if e == last && selects(pattern, e) {
                assert(hits[hits.len() - 1] == e);
            }
            assert(entities[entities.len() - 1] == last);
        }
        assert forall|i: int, j: int| 0 <= i < j < hits.len() implies precedes(
            (#[trigger] hits[i]).entity_id@,
            (#[trigger] hits[j]).entity_id@,
        ) by {
            assert(hits[i] == fewer[i]);
            if j < fewer.len() {
                assert(hits[j] == fewer[j]);
            } else {
                assert(fewer.contains(fewer[i]));
                let k = choose|k: int| 0 <= k < rest.len() && rest[k] == fewer[i];
                assert(precedes(entities[k].entity_id@, entities[entities.len() - 1].entity_id@));
            }
        }
    }
}

/// Nothing is picked by a pattern that does not select exactly one entity, and what is picked
/// is the entity that it selects.
pub proof fn law_pick_needs_exactly_one(entities: Seq<Entity>, pattern: Seq<char>)
    ensures
        picked(entities, pattern) is Ready || picked(entities, pattern) is Unavailable
            <==> selected(entities, pattern).len() == 1,
        picked(entities, pattern) matches Picked::Ready(e) ==> selected(entities, pattern)
            == seq![e] && e.available(),
{
    if selected(entities, pattern).len() == 1 {
        assert(selected(entities, pattern) =~= seq![selected(entities, pattern)[0]]);
    }
}

/// A pattern without `*` selects the one entity of its id.
proof fn lemma_only_one(entities: Seq<Entity>, pattern: Seq<char>, entity: Entity)
    requires
        ids_ascending(entities),
        !pattern.contains('*'),
        entities.contains(entity),
        entity.entity_id@ == pattern,
    ensures
        selected(entities, pattern) == seq![entity],
    decreases entities.len(),
{
    reveal(Seq::filter);
    let chosen = |e: Entity| selects(pattern, e);
    let rest = entities.drop_last();
    let last = entities.last();
    let k = choose|k: int| 0 <= k < entities.len() && entities[k] == entity;
    assert(ids_ascending(rest));
    lemma_precedes_irreflexive(pattern);
    if k == entities.len() - 1 {
        assert forall|e: Entity| #[trigger] rest.contains(e) implies e.entity_id@ != pattern by {
            let j = choose|j: int| 0 <= j < rest.len() && rest[j] == e;
            assert(entities[j] == e);
            assert(precedes(entities[j].entity_id@, entities[k].entity_id@));
        }
        lemma_none(rest, pattern);
        assert(entities.filter(chosen) =~= rest.filter(chosen).push(last));
        assert(rest.filter(chosen).push(last) =~= seq![entity]);
    } else {
        assert(rest[k] == entity);
        lemma_only_one(rest, pattern, entity);
        assert(precedes(entities[k].entity_id@, entities[entities.len() - 1].entity_id@));
        assert(!chosen(last));
        assert(entities.filter(chosen) =~= rest.filter(chosen));
    }
}

/// A pattern without `*` that is no entity's id selects nothing.
proof fn lemma_none(entities: Seq<Entity>, pattern: Seq<char>)
    requires
        !pattern.contains('*'),
        forall|e: Entity| #[trigger] entities.contains(e) ==> e.entity_id@ != pattern,
    ensures
        selected(entities, pattern) == Seq::<Entity>::empty(),
    decreases entities.len(),
{
    reveal(Seq::filter);
    if entities.len() > 0 {
        let chosen = |e: Entity| selects(pattern, e);
        let rest = entities.drop_last();
        assert(entities.contains(entities.last()));
        assert forall|e: Entity| #[trigger] rest.contains(e) implies e.entity_id@ != pattern by {
            let j = choose|j: int| 0 <= j < rest.len() && rest[j] == e;
            assert(entities.contains(entities[j]));
        }
        lemma_none(rest, pattern);
        assert(entities.filter(chosen) =~= rest.filter(chosen));
    }
}

/// Filing one more entity keeps the table at the last entity of each id.
proof fn lemma_file(
    all: Seq<Entity>,
    n: int,
    old_table: Map<Seq<char>, Entity>,
    new_table: Map<Seq<char>, Entity>,
)
    requires
        0 <= n < all.len(),
        new_table == old_table.insert(all[n].entity_id@, all[n]),
        forall|id: Seq<char>| #[trigger]
            old_table.contains_key(id) ==> exists|i: int|
                #![trigger all.take(n)[i]]
                last_of_id(all.take(n), i) && all.take(n)[i] == old_table[id],
        forall|i: int| #[trigger]
            last_of_id(all.take(n), i) ==> old_table.contains_key(all[i].entity_id@)
                && old_table[all[i].entity_id@] == all[i],
        forall|id: Seq<char>| #[trigger]
            old_table.contains_key(id) ==> old_table[id].entity_id@ == id,
    ensures
        forall|id: Seq<char>| #[trigger]
            new_table.contains_key(id) ==> exists|i: int|
                #![trigger all.take(n + 1)[i]]
                last_of_id(all.take(n + 1), i) && all.take(n + 1)[i] == new_table[id],
        forall|i: int| #[trigger]
            last_of_id(all.take(n + 1), i) ==> new_table.contains_key(all[i].entity_id@)
                && new_table[all[i].entity_id@] == all[i],
{
    let earlier = all.take(n);
    let later = all.take(n + 1);
    assert forall|id: Seq<char>| #[trigger] new_table.contains_key(id) implies exists|i: int|
        #![trigger later[i]]
        last_of_id(later, i) && later[i] == new_table[id] by {
        if id == all[n].entity_id@ {
            assert(last_of_id(later, n) && later[n] == new_table[id]);
        } else {
            assert(old_table.contains_key(id));
            let i = choose|i: int|
                #![trigger earlier[i]]
                last_of_id(earlier, i) && earlier[i] == old_table[id];
            assert(last_of_id(later, i)) by {
                assert forall|j: int| i < j < later.len() implies (#[trigger] later[j]).entity_id@
                    != later[i].entity_id@ by {
                    if j < n {
                        assert(earlier[j] == later[j]);
                    }
                }
            }
            assert(later[i] == new_table[id]);
        }
    }
    assert forall|i: int| #[trigger] last_of_id(later, i) implies new_table.contains_key(
        all[i].entity_id@,
    ) && new_table[all[i].entity_id@] == all[i] by {
        if i < n {
            assert(later[n].entity_id@ != later[i].entity_id@);
            assert(last_of_id(earlier, i)) by {
                assert forall|j: int| i < j < earlier.len() implies (#[trigger]
                earlier[j]).entity_id@ != earlier[i].entity_id@ by {
                    assert(later[j] == earlier[j]);
                }
            }
        }
    }
}

/// Once all entities are filed, the last one of each id stands in the order of ids.
proof fn lemma_filed(states: States, all: Seq<Entity>)
    requires
        states.keyed_by_id(),
        states.table.walks_contents(),
        forall|id: Seq<char>| #[trigger]
            states.table@.contains_key(id) ==> exists|i: int|
                #![trigger all[i]]
                last_of_id(all, i) && all[i] == states.table@[id],
        forall|i: int| #[trigger]
            last_of_id(all, i) ==> states.table@.contains_key(all[i].entity_id@)
                && states.table@[all[i].entity_id@] == all[i],
    ensures
        ids_ascending(states@),
        forall|e: Entity| #[trigger]
            states@.contains(e) <==> exists|i: int| #[trigger]
                last_of_id(all, i) && all[i] == e,
{
    lemma_walk(states);
    assert forall|e: Entity| #[trigger] states@.contains(e) implies exists|i: int| #[trigger]
        last_of_id(all, i) && all[i] == e by {
        let k = choose|k: int| 0 <= k < states@.len() && states@[k] == e;
        let id = states.table.keys()[k];
        assert(states.table.keys().contains(id));
        assert(states.table@.contains_key(id));
        let i = choose|i: int| #![trigger all[i]] last_of_id(all, i) && all[i] == states.table@[id];
        assert(last_of_id(all, i) && all[i] == e);
    }
    assert forall|e: Entity|
        (exists|i: int| #[trigger] last_of_id(all, i) && all[i] == e) implies #[trigger] states@.contains(
        e,
    ) by {
        let i = choose|i: int| #[trigger] last_of_id(all, i) && all[i] == e;
        let id = e.entity_id@;
        assert(states.table@.contains_key(id));
        let k = choose|k: int| 0 <= k < states.table.keys().len() && states.table.keys()[k] == id;
        assert(states@[k] == e);
    }
}

/// The walk of the table goes by id.
proof fn lemma_walk(states: States)
    requires
        states.keyed_by_id(),
        states.table.walks_contents(),
    ensures
        ids_ascending(states@),
        states@.len() == states.table.keys().len(),
        forall|k: int|
            0 <= k < states@.len() ==> (#[trigger] states@[k]).entity_id@ == states.table.keys()[k],
{
    assert forall|k: int| 0 <= k < states@.len() implies (#[trigger] states@[k]).entity_id@
        == states.table.keys()[k] by {
        let id = states.table.keys()[k];
        assert(states.table.keys().contains(id));
        assert(states.table@.contains_key(id));
    }
    assert forall|i: int, j: int| 0 <= i < j < states@.len() implies precedes(
        (#[trigger] states@[i]).entity_id@,
        (#[trigger] states@[j]).entity_id@,
    ) by {
        assert(precedes(states.table.keys()[i], states.table.keys()[j]));
    }
}

/// A pattern with `*` finds an entity of the poll exactly when it fits the id of the entity or
/// its friendly name, where that is a text. Case makes no difference.
pub proof fn law_star_pattern_goes_by_id_and_name(
    entities: Seq<Entity>,
    pattern: Seq<char>,
    e: Entity,
)
    requires
        ids_ascending(entities),
        entities.contains(e),
        pattern.contains('*'),
    ensures
        fits(lowered(pattern), lowered(e.entity_id@)) ==> selected(entities, pattern).contains(e),
        member(contents(e.attributes), "friendly_name"@) matches Some(Json::Text(name)) && fits(
            lowered(pattern),
            lowered(name),
        ) ==> selected(entities, pattern).contains(e),
        selected(entities, pattern).contains(e) ==> fits(lowered(pattern), lowered(e.entity_id@))
            || (member(contents(e.attributes), "friendly_name"@) matches Some(Json::Text(name))
            && fits(lowered(pattern), lowered(name))),
{
    law_selection_is_exact_and_ordered(entities, pattern);
}

/// A text that occurs in the id of an entity, or in its friendly name, finds the entity when it
/// is put between two `*`, whatever else the text holds.
pub proof fn law_part_between_stars_finds_the_entity(
    entities: Seq<Entity>,
    e: Entity,
    part: Seq<char>,
    at: int,
)
    requires
        ids_ascending(entities),
        entities.contains(e),
        !part.contains('*'),
    ensures
        occurs_at(part, e.entity_id@, at) ==> selected(
            entities,
            (seq!['*'] + part).push('*'),
        ).contains(e),
        member(contents(e.attributes), "friendly_name"@) matches Some(Json::Text(name))
            && occurs_at(part, name, at) ==> selected(
            entities,
            (seq!['*'] + part).push('*'),
        ).contains(e),
{
    let pattern = (seq!['*'] + part).push('*');
    assert(pattern[0] == '*');
    assert(pattern.contains('*'));
    law_star_pattern_goes_by_id_and_name(entities, pattern, e);
    if occurs_at(part, e.entity_id@, at) {
        lemma_part_fits(part, e.entity_id@, at);
    }
    if let Some(Json::Text(name)) = member(contents(e.attributes), "friendly_name"@) {
        if occurs_at(part, name, at) {
            lemma_part_fits(part, name, at);
        }
    }
}

/// A text in which a part occurs fits the part between two `*`, in any case.
proof fn lemma_part_fits(part: Seq<char>, text: Seq<char>, at: int)
    requires
        !part.contains('*'),
        occurs_at(part, text, at),
    ensures
        fits(lowered((seq!['*'] + part).push('*')), lowered(text)),
{
    let small = lowered(part);
    assert(lowered((seq!['*'] + part).push('*')) =~= (seq!['*'] + small).push('*'));
    if small.contains('*') {
        let i = choose|i: int| 0 <= i < small.len() && small[i] == '*';
        assert(part[i] == '*');
        assert(part.contains('*'));
    }
    assert(lowered(text).subrange(at, at + small.len()) =~= lowered(
        text.subrange(at, at + part.len()),
    ));
    assert(occurs_at(small, lowered(text), at));
    law_star_on_both_sides_fits_occurrences(small, lowered(text));
}

/// A text without `*` finds the entity whose id it is, letter for letter, and no other.
pub proof fn law_exact_id_finds_its_entity(entities: Seq<Entity>, id: Seq<char>)
    requires
        ids_ascending(entities),
        !id.contains('*'),
    ensures
        forall|e: Entity| #[trigger]
            entities.contains(e) && e.entity_id@ == id ==> selected(entities, id) == seq![e],
        (forall|e: Entity| #[trigger] entities.contains(e) ==> e.entity_id@ != id) ==> selected(
            entities,
            id,
        ).len() == 0,
{
    assert forall|e: Entity| #[trigger] entities.contains(e) && e.entity_id@ == id implies selected(
        entities,
        id,
    ) == seq![e] by {
        lemma_only_one(entities, id, e);
    }
    if forall|e: Entity| #[trigger] entities.contains(e) ==> e.entity_id@ != id {
        lemma_none(entities, id);
    }
}

/// What a pattern comes to that is meant for one entity goes by what it finds. Where it finds
/// one entity alone, that one is picked, and it is ready unless its state is `unavailable` or
/// `unknown`. Where it finds none or several, nothing is picked.
pub proof fn law_one_entity_is_picked(entities: Seq<Entity>, pattern: Seq<char>, e: Entity)
    requires
        ids_ascending(entities),
    ensures
        selected(entities, pattern).contains(e) && (forall|x: Entity| #[trigger]
            selected(entities, pattern).contains(x) ==> x == e) ==> picked(entities, pattern)
            == if e.state@ == "unavailable"@ || e.state@ == "unknown"@ {
            Picked::Unavailable(e)
        } else {
            Picked::Ready(e)
        },
        (forall|x: Entity| #[trigger] entities.contains(x) ==> !selected(
            entities,
            pattern,
        ).contains(x)) ==> picked(entities, pattern) == Picked::NoMatch,
        forall|x: Entity|
            #![trigger selected(entities, pattern).contains(x)]
            selected(entities, pattern).contains(x) && selected(entities, pattern).contains(e) && x
                != e ==> (picked(entities, pattern) matches Picked::Ambiguous(ids) && ids.contains(
                x.entity_id@,
            ) && ids.contains(e.entity_id@) && ids == ids_of(selected(entities, pattern))),
        ids_of(selected(entities, pattern)).len() == selected(entities, pattern).len(),
        forall|i: int|
            0 <= i < selected(entities, pattern).len() ==> #[trigger] ids_of(
                selected(entities, pattern),
            )[i] == selected(entities, pattern)[i].entity_id@,
{
    let hits = selected(entities, pattern);
    law_selection_is_exact_and_ordered(entities, pattern);
    if hits.contains(e) && (forall|x: Entity| #[trigger] hits.contains(x) ==> x == e) {
        if hits.len() > 1 {
            assert(hits.contains(hits[0]) && hits.contains(hits[1]));
            assert(precedes(hits[0].entity_id@, hits[1].entity_id@));
            lemma_precedes_irreflexive(e.entity_id@);
        }
        let k = choose|k: int| 0 <= k < hits.len() && hits[k] == e;
        assert(hits[0] == e);
    }
    if forall|x: Entity| #[trigger] entities.contains(x) ==> !hits.contains(x) {
        if hits.len() > 0 {
            assert(hits.contains(hits[0]));
            assert(entities.contains(hits[0]));
        }
    }
    assert forall|x: Entity|
        #![trigger hits.contains(x)]
        hits.contains(x) && hits.contains(e) && x != e implies (picked(
        entities,
        pattern,
    ) matches Picked::Ambiguous(ids) && ids.contains(x.entity_id@) && ids.contains(e.entity_id@)
        && ids == ids_of(hits)) by {
        let i = choose|i: int| 0 <= i < hits.len() && hits[i] == x;
        let j = choose|j: int| 0 <= j < hits.len() && hits[j] == e;
        assert(ids_of(hits)[i] == x.entity_id@);
        assert(ids_of(hits)[j] == e.entity_id@);
    }
}

/// The entity of an id is picked by exactly that id, as long as the id holds no `*`.
pub proof fn law_entity_is_picked_by_its_id(entities: Seq<Entity>, e: Entity)
    requires
        ids_ascending(entities),
        entities.contains(e),
        !e.entity_id@.contains('*'),
    ensures
        picked(entities, e.entity_id@) == if e.state@ == "unavailable"@ || e.state@ == "unknown"@ {
            Picked::Unavailable(e)
        } else {
            Picked::Ready(e)
        },
{
    lemma_only_one(entities, e.entity_id@, e);
    assert(seq![e][0] == e);
}

/// Of the reports of one id in a list, the one behind all others stays, and no id is lost.
pub proof fn law_last_report_of_an_id_stays(entities: Seq<Entity>, i: int)
    requires
        0 <= i < entities.len(),
    ensures
        forall|j: int|
            i < j < entities.len() && (#[trigger] entities[j]).entity_id@ == entities[i].entity_id@
                ==> !last_of_id(entities, i),
        exists|j: int|
            i <= j < entities.len() && #[trigger] last_of_id(entities, j)
                && entities[j].entity_id@ == entities[i].entity_id@,
    decreases entities.len() - i,
{
    if !last_of_id(entities, i) {
        let j = choose|j: int|
            i < j < entities.len() && (#[trigger] entities[j]).entity_id@
                == entities[i].entity_id@;
        law_last_report_of_an_id_stays(entities, j);
    }
}

} // verus!
