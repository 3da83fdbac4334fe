//! Entities, as Home Assistant reports them.

use vstd::prelude::*;

use crate::degrees::Degrees;
use crate::json::{as_array, as_f64, as_str, contents, get, items_of, member, text_of, Json};
use crate::text::same;

verus! {

/// A single entity of the list that Home Assistant gives under `/api/states`.
#[derive(Debug)]
pub struct Entity {
    pub entity_id: String,
    pub state: String,
    pub attributes: serde_json::Value,
}

/// The texts among items, in their order.
pub open spec fn texts(items: Seq<Json>) -> Seq<Seq<char>>
    decreases items.len(),
{
    if items.len() == 0 {
        Seq::empty()
    } else {
        match text_of(items.last()) {
            Some(text) => texts(items.drop_last()).push(text),
            None => texts(items.drop_last()),
        }
    }
}

impl Entity {
    /// The attribute of a name.
    pub open spec fn attribute(self, key: Seq<char>) -> Option<Json> {
        member(contents(self.attributes), key)
    }

    /// The attribute of a name, where it is a text.
    pub open spec fn text_attribute(self, key: Seq<char>) -> Option<Seq<char>> {
        match self.attribute(key) {
            Some(json) => text_of(json),
            None => None,
        }
    }

    /// The attribute of a name, where it is a number.
    pub open spec fn number_attribute(self, key: Seq<char>) -> Option<Degrees> {
        match self.attribute(key) {
            Some(Json::Number(bits)) => Some(Degrees { bits }),
            _ => None,
        }
    }

    /// The presets that the entity advertises: the texts in its list `preset_modes`.
    pub open spec fn presets(self) -> Seq<Seq<char>> {
        match self.attribute("preset_modes"@) {
            Some(Json::Array(items)) => texts(items),
            _ => Seq::empty(),
        }
    }

    /// The state is neither `unavailable` nor `unknown`.
    pub open spec fn available(self) -> bool {
        self.state@ != "unavailable"@ && self.state@ != "unknown"@
    }

    /// The attribute of a name, where it is a number.
    pub fn attr_f64(&self, key: &str) -> (number: Option<Degrees>)
        ensures
            number == self.number_attribute(key@),
    {
        match get(&self.attributes, key) {
            Some(value) => match as_f64(value) {
                Some(bits) => Some(Degrees::from_bits(bits)),
                None => None,
            },
            None => None,
        }
    }

    /// False when Home Assistant reports the entity as unavailable or unknown.
    pub fn is_available(&self) -> (yes: bool)
        ensures
            yes == self.available(),
    {
        !same(self.state.as_str(), "unavailable") && !same(self.state.as_str(), "unknown")
    }

    /// The attribute of a name, where it is a text.
    pub fn attr_str(&self, key: &str) -> (text: Option<&str>)
        ensures
            match text {
                Some(t) => self.text_attribute(key@) == Some(t@),
                None => self.text_attribute(key@) is None,
            },
    {
        match get(&self.attributes, key) {
            Some(value) => as_str(value),
            None => None,
        }
    }

    /// The preset modes that the integration advertises for this entity.
    pub fn preset_modes(&self) -> (presets: Vec<&str>)
        ensures
            presets@.map_values(|preset: &str| preset@) == self.presets(),
    {
        let mut presets: Vec<&str> = Vec::new();
        if let Some(list) = get(&self.attributes, "preset_modes") {
            if let Some(items) = as_array(list) {
                let ghost jsons = items_of(items@);
                let mut i: usize = 0;
                assert(presets@.map_values(|preset: &str| preset@) =~= texts(jsons.take(0)));
                while i < items.len()
                    invariant
                        i <= items.len(),
                        jsons == items_of(items@),
                        presets@.map_values(|preset: &str| preset@) == texts(jsons.take(i as int)),
                    decreases items.len() - i,
                {
                    assert(jsons.take(i + 1).drop_last() =~= jsons.take(i as int));
                    assert(jsons.take(i + 1).last() == contents(items@[i as int]));
                    if let Some(text) = as_str(&items[i]) {
                        let ghost so_far = presets@;
                        presets.push(text);
                        assert(presets@.map_values(|preset: &str| preset@) =~= so_far.map_values(
                            |preset: &str| preset@,
                        ).push(text@));
                    }
                    i += 1;
                }
                assert(jsons.take(items.len() as int) =~= jsons);
                return presets;
            }
        }
        assert(presets@.map_values(|preset: &str| preset@) =~= Seq::<Seq<char>>::empty());
        presets
    }

    /// The HVAC mode of a climate entity, which is its state.
    pub fn hvac_mode(&self) -> (mode: &str)
        ensures
            mode@ == self.state@,
    {
        self.state.as_str()
    }
}

/// An entity is out of reach in the states `unavailable` and `unknown`, and in no other.
pub proof fn law_two_states_are_out_of_reach(entity: Entity)
    ensures
        entity.available() <==> !(entity.state@ == "unavailable"@ || entity.state@ == "unknown"@),
{
}

/// What an attribute is read as: a number where the JSON member of that name is one, a text
/// where it is one, and nothing otherwise.
pub proof fn law_attributes_are_read_by_kind(entity: Entity, key: Seq<char>)
    ensures
        match member(contents(entity.attributes), key) {
            Some(Json::Number(bits)) => entity.number_attribute(key) == Some(Degrees { bits })
                && entity.text_attribute(key) is None,
            Some(Json::Text(text)) => entity.text_attribute(key) == Some(text)
                && entity.number_attribute(key) is None,
            _ => entity.number_attribute(key) is None && entity.text_attribute(key) is None,
        },
{
}

/// The presets of an entity are the texts of its list, each of them, in their order.
pub proof fn law_presets_are_the_texts_of_the_list(
    entity: Entity,
    front: Seq<Json>,
    item: Json,
    back: Seq<Json>,
)
    ensures
        member(contents(entity.attributes), "preset_modes"@) == Some(
            Json::Array(front + seq![item] + back),
        ) ==> entity.presets() == texts(front) + texts(seq![item]) + texts(back),
        item matches Json::Text(text) ==> texts(seq![item]) == seq![text],
        !(item is Text) ==> texts(seq![item]) == Seq::<Seq<char>>::empty(),
        texts(Seq::<Json>::empty()) == Seq::<Seq<char>>::empty(),
        !(member(contents(entity.attributes), "preset_modes"@) matches Some(Json::Array(_)))
            ==> entity.presets().len() == 0,
{
    lemma_texts_join(front, seq![item]);
    lemma_texts_join(front + seq![item], back);
    assert(seq![item].drop_last() =~= Seq::<Json>::empty());
    assert(texts(seq![item].drop_last()) =~= Seq::<Seq<char>>::empty());
    if let Json::Text(text) = item {
        assert(texts(seq![item]) =~= seq![text]);
    }
}

/// The texts of two lists, one behind the other.
proof fn lemma_texts_join(a: Seq<Json>, b: Seq<Json>)
    ensures
        texts(a + b) == texts(a) + texts(b),
    decreases b.len(),
{
    if b.len() == 0 {
        assert(a + b =~= a);
        assert(texts(a) + texts(b) =~= texts(a));
    } else {
        assert((a + b).drop_last() =~= a + b.drop_last());
        lemma_texts_join(a, b.drop_last());
        assert(texts(a + b) =~= texts(a) + texts(b));
    }
}

} // verus!
