//! Fields (properties) of schematic items as their text, role and ordering see them, and
//! the ordinal a newly added field gets.
//!
//! A field's placement (position, angle, text effects) plays no part here.

use crate::model::{spec_canonical_key, spec_default_field_id, spec_is_user_field, PropertyKind};
use vstd::prelude::*;

verus! {

/// A field of a symbol, sheet or label: its id and ordinal, its name (key) and text, the
/// text it had before occurrence data replaced it (kept for intersheet references), its
/// role, and its flags.
#[derive(Debug, Clone, PartialEq)]
pub struct Property {
    pub id: Option<i32>,
    pub ordinal: i32,
    pub key: String,
    pub value: String,
    pub base_value: Option<String>,
    pub kind: PropertyKind,
    pub is_private: bool,
    pub visible: bool,
    pub show_name: bool,
    pub can_autoplace: bool,
    pub has_effects: bool,
}

/// A field as a mathematical value.
pub struct PropertyView {
    pub id: Option<i32>,
    pub ordinal: i32,
    pub key: Seq<char>,
    pub value: Seq<char>,
    pub base_value: Option<Seq<char>>,
    pub kind: PropertyKind,
    pub is_private: bool,
    pub visible: bool,
    pub show_name: bool,
    pub can_autoplace: bool,
    pub has_effects: bool,
}

impl View for Property {
    type V = PropertyView;

    open spec fn view(&self) -> PropertyView {
        PropertyView {
            id: self.id,
            ordinal: self.ordinal,
            key: self.key@,
            value: self.value@,
            base_value: match self.base_value {
                Some(b) => Some(b@),
                None => None,
            },
            kind: self.kind,
            is_private: self.is_private,
            visible: self.visible,
            show_name: self.show_name,
            can_autoplace: self.can_autoplace,
            has_effects: self.has_effects,
        }
    }
}

/// The views of a list of fields.
pub open spec fn prop_views(s: Seq<Property>) -> Seq<PropertyView> {
    s.map_values(|p: Property| p@)
}

/// The ordinal by which a field sorts: its id for a mandatory field that has one, else
/// its ordinal.
pub open spec fn sort_ordinal_of(p: PropertyView) -> i32 {
    if !spec_is_user_field(p.kind) {
        match p.id {
            Some(id) => id,
            None => p.ordinal,
        }
    } else {
        p.ordinal
    }
}

/// The ordinal after the fields: at least 42, and above every field's sort ordinal.
pub open spec fn ordinal_after(props: Seq<PropertyView>) -> int
    decreases props.len(),
{
    if props.len() == 0 {
        42
    } else {
        let rest = ordinal_after(props.drop_last());
        let here = sort_ordinal_of(props.last()) + 1;
        if here > rest {
            here
        } else {
            rest
        }
    }
}

/// The ordinal after `start` and the field ordinals of drawn library fields.
pub open spec fn ordinal_after_items(start: int, items: Seq<Option<i32>>) -> int
    decreases items.len(),
{
    if items.len() == 0 {
        start
    } else {
        let rest = ordinal_after_items(start, items.drop_last());
        match items.last() {
            Some(o) => if o + 1 > rest {
                o + 1
            } else {
                rest
            },
            None => rest,
        }
    }
}

/// Every sort ordinal leaves room for the next one.
pub open spec fn ordinals_fit(props: Seq<PropertyView>) -> bool {
    forall|i: int| 0 <= i < props.len() ==> #[trigger] sort_ordinal_of(props[i]) < i32::MAX
}

/// A new field of the kind with the text: its role's default id as id and ordinal, its
/// role's canonical key, visible, placeable, not private; a global label's intersheet
/// references keep their text as the base text.
pub open spec fn new_field_view(kind: PropertyKind, key: Seq<char>, value: Seq<char>, is_private: bool) -> PropertyView {
    PropertyView {
        id: Some(spec_default_field_id(kind)),
        ordinal: spec_default_field_id(kind),
        key,
        value,
        base_value: if kind == PropertyKind::GlobalLabelIntersheetRefs {
            Some(value)
        } else {
            None
        },
        kind,
        is_private,
        visible: true,
        show_name: false,
        can_autoplace: true,
        has_effects: false,
    }
}

impl Property {
    /// A new field of the kind, named by the kind's canonical key.
    pub fn new(kind: PropertyKind, value: String) -> (r: Self)
        ensures
            r@ == new_field_view(kind, spec_canonical_key(kind), value@, false),
    {
        let base_value = match kind {
            PropertyKind::GlobalLabelIntersheetRefs => Some(value.clone()),
            _ => None,
        };
        let id = kind.default_field_id();
        let ordinal = match id {
            Some(i) => i,
            None => 0,
        };
        Property {
            id,
            ordinal,
            key: kind.canonical_key().to_owned(),
            value,
            base_value,
            kind,
            is_private: false,
            visible: true,
            show_name: false,
            can_autoplace: true,
            has_effects: false,
        }
    }

    /// A new field of the kind: a user field is named `name`, a mandatory one by its
    /// canonical key.
    pub fn new_named(kind: PropertyKind, name: &str, value: String, is_private: bool) -> (r: Self)
        ensures
            r@ == new_field_view(
                kind,
                if spec_is_user_field(kind) {
                    name@
                } else {
                    spec_canonical_key(kind)
                },
                value@,
                is_private,
            ),
    {
        let base_value = match kind {
            PropertyKind::GlobalLabelIntersheetRefs => Some(value.clone()),
            _ => None,
        };
        let id = kind.default_field_id();
        let ordinal = match id {
            Some(i) => i,
            None => 0,
        };
        let key = match kind {
            PropertyKind::User | PropertyKind::SheetUser => name.to_owned(),
            _ => kind.canonical_key().to_owned(),
        };
        Property {
            id,
            ordinal,
            key,
            value,
            base_value,
            kind,
            is_private,
            visible: true,
            show_name: false,
            can_autoplace: true,
            has_effects: false,
        }
    }

    /// The ordinal by which the field sorts.
    pub fn sort_ordinal(&self) -> (r: i32)
        ensures
            r == sort_ordinal_of(self@),
    {
        if self.kind.is_mandatory() {
            match self.id {
                Some(id) => id,
                None => self.ordinal,
            }
        } else {
            self.ordinal
        }
    }
}

proof fn lemma_ordinal_after_bounds(props: Seq<PropertyView>)
    requires
        ordinals_fit(props),
    ensures
        42 <= ordinal_after(props) <= i32::MAX,
    decreases props.len(),
{
    if props.len() > 0 {
        let rest = props.drop_last();
        assert(ordinals_fit(rest)) by {
            assert forall|i: int| 0 <= i < rest.len() implies #[trigger] sort_ordinal_of(rest[i]) < i32::MAX by {
                assert(rest[i] == props[i]);
            }
        }
        lemma_ordinal_after_bounds(rest);
        assert(sort_ordinal_of(props[props.len() - 1]) < i32::MAX);
    }
}

/// The ordinal a field added to an item with these fields gets: one above the highest
/// sort ordinal, and at least 42.
pub fn next_field_ordinal(properties: &Vec<Property>) -> (r: i32)
    requires
        ordinals_fit(prop_views(properties@)),
    ensures
        r == ordinal_after(prop_views(properties@)),
{
    let ghost ps = prop_views(properties@);
    let mut best: i32 = 42;
    let mut i: usize = 0;
    while i < properties.len()
        invariant
            0 <= i <= properties.len(),
            ps == prop_views(properties@),
            ordinals_fit(ps),
            best == ordinal_after(ps.take(i as int)),
        decreases properties.len() - i,
    {
        assert(ps.take(i + 1).drop_last() =~= ps.take(i as int));
        assert(ps.take(i + 1).last() == ps[i as int]);
        assert(sort_ordinal_of(ps[i as int]) < i32::MAX);
        let here = properties[i].sort_ordinal() + 1;
        if here > best {
            best = here;
        }
        i = i + 1;
    }
    assert(ps.take(ps.len() as int) =~= ps);
    best
}

/// The ordinal a field added to a library symbol gets: one above the highest sort
/// ordinal of its fields and the highest field ordinal of its drawn fields, and at
/// least 42.
pub fn next_lib_field_ordinal(properties: &Vec<Property>, draw_item_ordinals: &Vec<Option<i32>>) -> (r: i32)
    requires
        ordinals_fit(prop_views(properties@)),
        forall|i: int| 0 <= i < draw_item_ordinals@.len() ==> (#[trigger] draw_item_ordinals@[i] matches Some(o) ==> o < i32::MAX),
    ensures
        r == ordinal_after_items(ordinal_after(prop_views(properties@)), draw_item_ordinals@),
{
    let start = next_field_ordinal(properties);
    proof {
        lemma_ordinal_after_bounds(prop_views(properties@));
    }
    let ghost items = draw_item_ordinals@;
    let mut best: i32 = start;
    let mut i: usize = 0;
    while i < draw_item_ordinals.len()
        invariant
            0 <= i <= draw_item_ordinals.len(),
            items == draw_item_ordinals@,
            forall|k: int| 0 <= k < items.len() ==> (#[trigger] items[k] matches Some(o) ==> o < i32::MAX),
            best == ordinal_after_items(start as int, items.take(i as int)),
        decreases draw_item_ordinals.len() - i,
    {
        assert(items.take(i + 1).drop_last() =~= items.take(i as int));
        assert(items.take(i + 1).last() == items[i as int]);
        match draw_item_ordinals[i] {
            Some(o) => {
                assert(items[i as int] matches Some(x) ==> x < i32::MAX);
                if o + 1 > best {
                    best = o + 1;
                }
            },
            None => {},
        }
        i = i + 1;
    }
    assert(items.take(items.len() as int) =~= items);
    best
}

/// The ordinal after a set of fields is fresh: above every field's sort ordinal, and at
/// least 42.
pub proof fn law_next_ordinal_is_fresh(props: Seq<PropertyView>)
    ensures
        ordinal_after(props) >= 42,
        forall|i: int| 0 <= i < props.len() ==> #[trigger] sort_ordinal_of(props[i]) < ordinal_after(props),
    decreases props.len(),
{
    if props.len() > 0 {
        let rest = props.drop_last();
        law_next_ordinal_is_fresh(rest);
        assert forall|i: int| 0 <= i < props.len() implies #[trigger] sort_ordinal_of(props[i]) < ordinal_after(props) by {
            if i < props.len() - 1 {
                assert(props[i] == rest[i]);
            }
        }
    }
}

} // verus!
