//! Entity changes: the rows the pipelines hand to a graph database, each a set
//! of named, typed field values.
use vstd::prelude::*;

verus! {

/// What an entity change does to its row.
#[derive(Clone, Copy, Debug, PartialEq, Eq, Structural)]
pub enum Operation {
    Unspecified,
    Create,
    Update,
    Delete,
    Final,
}

/// A typed field value; numbers of arbitrary size travel as decimal text.
pub enum FieldValue {
    String(String),
    BigInt(String),
    BigDecimal(String),
    Int32(i32),
    BigIntArray(Vec<String>),
}

/// The values of a `FieldValue`.
pub enum ValueView {
    String(Seq<char>),
    BigInt(Seq<char>),
    BigDecimal(Seq<char>),
    Int32(i32),
    BigIntArray(Seq<Seq<char>>),
}

/// The texts of a sequence of strings.
pub open spec fn texts(s: Seq<String>) -> Seq<Seq<char>> {
    s.map_values(|t: String| t@)
}

impl View for FieldValue {
    type V = ValueView;

    open spec fn view(&self) -> ValueView {
        match self {
            FieldValue::String(s) => ValueView::String(s@),
            FieldValue::BigInt(s) => ValueView::BigInt(s@),
            FieldValue::BigDecimal(s) => ValueView::BigDecimal(s@),
            FieldValue::Int32(i) => ValueView::Int32(*i),
            FieldValue::BigIntArray(v) => ValueView::BigIntArray(texts(v@)),
        }
    }
}

/// A field of an entity change.
pub struct Field {
    pub name: String,
    pub value: FieldValue,
}

impl View for Field {
    type V = (Seq<char>, ValueView);

    open spec fn view(&self) -> (Seq<char>, ValueView) {
        (self.name@, self.value@)
    }
}

/// A change to one row of an entity table.
pub struct EntityChange {
    pub entity: String,
    pub id: String,
    pub ordinal: u64,
    pub operation: Operation,
    pub fields: Vec<Field>,
}

/// The values of an `EntityChange`.
pub struct EntityChangeView {
    pub entity: Seq<char>,
    pub id: Seq<char>,
    pub ordinal: u64,
    pub operation: Operation,
    pub fields: Seq<(Seq<char>, ValueView)>,
}

/// The views of a sequence of fields.
pub open spec fn field_views(s: Seq<Field>) -> Seq<(Seq<char>, ValueView)> {
    s.map_values(|f: Field| f@)
}

impl View for EntityChange {
    type V = EntityChangeView;

    open spec fn view(&self) -> EntityChangeView {
        EntityChangeView {
            entity: self.entity@,
            id: self.id@,
            ordinal: self.ordinal,
            operation: self.operation,
            fields: field_views(self.fields@),
        }
    }
}

/// The views of a sequence of entity changes.
pub open spec fn change_views(s: Seq<EntityChange>) -> Seq<EntityChangeView> {
    s.map_values(|c: EntityChange| c@)
}

/// The entity changes of a block.
pub struct EntityChanges {
    pub entity_changes: Vec<EntityChange>,
}

impl EntityChange {
    /// A change of row `id` of table `entity`, with no fields yet.
    pub fn new(entity: &str, id: &str, ordinal: u64, operation: Operation) -> (r: Self)
        ensures
            r@ == (EntityChangeView {
                entity: entity@,
                id: id@,
                ordinal,
                operation,
                fields: Seq::empty(),
            }),
    {
        let r = EntityChange {
            entity: String::from_str(entity),
            id: String::from_str(id),
            ordinal,
            operation,
            fields: Vec::new(),
        };
        proof {
            assert(field_views(r.fields@) =~= Seq::empty());
        }
        r
    }

    /// Adds the field `name` with `value` after the fields already set.
    pub fn change(&mut self, name: &str, value: FieldValue)
        ensures
            final(self)@ == (EntityChangeView {
                fields: old(self)@.fields.push((name@, value@)),
                ..old(self)@
            }),
    {
        let ghost before = self.fields@;
        let ghost v = value@;
        self.fields.push(Field { name: String::from_str(name), value });
        proof {
            assert(field_views(self.fields@) =~= field_views(before).push((name@, v)));
        }
    }
}

} // verus!
