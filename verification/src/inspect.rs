//! Checking an element against the constraints of its type.

use crate::context::GenContext;
use crate::deserializer::TypeDeserializer;
use crate::document::{
    all_values_view, children_view, elements_view, lemma_children_view, lemma_elements_view,
    lemma_values_view, value_view, ChildElement, Element, ElementView, FieldValue, FieldValueView,
    Scalar, ScalarView,
};
use crate::open_xml_schema::Field;
use crate::parse::{plan_of, Codec};
use crate::symbols::TypeRef;
use crate::validator::{
    do_rules_pass, rules_pass, AttributeValidator, TypeValidator, Value, ValueView,
};
use vstd::prelude::*;

verus! {

/// A scalar as the constraints look at it: a text as a text, an integer
/// of 64 bits as a number, anything else as a value that no constraint
/// applies to.
pub open spec fn constrained(s: ScalarView) -> ValueView {
    match s {
        ScalarView::Text(t) => ValueView::Text(t),
        ScalarView::Integer(n) => if i64::MIN <= n <= i64::MAX {
            ValueView::Number(n as i64)
        } else {
            ValueView::Other
        },
        _ => ValueView::Other,
    }
}

pub fn to_constrained(s: &Scalar) -> (v: Value)
    ensures
        v@ == constrained(s@),
{
    match s {
        Scalar::Text(t) => Value::Text(t.clone()),
        Scalar::Integer(n) => {
            if i64::MIN as i128 <= *n && *n <= i64::MAX as i128 {
                Value::Number(*n as i64)
            } else {
                Value::Other
            }
        },
        _ => Value::Other,
    }
}

/// The validator of the type at a place, if there is one.
pub open spec fn validator_at(vs: Seq<Vec<Option<TypeValidator>>>, at: TypeRef) -> Option<
    TypeValidator,
> {
    if at.schema < vs.len() && at.index < vs[at.schema as int]@.len() {
        vs[at.schema as int]@[at.index as int]
    } else {
        None
    }
}

/// The validator of the attribute that a field stands for.
pub open spec fn attribute_validator_of(tv: TypeValidator, inherited: bool, index: usize) -> Option<
    AttributeValidator,
> {
    if inherited {
        if index < tv.inherited@.len() {
            Some(tv.inherited@[index as int])
        } else {
            None
        }
    } else {
        if index < tv.own@.len() {
            Some(tv.own@[index as int])
        } else {
            None
        }
    }
}

/// Whether the attribute of a field is valid: an attribute that is not
/// set is valid unless it is required; a value is valid if it satisfies
/// the rules of the attribute. A field that is no attribute, and an
/// attribute without a validator, is valid.
pub open spec fn field_valid(tv: Option<TypeValidator>, f: Field, v: FieldValueView) -> bool {
    match f {
        Field::Attribute { inherited, index, kind, required } => match tv {
            Some(t) => match attribute_validator_of(t, inherited, index) {
                Some(a) => match v {
                    FieldValueView::Attribute(None) => !a.required,
                    FieldValueView::Attribute(Some(s)) => rules_pass(a.rules@, constrained(s)),
                    _ => true,
                },
                None => true,
            },
            None => true,
        },
        _ => true,
    }
}

/// Whether the attributes of the first `n` fields are valid.
pub open spec fn attributes_valid(
    tv: Option<TypeValidator>,
    fields: Seq<Field>,
    values: Seq<FieldValueView>,
    n: int,
) -> bool
    decreases n,
{
    if n <= 0 || n > fields.len() || n > values.len() {
        true
    } else {
        attributes_valid(tv, fields, values, n - 1) && field_valid(tv, fields[n - 1], values[n - 1])
    }
}

/// Whether an element satisfies the constraints of its type: all its
/// children do, and its own attributes are valid. An element whose type
/// has no deserializer satisfies nothing.
pub open spec fn element_valid(
    ctx: GenContext,
    ds: Seq<Vec<Option<TypeDeserializer>>>,
    vs: Seq<Vec<Option<TypeValidator>>>,
    e: ElementView,
) -> bool
    decreases e, 0int,
{
    match plan_of(ctx, ds, e.at) {
        None => false,
        Some(plan) => children_valid(ctx, ds, vs, e.values, e.values.len() as int)
            && attributes_valid(
            validator_at(vs, e.at),
            plan.fields,
            e.values,
            if plan.fields.len() <= e.values.len() {
                plan.fields.len() as int
            } else {
                e.values.len() as int
            },
        ),
    }
}

/// Whether the children that the first `n` fields hold are valid.
pub open spec fn children_valid(
    ctx: GenContext,
    ds: Seq<Vec<Option<TypeDeserializer>>>,
    vs: Seq<Vec<Option<TypeValidator>>>,
    values: Seq<FieldValueView>,
    n: int,
) -> bool
    decreases values, n,
{
    if n <= 0 || n > values.len() {
        true
    } else {
        children_valid(ctx, ds, vs, values, n - 1) && (match values[n - 1] {
            FieldValueView::Child(es) => elements_valid(ctx, ds, vs, es, es.len() as int),
            FieldValueView::Children(cs) => list_valid(ctx, ds, vs, cs, cs.len() as int),
            _ => true,
        })
    }
}

/// Whether the first `n` elements of a list are valid.
pub open spec fn elements_valid(
    ctx: GenContext,
    ds: Seq<Vec<Option<TypeDeserializer>>>,
    vs: Seq<Vec<Option<TypeValidator>>>,
    es: Seq<ElementView>,
    n: int,
) -> bool
    decreases es, n,
{
    if n <= 0 || n > es.len() {
        true
    } else {
        elements_valid(ctx, ds, vs, es, n - 1) && element_valid(ctx, ds, vs, es[n - 1])
    }
}

/// Whether the first `n` children of a list are valid.
pub open spec fn list_valid(
    ctx: GenContext,
    ds: Seq<Vec<Option<TypeDeserializer>>>,
    vs: Seq<Vec<Option<TypeValidator>>>,
    cs: Seq<(int, ElementView)>,
    n: int,
) -> bool
    decreases cs, n,
{
    if n <= 0 || n > cs.len() {
        true
    } else {
        list_valid(ctx, ds, vs, cs, n - 1) && element_valid(ctx, ds, vs, cs[n - 1].1)
    }
}

/// The deserializers and the validators of all schemas of a context.
pub struct Inspector<'a> {
    pub codec: Codec<'a>,
    pub validators: &'a Vec<Vec<Option<TypeValidator>>>,
}

fn is_field_valid(tv: Option<&TypeValidator>, f: &Field, v: &FieldValue) -> (r: bool)
    ensures
        r == field_valid(
            match tv {
                Some(t) => Some(*t),
                None => None,
            },
            *f,
            value_view(*v),
        ),
{
    match f {
        Field::Attribute { inherited, index, kind, required } => {
            match tv {
                Some(t) => {
                    let list = if *inherited {
                        &t.inherited
                    } else {
                        &t.own
                    };
                    if *index < list.len() {
                        let a = &list[*index];
                        match v {
                            FieldValue::Attribute(None) => !a.required,
                            FieldValue::Attribute(Some(s)) => {
                                let value = to_constrained(s);
                                do_rules_pass(&a.rules, &value)
                            },
                            _ => true,
                        }
                    } else {
                        true
                    }
                },
                None => true,
            }
        },
        _ => true,
    }
}

impl<'a> Inspector<'a> {
    fn find_validator(&self, at: TypeRef) -> (r: Option<&'a TypeValidator>)
        ensures
            match r {
                Some(t) => validator_at(self.validators@, at) == Some(*t),
                None => validator_at(self.validators@, at) is None,
            },
    {
        if at.schema < self.validators.len() && at.index < self.validators[at.schema].len() {
            match &self.validators[at.schema][at.index] {
                Some(t) => Some(t),
                None => None,
            }
        } else {
            None
        }
    }

    fn are_attributes_valid(
        &self,
        tv: Option<&TypeValidator>,
        fields: &Vec<Field>,
        values: &Vec<FieldValue>,
    ) -> (r: bool)
        ensures
            r == attributes_valid(
                match tv {
                    Some(t) => Some(*t),
                    None => None,
                },
                fields@,
                all_values_view(values@),
                if fields@.len() <= values@.len() {
                    fields@.len() as int
                } else {
                    values@.len() as int
                },
            ),
    {
        let ghost view = all_values_view(values@);
        let ghost spec_tv = match tv {
            Some(t) => Some(*t),
            None => None,
        };
        proof {
            lemma_values_view(values@, values@.len() as int);
        }
        let mut k: usize = 0;
        while k < fields.len() && k < values.len()
            invariant
                k <= fields@.len(),
                k <= values@.len(),
                view == all_values_view(values@),
                view.len() == values@.len(),
                spec_tv == match tv {
                    Some(t) => Some(*t),
                    None => None,
                },
                forall|i: int|
                    0 <= i < values@.len() ==> #[trigger] view[i] == value_view(values@[i]),
                attributes_valid(spec_tv, fields@, view, k as int),
            decreases fields@.len() - k,
        {
            if !is_field_valid(tv, &fields[k], &values[k]) {
                proof {
                    lemma_attributes_invalid(
                        spec_tv,
                        fields@,
                        view,
                        k + 1,
                        if fields@.len() <= values@.len() {
                            fields@.len() as int
                        } else {
                            values@.len() as int
                        },
                    );
                }
                return false;
            }
            k += 1;
        }
        true
    }

    /// Checks an element against the constraints of its type.
    pub fn validate(&self, e: &Element) -> (r: bool)
        ensures
            r == element_valid(
                *self.codec.context,
                self.codec.deserializers@,
                self.validators@,
                e@,
            ),
        decreases e, 0int,
    {
        match self.codec.find_plan(e.at) {
            None => false,
            Some(plan) => {
                proof {
                    lemma_values_view(e.values@, e.values@.len() as int);
                }
                if !self.validate_children(&e.values, e.values.len()) {
                    return false;
                }
                self.are_attributes_valid(
                    self.find_validator(e.at),
                    &plan.deserializer.model.fields,
                    &e.values,
                )
            },
        }
    }

    fn validate_children(&self, values: &Vec<FieldValue>, n: usize) -> (r: bool)
        requires
            n <= values@.len(),
        ensures
            r == children_valid(
                *self.codec.context,
                self.codec.deserializers@,
                self.validators@,
                all_values_view(values@),
                n as int,
            ),
        decreases values, n,
    {
        proof {
            lemma_values_view(values@, values@.len() as int);
        }
        if n == 0 {
            return true;
        }
        if !self.validate_children(values, n - 1) {
            return false;
        }
        match &values[n - 1] {
            FieldValue::Child(es) => {
                proof {
                    lemma_elements_view(es@, es@.len() as int);
                }
                self.validate_elements(es, es.len())
            },
            FieldValue::Children(cs) => {
                proof {
                    lemma_children_view(cs@, cs@.len() as int);
                }
                self.validate_list(cs, cs.len())
            },
            _ => true,
        }
    }

    fn validate_elements(&self, es: &Vec<Element>, n: usize) -> (r: bool)
        requires
            n <= es@.len(),
        ensures
            r == elements_valid(
                *self.codec.context,
                self.codec.deserializers@,
                self.validators@,
                elements_view(es@, es@.len() as int),
                n as int,
            ),
        decreases es, n,
    {
        proof {
            lemma_elements_view(es@, es@.len() as int);
        }
        if n == 0 {
            return true;
        }
        if !self.validate_elements(es, n - 1) {
            return false;
        }
        self.validate(&es[n - 1])
    }

    fn validate_list(&self, cs: &Vec<ChildElement>, n: usize) -> (r: bool)
        requires
            n <= cs@.len(),
        ensures
            r == list_valid(
                *self.codec.context,
                self.codec.deserializers@,
                self.validators@,
                children_view(cs@, cs@.len() as int),
                n as int,
            ),
        decreases cs, n,
    {
        proof {
            lemma_children_view(cs@, cs@.len() as int);
        }
        if n == 0 {
            return true;
        }
        if !self.validate_list(cs, n - 1) {
            return false;
        }
        self.validate(&cs[n - 1].element)
    }
}

/// An attribute that is not valid makes every longer list of attributes
/// not valid.
pub proof fn lemma_attributes_invalid(
    tv: Option<TypeValidator>,
    fields: Seq<Field>,
    values: Seq<FieldValueView>,
    k: int,
    n: int,
)
    requires
        0 < k <= n,
        n <= fields.len(),
        n <= values.len(),
        !attributes_valid(tv, fields, values, k),
    ensures
        !attributes_valid(tv, fields, values, n),
    decreases n - k,
{
    if k < n {
        lemma_attributes_invalid(tv, fields, values, k + 1, n);
    }
}

} // verus!
