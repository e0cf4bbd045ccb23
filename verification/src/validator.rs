//! The validator contract: the constraints that the attributes of a type
//! must satisfy, and how a value is checked against them.

use crate::context::GenContext;
use crate::models::{
    is_qualified, OpenXmlSchema, OpenXmlSchemaType, OpenXmlSchemaTypeAttribute,
    OpenXmlSchemaTypeAttributeValidator, OpenXmlSchemaTypeAttributeValidatorArgument,
};
use crate::numbers::{integer_of, read_integer};
use crate::open_xml_schema::{is_composite, is_composite_class};
use crate::reduce_types::base_name_of;
use crate::sequence::{lemma_try_build_stops, try_build};
use crate::text::starts_with;
use crate::utils::{missing, unreadable, BuildError, BuildErrorView};
use vstd::prelude::*;
use vstd::utf8::encode_utf8;

verus! {

/// One constraint on the value of an attribute.
#[derive(Clone, Copy, Debug, PartialEq, Eq, Structural)]
pub enum Check {
    /// The text has at least so many bytes.
    MinLength(u64),
    /// The text has at most so many bytes.
    MaxLength(u64),
    /// The number is not smaller.
    MinInclusive(i64),
    /// The number is not greater.
    MaxInclusive(i64),
}

/// The value of an attribute, as far as the constraints look at it.
#[derive(Debug)]
pub enum Value {
    Text(String),
    Number(i64),
    /// A value that no constraint applies to.
    Other,
}

/// The mathematical value of a [`Value`].
pub enum ValueView {
    Text(Seq<char>),
    Number(i64),
    Other,
}

impl View for Value {
    type V = ValueView;

    open spec fn view(&self) -> ValueView {
        match self {
            Value::Text(s) => ValueView::Text(s@),
            Value::Number(n) => ValueView::Number(*n),
            Value::Other => ValueView::Other,
        }
    }
}

/// The signed number of 64 bits that a text stands for.
pub open spec fn signed_of(s: Seq<char>) -> Option<i64> {
    match integer_of(s, true, i64::MIN as int, i64::MAX as int) {
        Some(v) => Some(v as i64),
        None => None,
    }
}

/// The unsigned number of 64 bits that a text stands for.
pub open spec fn unsigned_of(s: Seq<char>) -> Option<u64> {
    match integer_of(s, false, 0, u64::MAX as int) {
        Some(v) => Some(v as u64),
        None => None,
    }
}

/// Reads a signed number of 64 bits.
pub fn read_signed(text: &str) -> (r: Option<i64>)
    ensures
        r == signed_of(text@),
{
    match read_integer(text, true, i64::MIN as i128, i64::MAX as i128) {
        Some(v) => Some(v as i64),
        None => None,
    }
}

/// Reads an unsigned number of 64 bits.
pub fn read_unsigned(text: &str) -> (r: Option<u64>)
    ensures
        r == unsigned_of(text@),
{
    match read_integer(text, false, 0, u64::MAX as i128) {
        Some(v) => Some(v as u64),
        None => None,
    }
}

/// The number that a value stands for: the number itself, or the number
/// that its text is read as.
pub open spec fn number_of(v: ValueView) -> Option<i64> {
    match v {
        ValueView::Number(n) => Some(n),
        ValueView::Text(s) => signed_of(s),
        ValueView::Other => None,
    }
}

/// Whether a value passes a constraint. A length is asked of a text only,
/// and any other value passes; a minimal length of nothing always passes,
/// one of 1 asks that the text is not empty. A bound is asked of a number
/// or of a text that is read as one; a text that is no number fails, and
/// a value that is neither passes.
pub open spec fn check_passes(c: Check, v: ValueView) -> bool {
    match c {
        Check::MinLength(n) => match v {
            ValueView::Text(s) => if n == 0 {
                true
            } else if n == 1 {
                s.len() > 0
            } else {
                encode_utf8(s).len() >= n
            },
            _ => true,
        },
        Check::MaxLength(n) => match v {
            ValueView::Text(s) => encode_utf8(s).len() <= n,
            _ => true,
        },
        Check::MinInclusive(n) => match v {
            ValueView::Other => true,
            _ => match number_of(v) {
                Some(x) => x >= n,
                None => false,
            },
        },
        Check::MaxInclusive(n) => match v {
            ValueView::Other => true,
            _ => match number_of(v) {
                Some(x) => x <= n,
                None => false,
            },
        },
    }
}

/// Whether a value passes a rule: it passes every constraint of the rule.
pub open spec fn rule_passes(rule: Seq<Check>, v: ValueView) -> bool {
    forall|i: int| 0 <= i < rule.len() ==> check_passes(#[trigger] rule[i], v)
}

/// Whether a value satisfies the rules of an attribute. The rules are
/// alternatives: the value is valid if it passes any of them, or if there
/// is no rule at all.
pub open spec fn rules_pass(rules: Seq<Vec<Check>>, v: ValueView) -> bool {
    rules.len() == 0 || exists|i: int| 0 <= i < rules.len() && rule_passes(#[trigger] rules[i]@, v)
}

/// The validator of one attribute: whether the attribute must be there,
/// and its rules.
#[derive(Debug)]
pub struct AttributeValidator {
    pub required: bool,
    pub rules: Vec<Vec<Check>>,
}

/// The mathematical value of the validator of an attribute.
pub struct AttributeValidatorView {
    pub required: bool,
    pub rules: Seq<Seq<Check>>,
}

pub open spec fn rules_view(rules: Seq<Vec<Check>>) -> Seq<Seq<Check>> {
    rules.map_values(|r: Vec<Check>| r@)
}

impl View for AttributeValidator {
    type V = AttributeValidatorView;

    open spec fn view(&self) -> AttributeValidatorView {
        AttributeValidatorView { required: self.required, rules: rules_view(self.rules@) }
    }
}

/// Whether an attribute is valid: an attribute that is not there is valid
/// unless it is required; a value is valid if it satisfies the rules.
pub open spec fn attribute_valid(validator: AttributeValidator, value: Option<Value>) -> bool {
    match value {
        None => !validator.required,
        Some(v) => rules_pass(validator.rules@, v@),
    }
}

pub fn does_check_pass(c: &Check, v: &Value) -> (r: bool)
    ensures
        r == check_passes(*c, v@),
{
    match c {
        Check::MinLength(n) => match v {
            Value::Text(s) => {
                if *n == 0 {
                    true
                } else if *n == 1 {
                    !s.as_str().is_empty()
                } else {
                    s.as_str().as_bytes().len() as u64 >= *n
                }
            },
            _ => true,
        },
        Check::MaxLength(n) => match v {
            Value::Text(s) => s.as_str().as_bytes().len() as u64 <= *n,
            _ => true,
        },
        Check::MinInclusive(n) => match v {
            Value::Other => true,
            Value::Number(x) => *x >= *n,
            Value::Text(s) => match read_signed(s.as_str()) {
                Some(x) => x >= *n,
                None => false,
            },
        },
        Check::MaxInclusive(n) => match v {
            Value::Other => true,
            Value::Number(x) => *x <= *n,
            Value::Text(s) => match read_signed(s.as_str()) {
                Some(x) => x <= *n,
                None => false,
            },
        },
    }
}

pub fn does_rule_pass(rule: &Vec<Check>, v: &Value) -> (r: bool)
    ensures
        r == rule_passes(rule@, v@),
{
    let mut i: usize = 0;
    while i < rule.len()
        invariant
            i <= rule@.len(),
            forall|j: int| 0 <= j < i ==> check_passes(#[trigger] rule@[j], v@),
        decreases rule@.len() - i,
    {
        if !does_check_pass(&rule[i], v) {
            return false;
        }
        i += 1;
    }
    true
}

/// Checks a value against the rules of an attribute.
pub fn do_rules_pass(rules: &Vec<Vec<Check>>, v: &Value) -> (r: bool)
    ensures
        r == rules_pass(rules@, v@),
{
    if rules.len() == 0 {
        return true;
    }
    let mut i: usize = 0;
    while i < rules.len()
        invariant
            i <= rules@.len(),
            forall|j: int| 0 <= j < i ==> !rule_passes(#[trigger] rules@[j]@, v@),
        decreases rules@.len() - i,
    {
        if does_rule_pass(&rules[i], v) {
            return true;
        }
        i += 1;
    }
    false
}

/// Checks an attribute.
pub fn validate_attribute(validator: &AttributeValidator, value: &Option<Value>) -> (r: bool)
    ensures
        r == attribute_valid(*validator, *value),
{
    match value {
        None => !validator.required,
        Some(v) => do_rules_pass(&validator.rules, v),
    }
}

/// A value that passes one rule of an attribute is valid, whatever the
/// other rules say of it.
pub proof fn lemma_any_rule_suffices(rules: Seq<Vec<Check>>, v: ValueView, i: int)
    requires
        0 <= i < rules.len(),
        rule_passes(rules[i]@, v),
    ensures
        rules_pass(rules, v),
{
}

/// The constraint that an argument of a text rule stands for.
pub open spec fn string_check(a: OpenXmlSchemaTypeAttributeValidatorArgument) -> Result<
    Option<Check>,
    BuildErrorView,
> {
    if a.name@ == "MinLength"@ {
        match unsigned_of(a.value@) {
            Some(n) => Ok(Some(Check::MinLength(n))),
            None => Err(BuildErrorView::SynError(a.value@)),
        }
    } else if a.name@ == "MaxLength"@ {
        match unsigned_of(a.value@) {
            Some(n) => Ok(Some(Check::MaxLength(n))),
            None => Err(BuildErrorView::SynError(a.value@)),
        }
    } else {
        Ok(None)
    }
}

/// The constraint that an argument of a number rule stands for.
pub open spec fn number_check(a: OpenXmlSchemaTypeAttributeValidatorArgument) -> Result<
    Option<Check>,
    BuildErrorView,
> {
    if a.name@ == "MinInclusive"@ {
        match signed_of(a.value@) {
            Some(n) => Ok(Some(Check::MinInclusive(n))),
            None => Err(BuildErrorView::SynError(a.value@)),
        }
    } else if a.name@ == "MaxInclusive"@ {
        match signed_of(a.value@) {
            Some(n) => Ok(Some(Check::MaxInclusive(n))),
            None => Err(BuildErrorView::SynError(a.value@)),
        }
    } else {
        Ok(None)
    }
}

/// The constraint that an argument of a validator stands for, if the
/// validator is a rule on texts or on numbers and the argument one of its
/// bounds. A bound that cannot be read is an error that carries it.
pub open spec fn argument_check(
    validator: OpenXmlSchemaTypeAttributeValidator,
    a: OpenXmlSchemaTypeAttributeValidatorArgument,
) -> Result<Option<Check>, BuildErrorView> {
    if validator.name@ == "StringValidator"@ {
        string_check(a)
    } else if validator.name@ == "NumberValidator"@ {
        number_check(a)
    } else {
        Ok(None)
    }
}

/// The constraints of the first `n` arguments of a validator.
pub open spec fn validator_checks(validator: OpenXmlSchemaTypeAttributeValidator, n: int)
    -> Result<Seq<Check>, BuildErrorView>
    decreases n,
{
    if n <= 0 {
        Ok(Seq::empty())
    } else {
        match validator_checks(validator, n - 1) {
            Err(e) => Err(e),
            Ok(checks) => match argument_check(validator, validator.arguments@[n - 1]) {
                Err(e) => Err(e),
                Ok(Some(c)) => Ok(checks.push(c)),
                Ok(None) => Ok(checks),
            },
        }
    }
}

proof fn lemma_validator_checks_stop(
    validator: OpenXmlSchemaTypeAttributeValidator,
    n: int,
    k: int,
)
    requires
        0 <= k <= n,
        validator_checks(validator, k) is Err,
    ensures
        validator_checks(validator, n) == validator_checks(validator, k),
    decreases n - k,
{
    if k < n {
        lemma_validator_checks_stop(validator, n, k + 1);
    }
}

/// The rules of the first `n` validators of an attribute: a validator
/// with at least one bound is a rule, any other gives none.
pub open spec fn attribute_rules(a: OpenXmlSchemaTypeAttribute, n: int) -> Result<
    Seq<Seq<Check>>,
    BuildErrorView,
>
    decreases n,
{
    if n <= 0 {
        Ok(Seq::empty())
    } else {
        match attribute_rules(a, n - 1) {
            Err(e) => Err(e),
            Ok(rules) => match validator_checks(
                a.validators@[n - 1],
                a.validators@[n - 1].arguments@.len() as int,
            ) {
                Err(e) => Err(e),
                Ok(checks) => if checks.len() > 0 {
                    Ok(rules.push(checks))
                } else {
                    Ok(rules)
                },
            },
        }
    }
}

proof fn lemma_attribute_rules_stop(a: OpenXmlSchemaTypeAttribute, n: int, k: int)
    requires
        0 <= k <= n,
        attribute_rules(a, k) is Err,
    ensures
        attribute_rules(a, n) == attribute_rules(a, k),
    decreases n - k,
{
    if k < n {
        lemma_attribute_rules_stop(a, n, k + 1);
    }
}

/// The validator of an attribute: an attribute that holds a list or a
/// facet of an enumeration has no rules; any other has those of its
/// validators.
pub open spec fn attribute_validator(a: OpenXmlSchemaTypeAttribute) -> Result<
    AttributeValidatorView,
    BuildErrorView,
> {
    if "ListValue<"@.is_prefix_of(a.value_type@) || "EnumValue<"@.is_prefix_of(a.value_type@) {
        Ok(
            AttributeValidatorView {
                required: a.spec_is_validator_required(),
                rules: Seq::empty(),
            },
        )
    } else {
        match attribute_rules(a, a.validators@.len() as int) {
            Err(e) => Err(e),
            Ok(rules) => Ok(
                AttributeValidatorView { required: a.spec_is_validator_required(), rules },
            ),
        }
    }
}

fn gen_argument_check(
    validator: &OpenXmlSchemaTypeAttributeValidator,
    a: &OpenXmlSchemaTypeAttributeValidatorArgument,
) -> (r: Result<Option<Check>, BuildError>)
    ensures
        match r {
            Ok(c) => argument_check(*validator, *a) == Ok::<Option<Check>, BuildErrorView>(c),
            Err(e) => argument_check(*validator, *a) == Err::<Option<Check>, BuildErrorView>(e@),
        },
{
    if validator.name.as_str().eq("StringValidator") {
        if a.name.as_str().eq("MinLength") {
            match read_unsigned(a.value.as_str()) {
                Some(n) => Ok(Some(Check::MinLength(n))),
                None => Err(unreadable(a.value.as_str())),
            }
        } else if a.name.as_str().eq("MaxLength") {
            match read_unsigned(a.value.as_str()) {
                Some(n) => Ok(Some(Check::MaxLength(n))),
                None => Err(unreadable(a.value.as_str())),
            }
        } else {
            Ok(None)
        }
    } else if validator.name.as_str().eq("NumberValidator") {
        if a.name.as_str().eq("MinInclusive") {
            match read_signed(a.value.as_str()) {
                Some(n) => Ok(Some(Check::MinInclusive(n))),
                None => Err(unreadable(a.value.as_str())),
            }
        } else if a.name.as_str().eq("MaxInclusive") {
            match read_signed(a.value.as_str()) {
                Some(n) => Ok(Some(Check::MaxInclusive(n))),
                None => Err(unreadable(a.value.as_str())),
            }
        } else {
            Ok(None)
        }
    } else {
        Ok(None)
    }
}

fn gen_validator_checks(validator: &OpenXmlSchemaTypeAttributeValidator) -> (r: Result<
    Vec<Check>,
    BuildError,
>)
    ensures
        match r {
            Ok(c) => validator_checks(*validator, validator.arguments@.len() as int) == Ok::<
                Seq<Check>,
                BuildErrorView,
            >(c@),
            Err(e) => validator_checks(*validator, validator.arguments@.len() as int) == Err::<
                Seq<Check>,
                BuildErrorView,
            >(e@),
        },
{
    let mut checks: Vec<Check> = Vec::new();
    let mut i: usize = 0;
    while i < validator.arguments.len()
        invariant
            i <= validator.arguments@.len(),
            validator_checks(*validator, i as int) == Ok::<Seq<Check>, BuildErrorView>(checks@),
        decreases validator.arguments@.len() - i,
    {
        match gen_argument_check(validator, &validator.arguments[i]) {
            Ok(Some(c)) => {
                checks.push(c);
            },
            Ok(None) => {},
            Err(e) => {
                proof {
                    assert(validator_checks(*validator, i + 1) is Err);
                    lemma_validator_checks_stop(
                        *validator,
                        validator.arguments@.len() as int,
                        i + 1,
                    );
                }
                return Err(e);
            },
        }
        i += 1;
    }
    Ok(checks)
}

/// The validator of one attribute.
pub fn gen_attr_validator_stmt_list(a: &OpenXmlSchemaTypeAttribute) -> (r: Result<
    AttributeValidator,
    BuildError,
>)
    ensures
        match r {
            Ok(v) => attribute_validator(*a) == Ok::<AttributeValidatorView, BuildErrorView>(v@),
            Err(e) => attribute_validator(*a) == Err::<AttributeValidatorView, BuildErrorView>(
                e@,
            ),
        },
{
    let required = a.is_validator_required();
    let mut rules: Vec<Vec<Check>> = Vec::new();
    assert(rules_view(rules@) =~= Seq::empty());
    if starts_with(a.value_type.as_str(), "ListValue<") || starts_with(
        a.value_type.as_str(),
        "EnumValue<",
    ) {
        return Ok(AttributeValidator { required, rules });
    }
    let mut i: usize = 0;
    while i < a.validators.len()
        invariant
            i <= a.validators@.len(),
            !("ListValue<"@.is_prefix_of(a.value_type@) || "EnumValue<"@.is_prefix_of(
                a.value_type@,
            )),
            attribute_rules(*a, i as int) == Ok::<Seq<Seq<Check>>, BuildErrorView>(
                rules_view(rules@),
            ),
        decreases a.validators@.len() - i,
    {
        let ghost before = rules_view(rules@);
        match gen_validator_checks(&a.validators[i]) {
            Ok(checks) => {
                if checks.len() > 0 {
                    let ghost c = checks@;
                    rules.push(checks);
                    assert(rules_view(rules@) =~= before.push(c));
                }
            },
            Err(e) => {
                proof {
                    assert(attribute_rules(*a, i + 1) is Err);
                    lemma_attribute_rules_stop(*a, a.validators@.len() as int, i + 1);
                }
                return Err(e);
            },
        }
        i += 1;
    }
    Ok(AttributeValidator { required, rules })
}

/// The validator of one type: the validators of its own attributes and
/// of those that it inherits, in their order.
#[derive(Debug)]
pub struct TypeValidator {
    pub own: Vec<AttributeValidator>,
    pub inherited: Vec<AttributeValidator>,
}

/// The mathematical value of the validator of a type.
pub struct TypeValidatorView {
    pub own: Seq<AttributeValidatorView>,
    pub inherited: Seq<AttributeValidatorView>,
}

pub open spec fn validator_views(vs: Seq<AttributeValidator>) -> Seq<AttributeValidatorView> {
    vs.map_values(|v: AttributeValidator| v@)
}

impl View for TypeValidator {
    type V = TypeValidatorView;

    open spec fn view(&self) -> TypeValidatorView {
        TypeValidatorView {
            own: validator_views(self.own@),
            inherited: validator_views(self.inherited@),
        }
    }
}

pub open spec fn type_validator_views(vs: Seq<Option<TypeValidator>>) -> Seq<
    Option<TypeValidatorView>,
> {
    vs.map_values(
        |v: Option<TypeValidator>|
            match v {
                Some(x) => Some(x@),
                None => None,
            },
    )
}

pub open spec fn attribute_validator_maker(attributes: Seq<OpenXmlSchemaTypeAttribute>) -> spec_fn(
    int,
) -> Result<AttributeValidatorView, BuildErrorView> {
    |i: int| attribute_validator(attributes[i])
}

/// The validators of a list of attributes, in their order.
pub open spec fn attribute_validators(attributes: Seq<OpenXmlSchemaTypeAttribute>) -> Result<
    Seq<AttributeValidatorView>,
    BuildErrorView,
> {
    try_build(attributes.len() as int, attribute_validator_maker(attributes))
}

fn gen_attribute_validators(attributes: &Vec<OpenXmlSchemaTypeAttribute>) -> (r: Result<
    Vec<AttributeValidator>,
    BuildError,
>)
    ensures
        match r {
            Ok(v) => attribute_validators(attributes@) == Ok::<
                Seq<AttributeValidatorView>,
                BuildErrorView,
            >(validator_views(v@)),
            Err(e) => attribute_validators(attributes@) == Err::<
                Seq<AttributeValidatorView>,
                BuildErrorView,
            >(e@),
        },
{
    let ghost item = attribute_validator_maker(attributes@);
    let ghost n = attributes@.len() as int;
    let mut out: Vec<AttributeValidator> = Vec::new();
    let mut i: usize = 0;
    assert(validator_views(out@) =~= Seq::empty());
    while i < attributes.len()
        invariant
            i <= attributes@.len(),
            n == attributes@.len(),
            item == attribute_validator_maker(attributes@),
            try_build(i as int, item) == Ok::<Seq<AttributeValidatorView>, BuildErrorView>(
                validator_views(out@),
            ),
        decreases attributes@.len() - i,
    {
        let ghost before = validator_views(out@);
        match gen_attr_validator_stmt_list(&attributes[i]) {
            Ok(v) => {
                let ghost view = v@;
                out.push(v);
                assert(validator_views(out@) =~= before.push(view));
            },
            Err(e) => {
                proof {
                    assert(try_build(i + 1, item) is Err);
                    lemma_try_build_stops(n, i + 1, item);
                }
                return Err(e);
            },
        }
        i += 1;
    }
    Ok(out)
}

impl GenContext {
    /// The validator of a type: those of its own attributes; for a derived
    /// type also those of the attributes of its base type, which must be
    /// there. A type that is neither a leaf, nor has child elements, nor
    /// is derived, is an error that carries its base class.
    pub open spec fn type_validator(&self, ty: OpenXmlSchemaType) -> Result<
        TypeValidatorView,
        BuildErrorView,
    > {
        match attribute_validators(ty.attributes@) {
            Err(e) => Err(e),
            Ok(own) => if ty.base_class@ == "OpenXmlLeafTextElement"@ || ty.base_class@
                == "OpenXmlLeafElement"@ || is_composite_class(ty.base_class@) {
                Ok(TypeValidatorView { own, inherited: Seq::empty() })
            } else if ty.is_derived {
                if !is_qualified(ty.name@) {
                    Err(BuildErrorView::HashMapExpectedSomeError(ty.name@))
                } else {
                    match self.type_named(base_name_of(ty.name@)) {
                        None => Err(
                            BuildErrorView::HashMapExpectedSomeError(base_name_of(ty.name@)),
                        ),
                        Some(at) => match attribute_validators(
                            self.schemas@[at.0].types@[at.1].attributes@,
                        ) {
                            Err(e) => Err(e),
                            Ok(inherited) => Ok(TypeValidatorView { own, inherited }),
                        },
                    }
                }
            } else {
                Err(BuildErrorView::HashMapExpectedSomeError(ty.base_class@))
            },
        }
    }

    pub open spec fn type_validator_at(&self, schema: OpenXmlSchema, t: int) -> Result<
        Option<TypeValidatorView>,
        BuildErrorView,
    > {
        if schema.types@[t].is_abstract {
            Ok(None)
        } else {
            match self.type_validator(schema.types@[t]) {
                Ok(v) => Ok(Some(v)),
                Err(e) => Err(e),
            }
        }
    }

    pub open spec fn type_validator_maker(&self, schema: OpenXmlSchema) -> spec_fn(int) -> Result<
        Option<TypeValidatorView>,
        BuildErrorView,
    > {
        |t: int| self.type_validator_at(schema, t)
    }

    /// The validators of a schema: one for each type, in their order.
    pub open spec fn validators(&self, schema: OpenXmlSchema) -> Result<
        Seq<Option<TypeValidatorView>>,
        BuildErrorView,
    > {
        try_build(schema.types@.len() as int, self.type_validator_maker(schema))
    }

    /// The validator of one type.
    pub fn gen_type_validator(&self, ty: &OpenXmlSchemaType) -> (r: Result<
        TypeValidator,
        BuildError,
    >)
        ensures
            match r {
                Ok(v) => self.type_validator(*ty) == Ok::<TypeValidatorView, BuildErrorView>(v@),
                Err(e) => self.type_validator(*ty) == Err::<TypeValidatorView, BuildErrorView>(e@),
            },
    {
        let own = match gen_attribute_validators(&ty.attributes) {
            Ok(v) => v,
            Err(e) => {
                return Err(e);
            },
        };
        let class = ty.base_class.as_str();
        if class.eq("OpenXmlLeafTextElement") || class.eq("OpenXmlLeafElement") || is_composite(ty) {
            let inherited: Vec<AttributeValidator> = Vec::new();
            assert(validator_views(inherited@) =~= Seq::empty());
            Ok(TypeValidator { own, inherited })
        } else if ty.is_derived {
            match self.find_base_type(ty) {
                Err(e) => Err(e),
                Ok(at) => {
                    let base = &self.schemas[at.schema].types[at.index];
                    match gen_attribute_validators(&base.attributes) {
                        Ok(inherited) => Ok(TypeValidator { own, inherited }),
                        Err(e) => Err(e),
                    }
                },
            }
        } else {
            Err(missing(class))
        }
    }
}

/// The validators of a schema.
pub fn gen_validators(schema: &OpenXmlSchema, gen_context: &GenContext) -> (r: Result<
    Vec<Option<TypeValidator>>,
    BuildError,
>)
    ensures
        match r {
            Ok(vs) => gen_context.validators(*schema) == Ok::<
                Seq<Option<TypeValidatorView>>,
                BuildErrorView,
            >(type_validator_views(vs@)),
            Err(e) => gen_context.validators(*schema) == Err::<
                Seq<Option<TypeValidatorView>>,
                BuildErrorView,
            >(e@),
        },
{
    let ghost item = gen_context.type_validator_maker(*schema);
    let ghost n = schema.types@.len() as int;
    let mut out: Vec<Option<TypeValidator>> = Vec::new();
    let mut t: usize = 0;
    assert(type_validator_views(out@) =~= Seq::empty());
    while t < schema.types.len()
        invariant
            t <= schema.types@.len(),
            n == schema.types@.len(),
            item == gen_context.type_validator_maker(*schema),
            try_build(t as int, item) == Ok::<Seq<Option<TypeValidatorView>>, BuildErrorView>(
                type_validator_views(out@),
            ),
        decreases schema.types@.len() - t,
    {
        let ghost before = type_validator_views(out@);
        let ty = &schema.types[t];
        if ty.is_abstract {
            out.push(None);
            assert(type_validator_views(out@) =~= before.push(None));
        } else {
            match gen_context.gen_type_validator(ty) {
                Ok(v) => {
                    let ghost view = v@;
                    out.push(Some(v));
                    assert(type_validator_views(out@) =~= before.push(Some(view)));
                },
                Err(e) => {
                    proof {
                        assert(try_build(t + 1, item) is Err);
                        lemma_try_build_stops(n, t + 1, item);
                    }
                    return Err(e);
                },
            }
        }
        t += 1;
    }
    Ok(out)
}

} // verus!
