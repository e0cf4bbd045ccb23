//! The whole build: from a schema description to the models and contracts
//! of everything that the selected kinds of document reach.

use crate::context::GenContext;
use crate::deserializer::{
    deserializer_views, gen_deserializers, DeserializerView, TypeDeserializer,
};
use crate::features::Features;
use crate::models::{OpenXmlNamespace, OpenXmlPart, OpenXmlSchema, TypedNamespace, TypedSchema};
use crate::open_xml_part::{gen_open_xml_parts, PartModel, PartModelView};
use crate::open_xml_schema::{gen_open_xml_schemas, SchemaModel, SchemaModelView};
use crate::reduce_parts::Description;
use crate::sequence::{lemma_try_build_stops, try_build};
use crate::serializer::{gen_serializer, serializer_views, SerializerView, TypeSerializer};
use crate::utils::{BuildError, BuildErrorView};
use crate::validator::{gen_validators, type_validator_views, TypeValidator, TypeValidatorView};
use vstd::prelude::*;

verus! {

/// What a build makes: the context, and for each schema of the context
/// the models of its types and their contracts; for each part its model.
/// The part models and the validators are made only where they are asked
/// for.
#[derive(Debug)]
pub struct Generated {
    pub context: GenContext,
    pub schemas: Vec<SchemaModel>,
    pub deserializers: Vec<Vec<Option<TypeDeserializer>>>,
    pub serializers: Vec<Vec<Option<TypeSerializer>>>,
    pub parts: Vec<PartModel>,
    pub validators: Vec<Vec<Option<TypeValidator>>>,
}

/// The mathematical value of what a build makes, the context aside.
pub struct GeneratedView {
    pub schemas: Seq<SchemaModelView>,
    pub deserializers: Seq<Seq<Option<DeserializerView>>>,
    pub serializers: Seq<Seq<Option<SerializerView>>>,
    pub parts: Seq<PartModelView>,
    pub validators: Seq<Seq<Option<TypeValidatorView>>>,
}

impl View for Generated {
    type V = GeneratedView;

    open spec fn view(&self) -> GeneratedView {
        GeneratedView {
            schemas: self.schemas@.map_values(|m: SchemaModel| m@),
            deserializers: self.deserializers@.map_values(
                |d: Vec<Option<TypeDeserializer>>| deserializer_views(d@),
            ),
            serializers: self.serializers@.map_values(
                |s: Vec<Option<TypeSerializer>>| serializer_views(s@),
            ),
            parts: self.parts@.map_values(|p: PartModel| p@),
            validators: self.validators@.map_values(
                |v: Vec<Option<TypeValidator>>| type_validator_views(v@),
            ),
        }
    }
}

impl GenContext {
    /// The namespace of the schema at `s`, which must be there.
    pub open spec fn checked_namespace(&self, s: int) -> Result<int, BuildErrorView> {
        match self.namespace_of_schema(s) {
            Some(i) => Ok(i),
            None => Err(BuildErrorView::HashMapExpectedSomeError(self.schemas@[s].target_namespace@)),
        }
    }

    /// What is made of a context, step by step: the namespaces of all
    /// schemas are looked up; then the type models, the deserializers and
    /// the serializers of all schemas are made, then the part models and
    /// the validators if they are asked for. The first step that fails
    /// gives the error.
    pub open spec fn generated(&self) -> Result<GeneratedView, BuildErrorView> {
        let n = self.schemas@.len() as int;
        match try_build(n, |s: int| self.checked_namespace(s)) {
            Err(e) => Err(e),
            Ok(_) => match try_build(n, |s: int| self.schema_model(self.schemas@[s])) {
                Err(e) => Err(e),
                Ok(schemas) => match try_build(n, |s: int| self.deserializers(self.schemas@[s])) {
                    Err(e) => Err(e),
                    Ok(deserializers) => match try_build(
                        n,
                        |s: int| self.serializers(self.schemas@[s]),
                    ) {
                        Err(e) => Err(e),
                        Ok(serializers) => match try_build(
                            if self.features.parts {
                                self.parts@.len() as int
                            } else {
                                0
                            },
                            |p: int| self.part_model(self.parts@[p]),
                        ) {
                            Err(e) => Err(e),
                            Ok(parts) => match try_build(
                                if self.features.validators {
                                    n
                                } else {
                                    0
                                },
                                |s: int| self.validators(self.schemas@[s]),
                            ) {
                                Err(e) => Err(e),
                                Ok(validators) => Ok(
                                    GeneratedView {
                                        schemas,
                                        deserializers,
                                        serializers,
                                        parts,
                                        validators,
                                    },
                                ),
                            },
                        },
                    },
                },
            },
        }
    }

    fn check_namespaces(&self) -> (r: Result<(), BuildError>)
        ensures
            match r {
                Ok(_) => try_build(
                    self.schemas@.len() as int,
                    |s: int| self.checked_namespace(s),
                ) is Ok,
                Err(e) => try_build(self.schemas@.len() as int, |s: int| self.checked_namespace(s))
                    == Err::<Seq<int>, BuildErrorView>(e@),
            },
    {
        let ghost item = |s: int| self.checked_namespace(s);
        let mut s: usize = 0;
        while s < self.schemas.len()
            invariant
                s <= self.schemas@.len(),
                item == |s: int| self.checked_namespace(s),
                try_build(s as int, item) is Ok,
            decreases self.schemas@.len() - s,
        {
            match self.try_get_namespace_of_uri(self.schemas[s].target_namespace.as_str()) {
                Ok(_) => {},
                Err(e) => {
                    proof {
                        assert(try_build(s + 1, item) is Err);
                        lemma_try_build_stops(self.schemas@.len() as int, s + 1, item);
                    }
                    return Err(e);
                },
            }
            s += 1;
        }
        Ok(())
    }

    fn write_schemas(&self) -> (r: Result<Vec<SchemaModel>, BuildError>)
        ensures
            match r {
                Ok(v) => try_build(
                    self.schemas@.len() as int,
                    |s: int| self.schema_model(self.schemas@[s]),
                ) == Ok::<Seq<SchemaModelView>, BuildErrorView>(
                    v@.map_values(|m: SchemaModel| m@),
                ),
                Err(e) => try_build(
                    self.schemas@.len() as int,
                    |s: int| self.schema_model(self.schemas@[s]),
                ) == Err::<Seq<SchemaModelView>, BuildErrorView>(e@),
            },
    {
        let ghost item = |s: int| self.schema_model(self.schemas@[s]);
        let mut out: Vec<SchemaModel> = Vec::new();
        let mut s: usize = 0;
        assert(out@.map_values(|m: SchemaModel| m@) =~= Seq::empty());
        while s < self.schemas.len()
            invariant
                s <= self.schemas@.len(),
                item == |s: int| self.schema_model(self.schemas@[s]),
                try_build(s as int, item) == Ok::<Seq<SchemaModelView>, BuildErrorView>(
                    out@.map_values(|m: SchemaModel| m@),
                ),
            decreases self.schemas@.len() - s,
        {
            let ghost before = out@.map_values(|m: SchemaModel| m@);
            match gen_open_xml_schemas(&self.schemas[s], self) {
                Ok(m) => {
                    let ghost v = m@;
                    out.push(m);
                    assert(out@.map_values(|m: SchemaModel| m@) =~= before.push(v));
                },
                Err(e) => {
                    proof {
                        assert(try_build(s + 1, item) is Err);
                        lemma_try_build_stops(self.schemas@.len() as int, s + 1, item);
                    }
                    return Err(e);
                },
            }
            s += 1;
        }
        Ok(out)
    }

    fn write_deserializers(&self) -> (r: Result<Vec<Vec<Option<TypeDeserializer>>>, BuildError>)
        ensures
            match r {
                Ok(v) => try_build(
                    self.schemas@.len() as int,
                    |s: int| self.deserializers(self.schemas@[s]),
                ) == Ok::<Seq<Seq<Option<DeserializerView>>>, BuildErrorView>(
                    v@.map_values(|d: Vec<Option<TypeDeserializer>>| deserializer_views(d@)),
                ),
                Err(e) => try_build(
                    self.schemas@.len() as int,
                    |s: int| self.deserializers(self.schemas@[s]),
                ) == Err::<Seq<Seq<Option<DeserializerView>>>, BuildErrorView>(e@),
            },
    {
        let ghost item = |s: int| self.deserializers(self.schemas@[s]);
        let mut out: Vec<Vec<Option<TypeDeserializer>>> = Vec::new();
        let mut s: usize = 0;
        assert(out@.map_values(|d: Vec<Option<TypeDeserializer>>| deserializer_views(d@))
            =~= Seq::empty());
        while s < self.schemas.len()
            invariant
                s <= self.schemas@.len(),
                item == |s: int| self.deserializers(self.schemas@[s]),
                try_build(s as int, item) == Ok::<
                    Seq<Seq<Option<DeserializerView>>>,
                    BuildErrorView,
                >(out@.map_values(|d: Vec<Option<TypeDeserializer>>| deserializer_views(d@))),
            decreases self.schemas@.len() - s,
        {
            let ghost before = out@.map_values(
                |d: Vec<Option<TypeDeserializer>>| deserializer_views(d@),
            );
            match gen_deserializers(&self.schemas[s], self) {
                Ok(m) => {
                    let ghost v = deserializer_views(m@);
                    out.push(m);
                    assert(out@.map_values(
                        |d: Vec<Option<TypeDeserializer>>| deserializer_views(d@),
                    ) =~= before.push(v));
                },
                Err(e) => {
                    proof {
                        assert(try_build(s + 1, item) is Err);
                        lemma_try_build_stops(self.schemas@.len() as int, s + 1, item);
                    }
                    return Err(e);
                },
            }
            s += 1;
        }
        Ok(out)
    }

    fn write_serializers(&self) -> (r: Result<Vec<Vec<Option<TypeSerializer>>>, BuildError>)
        ensures
            match r {
                Ok(v) => try_build(
                    self.schemas@.len() as int,
                    |s: int| self.serializers(self.schemas@[s]),
                ) == Ok::<Seq<Seq<Option<SerializerView>>>, BuildErrorView>(
                    v@.map_values(|d: Vec<Option<TypeSerializer>>| serializer_views(d@)),
                ),
                Err(e) => try_build(
                    self.schemas@.len() as int,
                    |s: int| self.serializers(self.schemas@[s]),
                ) == Err::<Seq<Seq<Option<SerializerView>>>, BuildErrorView>(e@),
            },
    {
        let ghost item = |s: int| self.serializers(self.schemas@[s]);
        let mut out: Vec<Vec<Option<TypeSerializer>>> = Vec::new();
        let mut s: usize = 0;
        assert(out@.map_values(|d: Vec<Option<TypeSerializer>>| serializer_views(d@))
            =~= Seq::empty());
        while s < self.schemas.len()
            invariant
                s <= self.schemas@.len(),
                item == |s: int| self.serializers(self.schemas@[s]),
                try_build(s as int, item) == Ok::<Seq<Seq<Option<SerializerView>>>, BuildErrorView>(
                    out@.map_values(|d: Vec<Option<TypeSerializer>>| serializer_views(d@)),
                ),
            decreases self.schemas@.len() - s,
        {
            let ghost before = out@.map_values(
                |d: Vec<Option<TypeSerializer>>| serializer_views(d@),
            );
            match gen_serializer(&self.schemas[s], self) {
                Ok(m) => {
                    let ghost v = serializer_views(m@);
                    out.push(m);
                    assert(out@.map_values(|d: Vec<Option<TypeSerializer>>| serializer_views(d@))
                        =~= before.push(v));
                },
                Err(e) => {
                    proof {
                        assert(try_build(s + 1, item) is Err);
                        lemma_try_build_stops(self.schemas@.len() as int, s + 1, item);
                    }
                    return Err(e);
                },
            }
            s += 1;
        }
        Ok(out)
    }

    fn write_parts(&self) -> (r: Result<Vec<PartModel>, BuildError>)
        ensures
            match r {
                Ok(v) => try_build(
                    if self.features.parts {
                        self.parts@.len() as int
                    } else {
                        0
                    },
                    |p: int| self.part_model(self.parts@[p]),
                ) == Ok::<Seq<PartModelView>, BuildErrorView>(v@.map_values(|p: PartModel| p@)),
                Err(e) => try_build(
                    if self.features.parts {
                        self.parts@.len() as int
                    } else {
                        0
                    },
                    |p: int| self.part_model(self.parts@[p]),
                ) == Err::<Seq<PartModelView>, BuildErrorView>(e@),
            },
    {
        let ghost item = |p: int| self.part_model(self.parts@[p]);
        let mut out: Vec<PartModel> = Vec::new();
        assert(out@.map_values(|p: PartModel| p@) =~= Seq::empty());
        if !self.features.parts {
            return Ok(out);
        }
        let mut p: usize = 0;
        while p < self.parts.len()
            invariant
                p <= self.parts@.len(),
                self.features.parts,
                item == |p: int| self.part_model(self.parts@[p]),
                try_build(p as int, item) == Ok::<Seq<PartModelView>, BuildErrorView>(
                    out@.map_values(|p: PartModel| p@),
                ),
            decreases self.parts@.len() - p,
        {
            let ghost before = out@.map_values(|p: PartModel| p@);
            match gen_open_xml_parts(&self.parts[p], self) {
                Ok(m) => {
                    let ghost v = m@;
                    out.push(m);
                    assert(out@.map_values(|p: PartModel| p@) =~= before.push(v));
                },
                Err(e) => {
                    proof {
                        assert(try_build(p + 1, item) is Err);
                        lemma_try_build_stops(self.parts@.len() as int, p + 1, item);
                    }
                    return Err(e);
                },
            }
            p += 1;
        }
        Ok(out)
    }

    fn write_validators(&self) -> (r: Result<Vec<Vec<Option<TypeValidator>>>, BuildError>)
        ensures
            match r {
                Ok(v) => try_build(
                    if self.features.validators {
                        self.schemas@.len() as int
                    } else {
                        0
                    },
                    |s: int| self.validators(self.schemas@[s]),
                ) == Ok::<Seq<Seq<Option<TypeValidatorView>>>, BuildErrorView>(
                    v@.map_values(|d: Vec<Option<TypeValidator>>| type_validator_views(d@)),
                ),
                Err(e) => try_build(
                    if self.features.validators {
                        self.schemas@.len() as int
                    } else {
                        0
                    },
                    |s: int| self.validators(self.schemas@[s]),
                ) == Err::<Seq<Seq<Option<TypeValidatorView>>>, BuildErrorView>(e@),
            },
    {
        let ghost item = |s: int| self.validators(self.schemas@[s]);
        let mut out: Vec<Vec<Option<TypeValidator>>> = Vec::new();
        assert(out@.map_values(|d: Vec<Option<TypeValidator>>| type_validator_views(d@))
            =~= Seq::empty());
        if !self.features.validators {
            return Ok(out);
        }
        let mut s: usize = 0;
        while s < self.schemas.len()
            invariant
                s <= self.schemas@.len(),
                self.features.validators,
                item == |s: int| self.validators(self.schemas@[s]),
                try_build(s as int, item) == Ok::<
                    Seq<Seq<Option<TypeValidatorView>>>,
                    BuildErrorView,
                >(out@.map_values(|d: Vec<Option<TypeValidator>>| type_validator_views(d@))),
            decreases self.schemas@.len() - s,
        {
            let ghost before = out@.map_values(
                |d: Vec<Option<TypeValidator>>| type_validator_views(d@),
            );
            match gen_validators(&self.schemas[s], self) {
                Ok(m) => {
                    let ghost v = type_validator_views(m@);
                    out.push(m);
                    assert(out@.map_values(
                        |d: Vec<Option<TypeValidator>>| type_validator_views(d@),
                    ) =~= before.push(v));
                },
                Err(e) => {
                    proof {
                        assert(try_build(s + 1, item) is Err);
                        lemma_try_build_stops(self.schemas@.len() as int, s + 1, item);
                    }
                    return Err(e);
                },
            }
            s += 1;
        }
        Ok(out)
    }

    /// Makes everything of a context.
    pub fn generate(self) -> (r: Result<Generated, BuildError>)
        ensures
            match r {
                Ok(g) => g.context == self && self.generated() == Ok::<
                    GeneratedView,
                    BuildErrorView,
                >(g@),
                Err(e) => self.generated() == Err::<GeneratedView, BuildErrorView>(e@),
            },
    {
        match self.check_namespaces() {
            Err(e) => {
                return Err(e);
            },
            Ok(_) => {},
        }
        let schemas = match self.write_schemas() {
            Ok(v) => v,
            Err(e) => {
                return Err(e);
            },
        };
        let deserializers = match self.write_deserializers() {
            Ok(v) => v,
            Err(e) => {
                return Err(e);
            },
        };
        let serializers = match self.write_serializers() {
            Ok(v) => v,
            Err(e) => {
                return Err(e);
            },
        };
        let parts = match self.write_parts() {
            Ok(v) => v,
            Err(e) => {
                return Err(e);
            },
        };
        let validators = match self.write_validators() {
            Ok(v) => v,
            Err(e) => {
                return Err(e);
            },
        };
        Ok(Generated { context: self, schemas, deserializers, serializers, parts, validators })
    }
}

/// Whether a context is the reduction of a description.
pub open spec fn reduces_to(d: Description, ctx: GenContext) -> bool {
    &&& d.missing_name() is None
    &&& d.parts_reduced(ctx.parts@)
    &&& d.schemas_reduced(ctx.schemas@)
    &&& ctx.namespaces@ == d.namespaces
    &&& ctx.typed_schemas@ == d.typed
    &&& ctx.features == d.features
}

/// Builds everything of a description for a configuration: the context
/// is built, as [`GenContext::new`] says, and everything is made of it,
/// as [`GenContext::generated`] says.
pub fn generate_with(
    parts: Vec<OpenXmlPart>,
    schemas: Vec<OpenXmlSchema>,
    namespaces: Vec<OpenXmlNamespace>,
    typed_namespaces: Vec<TypedNamespace>,
    typed_schemas: Vec<Vec<TypedSchema>>,
    features: Features,
) -> (r: Result<Generated, BuildError>)
    ensures
        ({
            let d = Description {
                parts: parts@,
                schemas: schemas@,
                namespaces: namespaces@,
                typed: typed_schemas@,
                features,
            };
            match r {
                Ok(g) => reduces_to(d, g.context) && g.context.typed_namespaces
                    == typed_namespaces && g.context.generated() == Ok::<
                    GeneratedView,
                    BuildErrorView,
                >(g@),
                Err(e) => match d.missing_name() {
                    Some(key) => e@ == BuildErrorView::HashMapExpectedSomeError(key),
                    None => exists|ctx: GenContext|
                        reduces_to(d, ctx) && ctx.typed_namespaces == typed_namespaces
                            && #[trigger] ctx.generated() == Err::<GeneratedView, BuildErrorView>(
                            e@,
                        ),
                },
            }
        }),
{
    match GenContext::new(parts, schemas, namespaces, typed_namespaces, typed_schemas, features) {
        Err(e) => Err(e),
        Ok(ctx) => ctx.generate(),
    }
}

/// Builds everything of a description, with every version, every kind of
/// document and every optional output enabled.
pub fn generate(
    parts: Vec<OpenXmlPart>,
    schemas: Vec<OpenXmlSchema>,
    namespaces: Vec<OpenXmlNamespace>,
    typed_namespaces: Vec<TypedNamespace>,
    typed_schemas: Vec<Vec<TypedSchema>>,
) -> (r: Result<Generated, BuildError>)
    ensures
        ({
            let d = Description {
                parts: parts@,
                schemas: schemas@,
                namespaces: namespaces@,
                typed: typed_schemas@,
                features: Features::spec_full(),
            };
            match r {
                Ok(g) => reduces_to(d, g.context) && g.context.typed_namespaces
                    == typed_namespaces && g.context.generated() == Ok::<
                    GeneratedView,
                    BuildErrorView,
                >(g@),
                Err(e) => match d.missing_name() {
                    Some(key) => e@ == BuildErrorView::HashMapExpectedSomeError(key),
                    None => exists|ctx: GenContext|
                        reduces_to(d, ctx) && ctx.typed_namespaces == typed_namespaces
                            && #[trigger] ctx.generated() == Err::<GeneratedView, BuildErrorView>(
                            e@,
                        ),
                },
            }
        }),
{
    generate_with(parts, schemas, namespaces, typed_namespaces, typed_schemas, Features::full())
}

} // verus!
