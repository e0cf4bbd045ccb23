//! The raw schema description: parts, schemas, types, enumerations and
//! namespaces, as they are read from the description files.

use crate::text::{
    chars_of, rsplit_once, split_once, str_rsplit_once, str_split_once, str_trim_end,
    str_trim_start, trim_end, trim_one_prefix, trim_start,
};
use crate::utils::{escape_snake_case, escape_upper_camel_case, to_snake_case};
use vstd::pervasive::unreached;
use vstd::prelude::*;

verus! {

/// How often a child may occur under its parent.
#[derive(Clone, Copy, Debug, PartialEq, Eq, Structural)]
pub enum Occurrence {
    Required,
    Optional,
    Repeated,
}

#[derive(Clone, Debug, Default)]
pub struct OpenXmlPart {
    pub root: String,
    pub name: String,
    pub base: String,
    pub content_type: String,
    pub relationship_type: String,
    pub target: String,
    pub root_element: String,
    pub extension: String,
    pub paths: OpenXmlPartPaths,
    pub version: String,
    pub children: Vec<OpenXmlPartChild>,
    pub module_name: String,
}

#[derive(Clone, Debug, Default)]
pub struct OpenXmlPartPaths {
    pub general: String,
    pub word: String,
    pub excel: String,
    pub power_point: String,
}

#[derive(Clone, Debug, Default)]
pub struct OpenXmlPartChild {
    pub min_occurs_is_non_zero: bool,
    pub max_occurs_great_than_one: bool,
    pub api_name: String,
    pub name: String,
    pub has_fixed_content: bool,
    pub is_data_part_reference: bool,
    pub is_special_embedded_part: bool,
}

#[derive(Debug, Default)]
pub struct OpenXmlSchema {
    pub target_namespace: String,
    pub types: Vec<OpenXmlSchemaType>,
    pub enums: Vec<OpenXmlSchemaEnum>,
    pub module_name: String,
}

#[derive(Debug, Default)]
pub struct OpenXmlSchemaType {
    pub name: String,
    pub class_name: String,
    pub summary: String,
    pub version: String,
    pub part: String,
    pub composite_type: String,
    pub base_class: String,
    pub is_leaf_text: bool,
    pub is_leaf_element: bool,
    pub is_derived: bool,
    pub is_abstract: bool,
    pub attributes: Vec<OpenXmlSchemaTypeAttribute>,
    pub children: Vec<OpenXmlSchemaTypeChild>,
    pub particle: OpenXmlSchemaTypeParticle,
    pub module_name: String,
}

#[derive(Clone, Debug, Default)]
pub struct OpenXmlSchemaTypeAttribute {
    pub q_name: String,
    pub property_name: String,
    pub value_type: String,
    pub property_comments: String,
    pub version: String,
    pub validators: Vec<OpenXmlSchemaTypeAttributeValidator>,
}

#[derive(Clone, Debug, Default)]
pub struct OpenXmlSchemaTypeAttributeValidator {
    pub name: String,
    pub is_list: bool,
    pub value_type: String,
    pub union_id: u64,
    pub is_initial_version: bool,
    pub arguments: Vec<OpenXmlSchemaTypeAttributeValidatorArgument>,
}

#[derive(Clone, Debug, Default)]
pub struct OpenXmlSchemaTypeAttributeValidatorArgument {
    pub name: String,
    pub value_type: String,
    pub value: String,
}

#[derive(Clone, Debug, Default)]
pub struct OpenXmlSchemaTypeChild {
    pub name: String,
    pub property_name: String,
    pub property_comments: String,
}

#[derive(Debug, Default)]
pub struct OpenXmlSchemaTypeParticle {
    pub kind: String,
    pub name: String,
    pub occurs: Vec<OpenXmlSchemaTypeParticleOccur>,
    pub items: Vec<OpenXmlSchemaTypeParticle>,
    pub initial_version: String,
    pub require_filter: bool,
    pub namespace: String,
}

#[derive(Clone, Debug, Default)]
pub struct OpenXmlSchemaTypeParticleOccur {
    pub max: u64,
    pub min: u64,
    pub include_version: bool,
    pub version: String,
}

#[derive(Clone, Debug, Default)]
pub struct OpenXmlSchemaEnum {
    pub name: String,
    pub value_type: String,
    pub facets: Vec<OpenXmlSchemaEnumFacet>,
    pub version: String,
    pub module_name: String,
}

#[derive(Clone, Debug, Default)]
pub struct OpenXmlSchemaEnumFacet {
    pub name: String,
    pub value: String,
    pub version: String,
}

#[derive(Clone, Debug, Default)]
pub struct OpenXmlNamespace {
    pub prefix: String,
    pub uri: String,
    pub version: String,
}

#[derive(Clone, Debug, Default)]
pub struct TypedNamespace {
    pub prefix: String,
    pub namespace: String,
}

#[derive(Clone, Debug, Default)]
pub struct TypedSchema {
    pub name: String,
    pub class_name: String,
    pub part_class_name: String,
}

/// A qualified name has a `/` between the owner and the prefixed tag.
pub open spec fn is_qualified(name: Seq<char>) -> bool {
    split_once(name, '/') is Some
}

/// The part of a qualified name before its first `/`.
pub open spec fn owner_of(name: Seq<char>) -> Seq<char> {
    split_once(name, '/')->Some_0.0
}

/// The part of a qualified name after its first `/`: the prefixed tag.
pub open spec fn prefixed_tag_of(name: Seq<char>) -> Seq<char> {
    split_once(name, '/')->Some_0.1
}

/// A qualified name whose tag has a namespace prefix and a local part.
pub open spec fn has_local_tag(name: Seq<char>) -> bool {
    is_qualified(name) && split_once(prefixed_tag_of(name), ':') is Some
}

/// The namespace prefix of the tag of a qualified name.
pub open spec fn tag_prefix_of(name: Seq<char>) -> Seq<char> {
    split_once(prefixed_tag_of(name), ':')->Some_0.0
}

/// The local part of the tag of a qualified name.
pub open spec fn local_tag_of(name: Seq<char>) -> Seq<char> {
    split_once(prefixed_tag_of(name), ':')->Some_0.1
}

/// A particle item that names one child element and nothing below it.
pub open spec fn is_leaf_item(p: OpenXmlSchemaTypeParticle) -> bool {
    p.kind@.len() == 0 && p.items@.len() == 0
}

/// The occurrence that a list of occurrence records stands for: none is
/// required, "zero to one" is optional, anything else repeats.
pub open spec fn occurrence_of(occurs: Seq<OpenXmlSchemaTypeParticleOccur>) -> Occurrence {
    if occurs.len() == 0 {
        Occurrence::Required
    } else if occurs[0].min == 0 && occurs[0].max == 1 {
        Occurrence::Optional
    } else {
        Occurrence::Repeated
    }
}

/// The index of the last child of `children` that is named `name`.
pub open spec fn last_child_named(children: Seq<OpenXmlSchemaTypeChild>, name: Seq<char>) -> Option<
    int,
>
    decreases children.len(),
{
    if children.len() == 0 {
        None
    } else if children.last().name@ == name {
        Some(children.len() - 1)
    } else {
        last_child_named(children.drop_last(), name)
    }
}

pub proof fn lemma_last_child_named(children: Seq<OpenXmlSchemaTypeChild>, name: Seq<char>)
    ensures
        match last_child_named(children, name) {
            Some(i) => 0 <= i < children.len() && children[i].name@ == name && forall|j: int|
                i < j < children.len() ==> children[j].name@ != name,
            None => forall|j: int| 0 <= j < children.len() ==> children[j].name@ != name,
        },
    decreases children.len(),
{
    if children.len() > 0 && children.last().name@ != name {
        let rest = children.drop_last();
        lemma_last_child_named(rest, name);
        assert(forall|j: int| 0 <= j < rest.len() ==> rest[j] == children[j]);
    }
}

/// A keyed view of a type's children: a name finds the last child that
/// carries it.
pub struct ChildMap<'a> {
    pub children: &'a Vec<OpenXmlSchemaTypeChild>,
}

impl<'a> ChildMap<'a> {
    /// The child registered under `name`.
    pub fn get(&self, name: &str) -> (r: Option<&'a OpenXmlSchemaTypeChild>)
        ensures
            match r {
                Some(c) => last_child_named(self.children@, name@) is Some && *c
                    == self.children@[last_child_named(self.children@, name@)->Some_0],
                None => last_child_named(self.children@, name@) is None,
            },
    {
        match self.index_of(name) {
            Some(i) => Some(&self.children[i]),
            None => None,
        }
    }

    /// The position of the child registered under `name`.
    pub fn index_of(&self, name: &str) -> (r: Option<usize>)
        ensures
            match r {
                Some(i) => last_child_named(self.children@, name@) == Some(i as int) && i
                    < self.children@.len(),
                None => last_child_named(self.children@, name@) is None,
            },
    {
        let mut i: usize = self.children.len();
        assert(self.children@.take(i as int) =~= self.children@);
        while i > 0
            invariant
                i <= self.children@.len(),
                last_child_named(self.children@, name@) == last_child_named(
                    self.children@.take(i as int),
                    name@,
                ),
            decreases i,
        {
            i -= 1;
            assert(self.children@.take(i + 1).drop_last() =~= self.children@.take(i as int));
            if self.children[i].name.as_str().eq(name) {
                return Some(i);
            }
        }
        assert(self.children@.take(0).len() == 0);
        None
    }
}

impl OpenXmlPart {
    /// Records the description file that the part was read from: the module
    /// name is the file's stem in snake case.
    pub fn with_file_stem(self, stem: &str) -> (r: Self)
        ensures
            r.module_name@ == crate::utils::snake_case(stem@),
            r.root == self.root,
            r.name == self.name,
            r.base == self.base,
            r.content_type == self.content_type,
            r.relationship_type == self.relationship_type,
            r.target == self.target,
            r.root_element == self.root_element,
            r.extension == self.extension,
            r.paths == self.paths,
            r.version == self.version,
            r.children == self.children,
    {
        let mut r = self;
        r.module_name = to_snake_case(stem);
        r
    }
}

impl OpenXmlPartChild {
    /// How often the child part occurs under its parent.
    pub open spec fn spec_as_occurrence(&self) -> Occurrence {
        if self.max_occurs_great_than_one {
            Occurrence::Repeated
        } else if self.min_occurs_is_non_zero {
            Occurrence::Required
        } else {
            Occurrence::Optional
        }
    }

    pub fn as_occurrence(&self) -> (r: Occurrence)
        ensures
            r == self.spec_as_occurrence(),
    {
        if self.max_occurs_great_than_one {
            Occurrence::Repeated
        } else if self.min_occurs_is_non_zero {
            Occurrence::Required
        } else {
            Occurrence::Optional
        }
    }
}

impl OpenXmlSchema {
    /// Records the description file that the schema was read from: the
    /// module name is the file's stem in snake case.
    pub fn with_file_stem(self, stem: &str) -> (r: Self)
        ensures
            r.module_name@ == crate::utils::snake_case(stem@),
            r.target_namespace == self.target_namespace,
            r.types == self.types,
            r.enums == self.enums,
    {
        let mut r = self;
        r.module_name = to_snake_case(stem);
        r
    }
}

impl OpenXmlSchemaTypeParticle {
    pub fn is_leaf(&self) -> (r: bool)
        ensures
            r == is_leaf_item(*self),
    {
        self.kind.as_str().is_empty() && self.items.len() == 0
    }

    pub fn as_occurrence(&self) -> (r: Occurrence)
        ensures
            r == occurrence_of(self.occurs@),
    {
        if self.occurs.len() == 0 {
            Occurrence::Required
        } else if self.occurs[0].min == 0 && self.occurs[0].max == 1 {
            Occurrence::Optional
        } else {
            Occurrence::Repeated
        }
    }
}

impl OpenXmlSchemaType {
    /// Whether the children become named fields: the particle is a sequence
    /// (or the type is marked as one) and every item directly under it is a
    /// plain reference to a child.
    pub open spec fn spec_is_one_sequence_flatten(&self) -> bool {
        (self.composite_type@ == "OneSequence"@ || self.particle.kind@ == "Sequence"@)
            && forall|i: int|
            0 <= i < self.particle.items@.len() ==> is_leaf_item(#[trigger] self.particle.items@[i])
    }

    pub fn is_one_sequence_flatten(&self) -> (r: bool)
        ensures
            r == self.spec_is_one_sequence_flatten(),
    {
        if !(self.composite_type.as_str().eq("OneSequence") || self.particle.kind.as_str().eq(
            "Sequence",
        )) {
            return false;
        }
        let mut i: usize = 0;
        while i < self.particle.items.len()
            invariant
                i <= self.particle.items@.len(),
                forall|j: int| 0 <= j < i ==> is_leaf_item(#[trigger] self.particle.items@[j]),
            decreases self.particle.items@.len() - i,
        {
            if !self.particle.items[i].is_leaf() {
                return false;
            }
            i += 1;
        }
        true
    }

    /// The owner and the prefixed tag of the type's qualified name.
    pub fn split_name(&self) -> (r: (&str, &str))
        requires
            is_qualified(self.name@),
        ensures
            r.0@ == owner_of(self.name@),
            r.1@ == prefixed_tag_of(self.name@),
    {
        match str_split_once(self.name.as_str(), '/') {
            Some(p) => p,
            None => unreached(),
        }
    }

    /// The namespace prefix and the local part of the type's tag.
    pub fn split_last_name(&self) -> (r: (&str, &str))
        requires
            has_local_tag(self.name@),
        ensures
            r.0@ == tag_prefix_of(self.name@),
            r.1@ == local_tag_of(self.name@),
    {
        let (_, tag) = self.split_name();
        match str_split_once(tag, ':') {
            Some(p) => p,
            None => unreached(),
        }
    }

    /// The children of the type, keyed by their names.
    pub fn child_map(&self) -> (r: ChildMap<'_>)
        ensures
            r.children@ == self.children@,
    {
        ChildMap { children: &self.children }
    }
}

/// The last `.` of an attribute's type splits it; the first half then loses
/// its leading `<`, the second its trailing `>`.
pub open spec fn type_split_trimmed(ty: Seq<char>) -> Option<(Seq<char>, Seq<char>)> {
    match rsplit_once(ty, '.') {
        Some(p) => Some((trim_start(p.0, '<'), trim_end(p.1, '>'))),
        None => None,
    }
}

impl OpenXmlSchemaTypeAttribute {
    /// The name under which the attribute is kept: its property name, or
    /// its qualified name where it has none, in snake case and escaped.
    pub open spec fn spec_name_ident(&self) -> Seq<char> {
        crate::utils::escaped_snake_case(
            if self.property_name@.len() == 0 {
                self.q_name@
            } else {
                self.property_name@
            },
        )
    }

    pub fn as_name_ident(&self) -> (r: String)
        ensures
            r@ == self.spec_name_ident(),
    {
        if self.property_name.as_str().is_empty() {
            escape_snake_case(self.q_name.as_str())
        } else {
            escape_snake_case(self.property_name.as_str())
        }
    }

    /// The attribute's name as it stands in a document: the qualified name
    /// without a leading `:`.
    pub fn as_name_str(&self) -> (r: &str)
        ensures
            r@ == trim_one_prefix(self.q_name@, ':'),
    {
        let s = self.q_name.as_str();
        let chars = chars_of(s);
        if chars.len() > 0 && chars[0] == ':' {
            let r = s.substring_char(1, chars.len());
            assert(s@.subrange(1, s@.len() as int) =~= s@.skip(1));
            r
        } else {
            s
        }
    }

    pub fn split_type_trimmed(&self) -> (r: (&str, &str))
        requires
            (type_split_trimmed(self.value_type@) is Some),
        ensures
            Some((r.0@, r.1@)) == type_split_trimmed(self.value_type@),
    {
        match str_rsplit_once(self.value_type.as_str(), '.') {
            Some(p) => (str_trim_start(p.0, '<'), str_trim_end(p.1, '>')),
            None => unreached(),
        }
    }

    pub open spec fn spec_is_validator_required(&self) -> bool {
        exists|i: int|
            0 <= i < self.validators@.len() && (#[trigger] self.validators@[i]).name@
                == "RequiredValidator"@
    }

    /// Whether a validator of the attribute demands that it is present.
    pub fn is_validator_required(&self) -> (r: bool)
        ensures
            r == self.spec_is_validator_required(),
    {
        let mut i: usize = 0;
        while i < self.validators.len()
            invariant
                i <= self.validators@.len(),
                forall|j: int|
                    0 <= j < i ==> (#[trigger] self.validators@[j]).name@ != "RequiredValidator"@,
            decreases self.validators@.len() - i,
        {
            if self.validators[i].name.as_str().eq("RequiredValidator") {
                return true;
            }
            i += 1;
        }
        false
    }
}

impl OpenXmlSchemaTypeChild {
    /// The owner and the prefixed tag of the child's qualified name.
    pub fn split_name(&self) -> (r: (&str, &str))
        requires
            is_qualified(self.name@),
        ensures
            r.0@ == owner_of(self.name@),
            r.1@ == prefixed_tag_of(self.name@),
    {
        match str_split_once(self.name.as_str(), '/') {
            Some(p) => p,
            None => unreached(),
        }
    }

    /// The namespace prefix and the local part of the child's tag.
    pub fn split_last_name(&self) -> (r: (&str, &str))
        requires
            has_local_tag(self.name@),
        ensures
            r.0@ == tag_prefix_of(self.name@),
            r.1@ == local_tag_of(self.name@),
    {
        let (_, tag) = self.split_name();
        match str_split_once(tag, ':') {
            Some(p) => p,
            None => unreached(),
        }
    }

    /// The name of the child's variant in its parent's union: the prefixed
    /// tag in upper camel case.
    pub fn as_last_name_ident(&self) -> (r: String)
        requires
            is_qualified(self.name@),
        ensures
            r@ == crate::utils::upper_camel_case(prefixed_tag_of(self.name@)),
    {
        let (_, tag) = self.split_name();
        crate::utils::to_upper_camel_case(tag)
    }

    /// The name of the field that holds the child: its property name, or
    /// its prefixed tag where it has none.
    pub open spec fn spec_property_name(&self) -> Seq<char> {
        if self.property_name@.len() == 0 {
            prefixed_tag_of(self.name@)
        } else {
            self.property_name@
        }
    }

    pub fn as_property_name_str(&self) -> (r: &str)
        requires
            self.property_name@.len() > 0 || is_qualified(self.name@),
        ensures
            r@ == self.spec_property_name(),
    {
        if self.property_name.as_str().is_empty() {
            self.split_name().1
        } else {
            self.property_name.as_str()
        }
    }

    pub fn as_property_name_ident(&self) -> (r: String)
        requires
            self.property_name@.len() > 0 || is_qualified(self.name@),
        ensures
            r@ == crate::utils::escaped_snake_case(self.spec_property_name()),
    {
        escape_snake_case(self.as_property_name_str())
    }
}

impl OpenXmlSchemaEnumFacet {
    /// The name of the facet's variant: its name, or its value where it has
    /// none, in upper camel case and escaped.
    pub open spec fn spec_variant_ident(&self) -> Seq<char> {
        crate::utils::escaped_upper_camel_case(
            if self.name@.len() == 0 {
                self.value@
            } else {
                self.name@
            },
        )
    }

    pub fn as_variant_ident(&self) -> (r: String)
        ensures
            r@ == self.spec_variant_ident(),
    {
        if self.name.as_str().is_empty() {
            escape_upper_camel_case(self.value.as_str())
        } else {
            escape_upper_camel_case(self.name.as_str())
        }
    }
}

} // verus!
