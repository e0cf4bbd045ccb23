//! The deserializer contract: for each concrete type what its parser
//! dispatches on, and the single steps of parsing.

use crate::common::{from_utf8_lossy, utf8_lossy, SdkError, SdkErrorView};
use crate::context::GenContext;
use crate::models::{
    has_local_tag, is_qualified, last_child_named, local_tag_of, prefixed_tag_of, OpenXmlSchema,
    OpenXmlSchemaEnum, OpenXmlSchemaType, OpenXmlSchemaTypeAttribute, OpenXmlSchemaTypeChild,
};
use crate::open_xml_schema::{Field, ModelView, TypeModel};
use crate::sequence::{lemma_try_build_stops, try_build};
use crate::text::{bytes_eq, bytes_start_with, str_split_once, trim_one_prefix};
use crate::utils::{missing, to_upper_camel_case, upper_camel_case, BuildError, BuildErrorView};
use vstd::prelude::*;
use vstd::utf8::encode_utf8;

verus! {

/// One arm of the dispatch on the tag of a child element: the child
/// reference that it stands for, and whether it also matches the bare
/// local name of the child.
#[derive(Clone, Copy, Debug, PartialEq, Eq, Structural)]
pub struct ChildArm {
    pub child: usize,
    pub bare: bool,
}

/// The deserializer of one type: the model of the type and the arms of
/// the dispatch on its children, one for each child field or variant, in
/// their order.
#[derive(Debug)]
pub struct TypeDeserializer {
    pub model: TypeModel,
    pub arms: Vec<ChildArm>,
}

/// The mathematical value of the deserializer of a type.
pub struct DeserializerView {
    pub model: ModelView,
    pub arms: Seq<ChildArm>,
}

impl View for TypeDeserializer {
    type V = DeserializerView;

    open spec fn view(&self) -> DeserializerView {
        DeserializerView { model: self.model@, arms: self.arms@ }
    }
}

pub open spec fn deserializer_views(ds: Seq<Option<TypeDeserializer>>) -> Seq<
    Option<DeserializerView>,
> {
    ds.map_values(
        |d: Option<TypeDeserializer>|
            match d {
                Some(x) => Some(x@),
                None => None,
            },
    )
}

/// The child reference that the arm at `k` stands for, where the children
/// are flattened: the one that the particle item at `k` names.
pub open spec fn item_child(ty: OpenXmlSchemaType, k: int) -> Result<int, BuildErrorView> {
    match last_child_named(ty.children@, ty.particle.items@[k].name@) {
        Some(c) => Ok(c),
        None => Err(BuildErrorView::HashMapExpectedSomeError(ty.particle.items@[k].name@)),
    }
}

/// The child references of the arms of a type, in the order of the arms:
/// those that the particle items name where the children are flattened,
/// else all of them.
pub open spec fn arm_children(ty: OpenXmlSchemaType) -> Result<Seq<int>, BuildErrorView> {
    if ty.spec_is_one_sequence_flatten() {
        try_build(ty.particle.items@.len() as int, |k: int| item_child(ty, k))
    } else {
        Ok(Seq::new(ty.children@.len(), |c: int| c))
    }
}

/// Whether the arm at `k` is the first for the local name of its child.
/// Where two children have the same local name, the bare name belongs to
/// the first; the others match only with their prefix.
pub open spec fn first_of_its_name(
    children: Seq<OpenXmlSchemaTypeChild>,
    arm_of: Seq<int>,
    k: int,
) -> bool {
    forall|j: int|
        0 <= j < k ==> local_tag_of((#[trigger] children[arm_of[j]]).name@) != local_tag_of(
            children[arm_of[k]].name@,
        )
}

/// The arm at `k`: its child must have a tag with a prefix and a local
/// name, else the error carries the name of the child.
pub open spec fn arm_at(children: Seq<OpenXmlSchemaTypeChild>, arm_of: Seq<int>, k: int) -> Result<
    ChildArm,
    BuildErrorView,
> {
    if has_local_tag(children[arm_of[k]].name@) {
        Ok(ChildArm { child: arm_of[k] as usize, bare: first_of_its_name(children, arm_of, k) })
    } else {
        Err(BuildErrorView::HashMapExpectedSomeError(children[arm_of[k]].name@))
    }
}

pub open spec fn armer(children: Seq<OpenXmlSchemaTypeChild>, arm_of: Seq<int>) -> spec_fn(
    int,
) -> Result<ChildArm, BuildErrorView> {
    |k: int| arm_at(children, arm_of, k)
}

/// The arms of the dispatch on the children of a type.
pub open spec fn child_arms(ty: OpenXmlSchemaType) -> Result<Seq<ChildArm>, BuildErrorView> {
    match arm_children(ty) {
        Err(e) => Err(e),
        Ok(arm_of) => try_build(arm_of.len() as int, armer(ty.children@, arm_of)),
    }
}

fn gen_arm_children(ty: &OpenXmlSchemaType) -> (r: Result<Vec<usize>, BuildError>)
    ensures
        match r {
            Ok(v) => arm_children(*ty) matches Ok(arm_of) && arm_of.len() == v@.len() && forall|
                k: int,
            |
                0 <= k < v@.len() ==> #[trigger] v@[k] == arm_of[k] && v@[k] < ty.children@.len(),
            Err(e) => arm_children(*ty) == Err::<Seq<int>, BuildErrorView>(e@),
        },
{
    let mut out: Vec<usize> = Vec::new();
    if ty.is_one_sequence_flatten() {
        let ghost item = |k: int| item_child(*ty, k);
        let ghost n = ty.particle.items@.len() as int;
        let map = ty.child_map();
        let mut k: usize = 0;
        while k < ty.particle.items.len()
            invariant
                k <= ty.particle.items@.len(),
                n == ty.particle.items@.len(),
                ty.spec_is_one_sequence_flatten(),
                map.children@ == ty.children@,
                item == |k: int| item_child(*ty, k),
                try_build(k as int, item) matches Ok(arm_of) && arm_of.len() == out@.len()
                    && forall|j: int|
                    0 <= j < out@.len() ==> #[trigger] out@[j] == arm_of[j] && out@[j]
                        < ty.children@.len(),
            decreases ty.particle.items@.len() - k,
        {
            match map.index_of(ty.particle.items[k].name.as_str()) {
                Some(c) => {
                    out.push(c);
                },
                None => {
                    proof {
                        assert(try_build(k + 1, item) is Err);
                        lemma_try_build_stops(n, k + 1, item);
                    }
                    return Err(missing(ty.particle.items[k].name.as_str()));
                },
            }
            k += 1;
        }
        Ok(out)
    } else {
        let mut c: usize = 0;
        while c < ty.children.len()
            invariant
                c <= ty.children@.len(),
                out@.len() == c,
                forall|j: int| 0 <= j < c ==> #[trigger] out@[j] == j,
            decreases ty.children@.len() - c,
        {
            out.push(c);
            c += 1;
        }
        Ok(out)
    }
}

/// The local name of the tag of a child.
fn local_name(child: &OpenXmlSchemaTypeChild) -> (r: Option<&str>)
    ensures
        match r {
            Some(n) => has_local_tag(child.name@) && n@ == local_tag_of(child.name@),
            None => !has_local_tag(child.name@),
        },
{
    match str_split_once(child.name.as_str(), '/') {
        Some((_, tag)) => match str_split_once(tag, ':') {
            Some((_, local)) => Some(local),
            None => None,
        },
        None => None,
    }
}

/// The tag of a child with its prefix.
fn prefixed_name(child: &OpenXmlSchemaTypeChild) -> (r: Option<&str>)
    ensures
        match r {
            Some(n) => is_qualified(child.name@) && n@ == prefixed_tag_of(child.name@),
            None => !is_qualified(child.name@),
        },
{
    match str_split_once(child.name.as_str(), '/') {
        Some((_, tag)) => Some(tag),
        None => None,
    }
}

/// The arms of the dispatch on the children of a type.
pub fn gen_child_arms(ty: &OpenXmlSchemaType) -> (r: Result<Vec<ChildArm>, BuildError>)
    ensures
        match r {
            Ok(arms) => child_arms(*ty) == Ok::<Seq<ChildArm>, BuildErrorView>(arms@),
            Err(e) => child_arms(*ty) == Err::<Seq<ChildArm>, BuildErrorView>(e@),
        },
{
    let arm_of = match gen_arm_children(ty) {
        Ok(v) => v,
        Err(e) => {
            return Err(e);
        },
    };
    let ghost ids = arm_children(*ty)->Ok_0;
    let ghost item = armer(ty.children@, ids);
    let ghost n = ids.len() as int;
    let mut arms: Vec<ChildArm> = Vec::new();
    let mut k: usize = 0;
    while k < arm_of.len()
        invariant
            k <= arm_of@.len(),
            n == arm_of@.len(),
            ids.len() == arm_of@.len(),
            arm_children(*ty) == Ok::<Seq<int>, BuildErrorView>(ids),
            forall|j: int|
                0 <= j < arm_of@.len() ==> #[trigger] arm_of@[j] == ids[j] && arm_of@[j]
                    < ty.children@.len(),
            item == armer(ty.children@, ids),
            try_build(k as int, item) == Ok::<Seq<ChildArm>, BuildErrorView>(arms@),
            forall|j: int| 0 <= j < k ==> has_local_tag(ty.children@[#[trigger] ids[j]].name@),
        decreases arm_of@.len() - k,
    {
        let child = &ty.children[arm_of[k]];
        assert(arm_of@[k as int] == ids[k as int]);
        match local_name(child) {
            None => {
                proof {
                    assert(try_build(k + 1, item) is Err);
                    lemma_try_build_stops(n, k + 1, item);
                }
                return Err(missing(child.name.as_str()));
            },
            Some(local) => {
                let mut first = true;
                let mut j: usize = 0;
                while j < k
                    invariant
                        j <= k,
                        k < arm_of@.len(),
                        ids.len() == arm_of@.len(),
                        local@ == local_tag_of(ty.children@[ids[k as int]].name@),
                        forall|x: int|
                            0 <= x < arm_of@.len() ==> #[trigger] arm_of@[x] == ids[x]
                                && arm_of@[x] < ty.children@.len(),
                        forall|x: int|
                            0 <= x < k ==> has_local_tag(
                                ty.children@[#[trigger] ids[x]].name@,
                            ),
                        first == (forall|x: int|
                            0 <= x < j ==> local_tag_of(
                                (#[trigger] ty.children@[ids[x]]).name@,
                            ) != local@),
                    decreases k - j,
                {
                    assert(arm_of@[j as int] == ids[j as int]);
                    assert(has_local_tag(ty.children@[ids[j as int]].name@));
                    match local_name(&ty.children[arm_of[j]]) {
                        Some(other) => {
                            if other.eq(local) {
                                first = false;
                            }
                        },
                        None => {},
                    }
                    j += 1;
                }
                arms.push(ChildArm { child: arm_of[k], bare: first });
            },
        }
        k += 1;
    }
    Ok(arms)
}

/// Whether an arm matches the tag of a child element: the tag is the
/// child's tag with its prefix, or the arm has the bare name and the tag
/// is the child's local name.
pub open spec fn arm_matches(children: Seq<OpenXmlSchemaTypeChild>, arm: ChildArm, tag: Seq<u8>)
    -> bool {
    &&& arm.child < children.len()
    &&& has_local_tag(children[arm.child as int].name@)
    &&& (tag == encode_utf8(prefixed_tag_of(children[arm.child as int].name@)) || (arm.bare && tag
        == encode_utf8(local_tag_of(children[arm.child as int].name@))))
}

/// The first arm, from `from` on, that matches a tag.
pub open spec fn first_arm(
    children: Seq<OpenXmlSchemaTypeChild>,
    arms: Seq<ChildArm>,
    tag: Seq<u8>,
    from: int,
) -> Option<int>
    decreases arms.len() - from,
{
    if from < 0 || from >= arms.len() {
        None
    } else if arm_matches(children, arms[from], tag) {
        Some(from)
    } else {
        first_arm(children, arms, tag, from + 1)
    }
}

/// What the parser of a type does with the tag of a child element: a type
/// without arms has no child loop and passes the tag over; else the first
/// arm that matches takes the child, and a tag that no arm matches is an
/// error that names the type.
pub open spec fn dispatched(
    children: Seq<OpenXmlSchemaTypeChild>,
    arms: Seq<ChildArm>,
    class_name: Seq<char>,
    tag: Seq<u8>,
) -> Result<Option<int>, SdkErrorView> {
    if arms.len() == 0 {
        Ok(None)
    } else {
        match first_arm(children, arms, tag, 0) {
            Some(k) => Ok(Some(k)),
            None => Err(SdkErrorView::CommonError(upper_camel_case(class_name))),
        }
    }
}

/// Whether an arm matches the tag of a child element.
pub fn does_arm_match(children: &Vec<OpenXmlSchemaTypeChild>, arm: &ChildArm, tag: &[u8]) -> (r:
    bool)
    ensures
        r == arm_matches(children@, *arm, tag@),
{
    if arm.child >= children.len() {
        return false;
    }
    let child = &children[arm.child];
    match local_name(child) {
        None => false,
        Some(local) => {
            match prefixed_name(child) {
                None => false,
                Some(prefixed) => bytes_eq(tag, prefixed.as_bytes()) || (arm.bare && bytes_eq(
                    tag,
                    local.as_bytes(),
                )),
            }
        },
    }
}

/// Dispatches the tag of a child element.
pub fn dispatch_child(
    children: &Vec<OpenXmlSchemaTypeChild>,
    arms: &Vec<ChildArm>,
    class_name: &str,
    tag: &[u8],
) -> (r: Result<Option<usize>, SdkError>)
    ensures
        match r {
            Ok(Some(k)) => dispatched(children@, arms@, class_name@, tag@) == Ok::<
                Option<int>,
                SdkErrorView,
            >(Some(k as int)) && k < arms@.len(),
            Ok(None) => dispatched(children@, arms@, class_name@, tag@) == Ok::<
                Option<int>,
                SdkErrorView,
            >(None),
            Err(e) => dispatched(children@, arms@, class_name@, tag@) == Err::<
                Option<int>,
                SdkErrorView,
            >(e@),
        },
{
    if arms.len() == 0 {
        return Ok(None);
    }
    let mut k: usize = 0;
    while k < arms.len()
        invariant
            k <= arms@.len(),
            first_arm(children@, arms@, tag@, 0) == first_arm(children@, arms@, tag@, k as int),
        decreases arms@.len() - k,
    {
        if does_arm_match(children, &arms[k], tag) {
            return Ok(Some(k));
        }
        k += 1;
    }
    Err(SdkError::CommonError(to_upper_camel_case(class_name)))
}

/// A tag that matches no child reference of a type is not dispatched: it
/// is passed over if the type has no children at all, and refused if it
/// has.
pub proof fn lemma_unknown_child_is_not_dispatched(
    children: Seq<OpenXmlSchemaTypeChild>,
    arms: Seq<ChildArm>,
    class_name: Seq<char>,
    tag: Seq<u8>,
)
    requires
        forall|k: int| 0 <= k < arms.len() ==> !arm_matches(children, #[trigger] arms[k], tag),
    ensures
        dispatched(children, arms, class_name, tag) == (if arms.len() == 0 {
            Ok::<Option<int>, SdkErrorView>(None)
        } else {
            Err::<Option<int>, SdkErrorView>(SdkErrorView::CommonError(upper_camel_case(class_name)))
        }),
{
    lemma_first_arm_none(children, arms, tag, 0);
}

/// The tag of a child is dispatched to the first arm that matches it: a
/// child that is written with the tag of its arm is read by that arm,
/// where no arm before it takes the same tag.
pub proof fn lemma_known_child_is_dispatched(
    children: Seq<OpenXmlSchemaTypeChild>,
    arms: Seq<ChildArm>,
    class_name: Seq<char>,
    tag: Seq<u8>,
    k: int,
)
    requires
        0 <= k < arms.len(),
        arm_matches(children, arms[k], tag),
        forall|j: int| 0 <= j < k ==> !arm_matches(children, #[trigger] arms[j], tag),
    ensures
        dispatched(children, arms, class_name, tag) == Ok::<Option<int>, SdkErrorView>(Some(k)),
{
    lemma_first_arm_found(children, arms, tag, k, 0);
}

proof fn lemma_first_arm_found(
    children: Seq<OpenXmlSchemaTypeChild>,
    arms: Seq<ChildArm>,
    tag: Seq<u8>,
    k: int,
    from: int,
)
    requires
        0 <= from <= k < arms.len(),
        arm_matches(children, arms[k], tag),
        forall|j: int| 0 <= j < k ==> !arm_matches(children, #[trigger] arms[j], tag),
    ensures
        first_arm(children, arms, tag, from) == Some(k),
    decreases k - from,
{
    if from < k {
        lemma_first_arm_found(children, arms, tag, k, from + 1);
    }
}

proof fn lemma_first_arm_none(
    children: Seq<OpenXmlSchemaTypeChild>,
    arms: Seq<ChildArm>,
    tag: Seq<u8>,
    from: int,
)
    requires
        0 <= from,
        forall|k: int| 0 <= k < arms.len() ==> !arm_matches(children, #[trigger] arms[k], tag),
    ensures
        first_arm(children, arms, tag, from) is None,
    decreases arms.len() - from,
{
    if from < arms.len() {
        lemma_first_arm_none(children, arms, tag, from + 1);
    }
}

/// What the parser of a type does with the key of an attribute.
#[derive(Clone, Copy, Debug, PartialEq, Eq, Structural)]
pub enum AttributeTarget {
    /// The attribute belongs to the field at this place of the model.
    Field(usize),
    /// The default namespace.
    Xmlns,
    /// The list of ignorable prefixes.
    McIgnorable,
    /// A prefixed namespace.
    Namespace,
    /// The attribute is passed over.
    Ignored,
}

/// The attribute that a field of a model stands for.
pub open spec fn field_attribute(
    f: Field,
    own: Seq<OpenXmlSchemaTypeAttribute>,
    inherited: Seq<OpenXmlSchemaTypeAttribute>,
) -> Option<OpenXmlSchemaTypeAttribute> {
    match f {
        Field::Attribute { inherited: from_base, index, kind, required } => if from_base {
            if index < inherited.len() {
                Some(inherited[index as int])
            } else {
                None
            }
        } else {
            if index < own.len() {
                Some(own[index as int])
            } else {
                None
            }
        },
        _ => None,
    }
}

/// Whether a field is the attribute with the given key: the key is the
/// exact name of the attribute as it stands in a document.
pub open spec fn field_has_key(
    f: Field,
    own: Seq<OpenXmlSchemaTypeAttribute>,
    inherited: Seq<OpenXmlSchemaTypeAttribute>,
    key: Seq<u8>,
) -> bool {
    match field_attribute(f, own, inherited) {
        Some(a) => key == encode_utf8(trim_one_prefix(a.q_name@, ':')),
        None => false,
    }
}

/// The first field, from `from` on, that is the attribute with the key.
pub open spec fn first_field_with_key(
    fields: Seq<Field>,
    own: Seq<OpenXmlSchemaTypeAttribute>,
    inherited: Seq<OpenXmlSchemaTypeAttribute>,
    key: Seq<u8>,
    from: int,
) -> Option<int>
    decreases fields.len() - from,
{
    if from < 0 || from >= fields.len() {
        None
    } else if field_has_key(fields[from], own, inherited, key) {
        Some(from)
    } else {
        first_field_with_key(fields, own, inherited, key, from + 1)
    }
}

/// Whether the fields hold the namespace declarations: they are the
/// first three fields then.
pub open spec fn has_xmlns(fields: Seq<Field>) -> bool {
    fields.len() >= 3 && fields[0] == Field::Xmlns && fields[1] == Field::XmlnsMap && fields[2]
        == Field::McIgnorable
}

/// What the parser does with the key of an attribute: the attributes of
/// the type come first, in the order of the fields; then, where the type
/// carries the namespace declarations, `xmlns`, `mc:Ignorable` and the
/// keys that begin with `xmlns:`; any other key is passed over.
pub open spec fn attribute_target(
    fields: Seq<Field>,
    own: Seq<OpenXmlSchemaTypeAttribute>,
    inherited: Seq<OpenXmlSchemaTypeAttribute>,
    key: Seq<u8>,
) -> AttributeTarget {
    match first_field_with_key(fields, own, inherited, key, 0) {
        Some(k) => AttributeTarget::Field(k as usize),
        None => if !has_xmlns(fields) {
            AttributeTarget::Ignored
        } else if key == encode_utf8("xmlns"@) {
            AttributeTarget::Xmlns
        } else if key == encode_utf8("mc:Ignorable"@) {
            AttributeTarget::McIgnorable
        } else if encode_utf8("xmlns:"@).is_prefix_of(key) {
            AttributeTarget::Namespace
        } else {
            AttributeTarget::Ignored
        },
    }
}

fn does_field_have_key(
    f: &Field,
    own: &Vec<OpenXmlSchemaTypeAttribute>,
    inherited: &Vec<OpenXmlSchemaTypeAttribute>,
    key: &[u8],
) -> (r: bool)
    ensures
        r == field_has_key(*f, own@, inherited@, key@),
{
    match f {
        Field::Attribute { inherited: from_base, index, kind, required } => {
            if *from_base {
                if *index < inherited.len() {
                    bytes_eq(key, inherited[*index].as_name_str().as_bytes())
                } else {
                    false
                }
            } else {
                if *index < own.len() {
                    bytes_eq(key, own[*index].as_name_str().as_bytes())
                } else {
                    false
                }
            }
        },
        _ => false,
    }
}

/// Dispatches the key of an attribute.
pub fn dispatch_attribute(
    fields: &Vec<Field>,
    own: &Vec<OpenXmlSchemaTypeAttribute>,
    inherited: &Vec<OpenXmlSchemaTypeAttribute>,
    key: &[u8],
) -> (r: AttributeTarget)
    ensures
        r == attribute_target(fields@, own@, inherited@, key@),
        r matches AttributeTarget::Field(k) ==> k < fields@.len(),
{
    let mut k: usize = 0;
    while k < fields.len()
        invariant
            k <= fields@.len(),
            first_field_with_key(fields@, own@, inherited@, key@, 0) == first_field_with_key(
                fields@,
                own@,
                inherited@,
                key@,
                k as int,
            ),
        decreases fields@.len() - k,
    {
        if does_field_have_key(&fields[k], own, inherited, key) {
            return AttributeTarget::Field(k);
        }
        k += 1;
    }
    let carries = fields.len() >= 3 && fields[0] == Field::Xmlns && fields[1] == Field::XmlnsMap
        && fields[2] == Field::McIgnorable;
    if !carries {
        AttributeTarget::Ignored
    } else if bytes_eq(key, "xmlns".as_bytes()) {
        AttributeTarget::Xmlns
    } else if bytes_eq(key, "mc:Ignorable".as_bytes()) {
        AttributeTarget::McIgnorable
    } else if bytes_start_with(key, "xmlns:".as_bytes()) {
        AttributeTarget::Namespace
    } else {
        AttributeTarget::Ignored
    }
}

/// The facet that a text of a document names: the first whose value it is.
pub open spec fn facet_of(e: OpenXmlSchemaEnum, bytes: Seq<u8>, from: int) -> Option<int>
    decreases e.facets@.len() - from,
{
    if from < 0 || from >= e.facets@.len() {
        None
    } else if bytes == encode_utf8(e.facets@[from].value@) {
        Some(from)
    } else {
        facet_of(e, bytes, from + 1)
    }
}

/// Reads a facet of an enumeration; any other text is an error that
/// carries the text.
pub fn enum_from_bytes(e: &OpenXmlSchemaEnum, bytes: &[u8]) -> (r: Result<usize, SdkError>)
    ensures
        match r {
            Ok(i) => facet_of(*e, bytes@, 0) == Some(i as int) && i < e.facets@.len(),
            Err(x) => facet_of(*e, bytes@, 0) is None && x@ == SdkErrorView::CommonError(
                utf8_lossy(bytes@),
            ),
        },
{
    let mut i: usize = 0;
    while i < e.facets.len()
        invariant
            i <= e.facets@.len(),
            facet_of(*e, bytes@, 0) == facet_of(*e, bytes@, i as int),
        decreases e.facets@.len() - i,
    {
        if bytes_eq(bytes, e.facets[i].value.as_str().as_bytes()) {
            return Ok(i);
        }
        i += 1;
    }
    Err(SdkError::CommonError(from_utf8_lossy(bytes)))
}

/// A facet that is written and read again is the facet that it was, if
/// no facet before it has the same value.
pub proof fn lemma_facet_round_trip(e: OpenXmlSchemaEnum, i: int, from: int)
    requires
        0 <= from <= i < e.facets@.len(),
        forall|j: int|
            0 <= j < i ==> encode_utf8((#[trigger] e.facets@[j]).value@) != encode_utf8(
                e.facets@[i].value@,
            ),
    ensures
        facet_of(e, encode_utf8(e.facets@[i].value@), from) == Some(i),
    decreases i - from,
{
    if from < i {
        lemma_facet_round_trip(e, i, from + 1);
    }
}

impl GenContext {
    /// The type whose child references the model of a type refers to: the
    /// base type where the children are those of the base, else the type
    /// itself.
    pub open spec fn children_owner(&self, ty: OpenXmlSchemaType, m: ModelView) -> OpenXmlSchemaType {
        if m.children_of_base && m.base is Some && m.base->Some_0.schema < self.schemas@.len()
            && m.base->Some_0.index < self.schemas@[m.base->Some_0.schema as int].types@.len() {
            self.schemas@[m.base->Some_0.schema as int].types@[m.base->Some_0.index as int]
        } else {
            ty
        }
    }

    /// The deserializer of a type: the name of the type must have a tag
    /// with a prefix and a local name (else the error carries the name);
    /// then the model and the arms are made.
    pub open spec fn deserializer(&self, schema: OpenXmlSchema, ty: OpenXmlSchemaType) -> Result<
        DeserializerView,
        BuildErrorView,
    > {
        if !has_local_tag(ty.name@) {
            Err(BuildErrorView::HashMapExpectedSomeError(ty.name@))
        } else {
            match self.type_model(schema, ty) {
                Err(e) => Err(e),
                Ok(m) => match child_arms(self.children_owner(ty, m)) {
                    Err(e) => Err(e),
                    Ok(arms) => Ok(DeserializerView { model: m, arms }),
                },
            }
        }
    }

    /// The deserializer of the type at `t`, or nothing if the type is
    /// abstract.
    pub open spec fn deserializer_at(&self, schema: OpenXmlSchema, t: int) -> Result<
        Option<DeserializerView>,
        BuildErrorView,
    > {
        if schema.types@[t].is_abstract {
            Ok(None)
        } else {
            match self.deserializer(schema, schema.types@[t]) {
                Ok(d) => Ok(Some(d)),
                Err(e) => Err(e),
            }
        }
    }

    pub open spec fn deserializer_maker(&self, schema: OpenXmlSchema) -> spec_fn(int) -> Result<
        Option<DeserializerView>,
        BuildErrorView,
    > {
        |t: int| self.deserializer_at(schema, t)
    }

    /// The deserializers of a schema: one for each type, in their order.
    pub open spec fn deserializers(&self, schema: OpenXmlSchema) -> Result<
        Seq<Option<DeserializerView>>,
        BuildErrorView,
    > {
        try_build(schema.types@.len() as int, self.deserializer_maker(schema))
    }

    /// The type whose child references a model refers to.
    pub fn find_children_owner<'a>(&'a self, ty: &'a OpenXmlSchemaType, model: &TypeModel) -> (r:
        &'a OpenXmlSchemaType)
        ensures
            *r == self.children_owner(*ty, model@),
    {
        if model.children_of_base {
            match model.base {
                Some(at) => {
                    if at.schema < self.schemas.len() && at.index < self.schemas[at.schema].types.len() {
                        &self.schemas[at.schema].types[at.index]
                    } else {
                        ty
                    }
                },
                None => ty,
            }
        } else {
            ty
        }
    }

    /// The deserializer of one type.
    pub fn gen_type_deserializer(&self, schema: &OpenXmlSchema, ty: &OpenXmlSchemaType) -> (r:
        Result<TypeDeserializer, BuildError>)
        ensures
            match r {
                Ok(d) => self.deserializer(*schema, *ty) == Ok::<DeserializerView, BuildErrorView>(
                    d@,
                ),
                Err(e) => self.deserializer(*schema, *ty) == Err::<
                    DeserializerView,
                    BuildErrorView,
                >(e@),
            },
    {
        let tagged = match str_split_once(ty.name.as_str(), '/') {
            Some((_, tag)) => str_split_once(tag, ':').is_some(),
            None => false,
        };
        if !tagged {
            return Err(missing(ty.name.as_str()));
        }
        let model = match self.gen_schema_type(schema, ty) {
            Ok(m) => m,
            Err(e) => {
                return Err(e);
            },
        };
        let arms = match gen_child_arms(self.find_children_owner(ty, &model)) {
            Ok(a) => a,
            Err(e) => {
                return Err(e);
            },
        };
        Ok(TypeDeserializer { model, arms })
    }
}

/// The deserializers of a schema.
pub fn gen_deserializers(schema: &OpenXmlSchema, gen_context: &GenContext) -> (r: Result<
    Vec<Option<TypeDeserializer>>,
    BuildError,
>)
    ensures
        match r {
            Ok(ds) => gen_context.deserializers(*schema) == Ok::<
                Seq<Option<DeserializerView>>,
                BuildErrorView,
            >(deserializer_views(ds@)),
            Err(e) => gen_context.deserializers(*schema) == Err::<
                Seq<Option<DeserializerView>>,
                BuildErrorView,
            >(e@),
        },
{
    let ghost item = gen_context.deserializer_maker(*schema);
    let ghost n = schema.types@.len() as int;
    let mut out: Vec<Option<TypeDeserializer>> = Vec::new();
    let mut t: usize = 0;
    assert(deserializer_views(out@) =~= Seq::empty());
    while t < schema.types.len()
        invariant
            t <= schema.types@.len(),
            n == schema.types@.len(),
            item == gen_context.deserializer_maker(*schema),
            try_build(t as int, item) == Ok::<Seq<Option<DeserializerView>>, BuildErrorView>(
                deserializer_views(out@),
            ),
        decreases schema.types@.len() - t,
    {
        let ghost before = deserializer_views(out@);
        let ty = &schema.types[t];
        if ty.is_abstract {
            out.push(None);
            assert(deserializer_views(out@) =~= before.push(None));
        } else {
            match gen_context.gen_type_deserializer(schema, ty) {
                Ok(d) => {
                    let ghost v = d@;
                    out.push(Some(d));
                    assert(deserializer_views(out@) =~= before.push(Some(v)));
                },
                Err(e) => {
                    proof {
                        assert(try_build(t + 1, item) is Err);
                        lemma_try_build_stops(n, t + 1, item);
                    }
                    return Err(e);
                },
            }
        }
        t += 1;
    }
    Ok(out)
}

} // verus!
