//! The part model: for each part what it holds and which parts it
//! contains.

use crate::context::GenContext;
use crate::models::{Occurrence, OpenXmlPart};
use crate::open_xml_schema::ref_of;
use crate::sequence::{lemma_try_build_stops, try_build};
use crate::symbols::{part_names, TypeRef};
use crate::tables::last_index;
use crate::utils::{missing, BuildError, BuildErrorView};
use vstd::prelude::*;

verus! {

/// What a part holds.
#[derive(Clone, Copy, Debug, PartialEq, Eq, Structural)]
pub enum PartContent {
    /// Nothing of its own.
    Nothing,
    /// A text that is kept as it is.
    Text,
    /// Bytes that are kept as they are.
    Bytes,
    /// The core properties of the package.
    CoreProperties,
    /// A root element of the type at the given place.
    RootElement(TypeRef),
}

/// One field of a part that holds contained parts: the reference to the
/// child, the part that it names, and how often it occurs.
#[derive(Clone, Copy, Debug, PartialEq, Eq, Structural)]
pub struct PartChildField {
    pub child: usize,
    pub part: usize,
    pub occurrence: Occurrence,
}

/// The model of a part.
#[derive(Debug)]
pub struct PartModel {
    /// Whether the part is the package itself: the package has the
    /// content-type registry, any other part the identifier of the
    /// relationship that leads to it.
    pub is_package: bool,
    /// Whether the part can have relationships: it has if it can contain
    /// parts.
    pub has_relationships: bool,
    pub content: PartContent,
    /// For each reference to a child the field that holds it, or nothing
    /// for a reference to a data part.
    pub children: Vec<Option<PartChildField>>,
}

/// The mathematical value of the model of a part.
pub struct PartModelView {
    pub is_package: bool,
    pub has_relationships: bool,
    pub content: PartContent,
    pub children: Seq<Option<PartChildField>>,
}

impl View for PartModel {
    type V = PartModelView;

    open spec fn view(&self) -> PartModelView {
        PartModelView {
            is_package: self.is_package,
            has_relationships: self.has_relationships,
            content: self.content,
            children: self.children@,
        }
    }
}

impl GenContext {
    /// The part that a name stands for: the last part of that name.
    pub open spec fn part_named(&self, name: Seq<char>) -> Option<int> {
        last_index(part_names(self.parts@), name)
    }

    /// Looks a part up by its name.
    pub fn find_part(&self, name: &str) -> (r: Option<usize>)
        ensures
            match r {
                Some(i) => self.part_named(name@) == Some(i as int) && i < self.parts@.len(),
                None => self.part_named(name@) is None,
            },
    {
        let ghost all = part_names(self.parts@);
        let mut i: usize = self.parts.len();
        assert(all.take(i as int) =~= all);
        while i > 0
            invariant
                i <= self.parts@.len(),
                all == part_names(self.parts@),
                last_index(all, name@) == last_index(all.take(i as int), name@),
            decreases i,
        {
            i -= 1;
            assert(all.take(i + 1).drop_last() =~= all.take(i as int));
            if self.parts[i].name.as_str().eq(name) {
                return Some(i);
            }
        }
        assert(all.take(0).len() == 0);
        None
    }

    /// What a part holds. Four parts are known by their names: two hold a
    /// text, two hold bytes; so does any part that has a file extension.
    /// The part of the core properties holds them. Any other part holds
    /// the root element that it is bound to, if it is bound to one; the
    /// type of the element must be there, else the error carries its name.
    pub open spec fn part_content(&self, part: OpenXmlPart) -> Result<PartContent, BuildErrorView> {
        if part.name@ == "CustomXmlPart"@ || part.name@ == "XmlSignaturePart"@ {
            Ok(PartContent::Text)
        } else if part.name@ == "CustomDataPart"@ || part.name@ == "InternationalMacroSheetPart"@
            || part.extension@.len() > 0 {
            Ok(PartContent::Bytes)
        } else if part.name@ == "CoreFilePropertiesPart"@ {
            Ok(PartContent::CoreProperties)
        } else {
            match self.root_type_of_part(part.name@) {
                None => Ok(PartContent::Nothing),
                Some(name) => match self.type_named(name) {
                    Some(at) => Ok(PartContent::RootElement(ref_of(at))),
                    None => Err(BuildErrorView::HashMapExpectedSomeError(name)),
                },
            }
        }
    }

    /// The field of the reference to a child at `c`: a reference to a data
    /// part has none; the part that any other reference names must be
    /// there, else the error carries its name.
    pub open spec fn part_child_field(&self, part: OpenXmlPart, c: int) -> Result<
        Option<PartChildField>,
        BuildErrorView,
    > {
        let child = part.children@[c];
        if child.is_data_part_reference {
            Ok(None)
        } else {
            match self.part_named(child.name@) {
                Some(p) => Ok(
                    Some(
                        PartChildField {
                            child: c as usize,
                            part: p as usize,
                            occurrence: child.spec_as_occurrence(),
                        },
                    ),
                ),
                None => Err(BuildErrorView::HashMapExpectedSomeError(child.name@)),
            }
        }
    }

    pub open spec fn part_child_fielder(&self, part: OpenXmlPart) -> spec_fn(int) -> Result<
        Option<PartChildField>,
        BuildErrorView,
    > {
        |c: int| self.part_child_field(part, c)
    }

    /// The model of a part.
    pub open spec fn part_model(&self, part: OpenXmlPart) -> Result<PartModelView, BuildErrorView> {
        match self.part_content(part) {
            Err(e) => Err(e),
            Ok(content) => match try_build(
                part.children@.len() as int,
                self.part_child_fielder(part),
            ) {
                Err(e) => Err(e),
                Ok(children) => Ok(
                    PartModelView {
                        is_package: part.base@ == "OpenXmlPackage"@,
                        has_relationships: part.children@.len() > 0,
                        content,
                        children,
                    },
                ),
            },
        }
    }

    /// What a part holds.
    pub fn gen_struct_fn(&self, part: &OpenXmlPart) -> (r: Result<PartContent, BuildError>)
        ensures
            match r {
                Ok(c) => self.part_content(*part) == Ok::<PartContent, BuildErrorView>(c),
                Err(e) => self.part_content(*part) == Err::<PartContent, BuildErrorView>(e@),
            },
            r matches Ok(PartContent::RootElement(at)) ==> at.schema < self.schemas@.len()
                && at.index < self.schemas@[at.schema as int].types@.len(),
    {
        let name = part.name.as_str();
        if name.eq("CustomXmlPart") || name.eq("XmlSignaturePart") {
            Ok(PartContent::Text)
        } else if name.eq("CustomDataPart") || name.eq("InternationalMacroSheetPart")
            || !part.extension.as_str().is_empty() {
            Ok(PartContent::Bytes)
        } else if name.eq("CoreFilePropertiesPart") {
            Ok(PartContent::CoreProperties)
        } else {
            match self.find_root_type_of_part(name) {
                None => Ok(PartContent::Nothing),
                Some(root) => match self.try_get_type(root.as_str()) {
                    Ok(at) => Ok(PartContent::RootElement(at)),
                    Err(e) => Err(e),
                },
            }
        }
    }
}

/// The model of a part.
pub fn gen_open_xml_parts(part: &OpenXmlPart, gen_context: &GenContext) -> (r: Result<
    PartModel,
    BuildError,
>)
    ensures
        match r {
            Ok(m) => gen_context.part_model(*part) == Ok::<PartModelView, BuildErrorView>(m@),
            Err(e) => gen_context.part_model(*part) == Err::<PartModelView, BuildErrorView>(e@),
        },
{
    let content = match gen_context.gen_struct_fn(part) {
        Ok(c) => c,
        Err(e) => {
            return Err(e);
        },
    };
    let ghost item = gen_context.part_child_fielder(*part);
    let ghost n = part.children@.len() as int;
    let mut children: Vec<Option<PartChildField>> = Vec::new();
    let mut c: usize = 0;
    while c < part.children.len()
        invariant
            c <= part.children@.len(),
            n == part.children@.len(),
            item == gen_context.part_child_fielder(*part),
            gen_context.part_content(*part) == Ok::<PartContent, BuildErrorView>(content),
            try_build(c as int, item) == Ok::<Seq<Option<PartChildField>>, BuildErrorView>(
                children@,
            ),
        decreases part.children@.len() - c,
    {
        let child = &part.children[c];
        if child.is_data_part_reference {
            children.push(None);
        } else {
            match gen_context.find_part(child.name.as_str()) {
                Some(p) => {
                    children.push(
                        Some(PartChildField { child: c, part: p, occurrence: child.as_occurrence() }),
                    );
                },
                None => {
                    proof {
                        assert(try_build(c + 1, item) is Err);
                        lemma_try_build_stops(n, c + 1, item);
                    }
                    return Err(missing(child.name.as_str()));
                },
            }
        }
        c += 1;
    }
    Ok(
        PartModel {
            is_package: part.base.as_str().eq("OpenXmlPackage"),
            has_relationships: part.children.len() > 0,
            content,
            children,
        },
    )
}

} // verus!
