//! The namespace declarations that a root element carries: the default
//! namespace, the prefixed namespaces and the list of ignorable prefixes.

use crate::common::{
    as_escaped_xml_attribute, attribute_value, from_utf8_lossy, key_is, lemma_try_fold_next,
    lemma_try_fold_stops, read_attribute_value, try_fold, utf8_lossy, xml_attribute, xml_escaped,
    SdkError, SdkErrorView, XmlAttribute,
};
use crate::text::{bytes_from, bytes_start_with, concat};
use vstd::prelude::*;
use vstd::string::StringExecFns;
use vstd::utf8::encode_utf8;

verus! {

/// The namespace declarations read from an opening tag. The prefixed
/// namespaces are kept in the order in which their prefixes first occur;
/// a prefix that occurs again replaces its earlier value.
#[derive(Debug, Default)]
pub struct XmlnsFields {
    pub xmlns: Option<String>,
    pub xmlns_map: Vec<(String, String)>,
    pub mc_ignorable: Option<String>,
}

/// The mathematical value of [`XmlnsFields`].
pub struct XmlnsView {
    pub xmlns: Option<Seq<char>>,
    pub xmlns_map: Seq<(Seq<char>, Seq<char>)>,
    pub mc_ignorable: Option<Seq<char>>,
}

pub open spec fn opt_view(s: Option<String>) -> Option<Seq<char>> {
    match s {
        Some(x) => Some(x@),
        None => None,
    }
}

pub open spec fn pairs_view(m: Seq<(String, String)>) -> Seq<(Seq<char>, Seq<char>)> {
    m.map_values(|p: (String, String)| (p.0@, p.1@))
}

impl View for XmlnsFields {
    type V = XmlnsView;

    open spec fn view(&self) -> XmlnsView {
        XmlnsView {
            xmlns: opt_view(self.xmlns),
            xmlns_map: pairs_view(self.xmlns_map@),
            mc_ignorable: opt_view(self.mc_ignorable),
        }
    }
}

/// No declaration at all.
pub open spec fn no_xmlns() -> XmlnsView {
    XmlnsView { xmlns: None, xmlns_map: Seq::empty(), mc_ignorable: None }
}

/// The position of the first entry of a map that has the given key.
pub open spec fn map_index(m: Seq<(Seq<char>, Seq<char>)>, key: Seq<char>) -> Option<int>
    decreases m.len(),
{
    if m.len() == 0 {
        None
    } else {
        match map_index(m.drop_last(), key) {
            Some(i) => Some(i),
            None => if m.last().0 == key {
                Some(m.len() - 1)
            } else {
                None
            },
        }
    }
}

/// A map with one entry set: the entry of the key is replaced if there is
/// one, else the entry is added at the end.
pub open spec fn map_insert(m: Seq<(Seq<char>, Seq<char>)>, key: Seq<char>, value: Seq<char>)
    -> Seq<(Seq<char>, Seq<char>)> {
    match map_index(m, key) {
        Some(i) => m.update(i, (key, value)),
        None => m.push((key, value)),
    }
}

pub proof fn lemma_map_index(m: Seq<(Seq<char>, Seq<char>)>, key: Seq<char>)
    ensures
        match map_index(m, key) {
            Some(i) => 0 <= i < m.len() && m[i].0 == key && forall|j: int|
                0 <= j < i ==> m[j].0 != key,
            None => forall|j: int| 0 <= j < m.len() ==> m[j].0 != key,
        },
    decreases m.len(),
{
    if m.len() > 0 {
        let rest = m.drop_last();
        lemma_map_index(rest, key);
        assert(forall|j: int| 0 <= j < rest.len() ==> rest[j] == m[j]);
    }
}

/// The bytes `xmlns:` that start the key of a prefixed namespace.
pub open spec fn xmlns_prefix() -> Seq<u8> {
    encode_utf8("xmlns:"@)
}

/// One attribute of a root element's tag: a malformed attribute stops the
/// reading; `xmlns`, `mc:Ignorable` and the keys that begin with `xmlns:`
/// are kept; any other key is passed over.
pub open spec fn xmlns_step(st: XmlnsView, item: Result<XmlAttribute, String>) -> Result<
    XmlnsView,
    SdkErrorView,
> {
    match item {
        Err(m) => Err(SdkErrorView::AttrError(m@)),
        Ok(a) => if a.key@ == encode_utf8("xmlns"@) {
            match attribute_value(a) {
                Err(e) => Err(e),
                Ok(v) => Ok(XmlnsView { xmlns: Some(v), ..st }),
            }
        } else if a.key@ == encode_utf8("mc:Ignorable"@) {
            match attribute_value(a) {
                Err(e) => Err(e),
                Ok(v) => Ok(XmlnsView { mc_ignorable: Some(v), ..st }),
            }
        } else if xmlns_prefix().is_prefix_of(a.key@) {
            match attribute_value(a) {
                Err(e) => Err(e),
                Ok(v) => Ok(
                    XmlnsView {
                        xmlns_map: map_insert(
                            st.xmlns_map,
                            utf8_lossy(a.key@.skip(xmlns_prefix().len() as int)),
                            v,
                        ),
                        ..st
                    },
                ),
            }
        } else {
            Ok(st)
        },
    }
}

pub open spec fn xmlns_stepper() -> spec_fn(XmlnsView, Result<XmlAttribute, String>) -> Result<
    XmlnsView,
    SdkErrorView,
> {
    |st: XmlnsView, item: Result<XmlAttribute, String>| xmlns_step(st, item)
}

/// The namespace declarations among a list of attributes.
pub open spec fn xmlns_attributes(items: Seq<Result<XmlAttribute, String>>) -> Result<
    XmlnsView,
    SdkErrorView,
> {
    try_fold(items, no_xmlns(), xmlns_stepper())
}

/// Sets one entry of a map of prefixed namespaces.
pub fn insert_namespace(map: &mut Vec<(String, String)>, key: String, value: String)
    ensures
        pairs_view(final(map)@) == map_insert(pairs_view(old(map)@), key@, value@),
{
    let ghost m0 = pairs_view(map@);
    proof {
        lemma_map_index(m0, key@);
    }
    let mut i: usize = 0;
    while i < map.len()
        invariant
            i <= map@.len(),
            map@ == old(map)@,
            m0 == pairs_view(map@),
            forall|j: int| 0 <= j < i ==> m0[j].0 != key@,
        decreases map@.len() - i,
    {
        if map[i].0.as_str().eq(key.as_str()) {
            proof {
                lemma_map_index(m0, key@);
                assert(m0[i as int].0 == key@);
            }
            map.set(i, (key, value));
            assert(pairs_view(map@) =~= m0.update(i as int, (key@, value@)));
            return ;
        }
        i += 1;
    }
    proof {
        lemma_map_index(m0, key@);
    }
    map.push((key, value));
    assert(pairs_view(map@) =~= m0.push((key@, value@)));
}

/// Reads the namespace declarations of an opening tag.
pub fn read_xmlns_attributes(items: &Vec<Result<XmlAttribute, String>>) -> (r: Result<
    XmlnsFields,
    SdkError,
>)
    ensures
        match r {
            Ok(v) => xmlns_attributes(items@) == Ok::<XmlnsView, SdkErrorView>(v@),
            Err(e) => xmlns_attributes(items@) == Err::<XmlnsView, SdkErrorView>(e@),
        },
{
    let mut fields = XmlnsFields { xmlns: None, xmlns_map: Vec::new(), mc_ignorable: None };
    let mut i: usize = 0;
    assert(items@.take(0) =~= Seq::empty());
    assert(fields@.xmlns_map =~= Seq::empty());
    while i < items.len()
        invariant
            i <= items@.len(),
            try_fold(items@.take(i as int), no_xmlns(), xmlns_stepper()) == Ok::<
                XmlnsView,
                SdkErrorView,
            >(fields@),
        decreases items@.len() - i,
    {
        proof {
            lemma_try_fold_next(items@, i as int, no_xmlns(), xmlns_stepper());
        }
        let ghost before = fields@;
        let step: Result<(), SdkError> = match &items[i] {
            Err(m) => Err(SdkError::AttrError(m.clone())),
            Ok(a) => {
                let prefix = "xmlns:".as_bytes();
                if key_is(a, "xmlns") {
                    match read_attribute_value(a) {
                        Err(e) => Err(e),
                        Ok(v) => {
                            fields.xmlns = Some(v);
                            Ok(())
                        },
                    }
                } else if key_is(a, "mc:Ignorable") {
                    match read_attribute_value(a) {
                        Err(e) => Err(e),
                        Ok(v) => {
                            fields.mc_ignorable = Some(v);
                            Ok(())
                        },
                    }
                } else if bytes_start_with(a.key.as_slice(), prefix) {
                    match read_attribute_value(a) {
                        Err(e) => Err(e),
                        Ok(v) => {
                            let rest = bytes_from(a.key.as_slice(), prefix.len());
                            let key = from_utf8_lossy(rest.as_slice());
                            insert_namespace(&mut fields.xmlns_map, key, v);
                            Ok(())
                        },
                    }
                } else {
                    Ok(())
                }
            },
        };
        match step {
            Err(e) => {
                proof {
                    assert(xmlns_step(before, items@[i as int]) == Err::<XmlnsView, SdkErrorView>(
                        e@,
                    ));
                    lemma_try_fold_stops(items@, i + 1, no_xmlns(), xmlns_stepper());
                }
                return Err(e);
            },
            Ok(_) => {},
        }
        i += 1;
    }
    assert(items@.take(i as int) =~= items@);
    Ok(fields)
}

/// The prefixed namespaces as they are written, one attribute for each.
pub open spec fn namespaces_text(m: Seq<(Seq<char>, Seq<char>)>) -> Seq<char>
    decreases m.len(),
{
    if m.len() == 0 {
        Seq::empty()
    } else {
        namespaces_text(m.drop_last()) + xml_attribute(
            "xmlns:"@ + m.last().0,
            xml_escaped(m.last().1),
        )
    }
}

/// The namespace declarations as they are written: the default namespace
/// where it is asked for, the prefixed namespaces, the ignorable prefixes.
pub open spec fn xmlns_text(v: XmlnsView, needs_xmlns: bool) -> Seq<char> {
    (if needs_xmlns && v.xmlns is Some {
        xml_attribute("xmlns"@, xml_escaped(v.xmlns->Some_0))
    } else {
        Seq::empty()
    }) + namespaces_text(v.xmlns_map) + (match v.mc_ignorable {
        Some(x) => xml_attribute("mc:Ignorable"@, xml_escaped(x)),
        None => Seq::empty(),
    })
}

/// Writes the namespace declarations of a root element.
pub fn write_xmlns_attributes(
    xmlns: &Option<String>,
    xmlns_map: &Vec<(String, String)>,
    mc_ignorable: &Option<String>,
    needs_xmlns: bool,
) -> (r: String)
    ensures
        r@ == xmlns_text(
            XmlnsView {
                xmlns: opt_view(*xmlns),
                xmlns_map: pairs_view(xmlns_map@),
                mc_ignorable: opt_view(*mc_ignorable),
            },
            needs_xmlns,
        ),
{
    let mut r = String::new();
    if needs_xmlns {
        if let Some(x) = xmlns {
            let a = as_escaped_xml_attribute("xmlns", x.as_str());
            r.append(a.as_str());
        }
    }
    let ghost head = r@;
    let ghost m = pairs_view(xmlns_map@);
    let mut i: usize = 0;
    assert(m.take(0) =~= Seq::empty());
    while i < xmlns_map.len()
        invariant
            i <= xmlns_map@.len(),
            m == pairs_view(xmlns_map@),
            r@ == head + namespaces_text(m.take(i as int)),
        decreases xmlns_map@.len() - i,
    {
        let key = concat("xmlns:", xmlns_map[i].0.as_str());
        let a = as_escaped_xml_attribute(key.as_str(), xmlns_map[i].1.as_str());
        r.append(a.as_str());
        proof {
            assert(m.take(i + 1).drop_last() =~= m.take(i as int));
            assert(m.take(i + 1).last() == m[i as int]);
            assert(r@ =~= head + namespaces_text(m.take(i + 1)));
        }
        i += 1;
    }
    assert(m.take(i as int) =~= m);
    if let Some(x) = mc_ignorable {
        let a = as_escaped_xml_attribute("mc:Ignorable", x.as_str());
        r.append(a.as_str());
    }
    assert(r@ =~= xmlns_text(
        XmlnsView {
            xmlns: opt_view(*xmlns),
            xmlns_map: pairs_view(xmlns_map@),
            mc_ignorable: opt_view(*mc_ignorable),
        },
        needs_xmlns,
    ));
    r
}

} // verus!
