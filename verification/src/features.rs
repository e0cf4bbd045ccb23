//! What a build is asked for: the versions of the format beyond the
//! baseline, the kinds of document, and the optional outputs.

use vstd::prelude::*;

verus! {

/// The selected configuration. The baseline version is always enabled.
#[derive(Clone, Copy, Debug, PartialEq, Eq, Structural)]
pub struct Features {
    pub office2010: bool,
    pub office2013: bool,
    pub office2016: bool,
    pub office2019: bool,
    pub office2021: bool,
    pub microsoft365: bool,
    pub docx: bool,
    pub xlsx: bool,
    pub pptx: bool,
    pub parts: bool,
    pub validators: bool,
}

/// Whether the members that carry a version tag are part of the build:
/// the baseline and the empty tag always are, an upgrade tag is if it is
/// selected, an unknown tag never is.
pub open spec fn version_enabled(version: Seq<char>, f: Features) -> bool {
    if version == "Microsoft365"@ {
        f.microsoft365
    } else if version == "Office2021"@ {
        f.office2021
    } else if version == "Office2019"@ {
        f.office2019
    } else if version == "Office2016"@ {
        f.office2016
    } else if version == "Office2013"@ {
        f.office2013
    } else if version == "Office2010"@ {
        f.office2010
    } else if version == "Office2007"@ {
        true
    } else {
        version.len() == 0
    }
}

pub fn check_office_version(version: &str, features: &Features) -> (r: bool)
    ensures
        r == version_enabled(version@, *features),
{
    if version.eq("Microsoft365") {
        features.microsoft365
    } else if version.eq("Office2021") {
        features.office2021
    } else if version.eq("Office2019") {
        features.office2019
    } else if version.eq("Office2016") {
        features.office2016
    } else if version.eq("Office2013") {
        features.office2013
    } else if version.eq("Office2010") {
        features.office2010
    } else if version.eq("Office2007") {
        true
    } else {
        version.is_empty()
    }
}

impl Features {
    /// Only the baseline version, no document kind, no optional output.
    pub fn baseline() -> (r: Self)
        ensures
            r == (Features {
                office2010: false,
                office2013: false,
                office2016: false,
                office2019: false,
                office2021: false,
                microsoft365: false,
                docx: false,
                xlsx: false,
                pptx: false,
                parts: false,
                validators: false,
            }),
    {
        Features {
            office2010: false,
            office2013: false,
            office2016: false,
            office2019: false,
            office2021: false,
            microsoft365: false,
            docx: false,
            xlsx: false,
            pptx: false,
            parts: false,
            validators: false,
        }
    }

    pub open spec fn spec_full() -> Self {
        Features {
            office2010: true,
            office2013: true,
            office2016: true,
            office2019: true,
            office2021: true,
            microsoft365: true,
            docx: true,
            xlsx: true,
            pptx: true,
            parts: true,
            validators: true,
        }
    }

    /// Every version, every document kind and every optional output.
    pub fn full() -> (r: Self)
        ensures
            r == Self::spec_full(),
    {
        Features {
            office2010: true,
            office2013: true,
            office2016: true,
            office2019: true,
            office2021: true,
            microsoft365: true,
            docx: true,
            xlsx: true,
            pptx: true,
            parts: true,
            validators: true,
        }
    }
}

/// Enabling more never disables a version.
pub proof fn lemma_version_enabled_monotone(version: Seq<char>, f: Features, g: Features)
    requires
        f.office2010 ==> g.office2010,
        f.office2013 ==> g.office2013,
        f.office2016 ==> g.office2016,
        f.office2019 ==> g.office2019,
        f.office2021 ==> g.office2021,
        f.microsoft365 ==> g.microsoft365,
    ensures
        version_enabled(version, f) ==> version_enabled(version, g),
{
}

} // verus!
