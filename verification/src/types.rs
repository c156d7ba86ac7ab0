//! Road and building classifications read from OpenStreetMap tags.
use vstd::prelude::*;
use crate::text::{chars_of, text_is};

verus! {

/// The `highway=*` classes that the pipeline turns into drivable roads.
#[derive(Debug, Clone, Copy, PartialEq, Eq, Structural)]
pub enum HighwayClass {
    Motorway,
    MotorwayLink,
    Trunk,
    TrunkLink,
    Primary,
    PrimaryLink,
    Secondary,
    SecondaryLink,
    Tertiary,
    TertiaryLink,
    Residential,
    Service,
    Unclassified,
}

/// The class named by the OpenStreetMap value `s`, if it names one.
pub open spec fn highway_class_named(s: Seq<char>) -> Option<HighwayClass> {
    if s == "motorway"@ {
        Some(HighwayClass::Motorway)
    } else if s == "motorway_link"@ {
        Some(HighwayClass::MotorwayLink)
    } else if s == "trunk"@ {
        Some(HighwayClass::Trunk)
    } else if s == "trunk_link"@ {
        Some(HighwayClass::TrunkLink)
    } else if s == "primary"@ {
        Some(HighwayClass::Primary)
    } else if s == "primary_link"@ {
        Some(HighwayClass::PrimaryLink)
    } else if s == "secondary"@ {
        Some(HighwayClass::Secondary)
    } else if s == "secondary_link"@ {
        Some(HighwayClass::SecondaryLink)
    } else if s == "tertiary"@ {
        Some(HighwayClass::Tertiary)
    } else if s == "tertiary_link"@ {
        Some(HighwayClass::TertiaryLink)
    } else if s == "residential"@ {
        Some(HighwayClass::Residential)
    } else if s == "service"@ {
        Some(HighwayClass::Service)
    } else if s == "unclassified"@ {
        Some(HighwayClass::Unclassified)
    } else {
        None
    }
}

/// Whether a class is a link (ramp) between roads of its kind.
pub open spec fn is_link_class(c: HighwayClass) -> bool {
    c is MotorwayLink || c is TrunkLink || c is PrimaryLink || c is SecondaryLink || c is TertiaryLink
}

/// The OpenStreetMap value that names class `c`.
pub open spec fn highway_tag(c: HighwayClass) -> Seq<char> {
    match c {
        HighwayClass::Motorway => "motorway"@,
        HighwayClass::MotorwayLink => "motorway_link"@,
        HighwayClass::Trunk => "trunk"@,
        HighwayClass::TrunkLink => "trunk_link"@,
        HighwayClass::Primary => "primary"@,
        HighwayClass::PrimaryLink => "primary_link"@,
        HighwayClass::Secondary => "secondary"@,
        HighwayClass::SecondaryLink => "secondary_link"@,
        HighwayClass::Tertiary => "tertiary"@,
        HighwayClass::TertiaryLink => "tertiary_link"@,
        HighwayClass::Residential => "residential"@,
        HighwayClass::Service => "service"@,
        HighwayClass::Unclassified => "unclassified"@,
    }
}

/// Whether `s` ends with `suffix`.
pub open spec fn ends_with_text(s: Seq<char>, suffix: Seq<char>) -> bool {
    s.len() >= suffix.len() && s.subrange(s.len() - suffix.len(), s.len() as int) == suffix
}

proof fn lemma_link_suffix(t: Seq<char>)
    requires
        t.len() >= 5,
        t[t.len() - 5] == '_',
        t[t.len() - 4] == 'l',
        t[t.len() - 3] == 'i',
        t[t.len() - 2] == 'n',
        t[t.len() - 1] == 'k',
    ensures
        ends_with_text(t, "_link"@),
{
    reveal_strlit("_link");
    assert(t.subrange(t.len() - 5, t.len() as int) =~= "_link"@);
}

proof fn lemma_no_link_suffix(t: Seq<char>)
    requires
        t.len() < 5 || t[t.len() - 5] != '_',
    ensures
        !ends_with_text(t, "_link"@),
{
    reveal_strlit("_link");
    if t.len() >= 5 {
        assert(t.subrange(t.len() - 5, t.len() as int)[0] == t[t.len() - 5]);
    }
}

proof fn lemma_tags_revealed()
    ensures
        "motorway"@ =~= seq!['m', 'o', 't', 'o', 'r', 'w', 'a', 'y'],
        "motorway_link"@ =~= seq!['m', 'o', 't', 'o', 'r', 'w', 'a', 'y', '_', 'l', 'i', 'n', 'k'],
        "trunk"@ =~= seq!['t', 'r', 'u', 'n', 'k'],
        "trunk_link"@ =~= seq!['t', 'r', 'u', 'n', 'k', '_', 'l', 'i', 'n', 'k'],
        "primary"@ =~= seq!['p', 'r', 'i', 'm', 'a', 'r', 'y'],
        "primary_link"@ =~= seq!['p', 'r', 'i', 'm', 'a', 'r', 'y', '_', 'l', 'i', 'n', 'k'],
        "secondary"@ =~= seq!['s', 'e', 'c', 'o', 'n', 'd', 'a', 'r', 'y'],
        "secondary_link"@ =~= seq!['s', 'e', 'c', 'o', 'n', 'd', 'a', 'r', 'y', '_', 'l', 'i', 'n', 'k'],
        "tertiary"@ =~= seq!['t', 'e', 'r', 't', 'i', 'a', 'r', 'y'],
        "tertiary_link"@ =~= seq!['t', 'e', 'r', 't', 'i', 'a', 'r', 'y', '_', 'l', 'i', 'n', 'k'],
        "residential"@ =~= seq!['r', 'e', 's', 'i', 'd', 'e', 'n', 't', 'i', 'a', 'l'],
        "service"@ =~= seq!['s', 'e', 'r', 'v', 'i', 'c', 'e'],
        "unclassified"@ =~= seq!['u', 'n', 'c', 'l', 'a', 's', 's', 'i', 'f', 'i', 'e', 'd'],
{
    reveal_strlit("motorway");
    reveal_strlit("motorway_link");
    reveal_strlit("trunk");
    reveal_strlit("trunk_link");
    reveal_strlit("primary");
    reveal_strlit("primary_link");
    reveal_strlit("secondary");
    reveal_strlit("secondary_link");
    reveal_strlit("tertiary");
    reveal_strlit("tertiary_link");
    reveal_strlit("residential");
    reveal_strlit("service");
    reveal_strlit("unclassified");
}

/// Each class is named by exactly one tag value: the value that names a class is
/// its tag, and every class's tag names it. A class is a link exactly when its tag
/// ends in `_link`.
pub proof fn lemma_highway_tags(c: HighwayClass, s: Seq<char>)
    ensures
        highway_class_named(highway_tag(c)) == Some(c),
        highway_class_named(s) == Some(c) ==> s == highway_tag(c),
        is_link_class(c) <==> ends_with_text(highway_tag(c), "_link"@),
        highway_class_named(s) == Some(c) ==> (is_link_class(c) <==> ends_with_text(s, "_link"@)),
{
    lemma_tags_revealed();
    let t = highway_tag(c);
    // Tags of equal length differ in their first letter.
    assert("motorway"@[0] != "tertiary"@[0]);
    assert("motorway_link"@[0] != "tertiary_link"@[0]);
    assert("primary"@[0] != "service"@[0]);
    assert("primary_link"@[0] != "unclassified"@[0]);
    if is_link_class(c) {
        lemma_link_suffix(t);
    } else {
        lemma_no_link_suffix(t);
    }
}

impl HighwayClass {
    /// The class named by the tag value `s` (`"primary"`, `"motorway_link"`, ...).
    pub fn from_str(s: &str) -> (res: Option<Self>)
        ensures
            res == highway_class_named(s@),
    {
        let cs = chars_of(s);
        Self::from_chars(&cs)
    }

    /// The class named by the tag value spelled by `cs`.
    pub fn from_chars(cs: &Vec<char>) -> (res: Option<Self>)
        ensures
            res == highway_class_named(cs@),
    {
        if text_is(cs, "motorway") {
            Some(HighwayClass::Motorway)
        } else if text_is(cs, "motorway_link") {
            Some(HighwayClass::MotorwayLink)
        } else if text_is(cs, "trunk") {
            Some(HighwayClass::Trunk)
        } else if text_is(cs, "trunk_link") {
            Some(HighwayClass::TrunkLink)
        } else if text_is(cs, "primary") {
            Some(HighwayClass::Primary)
        } else if text_is(cs, "primary_link") {
            Some(HighwayClass::PrimaryLink)
        } else if text_is(cs, "secondary") {
            Some(HighwayClass::Secondary)
        } else if text_is(cs, "secondary_link") {
            Some(HighwayClass::SecondaryLink)
        } else if text_is(cs, "tertiary") {
            Some(HighwayClass::Tertiary)
        } else if text_is(cs, "tertiary_link") {
            Some(HighwayClass::TertiaryLink)
        } else if text_is(cs, "residential") {
            Some(HighwayClass::Residential)
        } else if text_is(cs, "service") {
            Some(HighwayClass::Service)
        } else if text_is(cs, "unclassified") {
            Some(HighwayClass::Unclassified)
        } else {
            None
        }
    }

    /// Whether this class is a link road (`*_link`).
    pub fn is_link(&self) -> (res: bool)
        ensures
            res == is_link_class(*self),
    {
        match self {
            HighwayClass::MotorwayLink | HighwayClass::TrunkLink | HighwayClass::PrimaryLink
            | HighwayClass::SecondaryLink | HighwayClass::TertiaryLink => true,
            _ => false,
        }
    }
}

/// Road surface materials, used by vehicle physics.
#[derive(Debug, Clone, Copy, PartialEq, Eq, Structural)]
pub enum SurfaceType {
    Asphalt,
    Concrete,
    PaintedLine,
    Gravel,
    Grass,
}

/// Building use classes, used to pick a height when none is tagged.
#[derive(Debug, Clone, Copy, PartialEq, Eq, Structural)]
pub enum BuildingType {
    Residential,
    Commercial,
    Industrial,
    Other,
}

} // verus!
