//! The store's addressing scheme: where each record lives, and the order in
//! which a looked-up record is probed across hierarchy levels.
use vstd::prelude::*;
use crate::similarity::{to_upper, upper_of};
use crate::text::{file_stem, sanitize_name, sanitized, stem_of};

verus! {

/// A hierarchy level: country, region, district, sub-district.
#[derive(Clone, Copy, Debug, PartialEq, Eq, Structural)]
pub enum Level {
    Adm0,
    Adm1,
    Adm2,
    Adm3,
}

/// The directory name of a level.
pub open spec fn level_dir(l: Level) -> Seq<char> {
    match l {
        Level::Adm0 => "ADM0"@,
        Level::Adm1 => "ADM1"@,
        Level::Adm2 => "ADM2"@,
        Level::Adm3 => "ADM3"@,
    }
}

/// The levels in the order in which a record is probed, widest first.
pub open spec fn cascade_level(k: int) -> Level {
    if k == 0 {
        Level::Adm0
    } else if k == 1 {
        Level::Adm1
    } else if k == 2 {
        Level::Adm2
    } else {
        Level::Adm3
    }
}

impl Level {
    /// The directory name of this level.
    pub fn dir_name(&self) -> (r: String)
        ensures
            r@ == level_dir(*self),
    {
        proof {
            reveal_strlit("ADM0");
            reveal_strlit("ADM1");
            reveal_strlit("ADM2");
            reveal_strlit("ADM3");
        }
        match self {
            Level::Adm0 => String::from_str("ADM0"),
            Level::Adm1 => String::from_str("ADM1"),
            Level::Adm2 => String::from_str("ADM2"),
            Level::Adm3 => String::from_str("ADM3"),
        }
    }
}

/// The value that stands for a missing group or name.
pub open spec fn key_or_unknown(v: Option<Seq<char>>) -> Seq<char> {
    match v {
        Some(s) => s,
        None => "unknown"@,
    }
}

/// A group or name read from a feature, or `unknown` where it is missing.
pub fn shape_field(v: Option<String>) -> (r: String)
    ensures
        r@ == key_or_unknown(
            match v {
                Some(s) => Some(s@),
                None => None,
            },
        ),
{
    match v {
        Some(s) => s,
        None => String::from_str("unknown"),
    }
}

/// Where the record of the entity `name` of `group` lives, relative to the
/// store's root: a country as `ADM0/{group} - {name}.geojson`, any other entity
/// as `{level}/{group}/{name}.geojson` with its name sanitized.
pub open spec fn location_of(l: Level, group: Seq<char>, name: Seq<char>) -> Seq<char> {
    if l == Level::Adm0 {
        level_dir(l) + "/"@ + group + " - "@ + name + ".geojson"@
    } else {
        level_dir(l) + "/"@ + group + "/"@ + sanitized(name) + ".geojson"@
    }
}

/// The location of the record of the entity `name` of `group` at level `l`.
pub fn record_location(l: Level, group: &str, name: &str) -> (r: String)
    ensures
        r@ == location_of(l, group@, name@),
{
    proof {
        reveal_strlit("/");
        reveal_strlit(" - ");
        reveal_strlit(".geojson");
    }
    let mut out = l.dir_name();
    out.append("/");
    out.append(group);
    if l == Level::Adm0 {
        out.append(" - ");
        out.append(name);
    } else {
        out.append("/");
        let clean = sanitize_name(name);
        out.append(clean.as_str());
    }
    out.append(".geojson");
    out
}

/// Where the cascade probes at level `l` for `candidate` under `group`, whose
/// upper-case form is `group_up`: with no candidate, the file named by the
/// group itself at that level (a country's file name, as it is stored); else
/// the candidate's file in the directory of the upper-case group.
pub open spec fn probe_location(
    l: Level,
    group: Seq<char>,
    group_up: Seq<char>,
    candidate: Seq<char>,
) -> Seq<char> {
    if candidate.len() == 0 {
        level_dir(l) + "/"@ + file_stem(group) + ".geojson"@
    } else {
        level_dir(l) + "/"@ + group_up + "/"@ + file_stem(candidate) + ".geojson"@
    }
}

/// The locations probed for `candidate` of `group`, one per level, widest first.
pub fn cascade_locations(group: &str, candidate: &str) -> (r: Vec<String>)
    ensures
        r@.len() == 4,
        forall|k: int|
            0 <= k < 4 ==> (#[trigger] r@[k])@ == probe_location(
                cascade_level(k),
                group@,
                upper_of(group@),
                candidate@,
            ),
{
    proof {
        reveal_strlit("/");
        reveal_strlit(".geojson");
    }
    let group_up = to_upper(group);
    let levels = [Level::Adm0, Level::Adm1, Level::Adm2, Level::Adm3];
    let mut out: Vec<String> = Vec::new();
    let mut k: usize = 0;
    while k < 4
        invariant
            k <= 4,
            out@.len() == k,
            group_up@ == upper_of(group@),
            forall|j: int| 0 <= j < 4 ==> #[trigger] levels@[j] == cascade_level(j),
            forall|j: int|
                0 <= j < k ==> (#[trigger] out@[j])@ == probe_location(
                    cascade_level(j),
                    group@,
                    group_up@,
                    candidate@,
                ),
        decreases 4 - k,
    {
        let mut loc = levels[k].dir_name();
        loc.append("/");
        if candidate.unicode_len() == 0 {
            let stem = stem_of(group);
            loc.append(stem.as_str());
        } else {
            loc.append(group_up.as_str());
            loc.append("/");
            let stem = stem_of(candidate);
            loc.append(stem.as_str());
        }
        loc.append(".geojson");
        out.push(loc);
        k = k + 1;
    }
    out
}

} // verus!
