//! Sharding of a multi-feature GeoJSON dataset into one record per feature,
//! each with its location in the store.
use vstd::prelude::*;
use crate::record::optional_texts;
use crate::resolve::texts;
use crate::store::{key_or_unknown, location_of, record_location, shape_field, Level};

verus! {

/// What sharding reads of one feature: its `shapeGroup` and `shapeName`
/// properties where they are strings, and the whole feature written as JSON.
pub struct FeatureFields {
    pub group: Option<String>,
    pub name: Option<String>,
    pub json: String,
}

/// The fields of some features, as plain texts.
pub open spec fn fields_view(v: Seq<FeatureFields>) -> Seq<(Option<Seq<char>>, Option<Seq<char>>, Seq<char>)> {
    v.map_values(
        |f: FeatureFields|
            (
                match f.group {
                    Some(g) => Some(g@),
                    None => None,
                },
                match f.name {
                    Some(n) => Some(n@),
                    None => None,
                },
                f.json@,
            ),
    )
}

/// The fields of a feature collection, or `None` for another kind of document.
pub open spec fn optional_fields(o: Option<Vec<FeatureFields>>) -> Option<
    Seq<(Option<Seq<char>>, Option<Seq<char>>, Seq<char>)>,
> {
    match o {
        Some(v) => Some(fields_view(v@)),
        None => None,
    }
}

/// The text is a well-formed GeoJSON document.
pub uninterp spec fn geojson_parses(s: Seq<char>) -> bool;

/// For a GeoJSON text that is a feature collection, each feature's string
/// properties `group_key` and `name_key` and its JSON form, in order; `None`
/// for any other GeoJSON document.
pub uninterp spec fn collection_fields(s: Seq<char>, group_key: Seq<char>, name_key: Seq<char>) -> Option<
    Seq<(Option<Seq<char>>, Option<Seq<char>>, Seq<char>)>,
>;

/// Relies on `serde_json::from_str` into a `geojson::GeoJson` (whether it
/// succeeds depends on the text alone), on `geojson::Feature::property` with
/// `serde_json::Value::as_str` for the two given properties, and on
/// `serde_json::to_string` of a feature, which writes only JSON values and so
/// does not fail.
#[verifier::external_body]
fn read_collection(text: &str, group_key: &str, name_key: &str) -> (r: Result<
    Option<Vec<FeatureFields>>,
    serde_json::Error,
>)
    ensures
        r.is_ok() == geojson_parses(text@),
        r.is_ok() ==> optional_fields(r->Ok_0) == collection_fields(text@, group_key@, name_key@),
{
    let text_of = |f: &geojson::Feature, k: &str| f.property(k).and_then(serde_json::Value::as_str).map(String::from);
    match serde_json::from_str::<geojson::GeoJson>(text)? {
        geojson::GeoJson::FeatureCollection(fc) => fc.features.iter().map(|f| Ok(FeatureFields {
            group: text_of(f, group_key),
            name: text_of(f, name_key),
            json: serde_json::to_string(f)?,
        })).collect::<Result<Vec<_>, _>>().map(Some),
        _ => Ok(None),
    }
}

/// One record of the store: where it lives, and its content.
#[derive(Debug)]
pub struct ShardRecord {
    pub location: String,
    pub content: String,
}

/// Why a dataset could not be sharded.
#[derive(Debug)]
pub enum ExtractError {
    /// The dataset is not well-formed GeoJSON.
    Parse(serde_json::Error),
}

/// The locations of features whose groups are `gs` and names `ns`, in order.
pub open spec fn planned_locations(
    l: Level,
    gs: Seq<Option<Seq<char>>>,
    ns: Seq<Option<Seq<char>>>,
) -> Seq<Seq<char>> {
    Seq::new(gs.len(), |i: int| location_of(l, key_or_unknown(gs[i]), key_or_unknown(ns[i])))
}

/// Record `i` of `v` is feature `i` of `fs`: at the location of its group and
/// name (`unknown` for a missing one), holding its JSON form; one record per feature.
pub open spec fn records_match(
    l: Level,
    v: Seq<ShardRecord>,
    fs: Seq<(Option<Seq<char>>, Option<Seq<char>>, Seq<char>)>,
) -> bool {
    &&& v.len() == fs.len()
    &&& forall|i: int|
        0 <= i < v.len() ==> (#[trigger] v[i]).location@ == location_of(
            l,
            key_or_unknown(fs[i].0),
            key_or_unknown(fs[i].1),
        ) && v[i].content@ == fs[i].2
}

/// What sharding the GeoJSON text `text` at level `l` gives: one record per
/// feature of a feature collection, keyed by its `shapeGroup` and `shapeName`
/// properties, and none for another kind of document.
pub open spec fn sharded(l: Level, text: Seq<char>, v: Seq<ShardRecord>) -> bool {
    match collection_fields(text, "shapeGroup"@, "shapeName"@) {
        Some(fs) => records_match(l, v, fs),
        None => v.len() == 0,
    }
}

/// The location of each feature at level `l`, from its group and name
/// (`unknown` for a missing one): one location per feature, in order.
pub fn plan_locations(l: Level, groups: &Vec<Option<String>>, names: &Vec<Option<String>>) -> (r:
    Vec<String>)
    requires
        groups@.len() == names@.len(),
    ensures
        texts(r@) == planned_locations(l, optional_texts(groups@), optional_texts(names@)),
{
    let ghost want = planned_locations(l, optional_texts(groups@), optional_texts(names@));
    let n = groups.len();
    let mut out: Vec<String> = Vec::new();
    let mut i: usize = 0;
    while i < n
        invariant
            n == groups@.len(),
            n == names@.len(),
            want == planned_locations(l, optional_texts(groups@), optional_texts(names@)),
            i <= n,
            out@.len() == i,
            texts(out@) == want.take(i as int),
        decreases n - i,
    {
        let group = shape_field(groups[i].clone());
        let name = shape_field(names[i].clone());
        assert(group@ == key_or_unknown(optional_texts(groups@)[i as int]));
        assert(name@ == key_or_unknown(optional_texts(names@)[i as int]));
        let loc = record_location(l, group.as_str(), name.as_str());
        let ghost prev = out@;
        out.push(loc);
        assert(texts(out@).take(i as int) =~= texts(prev));
        assert(texts(out@) =~= want.take(i + 1));
        i = i + 1;
    }
    assert(texts(out@) =~= want);
    out
}

/// One record per feature at level `l`, in order: at the location of its
/// group and name, holding its JSON form.
pub fn shard_fields(l: Level, fields: &Vec<FeatureFields>) -> (r: Vec<ShardRecord>)
    ensures
        records_match(l, r@, fields_view(fields@)),
{
    let ghost fs = fields_view(fields@);
    let n = fields.len();
    let mut groups: Vec<Option<String>> = Vec::new();
    let mut names: Vec<Option<String>> = Vec::new();
    let mut i: usize = 0;
    while i < n
        invariant
            n == fields@.len(),
            fs == fields_view(fields@),
            i <= n,
            groups@.len() == i,
            names@.len() == i,
            forall|j: int| 0 <= j < i ==> #[trigger] optional_texts(groups@)[j] == fs[j].0,
            forall|j: int| 0 <= j < i ==> #[trigger] optional_texts(names@)[j] == fs[j].1,
        decreases n - i,
    {
        let f = &fields[i];
        let ghost (pg, pn) = (groups@, names@);
        groups.push(f.group.clone());
        names.push(f.name.clone());
        assert forall|j: int| 0 <= j < i implies #[trigger] optional_texts(groups@)[j] == fs[j].0 by {
            assert(groups@[j] == pg[j]);
            assert(optional_texts(pg)[j] == fs[j].0);
        }
        assert forall|j: int| 0 <= j < i implies #[trigger] optional_texts(names@)[j] == fs[j].1 by {
            assert(names@[j] == pn[j]);
            assert(optional_texts(pn)[j] == fs[j].1);
        }
        assert(optional_texts(groups@)[i as int] == fs[i as int].0);
        assert(optional_texts(names@)[i as int] == fs[i as int].1);
        i = i + 1;
    }
    let locations = plan_locations(l, &groups, &names);
    assert(texts(locations@).len() == locations@.len());
    let mut out: Vec<ShardRecord> = Vec::new();
    let mut k: usize = 0;
    while k < n
        invariant
            n == fields@.len(),
            fs == fields_view(fields@),
            groups@.len() == n,
            names@.len() == n,
            forall|j: int| 0 <= j < n ==> #[trigger] optional_texts(groups@)[j] == fs[j].0,
            forall|j: int| 0 <= j < n ==> #[trigger] optional_texts(names@)[j] == fs[j].1,
            locations@.len() == n,
            texts(locations@) == planned_locations(l, optional_texts(groups@), optional_texts(names@)),
            k <= n,
            out@.len() == k,
            forall|j: int|
                0 <= j < k ==> (#[trigger] out@[j]).location@ == location_of(
                    l,
                    key_or_unknown(fs[j].0),
                    key_or_unknown(fs[j].1),
                ) && out@[j].content@ == fs[j].2,
        decreases n - k,
    {
        let location = locations[k].clone();
        let content = fields[k].json.clone();
        assert(location@ == texts(locations@)[k as int]);
        assert(optional_texts(groups@)[k as int] == fs[k as int].0);
        assert(optional_texts(names@)[k as int] == fs[k as int].1);
        out.push(ShardRecord { location, content });
        k = k + 1;
    }
    out
}

/// Shards the GeoJSON text of one level's dataset: fails exactly when the
/// text is not GeoJSON; otherwise one record per feature of a feature
/// collection, and none for another kind of document.
pub fn shard_dataset(l: Level, text: &str) -> (r: Result<Vec<ShardRecord>, ExtractError>)
    ensures
        r is Err <==> !geojson_parses(text@),
        r matches Ok(v) ==> sharded(l, text@, v@),
{
    match read_collection(text, "shapeGroup", "shapeName") {
        Ok(Some(fields)) => Ok(shard_fields(l, &fields)),
        Ok(None) => Ok(Vec::new()),
        Err(e) => Err(ExtractError::Parse(e)),
    }
}

/// Two features with the same group and name are given the same location,
/// whichever dataset and position they come from.
pub proof fn lemma_addressing_deterministic(
    l: Level,
    v1: Seq<ShardRecord>,
    fs1: Seq<(Option<Seq<char>>, Option<Seq<char>>, Seq<char>)>,
    v2: Seq<ShardRecord>,
    fs2: Seq<(Option<Seq<char>>, Option<Seq<char>>, Seq<char>)>,
    i: int,
    j: int,
)
    requires
        records_match(l, v1, fs1),
        records_match(l, v2, fs2),
        0 <= i < fs1.len(),
        0 <= j < fs2.len(),
        fs1[i].0 == fs2[j].0,
        fs1[i].1 == fs2[j].1,
    ensures
        v1[i].location@ == v2[j].location@,
{
    assert(v1[i].location@ == location_of(l, key_or_unknown(fs1[i].0), key_or_unknown(fs1[i].1)));
    assert(v2[j].location@ == location_of(l, key_or_unknown(fs2[j].0), key_or_unknown(fs2[j].1)));
}

} // verus!
