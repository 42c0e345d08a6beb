//! The `vector_layers` listing of a PMTiles archive's metadata: every layer
//! found in the archive's vector tiles, with the type of each of its fields.
//! A field's type is the kind of the values it has; a field whose values
//! are of different kinds is listed as `String`.
use vstd::prelude::*;
use vstd::string::StringExecFns;
use crate::text_map::{text_lt, TextMap};
use geozero::mvt::{Message, Tile as MvtTile};

verus! {

/// The type a field is listed with.
#[derive(Debug, Clone, Copy, PartialEq, Eq, Structural)]
pub enum MvtValueKind {
    Boolean,
    String,
    Number,
}

impl MvtValueKind {
    /// The name the metadata uses for the type.
    pub fn listed_name(self) -> (name: String)
        ensures
            name@ == match self {
                MvtValueKind::Boolean => "Boolean"@,
                MvtValueKind::String => "String"@,
                MvtValueKind::Number => "Number"@,
            },
    {
        match self {
            MvtValueKind::Boolean => String::from_str("Boolean"),
            MvtValueKind::String => String::from_str("String"),
            MvtValueKind::Number => String::from_str("Number"),
        }
    }
}

/// The kind of a tag value that has a boolean (`has_bool`) or a string
/// (`has_string`) alternative set: boolean first, then string, otherwise a
/// number.
pub open spec fn value_kind(has_bool: bool, has_string: bool) -> MvtValueKind {
    if has_bool {
        MvtValueKind::Boolean
    } else if has_string {
        MvtValueKind::String
    } else {
        MvtValueKind::Number
    }
}

/// The kind of a tag value, from which of its alternatives are set.
pub fn mvt_value_type(has_bool: bool, has_string: bool) -> (kind: MvtValueKind)
    ensures
        kind == value_kind(has_bool, has_string),
{
    if has_bool {
        MvtValueKind::Boolean
    } else if has_string {
        MvtValueKind::String
    } else {
        MvtValueKind::Number
    }
}

/// A field's type after one more value of kind `kind`: the kind itself the
/// first time, unchanged while kinds agree, `String` once they differ.
pub open spec fn merged_kind(existing: Option<MvtValueKind>, kind: MvtValueKind) -> MvtValueKind {
    match existing {
        Some(e) => if e != kind {
            MvtValueKind::String
        } else {
            e
        },
        None => kind,
    }
}

/// What the listing reads of one layer of a vector tile: its name, its key
/// and value dictionaries (each value by whether its boolean and its string
/// alternatives are set), and the tag list of each feature.
pub struct MvtLayerSummary {
    pub name: String,
    pub keys: Vec<String>,
    pub value_flags: Vec<(bool, bool)>,
    pub feature_tags: Vec<Vec<u32>>,
}

/// A layer as plain values: name, keys, value flags, feature tags.
pub type MvtLayerView = (Seq<char>, Seq<Seq<char>>, Seq<(bool, bool)>, Seq<Seq<u32>>);

impl View for MvtLayerSummary {
    type V = MvtLayerView;

    open spec fn view(&self) -> MvtLayerView {
        (
            self.name@,
            self.keys@.map_values(|k: String| k@),
            self.value_flags@,
            self.feature_tags@.map_values(|t: Vec<u32>| t@),
        )
    }
}

/// The layers the vector tile encoded in `data` holds, `None` where the
/// bytes are not one.
pub uninterp spec fn decoded_mvt_layers(data: Seq<u8>) -> Option<Seq<MvtLayerView>>;

/// `Message::decode` of geozero's MVT `Tile` on `data`, each layer read as
/// a summary; `None` where decoding fails.
#[verifier::external_body]
fn decode_mvt_layers(data: &[u8]) -> (layers: Option<Vec<MvtLayerSummary>>)
    ensures
        layers is Some <==> decoded_mvt_layers(data@) is Some,
        layers matches Some(ls) ==> decoded_mvt_layers(data@) == Some(ls@.map_values(|l: MvtLayerSummary| l@)),
{
    MvtTile::decode(data).ok().map(|tile| tile.layers.into_iter().map(|layer| MvtLayerSummary {
        name: layer.name,
        keys: layer.keys,
        value_flags: layer.values.iter().map(|v| (v.bool_value.is_some(), v.string_value.is_some())).collect(),
        feature_tags: layer.features.into_iter().map(|f| f.tags).collect(),
    }).collect())
}

/// The field that tag pair `p` of feature `f` sets, with the kind of its
/// value; `None` where the key or the value index is out of range.
pub open spec fn tag_field(layer: MvtLayerView, f: int, p: int) -> Option<(Seq<char>, MvtValueKind)> {
    let tags = layer.3[f];
    let k = tags[2 * p] as int;
    let v = tags[2 * p + 1] as int;
    if k < layer.1.len() && v < layer.2.len() {
        Some((layer.1[k], value_kind(layer.2[v].0, layer.2[v].1)))
    } else {
        None
    }
}

/// `fields` after the first `p` tag pairs of feature `f`.
pub open spec fn record_pairs(fields: Map<Seq<char>, MvtValueKind>, layer: MvtLayerView, f: int, p: int) -> Map<Seq<char>, MvtValueKind>
    decreases p,
{
    if p <= 0 {
        fields
    } else {
        let before = record_pairs(fields, layer, f, p - 1);
        match tag_field(layer, f, p - 1) {
            Some((key, kind)) => before.insert(key, merged_kind(before.get(key), kind)),
            None => before,
        }
    }
}

/// `fields` after the tags of the first `f` features of `layer`.
pub open spec fn record_features(fields: Map<Seq<char>, MvtValueKind>, layer: MvtLayerView, f: int) -> Map<Seq<char>, MvtValueKind>
    decreases f,
{
    if f <= 0 {
        fields
    } else {
        let before = record_features(fields, layer, f - 1);
        record_pairs(before, layer, f - 1, (layer.3[f - 1].len() / 2) as int)
    }
}

/// The listing after `layers`, in order, on top of `listing`.
pub open spec fn record_layers(
    listing: Map<Seq<char>, Map<Seq<char>, MvtValueKind>>,
    layers: Seq<MvtLayerView>,
) -> Map<Seq<char>, Map<Seq<char>, MvtValueKind>>
    decreases layers.len(),
{
    if layers.len() == 0 {
        listing
    } else {
        let before = record_layers(listing, layers.drop_last());
        let layer = layers.last();
        let fields = match before.get(layer.0) {
            Some(f) => f,
            None => Map::empty(),
        };
        before.insert(layer.0, record_features(fields, layer, layer.3.len() as int))
    }
}

/// The listing of tiles with the given layers, tile after tile.
pub open spec fn record_tiles(tiles: Seq<Seq<MvtLayerView>>) -> Map<Seq<char>, Map<Seq<char>, MvtValueKind>>
    decreases tiles.len(),
{
    if tiles.len() == 0 {
        Map::empty()
    } else {
        record_layers(record_tiles(tiles.drop_last()), tiles.last())
    }
}

/// Records one more value of kind `kind` for `key`.
fn record_field(fields: &mut TextMap<MvtValueKind>, key: &String, kind: MvtValueKind)
    requires
        old(fields).wf(),
    ensures
        final(fields).wf(),
        final(fields).map() == old(fields).map().insert(key@, merged_kind(old(fields).map().get(key@), kind)),
{
    let merged = match fields.get(key.as_str()) {
        Some(existing) => if *existing != kind {
            MvtValueKind::String
        } else {
            *existing
        },
        None => kind,
    };
    fields.insert(key.clone(), merged);
}

/// Records the fields that the tags of `layer` set.
fn record_layer_fields(fields: &mut TextMap<MvtValueKind>, layer: &MvtLayerSummary)
    requires
        old(fields).wf(),
    ensures
        final(fields).wf(),
        final(fields).map() == record_features(old(fields).map(), layer@, layer@.3.len() as int),
{
    let ghost start = fields.map();
    let ghost view = layer@;
    let mut f: usize = 0;
    while f < layer.feature_tags.len()
        invariant
            fields.wf(),
            view == layer@,
            f <= layer.feature_tags@.len(),
            fields.map() == record_features(start, view, f as int),
        decreases layer.feature_tags@.len() - f,
    {
        let tags = &layer.feature_tags[f];
        proof {
            assert(view.3[f as int] == tags@);
        }
        let tag_count = tags.len();
        let pairs = tag_count / 2;
        let ghost before = fields.map();
        let mut p: usize = 0;
        while p < pairs
            invariant
                fields.wf(),
                view == layer@,
                f < layer.feature_tags@.len(),
                view.3[f as int] == tags@,
                tag_count == tags@.len(),
                pairs == tags@.len() / 2,
                p <= pairs,
                fields.map() == record_pairs(before, view, f as int, p as int),
            decreases pairs - p,
        {
            proof {
                assert(2 * p + 1 < tags@.len()) by (nonlinear_arith)
                    requires
                        p < pairs,
                        pairs == tags@.len() / 2,
                ;
            }
            let k = tags[2 * p] as usize;
            let v = tags[2 * p + 1] as usize;
            if k < layer.keys.len() && v < layer.value_flags.len() {
                let flags = layer.value_flags[v];
                let kind = mvt_value_type(flags.0, flags.1);
                proof {
                    assert(view.1[k as int] == layer.keys@[k as int]@);
                }
                record_field(fields, &layer.keys[k], kind);
            }
            p = p + 1;
        }
        f = f + 1;
    }
}

/// The layers found so far, each with the type of each of its fields.
pub struct VectorLayerListing {
    layers: TextMap<TextMap<MvtValueKind>>,
}

impl VectorLayerListing {
    pub closed spec fn wf(&self) -> bool {
        &&& self.layers.wf()
        &&& forall|n: Seq<char>| #[trigger] self.layers.map().dom().contains(n) ==> self.layers.map()[n].wf()
    }

    /// Each layer found so far with its field types.
    pub closed spec fn listing(&self) -> Map<Seq<char>, Map<Seq<char>, MvtValueKind>> {
        listing_view(self.layers.map())
    }

    /// No layer found yet.
    pub fn new() -> (listing: Self)
        ensures
            listing.wf(),
            listing.listing() == Map::<Seq<char>, Map<Seq<char>, MvtValueKind>>::empty(),
    {
        let listing = VectorLayerListing { layers: TextMap::new() };
        proof {
            assert(listing.listing() =~= Map::<Seq<char>, Map<Seq<char>, MvtValueKind>>::empty());
        }
        listing
    }

    /// Adds the layers of one decoded tile, in order.
    pub fn record_tile(&mut self, layers: &Vec<MvtLayerSummary>)
        requires
            old(self).wf(),
        ensures
            final(self).wf(),
            final(self).listing() == record_layers(old(self).listing(), layers@.map_values(|l: MvtLayerSummary| l@)),
    {
        let ghost layer_views = layers@.map_values(|l: MvtLayerSummary| l@);
        let mut l: usize = 0;
        while l < layers.len()
            invariant
                self.wf(),
                l <= layers@.len(),
                layer_views == layers@.map_values(|l: MvtLayerSummary| l@),
                self.listing() == record_layers(old(self).listing(), layer_views.take(l as int)),
            decreases layers@.len() - l,
        {
            let layer = &layers[l];
            let mut fields = match self.layers.remove(layer.name.as_str()) {
                Some(fields) => fields,
                None => TextMap::new(),
            };
            record_layer_fields(&mut fields, layer);
            self.layers.insert(layer.name.clone(), fields);
            proof {
                assert(layer_views.take(l + 1).drop_last() == layer_views.take(l as int));
                assert(layer_views.take(l + 1).last() == layer@);
                assert(self.listing() =~= record_layers(old(self).listing(), layer_views.take(l + 1)));
            }
            l = l + 1;
        }
        proof {
            assert(layer_views.take(layers@.len() as int) == layer_views);
        }
    }

    /// Decodes one vector tile and adds its layers; `false`, and the listing
    /// unchanged, where the bytes are not a vector tile.
    pub fn record_tile_bytes(&mut self, data: &[u8]) -> (decoded: bool)
        requires
            old(self).wf(),
        ensures
            final(self).wf(),
            decoded == decoded_mvt_layers(data@) is Some,
            decoded ==> final(self).listing() == record_layers(old(self).listing(), decoded_mvt_layers(data@)->Some_0),
            !decoded ==> final(self).listing() == old(self).listing(),
    {
        match decode_mvt_layers(data) {
            Some(layers) => {
                self.record_tile(&layers);
                true
            },
            None => false,
        }
    }

    /// The layers in name order, each with its fields in name order.
    pub fn into_layers(self) -> (layers: Vec<(String, Vec<(String, MvtValueKind)>)>)
        requires
            self.wf(),
        ensures
            lists_layers(layers@, self.listing()),
    {
        let ghost expected = self.listing();
        let ghost names = self.layers.map();
        let entries = self.layers.into_entries();
        let ghost all = entries@;
        proof {
            assert(forall|n: Seq<char>| #[trigger] names.dom().contains(n) ==> exists|i: int| 0 <= i < all.len() && (#[trigger] all[i]).0@ == n);
        }
        let mut rest = entries;
        let mut out: Vec<(String, Vec<(String, MvtValueKind)>)> = Vec::new();
        while rest.len() > 0
            invariant
                out@.len() <= all.len(),
                rest@ == all.skip(out@.len() as int),
                forall|i: int, j: int| 0 <= i < j < all.len() ==> text_lt((#[trigger] all[i]).0@, (#[trigger] all[j]).0@),
                forall|i: int| 0 <= i < all.len() ==> names.dom().contains((#[trigger] all[i]).0@) && names[all[i].0@] == all[i].1,
                forall|n: Seq<char>| #[trigger] names.dom().contains(n) ==> names[n].wf(),
                forall|k: int| 0 <= k < out@.len() ==> (#[trigger] out@[k]).0 == all[k].0 && lists_fields(out@[k].1@, all[k].1.map()),
            decreases rest@.len(),
        {
            let ghost k = out@.len() as int;
            proof {
                assert(rest@[0] == all[k]);
            }
            let (name, fields) = rest.remove(0);
            let field_entries = fields.into_entries();
            out.push((name, field_entries));
            proof {
                assert(rest@ =~= all.skip(out@.len() as int));
            }
        }
        proof {
            assert(out@.len() == all.len());
            assert forall|i: int, j: int| 0 <= i < j < out@.len() implies text_lt((#[trigger] out@[i]).0@, (#[trigger] out@[j]).0@) by {
                assert(text_lt(all[i].0@, all[j].0@));
            }
            assert forall|n: Seq<char>| #[trigger] expected.dom().contains(n) implies exists|i: int| 0 <= i < out@.len() && (#[trigger] out@[i]).0@ == n by {
                assert(names.dom().contains(n));
                let i = choose|i: int| 0 <= i < all.len() && (#[trigger] all[i]).0@ == n;
                assert(out@[i].0@ == n);
            }
            assert forall|i: int| 0 <= i < out@.len() implies expected.dom().contains((#[trigger] out@[i]).0@) && lists_fields(out@[i].1@, expected[out@[i].0@]) by {
                assert(out@[i].0 == all[i].0);
                assert(names.dom().contains(all[i].0@));
                assert(expected[all[i].0@] == names[all[i].0@].map());
            }
            assert(lists_layers(out@, expected));
        }
        out
    }
}

/// The layer names and field types of the archive's tiles, given each tile's
/// bytes: layers in name order, each with its fields in name order. Err
/// with the position of the first tile that is not a vector tile.
pub fn vector_layers_for_tiles(tiles: &[Vec<u8>]) -> (listing: Result<Vec<(String, Vec<(String, MvtValueKind)>)>, usize>)
    ensures
        listing matches Err(t) ==> {
            &&& t < tiles@.len()
            &&& decoded_mvt_layers(tiles@[t as int]@) is None
            &&& forall|u: int| 0 <= u < t ==> #[trigger] decoded_mvt_layers(tiles@[u]@) is Some
        },
        listing is Ok <==> forall|u: int| 0 <= u < tiles@.len() ==> #[trigger] decoded_mvt_layers(tiles@[u]@) is Some,
        listing matches Ok(layers) ==> lists_layers(layers@, record_tiles(decoded_tiles(tiles@))),
{
    let mut listing = VectorLayerListing::new();
    let ghost decoded: Seq<Seq<MvtLayerView>> = Seq::empty();
    let mut t: usize = 0;
    while t < tiles.len()
        invariant
            listing.wf(),
            t <= tiles@.len(),
            decoded.len() == t,
            forall|u: int| 0 <= u < t ==> #[trigger] decoded_mvt_layers(tiles@[u]@) == Some(decoded[u]),
            listing.listing() == record_tiles(decoded),
        decreases tiles@.len() - t,
    {
        if !listing.record_tile_bytes(tiles[t].as_slice()) {
            return Err(t);
        }
        proof {
            let next = decoded.push(decoded_mvt_layers(tiles@[t as int]@)->Some_0);
            assert(next.drop_last() == decoded);
            decoded = next;
        }
        t = t + 1;
    }
    proof {
        assert(decoded =~= decoded_tiles(tiles@));
    }
    Ok(listing.into_layers())
}

/// The layers of each tile, for tiles that all decode.
pub open spec fn decoded_tiles(tiles: Seq<Vec<u8>>) -> Seq<Seq<MvtLayerView>> {
    Seq::new(tiles.len(), |u: int| decoded_mvt_layers(tiles[u]@)->Some_0)
}

/// The field types of each layer of a listing.
pub open spec fn listing_view(listing: Map<Seq<char>, TextMap<MvtValueKind>>) -> Map<Seq<char>, Map<Seq<char>, MvtValueKind>> {
    listing.map_values(|fields: TextMap<MvtValueKind>| fields.map())
}

/// `layers` lists exactly the layers of `expected`, in name order, each with
/// its fields.
pub open spec fn lists_layers(
    layers: Seq<(String, Vec<(String, MvtValueKind)>)>,
    expected: Map<Seq<char>, Map<Seq<char>, MvtValueKind>>,
) -> bool {
    &&& forall|i: int, j: int| 0 <= i < j < layers.len() ==> text_lt((#[trigger] layers[i]).0@, (#[trigger] layers[j]).0@)
    &&& forall|n: Seq<char>| #[trigger] expected.dom().contains(n) ==> exists|i: int| 0 <= i < layers.len() && (#[trigger] layers[i]).0@ == n
    &&& forall|i: int| 0 <= i < layers.len() ==> expected.dom().contains((#[trigger] layers[i]).0@) && lists_fields(layers[i].1@, expected[layers[i].0@])
}

/// `fields` lists exactly the fields of `expected`, in name order, each with
/// its type.
pub open spec fn lists_fields(fields: Seq<(String, MvtValueKind)>, expected: Map<Seq<char>, MvtValueKind>) -> bool {
    &&& forall|i: int, j: int| 0 <= i < j < fields.len() ==> text_lt((#[trigger] fields[i]).0@, (#[trigger] fields[j]).0@)
    &&& forall|i: int| 0 <= i < fields.len() ==> expected.dom().contains((#[trigger] fields[i]).0@) && expected[fields[i].0@] == fields[i].1
    &&& forall|n: Seq<char>| #[trigger] expected.dom().contains(n) ==> exists|i: int| 0 <= i < fields.len() && (#[trigger] fields[i]).0@ == n
}

/// Tag pair `p` of feature `f` is one of `layer`'s pairs.
pub open spec fn is_pair(layer: MvtLayerView, f: int, p: int) -> bool {
    0 <= f < layer.3.len() && 0 <= p < layer.3[f].len() / 2
}

/// Some tag pair of `layer` gives field `key` a value of kind `kind`.
pub open spec fn kind_seen(layer: MvtLayerView, key: Seq<char>, kind: MvtValueKind) -> bool {
    exists|f: int, p: int| is_pair(layer, f, p) && #[trigger] tag_field(layer, f, p) == Some((key, kind))
}

/// Some tag pair before pair `p` of feature `f` gives `key` a value of kind
/// `kind`.
pub open spec fn kind_seen_before(layer: MvtLayerView, f: int, p: int, key: Seq<char>, kind: MvtValueKind) -> bool {
    exists|g: int, q: int|
        is_pair(layer, g, q) && (g < f || (g == f && q < p)) && #[trigger] tag_field(layer, g, q) == Some((key, kind))
}

/// The type a field is listed with, from which kinds its values have: none
/// seen means no field; a single kind is that kind; a mix is `String`.
pub open spec fn listed_type(boolean: bool, string: bool, number: bool) -> Option<MvtValueKind> {
    if !boolean && !string && !number {
        None
    } else if boolean && !string && !number {
        Some(MvtValueKind::Boolean)
    } else if !boolean && !string && number {
        Some(MvtValueKind::Number)
    } else {
        Some(MvtValueKind::String)
    }
}

/// `fields` lists each field with the type the kinds seen before pair `p`
/// of feature `f` give it.
spec fn fields_match_seen(fields: Map<Seq<char>, MvtValueKind>, layer: MvtLayerView, f: int, p: int) -> bool {
    forall|key: Seq<char>|
        #[trigger] fields.get(key) == listed_type(
            kind_seen_before(layer, f, p, key, MvtValueKind::Boolean),
            kind_seen_before(layer, f, p, key, MvtValueKind::String),
            kind_seen_before(layer, f, p, key, MvtValueKind::Number),
        )
}

proof fn lemma_record_pairs_types(layer: MvtLayerView, f: int, p: int)
    requires
        0 <= f < layer.3.len(),
        0 <= p <= layer.3[f].len() / 2,
        fields_match_seen(record_features(Map::empty(), layer, f), layer, f, 0),
    ensures
        fields_match_seen(record_pairs(record_features(Map::empty(), layer, f), layer, f, p), layer, f, p),
    decreases p,
{
    if p > 0 {
        lemma_record_pairs_types(layer, f, p - 1);
        let before = record_pairs(record_features(Map::empty(), layer, f), layer, f, p - 1);
        let after = record_pairs(record_features(Map::empty(), layer, f), layer, f, p);
        assert forall|key: Seq<char>| #[trigger] after.get(key) == listed_type(
            kind_seen_before(layer, f, p, key, MvtValueKind::Boolean),
            kind_seen_before(layer, f, p, key, MvtValueKind::String),
            kind_seen_before(layer, f, p, key, MvtValueKind::Number),
        ) by {
            assert(before.get(key) == listed_type(
                kind_seen_before(layer, f, p - 1, key, MvtValueKind::Boolean),
                kind_seen_before(layer, f, p - 1, key, MvtValueKind::String),
                kind_seen_before(layer, f, p - 1, key, MvtValueKind::Number),
            ));
            assert forall|kind: MvtValueKind| #[trigger] kind_seen_before(layer, f, p, key, kind) <==> (kind_seen_before(layer, f, p - 1, key, kind) || tag_field(layer, f, p - 1) == Some((key, kind))) by {
                if kind_seen_before(layer, f, p, key, kind) {
                    let (g, q) = choose|g: int, q: int|
                        is_pair(layer, g, q) && (g < f || (g == f && q < p)) && #[trigger] tag_field(layer, g, q) == Some((key, kind));
                    if !(g == f && q == p - 1) {
                        assert(kind_seen_before(layer, f, p - 1, key, kind));
                    }
                }
                if tag_field(layer, f, p - 1) == Some((key, kind)) {
                    assert(is_pair(layer, f, p - 1));
                }
                if kind_seen_before(layer, f, p - 1, key, kind) {
                    let (g, q) = choose|g: int, q: int|
                        is_pair(layer, g, q) && (g < f || (g == f && q < p - 1)) && #[trigger] tag_field(layer, g, q) == Some((key, kind));
                    assert(tag_field(layer, g, q) == Some((key, kind)));
                }
            }
            assert(kind_seen_before(layer, f, p, key, MvtValueKind::Boolean) <==> (kind_seen_before(layer, f, p - 1, key, MvtValueKind::Boolean) || tag_field(layer, f, p - 1) == Some((key, MvtValueKind::Boolean))));
            assert(kind_seen_before(layer, f, p, key, MvtValueKind::String) <==> (kind_seen_before(layer, f, p - 1, key, MvtValueKind::String) || tag_field(layer, f, p - 1) == Some((key, MvtValueKind::String))));
            assert(kind_seen_before(layer, f, p, key, MvtValueKind::Number) <==> (kind_seen_before(layer, f, p - 1, key, MvtValueKind::Number) || tag_field(layer, f, p - 1) == Some((key, MvtValueKind::Number))));
        }
    }
}

proof fn lemma_record_features_types(layer: MvtLayerView, f: int)
    requires
        0 <= f <= layer.3.len(),
    ensures
        fields_match_seen(record_features(Map::empty(), layer, f), layer, f, 0),
    decreases f,
{
    let after = record_features(Map::empty(), layer, f);
    if f == 0 {
        assert forall|key: Seq<char>| #[trigger] after.get(key) == listed_type(
            kind_seen_before(layer, f, 0, key, MvtValueKind::Boolean),
            kind_seen_before(layer, f, 0, key, MvtValueKind::String),
            kind_seen_before(layer, f, 0, key, MvtValueKind::Number),
        ) by {
            assert(!after.dom().contains(key));
        }
    } else {
        lemma_record_features_types(layer, f - 1);
        let pairs = layer.3[f - 1].len() / 2;
        lemma_record_pairs_types(layer, f - 1, pairs as int);
        assert forall|key: Seq<char>| #[trigger] after.get(key) == listed_type(
            kind_seen_before(layer, f, 0, key, MvtValueKind::Boolean),
            kind_seen_before(layer, f, 0, key, MvtValueKind::String),
            kind_seen_before(layer, f, 0, key, MvtValueKind::Number),
        ) by {
            assert forall|kind: MvtValueKind| #[trigger] kind_seen_before(layer, f, 0, key, kind) <==> kind_seen_before(layer, f - 1, pairs as int, key, kind) by {
                if kind_seen_before(layer, f, 0, key, kind) {
                    let (g, q) = choose|g: int, q: int|
                        is_pair(layer, g, q) && (g < f || (g == f && q < 0)) && #[trigger] tag_field(layer, g, q) == Some((key, kind));
                    assert(tag_field(layer, g, q) == Some((key, kind)));
                }
                if kind_seen_before(layer, f - 1, pairs as int, key, kind) {
                    let (g, q) = choose|g: int, q: int|
                        is_pair(layer, g, q) && (g < f - 1 || (g == f - 1 && q < pairs)) && #[trigger] tag_field(layer, g, q) == Some((key, kind));
                    assert(tag_field(layer, g, q) == Some((key, kind)));
                }
            }
            assert(kind_seen_before(layer, f, 0, key, MvtValueKind::Boolean) == kind_seen_before(layer, f - 1, pairs as int, key, MvtValueKind::Boolean));
            assert(kind_seen_before(layer, f, 0, key, MvtValueKind::String) == kind_seen_before(layer, f - 1, pairs as int, key, MvtValueKind::String));
            assert(kind_seen_before(layer, f, 0, key, MvtValueKind::Number) == kind_seen_before(layer, f - 1, pairs as int, key, MvtValueKind::Number));
        }
    }
}

/// In a layer's listing, a field appears exactly when some tag gives it a
/// value, and its type is the kind all its values share, or `String` when
/// they are of different kinds: what order the tags come in does not matter.
pub proof fn lemma_field_types(layer: MvtLayerView, key: Seq<char>)
    ensures
        record_features(Map::empty(), layer, layer.3.len() as int).get(key) == listed_type(
            kind_seen(layer, key, MvtValueKind::Boolean),
            kind_seen(layer, key, MvtValueKind::String),
            kind_seen(layer, key, MvtValueKind::Number),
        ),
{
    let n = layer.3.len() as int;
    lemma_record_features_types(layer, n);
    assert forall|kind: MvtValueKind| #[trigger] kind_seen(layer, key, kind) == kind_seen_before(layer, n, 0, key, kind) by {
        if kind_seen(layer, key, kind) {
            let (g, q) = choose|g: int, q: int| is_pair(layer, g, q) && #[trigger] tag_field(layer, g, q) == Some((key, kind));
            assert(tag_field(layer, g, q) == Some((key, kind)));
        }
        if kind_seen_before(layer, n, 0, key, kind) {
            let (g, q) = choose|g: int, q: int|
                is_pair(layer, g, q) && (g < n || (g == n && q < 0)) && #[trigger] tag_field(layer, g, q) == Some((key, kind));
            assert(tag_field(layer, g, q) == Some((key, kind)));
        }
    }
    assert(kind_seen(layer, key, MvtValueKind::Boolean) == kind_seen_before(layer, n, 0, key, MvtValueKind::Boolean));
    assert(kind_seen(layer, key, MvtValueKind::String) == kind_seen_before(layer, n, 0, key, MvtValueKind::String));
    assert(kind_seen(layer, key, MvtValueKind::Number) == kind_seen_before(layer, n, 0, key, MvtValueKind::Number));
}

} // verus!
