//! Reading OpenStreetMap XML. The reader works line by line, the way the Overpass
//! API lays its output out: `<node .../>` lines declare coordinates, `<way>` blocks
//! list node references (`<nd ref=.../>`) and tags (`<tag k=... v=.../>`), and
//! `</way>` turns the way just read into a road, a building or a crosswalk.
//!
//! Every piece of text the reader keeps (coordinates, speed limits, heights, names)
//! is returned as a span of the input's characters; turning coordinates, speeds and
//! heights into numbers is left to the caller.
use vstd::prelude::*;
use crate::span::{find_in, parse_unsigned, parse_i8_text, span_starts_with, span_ends_with, span_is, strip_suffixes, trim_lo, trim_hi, valid_span, find, starts_with, ends_with, is_exactly, strip_all_suffixes, trim, parse_u64_span, parse_u8_span, parse_i8_span, lemma_parse_unsigned_bound, lemma_parse_i8_text_bound};
use crate::text::chars_of;
use crate::types::{HighwayClass, SurfaceType, BuildingType, highway_class_named};
use crate::fallbacks::Fallbacks;

verus! {

/// The characters `[start, end)` of the input.
#[derive(Debug, Clone, Copy, PartialEq, Eq, Structural)]
pub struct TextSpan {
    pub start: usize,
    pub end: usize,
}

/// A coordinate as written in the input: the text of its latitude and longitude.
#[derive(Debug, Clone, Copy, PartialEq, Eq, Structural)]
pub struct TextCoord {
    pub lat: TextSpan,
    pub lon: TextSpan,
}

/// The coordinates `[start, end)` of the list of way coordinates.
#[derive(Debug, Clone, Copy, PartialEq, Eq, Structural)]
pub struct CoordRange {
    pub start: usize,
    pub end: usize,
}

/// A road read from a `highway=*` way.
#[derive(Debug, Clone, Copy)]
pub struct OsmRoad<S> {
    pub id: u64,
    pub nodes: CoordRange,
    pub highway_class: HighwayClass,
    pub lanes_forward: u8,
    pub lanes_backward: u8,
    /// The `maxspeed` tag without its ` km/h` suffixes, when tagged.
    pub maxspeed: Option<TextSpan>,
    /// The speed limit to use when `maxspeed` is missing or not a number.
    pub speed_fallback_kmh: S,
    pub surface: SurfaceType,
    pub is_oneway: bool,
    pub layer: i8,
    pub is_bridge: bool,
    pub is_tunnel: bool,
    pub name: Option<TextSpan>,
}

/// A building read from a `building=*` way.
#[derive(Debug, Clone, Copy)]
pub struct OsmBuilding<S> {
    pub id: u64,
    pub footprint: CoordRange,
    pub building_type: BuildingType,
    /// The `height` tag without trailing `m`s and surrounding whitespace, when tagged.
    pub height: Option<TextSpan>,
    /// The `building:levels` tag, when tagged.
    pub levels: Option<TextSpan>,
    /// The height to use when neither tag gives a number.
    pub height_fallback: S,
}

/// A traffic signal read from a `highway=traffic_signals` node.
#[derive(Debug, Clone, Copy)]
pub struct OsmSignal<S> {
    pub id: u64,
    pub position: TextCoord,
    pub cycle_time: S,
}

/// A crosswalk read from a `footway=crossing` way.
#[derive(Debug, Clone, Copy, PartialEq, Eq, Structural)]
pub struct OsmCrosswalk {
    pub id: u64,
    pub nodes: CoordRange,
    pub signal_id: Option<u64>,
}

/// Everything read from a document. Roads, buildings and crosswalks refer to ranges
/// of `coords`; a way that is several of them shares one range.
pub struct OsmData<S> {
    pub coords: Vec<TextCoord>,
    pub roads: Vec<OsmRoad<S>>,
    pub buildings: Vec<OsmBuilding<S>>,
    pub signals: Vec<OsmSignal<S>>,
    pub crosswalks: Vec<OsmCrosswalk>,
}

/// The reader's state between lines.
pub ghost struct ScanState<S> {
    /// Declared nodes in order; a later declaration of an id overrides earlier ones.
    pub nodes: Seq<(u64, TextCoord)>,
    /// Id of the element being read.
    pub way_id: Option<u64>,
    /// Node references of the way being read.
    pub way_nodes: Seq<u64>,
    /// Tags read since the element started; a later tag overrides an earlier one of the same key.
    pub tags: Seq<(TextSpan, TextSpan)>,
    pub in_way: bool,
    pub coords: Seq<TextCoord>,
    pub roads: Seq<OsmRoad<S>>,
    pub buildings: Seq<OsmBuilding<S>>,
    pub signals: Seq<OsmSignal<S>>,
    pub crosswalks: Seq<OsmCrosswalk>,
}

/// The text of a span.
pub open spec fn text(s: Seq<char>, sp: TextSpan) -> Seq<char> {
    s.subrange(sp.start as int, sp.end as int)
}

/// The value of the attribute whose `name="` pattern is `pat`, in the line
/// `s[lo..hi]`: from just after the first occurrence of the pattern to the next `"`.
pub open spec fn attr_span(s: Seq<char>, lo: int, hi: int, pat: Seq<char>) -> Option<TextSpan> {
    match find_in(s, lo, hi, pat) {
        None => None,
        Some(i) => match find_in(s, i + pat.len(), hi, seq!['"']) {
            None => None,
            Some(j) => Some(TextSpan { start: (i + pat.len()) as usize, end: j as usize }),
        },
    }
}

/// The value of the last tag with key `key`.
pub open spec fn tag_value(s: Seq<char>, tags: Seq<(TextSpan, TextSpan)>, key: Seq<char>) -> Option<TextSpan>
    decreases tags.len(),
{
    if tags.len() == 0 {
        None
    } else if text(s, tags.last().0) == key {
        Some(tags.last().1)
    } else {
        tag_value(s, tags.drop_last(), key)
    }
}

/// Whether the tag `key` has the value `val`.
pub open spec fn tag_is(s: Seq<char>, tags: Seq<(TextSpan, TextSpan)>, key: Seq<char>, val: Seq<char>) -> bool {
    match tag_value(s, tags, key) {
        Some(v) => text(s, v) == val,
        None => false,
    }
}

/// The coordinate most recently declared for node `id`.
pub open spec fn node_coord(nodes: Seq<(u64, TextCoord)>, id: u64) -> Option<TextCoord>
    decreases nodes.len(),
{
    if nodes.len() == 0 {
        None
    } else if nodes.last().0 == id {
        Some(nodes.last().1)
    } else {
        node_coord(nodes.drop_last(), id)
    }
}

/// The coordinates of the referenced nodes that are declared, in order.
pub open spec fn resolve(nodes: Seq<(u64, TextCoord)>, ids: Seq<u64>) -> Seq<TextCoord>
    decreases ids.len(),
{
    if ids.len() == 0 {
        Seq::empty()
    } else {
        resolve(nodes, ids.drop_last()) + match node_coord(nodes, ids.last()) {
            Some(c) => seq![c],
            None => Seq::empty(),
        }
    }
}

/// An id attribute read as a number, or 0 when it is not one.
pub open spec fn id_or_zero(s: Seq<char>, sp: TextSpan) -> u64 {
    match parse_unsigned(text(s, sp), u64::MAX as int) {
        Some(v) => v as u64,
        None => 0,
    }
}

/// The state before any line is read.
pub open spec fn initial_state<S>() -> ScanState<S> {
    ScanState {
        nodes: Seq::empty(),
        way_id: None,
        way_nodes: Seq::empty(),
        tags: Seq::empty(),
        in_way: false,
        coords: Seq::empty(),
        roads: Seq::empty(),
        buildings: Seq::empty(),
        signals: Seq::empty(),
        crosswalks: Seq::empty(),
    }
}

/// A `<node` line that does not close the node on the same line declares the node's
/// coordinate, when it has `id`, `lat` and `lon` attributes.
pub open spec fn rule_node_decl<S>(st: ScanState<S>, s: Seq<char>, lo: int, hi: int) -> ScanState<S> {
    if span_starts_with(s, lo, hi, "<node"@) && find_in(s, lo, hi, "</node>"@) is None {
        match (attr_span(s, lo, hi, "id=\""@), attr_span(s, lo, hi, "lat=\""@), attr_span(s, lo, hi, "lon=\""@)) {
            (Some(i), Some(a), Some(o)) => ScanState {
                nodes: st.nodes.push((id_or_zero(s, i), TextCoord { lat: a, lon: o })),
                ..st
            },
            _ => st,
        }
    } else {
        st
    }
}

/// A `<node` line that is not self-closing opens a node with child tags.
pub open spec fn rule_node_open<S>(st: ScanState<S>, s: Seq<char>, lo: int, hi: int) -> ScanState<S> {
    if span_starts_with(s, lo, hi, "<node"@) && !span_ends_with(s, lo, hi, "/>"@) {
        match attr_span(s, lo, hi, "id=\""@) {
            Some(i) => ScanState { way_id: Some(id_or_zero(s, i)), tags: Seq::empty(), ..st },
            None => st,
        }
    } else {
        st
    }
}

/// `</node>` closes a node: a declared node tagged `highway=traffic_signals` becomes
/// a signal with the four-way cycle time.
pub open spec fn rule_node_close<S>(st: ScanState<S>, s: Seq<char>, lo: int, hi: int, fb: Fallbacks<S>) -> ScanState<S> {
    if span_is(s, lo, hi, "</node>"@) {
        let signals = match st.way_id {
            Some(id) => if tag_is(s, st.tags, "highway"@, "traffic_signals"@) {
                match node_coord(st.nodes, id) {
                    Some(c) => st.signals.push(OsmSignal { id, position: c, cycle_time: fb.signal_timing.four_way }),
                    None => st.signals,
                }
            } else {
                st.signals
            },
            None => st.signals,
        };
        ScanState { signals, way_id: None, ..st }
    } else {
        st
    }
}

/// `<way` starts a way: its node list and tags start empty.
pub open spec fn rule_way_open<S>(st: ScanState<S>, s: Seq<char>, lo: int, hi: int) -> ScanState<S> {
    if span_starts_with(s, lo, hi, "<way"@) {
        let way_id = match attr_span(s, lo, hi, "id=\""@) {
            Some(i) => Some(id_or_zero(s, i)),
            None => st.way_id,
        };
        ScanState { in_way: true, way_nodes: Seq::empty(), tags: Seq::empty(), way_id, ..st }
    } else {
        st
    }
}

/// `<nd` inside a way adds a node reference whose `ref` is a number.
pub open spec fn rule_nd<S>(st: ScanState<S>, s: Seq<char>, lo: int, hi: int) -> ScanState<S> {
    if st.in_way && span_starts_with(s, lo, hi, "<nd"@) {
        match attr_span(s, lo, hi, "ref=\""@) {
            Some(r) => match parse_unsigned(text(s, r), u64::MAX as int) {
                Some(v) => ScanState { way_nodes: st.way_nodes.push(v as u64), ..st },
                None => st,
            },
            None => st,
        }
    } else {
        st
    }
}

/// `<tag` with both `k` and `v` records a tag.
pub open spec fn rule_tag<S>(st: ScanState<S>, s: Seq<char>, lo: int, hi: int) -> ScanState<S> {
    if span_starts_with(s, lo, hi, "<tag"@) {
        match (attr_span(s, lo, hi, "k=\""@), attr_span(s, lo, hi, "v=\""@)) {
            (Some(k), Some(v)) => ScanState { tags: st.tags.push((k, v)), ..st },
            _ => st,
        }
    } else {
        st
    }
}

/// Total lanes of a road: the `lanes` tag when it is a `u8`, otherwise twice the
/// fallback lanes per direction of its class.
pub open spec fn road_lanes_total<S>(s: Seq<char>, tags: Seq<(TextSpan, TextSpan)>, class: HighwayClass, fb: Fallbacks<S>) -> u8 {
    let fallback = (2 * fb.lane_count.lanes_of(class)) as u8;
    match tag_value(s, tags, "lanes"@) {
        Some(v) => match parse_unsigned(text(s, v), 255) {
            Some(n) => n as u8,
            None => fallback,
        },
        None => fallback,
    }
}

/// Whether a road is one-way: `oneway=yes` or `oneway=1`; untagged motorways and
/// motorway links are one-way.
pub open spec fn road_oneway(s: Seq<char>, tags: Seq<(TextSpan, TextSpan)>, class: HighwayClass) -> bool {
    match tag_value(s, tags, "oneway"@) {
        Some(v) => text(s, v) == "yes"@ || text(s, v) == "1"@,
        None => class is Motorway || class is MotorwayLink,
    }
}

/// The surface named by the `surface` tag; asphalt unless concrete, gravel or grass.
pub open spec fn road_surface(s: Seq<char>, tags: Seq<(TextSpan, TextSpan)>) -> SurfaceType {
    match tag_value(s, tags, "surface"@) {
        Some(v) => if text(s, v) == "concrete"@ {
            SurfaceType::Concrete
        } else if text(s, v) == "gravel"@ {
            SurfaceType::Gravel
        } else if text(s, v) == "grass"@ {
            SurfaceType::Grass
        } else {
            SurfaceType::Asphalt
        },
        None => SurfaceType::Asphalt,
    }
}

/// The `layer` tag when it is an `i8`, otherwise 0.
pub open spec fn road_layer(s: Seq<char>, tags: Seq<(TextSpan, TextSpan)>) -> i8 {
    match tag_value(s, tags, "layer"@) {
        Some(v) => match parse_i8_text(text(s, v)) {
            Some(n) => n as i8,
            None => 0,
        },
        None => 0,
    }
}

/// The road a way with these tags is, if its `highway` tag names a road class.
/// One-way roads have all lanes forward; two-way roads split them, the extra lane
/// going backward.
pub open spec fn way_road<S>(
    s: Seq<char>,
    tags: Seq<(TextSpan, TextSpan)>,
    id: u64,
    nodes: CoordRange,
    fb: Fallbacks<S>,
) -> Option<OsmRoad<S>> {
    match tag_value(s, tags, "highway"@) {
        None => None,
        Some(hv) => match highway_class_named(text(s, hv)) {
            None => None,
            Some(class) => {
                let total = road_lanes_total(s, tags, class, fb);
                let oneway = road_oneway(s, tags, class);
                Some(OsmRoad {
                    id,
                    nodes,
                    highway_class: class,
                    lanes_forward: if oneway { total } else { total / 2 },
                    lanes_backward: if oneway { 0 } else { (total - total / 2) as u8 },
                    maxspeed: match tag_value(s, tags, "maxspeed"@) {
                        Some(v) => Some(TextSpan {
                            start: v.start,
                            end: strip_suffixes(s, v.start as int, v.end as int, " km/h"@) as usize,
                        }),
                        None => None,
                    },
                    speed_fallback_kmh: fb.speed_limit.speed_of(class),
                    surface: road_surface(s, tags),
                    is_oneway: oneway,
                    layer: road_layer(s, tags),
                    is_bridge: tag_is(s, tags, "bridge"@, "yes"@),
                    is_tunnel: tag_is(s, tags, "tunnel"@, "yes"@),
                    name: tag_value(s, tags, "name"@),
                })
            },
        },
    }
}

/// The use class named by a `building` value.
pub open spec fn building_type_named(t: Seq<char>) -> BuildingType {
    if t == "commercial"@ || t == "retail"@ || t == "office"@ {
        BuildingType::Commercial
    } else if t == "residential"@ || t == "apartments"@ || t == "house"@ {
        BuildingType::Residential
    } else if t == "industrial"@ || t == "warehouse"@ {
        BuildingType::Industrial
    } else {
        BuildingType::Other
    }
}

/// The building a way with a `building` tag is.
pub open spec fn way_building<S>(
    s: Seq<char>,
    tags: Seq<(TextSpan, TextSpan)>,
    id: u64,
    nodes: CoordRange,
    fb: Fallbacks<S>,
) -> OsmBuilding<S> {
    let btype = match tag_value(s, tags, "building"@) {
        Some(v) => building_type_named(text(s, v)),
        None => BuildingType::Other,
    };
    OsmBuilding {
        id,
        footprint: nodes,
        building_type: btype,
        height: match tag_value(s, tags, "height"@) {
            Some(v) => {
                let end = strip_suffixes(s, v.start as int, v.end as int, "m"@);
                let a = trim_lo(s, v.start as int, end);
                Some(TextSpan { start: a as usize, end: trim_hi(s, a, end) as usize })
            },
            None => None,
        },
        levels: tag_value(s, tags, "building:levels"@),
        height_fallback: fb.building_height.height_of(btype),
    }
}

/// `</way>` ends a way: when some of its nodes are declared, their coordinates are
/// stored once and the way becomes a road (if it has a known `highway` class), a
/// building (if it has a `building` tag) and a crosswalk (if tagged `footway=crossing`).
pub open spec fn rule_way_close<S>(st: ScanState<S>, s: Seq<char>, lo: int, hi: int, fb: Fallbacks<S>) -> ScanState<S> {
    if span_is(s, lo, hi, "</way>"@) {
        let cs = resolve(st.nodes, st.way_nodes);
        let id = match st.way_id {
            Some(i) => i,
            None => 0,
        };
        let range = CoordRange { start: st.coords.len() as usize, end: (st.coords.len() + cs.len()) as usize };
        let road = way_road(s, st.tags, id, range, fb);
        let is_building = tag_value(s, st.tags, "building"@) is Some;
        let is_crossing = tag_is(s, st.tags, "footway"@, "crossing"@);
        if cs.len() == 0 || (road is None && !is_building && !is_crossing) {
            ScanState { in_way: false, ..st }
        } else {
            ScanState {
                in_way: false,
                coords: st.coords + cs,
                roads: match road {
                    Some(r) => st.roads.push(r),
                    None => st.roads,
                },
                buildings: if is_building {
                    st.buildings.push(way_building(s, st.tags, id, range, fb))
                } else {
                    st.buildings
                },
                crosswalks: if is_crossing {
                    st.crosswalks.push(OsmCrosswalk { id, nodes: range, signal_id: None })
                } else {
                    st.crosswalks
                },
                ..st
            }
        }
    } else {
        st
    }
}

/// One line `s[lo..hi]` (already trimmed), rule after rule.
pub open spec fn scan_line<S>(st: ScanState<S>, s: Seq<char>, lo: int, hi: int, fb: Fallbacks<S>) -> ScanState<S> {
    let st1 = rule_node_decl(st, s, lo, hi);
    let st2 = rule_node_open(st1, s, lo, hi);
    let st3 = rule_node_close(st2, s, lo, hi, fb);
    let st4 = rule_way_open(st3, s, lo, hi);
    let st5 = rule_nd(st4, s, lo, hi);
    let st6 = rule_tag(st5, s, lo, hi);
    rule_way_close(st6, s, lo, hi, fb)
}

/// Where `find_in` can land.
pub proof fn lemma_find_in_range(s: Seq<char>, from: int, hi: int, p: Seq<char>)
    ensures
        find_in(s, from, hi, p) matches Some(i) ==> from <= i && i + p.len() <= hi,
    decreases hi - from,
{
    if from + p.len() <= hi && !(p.len() == 0 || s.subrange(from, from + p.len()) == p) {
        lemma_find_in_range(s, from + 1, hi, p);
    }
}

/// Attribute values lie inside their line.
pub proof fn lemma_attr_span_range(s: Seq<char>, lo: int, hi: int, pat: Seq<char>)
    requires
        0 <= lo,
        hi <= usize::MAX,
    ensures
        attr_span(s, lo, hi, pat) matches Some(sp) ==> lo <= sp.start <= sp.end <= hi,
{
    lemma_find_in_range(s, lo, hi, pat);
    match find_in(s, lo, hi, pat) {
        Some(i) => lemma_find_in_range(s, i + pat.len(), hi, seq!['"']),
        None => {},
    }
}

/// The literal texts the reader looks for.
pub struct Patterns {
    pub node_open: Vec<char>,
    pub node_close: Vec<char>,
    pub self_close: Vec<char>,
    pub way_open: Vec<char>,
    pub way_close: Vec<char>,
    pub nd_open: Vec<char>,
    pub tag_open: Vec<char>,
    pub id_attr: Vec<char>,
    pub lat_attr: Vec<char>,
    pub lon_attr: Vec<char>,
    pub ref_attr: Vec<char>,
    pub k_attr: Vec<char>,
    pub v_attr: Vec<char>,
    pub quote: Vec<char>,
    pub highway: Vec<char>,
    pub traffic_signals: Vec<char>,
    pub lanes: Vec<char>,
    pub oneway: Vec<char>,
    pub yes: Vec<char>,
    pub one: Vec<char>,
    pub maxspeed: Vec<char>,
    pub kmh: Vec<char>,
    pub surface: Vec<char>,
    pub concrete: Vec<char>,
    pub gravel: Vec<char>,
    pub grass: Vec<char>,
    pub layer: Vec<char>,
    pub bridge: Vec<char>,
    pub tunnel: Vec<char>,
    pub name: Vec<char>,
    pub building: Vec<char>,
    pub commercial: Vec<char>,
    pub retail: Vec<char>,
    pub office: Vec<char>,
    pub residential: Vec<char>,
    pub apartments: Vec<char>,
    pub house: Vec<char>,
    pub industrial: Vec<char>,
    pub warehouse: Vec<char>,
    pub height: Vec<char>,
    pub metre: Vec<char>,
    pub levels: Vec<char>,
    pub footway: Vec<char>,
    pub crossing: Vec<char>,
}

impl Patterns {
    pub open spec fn ok(&self) -> bool {
        &&& self.node_open@ == "<node"@
        &&& self.node_close@ == "</node>"@
        &&& self.self_close@ == "/>"@
        &&& self.way_open@ == "<way"@
        &&& self.way_close@ == "</way>"@
        &&& self.nd_open@ == "<nd"@
        &&& self.tag_open@ == "<tag"@
        &&& self.id_attr@ == "id=\""@
        &&& self.lat_attr@ == "lat=\""@
        &&& self.lon_attr@ == "lon=\""@
        &&& self.ref_attr@ == "ref=\""@
        &&& self.k_attr@ == "k=\""@
        &&& self.v_attr@ == "v=\""@
        &&& self.quote@ == seq!['"']
        &&& self.highway@ == "highway"@
        &&& self.traffic_signals@ == "traffic_signals"@
        &&& self.lanes@ == "lanes"@
        &&& self.oneway@ == "oneway"@
        &&& self.yes@ == "yes"@
        &&& self.one@ == "1"@
        &&& self.maxspeed@ == "maxspeed"@
        &&& self.kmh@ == " km/h"@
        &&& self.surface@ == "surface"@
        &&& self.concrete@ == "concrete"@
        &&& self.gravel@ == "gravel"@
        &&& self.grass@ == "grass"@
        &&& self.layer@ == "layer"@
        &&& self.bridge@ == "bridge"@
        &&& self.tunnel@ == "tunnel"@
        &&& self.name@ == "name"@
        &&& self.building@ == "building"@
        &&& self.commercial@ == "commercial"@
        &&& self.retail@ == "retail"@
        &&& self.office@ == "office"@
        &&& self.residential@ == "residential"@
        &&& self.apartments@ == "apartments"@
        &&& self.house@ == "house"@
        &&& self.industrial@ == "industrial"@
        &&& self.warehouse@ == "warehouse"@
        &&& self.height@ == "height"@
        &&& self.metre@ == "m"@
        &&& self.levels@ == "building:levels"@
        &&& self.footway@ == "footway"@
        &&& self.crossing@ == "crossing"@
    }

    pub fn new() -> (res: Self)
        ensures
            res.ok(),
    {
        let mut quote: Vec<char> = Vec::new();
        quote.push('"');
        Patterns {
            node_open: chars_of("<node"),
            node_close: chars_of("</node>"),
            self_close: chars_of("/>"),
            way_open: chars_of("<way"),
            way_close: chars_of("</way>"),
            nd_open: chars_of("<nd"),
            tag_open: chars_of("<tag"),
            id_attr: chars_of("id=\""),
            lat_attr: chars_of("lat=\""),
            lon_attr: chars_of("lon=\""),
            ref_attr: chars_of("ref=\""),
            k_attr: chars_of("k=\""),
            v_attr: chars_of("v=\""),
            quote,
            highway: chars_of("highway"),
            traffic_signals: chars_of("traffic_signals"),
            lanes: chars_of("lanes"),
            oneway: chars_of("oneway"),
            yes: chars_of("yes"),
            one: chars_of("1"),
            maxspeed: chars_of("maxspeed"),
            kmh: chars_of(" km/h"),
            surface: chars_of("surface"),
            concrete: chars_of("concrete"),
            gravel: chars_of("gravel"),
            grass: chars_of("grass"),
            layer: chars_of("layer"),
            bridge: chars_of("bridge"),
            tunnel: chars_of("tunnel"),
            name: chars_of("name"),
            building: chars_of("building"),
            commercial: chars_of("commercial"),
            retail: chars_of("retail"),
            office: chars_of("office"),
            residential: chars_of("residential"),
            apartments: chars_of("apartments"),
            house: chars_of("house"),
            industrial: chars_of("industrial"),
            warehouse: chars_of("warehouse"),
            height: chars_of("height"),
            metre: chars_of("m"),
            levels: chars_of("building:levels"),
            footway: chars_of("footway"),
            crossing: chars_of("crossing"),
        }
    }
}

/// The value of the attribute with pattern `pat` in the line `s[lo..hi]`.
fn attr(s: &Vec<char>, lo: usize, hi: usize, pat: &Vec<char>, quote: &Vec<char>) -> (res: Option<TextSpan>)
    requires
        valid_span(s@, lo as int, hi as int),
        quote@ == seq!['"'],
    ensures
        res == attr_span(s@, lo as int, hi as int, pat@),
        res matches Some(sp) ==> lo <= sp.start <= sp.end <= hi,
{
    proof {
        lemma_attr_span_range(s@, lo as int, hi as int, pat@);
        lemma_find_in_range(s@, lo as int, hi as int, pat@);
    }
    match find(s, lo, hi, pat) {
        None => None,
        Some(i) => {
            let start = i + pat.len();
            proof {
                lemma_find_in_range(s@, start as int, hi as int, quote@);
            }
            match find(s, start, hi, quote) {
                None => None,
                Some(j) => Some(TextSpan { start, end: j }),
            }
        },
    }
}

/// Every span is a span of `s`.
pub open spec fn span_ok(s: Seq<char>, sp: TextSpan) -> bool {
    sp.start <= sp.end <= s.len()
}

pub open spec fn coord_ok(s: Seq<char>, c: TextCoord) -> bool {
    span_ok(s, c.lat) && span_ok(s, c.lon)
}

pub open spec fn opt_span_ok(s: Seq<char>, sp: Option<TextSpan>) -> bool {
    sp matches Some(x) ==> span_ok(s, x)
}

pub open spec fn range_ok(r: CoordRange, n: int) -> bool {
    r.start < r.end <= n
}

/// The value of the last tag with key `key`.
fn lookup_tag(s: &Vec<char>, tags: &Vec<(TextSpan, TextSpan)>, key: &Vec<char>) -> (res: Option<TextSpan>)
    requires
        forall|t: int| 0 <= t < tags@.len() ==> span_ok(s@, (#[trigger] tags@[t]).0) && span_ok(s@, tags@[t].1),
    ensures
        res == tag_value(s@, tags@, key@),
        res matches Some(v) ==> span_ok(s@, v),
{
    let mut i = tags.len();
    assert(tags@.take(i as int) =~= tags@);
    while i > 0
        invariant
            i <= tags@.len(),
            forall|t: int| 0 <= t < tags@.len() ==> span_ok(s@, (#[trigger] tags@[t]).0) && span_ok(s@, tags@[t].1),
            tag_value(s@, tags@, key@) == tag_value(s@, tags@.take(i as int), key@),
        decreases i,
    {
        let (k, v) = tags[i - 1];
        assert(tags@.take(i as int).drop_last() =~= tags@.take(i - 1));
        assert(tags@.take(i as int).last() == tags@[i - 1]);
        if is_exactly(s, k.start, k.end, key) {
            return Some(v);
        }
        i = i - 1;
    }
    None
}

/// Whether the tag `key` has the value `val`.
fn tag_has(s: &Vec<char>, tags: &Vec<(TextSpan, TextSpan)>, key: &Vec<char>, val: &Vec<char>) -> (res: bool)
    requires
        forall|t: int| 0 <= t < tags@.len() ==> span_ok(s@, (#[trigger] tags@[t]).0) && span_ok(s@, tags@[t].1),
    ensures
        res == tag_is(s@, tags@, key@, val@),
{
    match lookup_tag(s, tags, key) {
        Some(v) => is_exactly(s, v.start, v.end, val),
        None => false,
    }
}

/// A declared node's coordinate is one of the declared coordinates.
pub proof fn lemma_node_coord_ok(s: Seq<char>, nodes: Seq<(u64, TextCoord)>, id: u64)
    requires
        forall|t: int| 0 <= t < nodes.len() ==> coord_ok(s, (#[trigger] nodes[t]).1),
    ensures
        node_coord(nodes, id) matches Some(c) ==> coord_ok(s, c),
    decreases nodes.len(),
{
    if nodes.len() > 0 && nodes.last().0 != id {
        lemma_node_coord_ok(s, nodes.drop_last(), id);
    }
}

/// The coordinate most recently declared for node `id`.
fn lookup_node(nodes: &Vec<(u64, TextCoord)>, id: u64) -> (res: Option<TextCoord>)
    ensures
        res == node_coord(nodes@, id),
{
    let mut i = nodes.len();
    assert(nodes@.take(i as int) =~= nodes@);
    while i > 0
        invariant
            i <= nodes@.len(),
            node_coord(nodes@, id) == node_coord(nodes@.take(i as int), id),
        decreases i,
    {
        let (nid, c) = nodes[i - 1];
        assert(nodes@.take(i as int).drop_last() =~= nodes@.take(i - 1));
        assert(nodes@.take(i as int).last() == nodes@[i - 1]);
        if nid == id {
            return Some(c);
        }
        i = i - 1;
    }
    None
}

/// All spans and ranges held by a reader state lie inside the text `s` and the list of
/// coordinates.
pub open spec fn state_ok<S>(st: ScanState<S>, s: Seq<char>) -> bool {
    &&& forall|t: int| 0 <= t < st.nodes.len() ==> coord_ok(s, (#[trigger] st.nodes[t]).1)
    &&& forall|t: int| 0 <= t < st.tags.len() ==> span_ok(s, (#[trigger] st.tags[t]).0) && span_ok(s, st.tags[t].1)
    &&& forall|t: int| 0 <= t < st.coords.len() ==> coord_ok(s, #[trigger] st.coords[t])
    &&& st.coords.len() <= usize::MAX
    &&& forall|t: int| 0 <= t < st.roads.len() ==> road_ok(s, #[trigger] st.roads[t], st.coords.len() as int)
    &&& forall|t: int| 0 <= t < st.buildings.len() ==> building_ok(s, #[trigger] st.buildings[t], st.coords.len() as int)
    &&& forall|t: int| 0 <= t < st.signals.len() ==> coord_ok(s, (#[trigger] st.signals[t]).position)
    &&& forall|t: int| 0 <= t < st.crosswalks.len() ==> range_ok((#[trigger] st.crosswalks[t]).nodes, st.coords.len() as int)
}

/// A road's spans lie in the text, its node range in the coordinates, and its lanes
/// are split by direction: all forward on a one-way road, otherwise half each with
/// the odd lane going backward.
pub open spec fn road_ok<S>(s: Seq<char>, r: OsmRoad<S>, n: int) -> bool {
    &&& range_ok(r.nodes, n)
    &&& opt_span_ok(s, r.maxspeed)
    &&& opt_span_ok(s, r.name)
    &&& r.is_oneway ==> r.lanes_backward == 0
    &&& !r.is_oneway ==> r.lanes_backward == r.lanes_forward || r.lanes_backward == r.lanes_forward + 1
}

pub open spec fn building_ok<S>(s: Seq<char>, b: OsmBuilding<S>, n: int) -> bool {
    &&& range_ok(b.footprint, n)
    &&& opt_span_ok(s, b.height)
    &&& opt_span_ok(s, b.levels)
}

/// The reader's state while it works.
struct Scanner<S> {
    nodes: Vec<(u64, TextCoord)>,
    way_id: Option<u64>,
    way_nodes: Vec<u64>,
    tags: Vec<(TextSpan, TextSpan)>,
    in_way: bool,
    out: OsmData<S>,
}

impl<S: Copy> Scanner<S> {
    closed spec fn state(&self) -> ScanState<S> {
        ScanState {
            nodes: self.nodes@,
            way_id: self.way_id,
            way_nodes: self.way_nodes@,
            tags: self.tags@,
            in_way: self.in_way,
            coords: self.out.coords@,
            roads: self.out.roads@,
            buildings: self.out.buildings@,
            signals: self.out.signals@,
            crosswalks: self.out.crosswalks@,
        }
    }

    fn new() -> (res: Self)
        ensures
            res.state() == initial_state::<S>(),
    {
        let res = Scanner {
            nodes: Vec::new(),
            way_id: None,
            way_nodes: Vec::new(),
            tags: Vec::new(),
            in_way: false,
            out: OsmData {
                coords: Vec::new(),
                roads: Vec::new(),
                buildings: Vec::new(),
                signals: Vec::new(),
                crosswalks: Vec::new(),
            },
        };
        assert(res.state() =~= initial_state::<S>());
        res
    }

    fn node_decl(&mut self, s: &Vec<char>, lo: usize, hi: usize, pats: &Patterns)
        requires
            valid_span(s@, lo as int, hi as int),
            pats.ok(),
            state_ok(old(self).state(), s@),
        ensures
            final(self).state() == rule_node_decl(old(self).state(), s@, lo as int, hi as int),
            state_ok(final(self).state(), s@),
    {
        if starts_with(s, lo, hi, &pats.node_open) && find(s, lo, hi, &pats.node_close).is_none() {
            let id = attr(s, lo, hi, &pats.id_attr, &pats.quote);
            let lat = attr(s, lo, hi, &pats.lat_attr, &pats.quote);
            let lon = attr(s, lo, hi, &pats.lon_attr, &pats.quote);
            match (id, lat, lon) {
                (Some(i), Some(a), Some(o)) => {
                    let num = match parse_u64_span(s, i.start, i.end) {
                        Some(v) => v,
                        None => 0,
                    };
                    self.nodes.push((num, TextCoord { lat: a, lon: o }));
                },
                _ => {},
            }
        }
    }

    fn node_open(&mut self, s: &Vec<char>, lo: usize, hi: usize, pats: &Patterns)
        requires
            valid_span(s@, lo as int, hi as int),
            pats.ok(),
            state_ok(old(self).state(), s@),
        ensures
            final(self).state() == rule_node_open(old(self).state(), s@, lo as int, hi as int),
            state_ok(final(self).state(), s@),
    {
        if starts_with(s, lo, hi, &pats.node_open) && !ends_with(s, lo, hi, &pats.self_close) {
            match attr(s, lo, hi, &pats.id_attr, &pats.quote) {
                Some(i) => {
                    let num = match parse_u64_span(s, i.start, i.end) {
                        Some(v) => v,
                        None => 0,
                    };
                    self.way_id = Some(num);
                    self.tags = Vec::new();
                },
                None => {},
            }
        }
        assert(final(self).state() =~= rule_node_open(old(self).state(), s@, lo as int, hi as int));
    }

    fn node_close(&mut self, s: &Vec<char>, lo: usize, hi: usize, fb: &Fallbacks<S>, pats: &Patterns)
        requires
            valid_span(s@, lo as int, hi as int),
            pats.ok(),
            state_ok(old(self).state(), s@),
        ensures
            final(self).state() == rule_node_close(old(self).state(), s@, lo as int, hi as int, *fb),
            state_ok(final(self).state(), s@),
    {
        if is_exactly(s, lo, hi, &pats.node_close) {
            match self.way_id {
                Some(id) => {
                    if tag_has(s, &self.tags, &pats.highway, &pats.traffic_signals) {
                        proof {
                            lemma_node_coord_ok(s@, self.nodes@, id);
                        }
                        match lookup_node(&self.nodes, id) {
                            Some(c) => {
                                self.out.signals.push(
                                    OsmSignal { id, position: c, cycle_time: fb.signal_timing.four_way },
                                );
                            },
                            None => {},
                        }
                    }
                },
                None => {},
            }
            self.way_id = None;
        }
        assert(final(self).state() =~= rule_node_close(old(self).state(), s@, lo as int, hi as int, *fb));
    }

    fn way_open(&mut self, s: &Vec<char>, lo: usize, hi: usize, pats: &Patterns)
        requires
            valid_span(s@, lo as int, hi as int),
            pats.ok(),
            state_ok(old(self).state(), s@),
        ensures
            final(self).state() == rule_way_open(old(self).state(), s@, lo as int, hi as int),
            state_ok(final(self).state(), s@),
    {
        if starts_with(s, lo, hi, &pats.way_open) {
            self.in_way = true;
            self.way_nodes = Vec::new();
            self.tags = Vec::new();
            match attr(s, lo, hi, &pats.id_attr, &pats.quote) {
                Some(i) => {
                    let num = match parse_u64_span(s, i.start, i.end) {
                        Some(v) => v,
                        None => 0,
                    };
                    self.way_id = Some(num);
                },
                None => {},
            }
        }
        assert(final(self).state() =~= rule_way_open(old(self).state(), s@, lo as int, hi as int));
    }

    fn nd(&mut self, s: &Vec<char>, lo: usize, hi: usize, pats: &Patterns)
        requires
            valid_span(s@, lo as int, hi as int),
            pats.ok(),
            state_ok(old(self).state(), s@),
        ensures
            final(self).state() == rule_nd(old(self).state(), s@, lo as int, hi as int),
            state_ok(final(self).state(), s@),
    {
        if self.in_way && starts_with(s, lo, hi, &pats.nd_open) {
            match attr(s, lo, hi, &pats.ref_attr, &pats.quote) {
                Some(r) => match parse_u64_span(s, r.start, r.end) {
                    Some(v) => {
                        self.way_nodes.push(v);
                    },
                    None => {},
                },
                None => {},
            }
        }
        assert(final(self).state() =~= rule_nd(old(self).state(), s@, lo as int, hi as int));
    }

    fn tag(&mut self, s: &Vec<char>, lo: usize, hi: usize, pats: &Patterns)
        requires
            valid_span(s@, lo as int, hi as int),
            pats.ok(),
            state_ok(old(self).state(), s@),
        ensures
            final(self).state() == rule_tag(old(self).state(), s@, lo as int, hi as int),
            state_ok(final(self).state(), s@),
    {
        if starts_with(s, lo, hi, &pats.tag_open) {
            let k = attr(s, lo, hi, &pats.k_attr, &pats.quote);
            let v = attr(s, lo, hi, &pats.v_attr, &pats.quote);
            match (k, v) {
                (Some(k), Some(v)) => {
                    self.tags.push((k, v));
                },
                _ => {},
            }
        }
        assert(final(self).state() =~= rule_tag(old(self).state(), s@, lo as int, hi as int));
    }

    fn way_close(&mut self, s: &Vec<char>, lo: usize, hi: usize, fb: &Fallbacks<S>, pats: &Patterns)
        requires
            valid_span(s@, lo as int, hi as int),
            pats.ok(),
            lanes_fit(*fb),
            state_ok(old(self).state(), s@),
        ensures
            final(self).state() == rule_way_close(old(self).state(), s@, lo as int, hi as int, *fb),
            state_ok(final(self).state(), s@),
    {
        if !is_exactly(s, lo, hi, &pats.way_close) {
            return;
        }
        let ghost st = self.state();
        self.in_way = false;
        let mut cs: Vec<TextCoord> = Vec::new();
        let count = self.way_nodes.len();
        for t in 0..count
            invariant
                count == self.way_nodes@.len(),
                self.state() == (ScanState { in_way: false, ..st }),
                state_ok(st, s@),
                cs@ == resolve(st.nodes, st.way_nodes.take(t as int)),
                forall|u: int| 0 <= u < cs@.len() ==> coord_ok(s@, #[trigger] cs@[u]),
        {
            proof {
                assert(st.way_nodes.take(t + 1).drop_last() =~= st.way_nodes.take(t as int));
                lemma_node_coord_ok(s@, st.nodes, st.way_nodes[t as int]);
            }
            match lookup_node(&self.nodes, self.way_nodes[t]) {
                Some(c) => {
                    cs.push(c);
                },
                None => {},
            }
            assert(cs@ =~= resolve(st.nodes, st.way_nodes.take(t + 1)));
        }
        assert(st.way_nodes.take(count as int) =~= st.way_nodes);
        if cs.len() == 0 {
            return;
        }
        let id = match self.way_id {
            Some(i) => i,
            None => 0,
        };
        let start = self.out.coords.len();
        let is_building = lookup_tag(s, &self.tags, &pats.building).is_some();
        let is_crossing = tag_has(s, &self.tags, &pats.footway, &pats.crossing);
        let ghost range_spec = CoordRange { start: st.coords.len() as usize, end: (st.coords.len() + cs@.len()) as usize };
        let has_road = match lookup_tag(s, &self.tags, &pats.highway) {
            Some(hv) => {
                let hv_text = span_chars(s, hv.start, hv.end);
                HighwayClass::from_chars(&hv_text).is_some()
            },
            None => false,
        };
        assert(has_road == (way_road(s@, st.tags, id, range_spec, *fb) is Some));
        if !has_road && !is_building && !is_crossing {
            return;
        }
        let ghost added = cs@;
        self.out.coords.append(&mut cs);
        let end = self.out.coords.len();
        let range = CoordRange { start, end };
        assert(range == range_spec);
        match road_of(s, &self.tags, id, range, fb, pats) {
            Some(r) => {
                self.out.roads.push(r);
            },
            None => {},
        }
        if is_building {
            let b = building_of(s, &self.tags, id, range, fb, pats);
            self.out.buildings.push(b);
        }
        if is_crossing {
            self.out.crosswalks.push(OsmCrosswalk { id, nodes: range, signal_id: None });
        }
        let ghost fin = self.state();
        assert(fin.coords =~= st.coords + added);
        assert(fin =~= rule_way_close(st, s@, lo as int, hi as int, *fb));
        assert forall|t: int| 0 <= t < fin.coords.len() implies coord_ok(s@, #[trigger] fin.coords[t]) by {
            if t < st.coords.len() {
                assert(fin.coords[t] == st.coords[t]);
            } else {
                assert(fin.coords[t] == added[t - st.coords.len()]);
            }
        }
        assert forall|t: int| 0 <= t < fin.roads.len() implies road_ok(s@, #[trigger] fin.roads[t], fin.coords.len() as int) by {
            if t < st.roads.len() {
                assert(fin.roads[t] == st.roads[t]);
            }
        }
        assert forall|t: int| 0 <= t < fin.buildings.len() implies building_ok(s@, #[trigger] fin.buildings[t], fin.coords.len() as int) by {
            if t < st.buildings.len() {
                assert(fin.buildings[t] == st.buildings[t]);
            }
        }
        assert forall|t: int| 0 <= t < fin.crosswalks.len() implies range_ok((#[trigger] fin.crosswalks[t]).nodes, fin.coords.len() as int) by {
            if t < st.crosswalks.len() {
                assert(fin.crosswalks[t] == st.crosswalks[t]);
            }
        }
    }

    fn line(&mut self, s: &Vec<char>, lo: usize, hi: usize, fb: &Fallbacks<S>, pats: &Patterns)
        requires
            valid_span(s@, lo as int, hi as int),
            pats.ok(),
            lanes_fit(*fb),
            state_ok(old(self).state(), s@),
        ensures
            final(self).state() == scan_line(old(self).state(), s@, lo as int, hi as int, *fb),
            state_ok(final(self).state(), s@),
    {
        self.node_decl(s, lo, hi, pats);
        self.node_open(s, lo, hi, pats);
        self.node_close(s, lo, hi, fb, pats);
        self.way_open(s, lo, hi, pats);
        self.nd(s, lo, hi, pats);
        self.tag(s, lo, hi, pats);
        self.way_close(s, lo, hi, fb, pats);
    }
}

/// Lane fallbacks small enough that twice their value is still a `u8`.
pub open spec fn lanes_fit<S>(fb: Fallbacks<S>) -> bool {
    &&& fb.lane_count.motorway <= 127
    &&& fb.lane_count.primary <= 127
    &&& fb.lane_count.secondary <= 127
    &&& fb.lane_count.tertiary <= 127
    &&& fb.lane_count.residential <= 127
}

/// The characters of `s[lo..hi]`.
fn span_chars(s: &Vec<char>, lo: usize, hi: usize) -> (res: Vec<char>)
    requires
        valid_span(s@, lo as int, hi as int),
    ensures
        res@ == s@.subrange(lo as int, hi as int),
{
    let mut res: Vec<char> = Vec::new();
    for i in lo..hi
        invariant
            valid_span(s@, lo as int, hi as int),
            res@ == s@.subrange(lo as int, i as int),
    {
        res.push(s[i]);
        assert(res@ =~= s@.subrange(lo as int, i + 1));
    }
    res
}

fn surface_of(s: &Vec<char>, tags: &Vec<(TextSpan, TextSpan)>, pats: &Patterns) -> (res: SurfaceType)
    requires
        pats.ok(),
        forall|t: int| 0 <= t < tags@.len() ==> span_ok(s@, (#[trigger] tags@[t]).0) && span_ok(s@, tags@[t].1),
    ensures
        res == road_surface(s@, tags@),
{
    match lookup_tag(s, tags, &pats.surface) {
        Some(v) => if is_exactly(s, v.start, v.end, &pats.concrete) {
            SurfaceType::Concrete
        } else if is_exactly(s, v.start, v.end, &pats.gravel) {
            SurfaceType::Gravel
        } else if is_exactly(s, v.start, v.end, &pats.grass) {
            SurfaceType::Grass
        } else {
            SurfaceType::Asphalt
        },
        None => SurfaceType::Asphalt,
    }
}

fn layer_of(s: &Vec<char>, tags: &Vec<(TextSpan, TextSpan)>, pats: &Patterns) -> (res: i8)
    requires
        pats.ok(),
        forall|t: int| 0 <= t < tags@.len() ==> span_ok(s@, (#[trigger] tags@[t]).0) && span_ok(s@, tags@[t].1),
    ensures
        res == road_layer(s@, tags@),
{
    match lookup_tag(s, tags, &pats.layer) {
        Some(v) => match parse_i8_span(s, v.start, v.end) {
            Some(n) => n,
            None => 0,
        },
        None => 0,
    }
}

/// The road a way with these tags is, if any.
fn road_of<S: Copy>(
    s: &Vec<char>,
    tags: &Vec<(TextSpan, TextSpan)>,
    id: u64,
    nodes: CoordRange,
    fb: &Fallbacks<S>,
    pats: &Patterns,
) -> (res: Option<OsmRoad<S>>)
    requires
        pats.ok(),
        lanes_fit(*fb),
        forall|t: int| 0 <= t < tags@.len() ==> span_ok(s@, (#[trigger] tags@[t]).0) && span_ok(s@, tags@[t].1),
    ensures
        res == way_road(s@, tags@, id, nodes, *fb),
        res matches Some(r) ==> opt_span_ok(s@, r.maxspeed) && opt_span_ok(s@, r.name),
{
    let hv = match lookup_tag(s, tags, &pats.highway) {
        Some(v) => v,
        None => return None,
    };
    let hv_text = span_chars(s, hv.start, hv.end);
    let class = match HighwayClass::from_chars(&hv_text) {
        Some(c) => c,
        None => return None,
    };
    let fallback_lanes = fb.lane_count_for(&class) * 2;
    let total: u8 = match lookup_tag(s, tags, &pats.lanes) {
        Some(v) => match parse_u8_span(s, v.start, v.end) {
            Some(n) => n,
            None => fallback_lanes,
        },
        None => fallback_lanes,
    };
    let oneway = match lookup_tag(s, tags, &pats.oneway) {
        Some(v) => is_exactly(s, v.start, v.end, &pats.yes) || is_exactly(s, v.start, v.end, &pats.one),
        None => match class {
            HighwayClass::Motorway | HighwayClass::MotorwayLink => true,
            _ => false,
        },
    };
    let (lanes_forward, lanes_backward) = if oneway {
        (total, 0u8)
    } else {
        (total / 2, total - total / 2)
    };
    let maxspeed = match lookup_tag(s, tags, &pats.maxspeed) {
        Some(v) => Some(TextSpan { start: v.start, end: strip_all_suffixes(s, v.start, v.end, &pats.kmh) }),
        None => None,
    };
    let road = OsmRoad {
        id,
        nodes,
        highway_class: class,
        lanes_forward,
        lanes_backward,
        maxspeed,
        speed_fallback_kmh: fb.speed_limit_for(&class),
        surface: surface_of(s, tags, pats),
        is_oneway: oneway,
        layer: layer_of(s, tags, pats),
        is_bridge: tag_has(s, tags, &pats.bridge, &pats.yes),
        is_tunnel: tag_has(s, tags, &pats.tunnel, &pats.yes),
        name: lookup_tag(s, tags, &pats.name),
    };
    Some(road)
}

/// The use class named by the building value `s[lo..hi]`.
fn building_type_of(s: &Vec<char>, lo: usize, hi: usize, pats: &Patterns) -> (res: BuildingType)
    requires
        pats.ok(),
        valid_span(s@, lo as int, hi as int),
    ensures
        res == building_type_named(s@.subrange(lo as int, hi as int)),
{
    if is_exactly(s, lo, hi, &pats.commercial) || is_exactly(s, lo, hi, &pats.retail)
        || is_exactly(s, lo, hi, &pats.office) {
        BuildingType::Commercial
    } else if is_exactly(s, lo, hi, &pats.residential) || is_exactly(s, lo, hi, &pats.apartments)
        || is_exactly(s, lo, hi, &pats.house) {
        BuildingType::Residential
    } else if is_exactly(s, lo, hi, &pats.industrial) || is_exactly(s, lo, hi, &pats.warehouse) {
        BuildingType::Industrial
    } else {
        BuildingType::Other
    }
}

/// The building a way with a `building` tag is.
fn building_of<S: Copy>(
    s: &Vec<char>,
    tags: &Vec<(TextSpan, TextSpan)>,
    id: u64,
    nodes: CoordRange,
    fb: &Fallbacks<S>,
    pats: &Patterns,
) -> (res: OsmBuilding<S>)
    requires
        pats.ok(),
        forall|t: int| 0 <= t < tags@.len() ==> span_ok(s@, (#[trigger] tags@[t]).0) && span_ok(s@, tags@[t].1),
    ensures
        res == way_building(s@, tags@, id, nodes, *fb),
        opt_span_ok(s@, res.height),
        opt_span_ok(s@, res.levels),
{
    let btype = match lookup_tag(s, tags, &pats.building) {
        Some(v) => building_type_of(s, v.start, v.end, pats),
        None => BuildingType::Other,
    };
    let height = match lookup_tag(s, tags, &pats.height) {
        Some(v) => {
            let end = strip_all_suffixes(s, v.start, v.end, &pats.metre);
            let (a, b) = trim(s, v.start, end);
            Some(TextSpan { start: a, end: b })
        },
        None => None,
    };
    OsmBuilding {
        id,
        footprint: nodes,
        building_type: btype,
        height,
        levels: lookup_tag(s, tags, &pats.levels),
        height_fallback: fb.building_height_for(&btype),
    }
}

/// The reader's state after reading the lines of `s` from position `pos` on, starting
/// from `st`. A line ends at a newline or at the end of the text and is trimmed of
/// whitespace (which also removes a carriage return before the newline).
pub open spec fn scan_from<S>(st: ScanState<S>, s: Seq<char>, pos: int, fb: Fallbacks<S>) -> ScanState<S>
    decreases s.len() - pos + 1,
{
    if pos < 0 || pos > s.len() {
        st
    } else {
        let nl = find_in(s, pos, s.len() as int, seq!['\n']);
        let end = match nl {
            Some(i) => i,
            None => s.len() as int,
        };
        let a = trim_lo(s, pos, end);
        let next = scan_line(st, s, a, trim_hi(s, a, end), fb);
        match nl {
            Some(i) => if pos <= i < s.len() {
                scan_from(next, s, i + 1, fb)
            } else {
                next
            },
            None => next,
        }
    }
}

/// What reading the whole text `s` gives.
pub open spec fn scan_document<S>(s: Seq<char>, fb: Fallbacks<S>) -> ScanState<S> {
    scan_from(initial_state(), s, 0, fb)
}

/// Reads an OpenStreetMap XML document. Requires lane fallbacks of at most 127, so
/// that doubling one stays a `u8`.
pub fn scan_osm<S: Copy>(xml: &str, fallbacks: &Fallbacks<S>) -> (res: OsmData<S>)
    requires
        lanes_fit(*fallbacks),
    ensures
        res.coords@ == scan_document(xml@, *fallbacks).coords,
        res.roads@ == scan_document(xml@, *fallbacks).roads,
        res.buildings@ == scan_document(xml@, *fallbacks).buildings,
        res.signals@ == scan_document(xml@, *fallbacks).signals,
        res.crosswalks@ == scan_document(xml@, *fallbacks).crosswalks,
        state_ok(scan_document(xml@, *fallbacks), xml@),
{
    let src = chars_of(xml);
    let pats = Patterns::new();
    let mut newline: Vec<char> = Vec::new();
    newline.push('\n');
    let mut scanner: Scanner<S> = Scanner::new();
    let n = src.len();
    let mut pos: usize = 0;
    assert(state_ok(scanner.state(), src@));
    loop
        invariant_except_break
            scan_from(scanner.state(), src@, pos as int, *fallbacks) == scan_document(src@, *fallbacks),
        invariant
            n == src@.len(),
            src@ == xml@,
            pos <= n,
            pats.ok(),
            newline@ == seq!['\n'],
            lanes_fit(*fallbacks),
            state_ok(scanner.state(), src@),
        ensures
            scanner.state() == scan_document(src@, *fallbacks),
            state_ok(scanner.state(), src@),
        decreases n - pos,
    {
        let ghost prev = scanner.state();
        proof {
            lemma_find_in_range(src@, pos as int, n as int, newline@);
        }
        let nl = find(&src, pos, n, &newline);
        let end = match nl {
            Some(i) => i,
            None => n,
        };
        let (a, b) = trim(&src, pos, end);
        scanner.line(&src, a, b, fallbacks, &pats);
        match nl {
            Some(i) => {
                pos = i + 1;
            },
            None => {
                break;
            },
        }
    }
    assert(scanner.state().coords == scanner.out.coords@);
    scanner.out
}


proof fn lemma_building_values_revealed()
    ensures
        "commercial"@ =~= seq!['c', 'o', 'm', 'm', 'e', 'r', 'c', 'i', 'a', 'l'],
        "retail"@ =~= seq!['r', 'e', 't', 'a', 'i', 'l'],
        "office"@ =~= seq!['o', 'f', 'f', 'i', 'c', 'e'],
        "residential"@ =~= seq!['r', 'e', 's', 'i', 'd', 'e', 'n', 't', 'i', 'a', 'l'],
        "apartments"@ =~= seq!['a', 'p', 'a', 'r', 't', 'm', 'e', 'n', 't', 's'],
        "house"@ =~= seq!['h', 'o', 'u', 's', 'e'],
        "industrial"@ =~= seq!['i', 'n', 'd', 'u', 's', 't', 'r', 'i', 'a', 'l'],
        "warehouse"@ =~= seq!['w', 'a', 'r', 'e', 'h', 'o', 'u', 's', 'e'],
{
    reveal_strlit("commercial");
    reveal_strlit("retail");
    reveal_strlit("office");
    reveal_strlit("residential");
    reveal_strlit("apartments");
    reveal_strlit("house");
    reveal_strlit("industrial");
    reveal_strlit("warehouse");
}

/// The `building` values and their use classes, value by value: `commercial`,
/// `retail` and `office` buildings are commercial; `residential`, `apartments` and
/// `house` buildings residential; `industrial` and `warehouse` buildings
/// industrial; any other value names no class of its own.
pub proof fn lemma_building_values(t: Seq<char>)
    ensures
        building_type_named("commercial"@) == BuildingType::Commercial,
        building_type_named("retail"@) == BuildingType::Commercial,
        building_type_named("office"@) == BuildingType::Commercial,
        building_type_named("residential"@) == BuildingType::Residential,
        building_type_named("apartments"@) == BuildingType::Residential,
        building_type_named("house"@) == BuildingType::Residential,
        building_type_named("industrial"@) == BuildingType::Industrial,
        building_type_named("warehouse"@) == BuildingType::Industrial,
        t != "commercial"@ && t != "retail"@ && t != "office"@ && t != "residential"@
            && t != "apartments"@ && t != "house"@ && t != "industrial"@ && t != "warehouse"@
            ==> building_type_named(t) == BuildingType::Other,
{
    lemma_building_values_revealed();
    // Values of equal length differ in their first letter.
    assert("commercial"@[0] != "apartments"@[0]);
    assert("commercial"@[0] != "industrial"@[0]);
    assert("apartments"@[0] != "industrial"@[0]);
    assert("retail"@[0] != "office"@[0]);
}


/// A building's use class comes from its `building` value (none: other), and its
/// fallback height is the height table's entry for that class.
pub proof fn lemma_way_building_use<S>(
    s: Seq<char>,
    tags: Seq<(TextSpan, TextSpan)>,
    id: u64,
    nodes: CoordRange,
    fb: Fallbacks<S>,
)
    ensures
        ({
            let b = way_building(s, tags, id, nodes, fb);
            &&& tag_value(s, tags, "building"@) is None ==> b.building_type == BuildingType::Other
            &&& (tag_value(s, tags, "building"@) matches Some(v) ==> b.building_type == building_type_named(text(s, v)))
            &&& b.building_type == BuildingType::Commercial ==> b.height_fallback == fb.building_height.commercial
            &&& b.building_type == BuildingType::Residential ==> b.height_fallback == fb.building_height.residential
            &&& b.building_type == BuildingType::Industrial ==> b.height_fallback == fb.building_height.industrial
            &&& b.building_type == BuildingType::Other ==> b.height_fallback == fb.building_height.default
            &&& b.id == id
            &&& b.footprint == nodes
        }),
{
}


/// A way becomes a road exactly when its `highway` value names a road class, and the
/// road then has:
/// - that class, the way's id and node range, and the class's fallback speed;
/// - `lanes` lanes in all when that tag is a number up to 255, otherwise twice the
///   class's fallback lanes per direction;
/// - one-way when tagged `oneway=yes` or `oneway=1`, or, without an `oneway` tag,
///   when it is a motorway or motorway link;
/// - on a one-way road all lanes forward, otherwise half of them (rounded down)
///   forward and the rest backward;
/// - the surface tagged `concrete`, `gravel` or `grass`, asphalt otherwise;
/// - the `layer` tag when it is an `i8`, layer 0 otherwise;
/// - bridge or tunnel exactly when tagged `bridge=yes` or `tunnel=yes`.
pub proof fn lemma_way_road_fields<S>(
    s: Seq<char>,
    tags: Seq<(TextSpan, TextSpan)>,
    id: u64,
    nodes: CoordRange,
    fb: Fallbacks<S>,
)
    requires
        lanes_fit(fb),
    ensures
        way_road(s, tags, id, nodes, fb) is Some <==> (tag_value(s, tags, "highway"@) matches Some(hv)
            && highway_class_named(text(s, hv)) is Some),
        way_road(s, tags, id, nodes, fb) matches Some(r) ==> {
            let hv = tag_value(s, tags, "highway"@)->0;
            let class = r.highway_class;
            let total: int = match tag_value(s, tags, "lanes"@) {
                Some(v) => match parse_unsigned(text(s, v), 255) {
                    Some(n) => n,
                    None => 2 * fb.lane_count.lanes_of(class),
                },
                None => 2 * fb.lane_count.lanes_of(class),
            };
            &&& highway_class_named(text(s, hv)) == Some(class)
            &&& r.id == id
            &&& r.nodes == nodes
            &&& r.speed_fallback_kmh == fb.speed_limit.speed_of(class)
            &&& r.is_oneway == match tag_value(s, tags, "oneway"@) {
                Some(v) => text(s, v) == "yes"@ || text(s, v) == "1"@,
                None => class == HighwayClass::Motorway || class == HighwayClass::MotorwayLink,
            }
            &&& r.lanes_forward + r.lanes_backward == total
            &&& r.is_oneway ==> r.lanes_backward == 0
            &&& !r.is_oneway ==> r.lanes_forward == total / 2
            &&& r.surface == match tag_value(s, tags, "surface"@) {
                Some(v) => if text(s, v) == "concrete"@ {
                    SurfaceType::Concrete
                } else if text(s, v) == "gravel"@ {
                    SurfaceType::Gravel
                } else if text(s, v) == "grass"@ {
                    SurfaceType::Grass
                } else {
                    SurfaceType::Asphalt
                },
                None => SurfaceType::Asphalt,
            }
            &&& r.layer == match tag_value(s, tags, "layer"@) {
                Some(v) => match parse_i8_text(text(s, v)) {
                    Some(n) => n,
                    None => 0int,
                },
                None => 0int,
            }
            &&& r.is_bridge == (tag_value(s, tags, "bridge"@) matches Some(v) && text(s, v) == "yes"@)
            &&& r.is_tunnel == (tag_value(s, tags, "tunnel"@) matches Some(v) && text(s, v) == "yes"@)
            &&& r.name == tag_value(s, tags, "name"@)
        },
{
    match tag_value(s, tags, "lanes"@) {
        Some(v) => {
            match parse_unsigned(text(s, v), 255) {
                Some(n) => {
                    lemma_parse_unsigned_bound(text(s, v), 255);
                },
                None => {},
            }
        },
        None => {},
    }
    match tag_value(s, tags, "layer"@) {
        Some(v) => {
            lemma_parse_i8_text_bound(text(s, v));
        },
        None => {},
    }
}


/// Closing a way whose referenced nodes include declared ones stores their
/// coordinates once, in order, and adds one road when its `highway` value names a
/// class, one building when it has a `building` tag and one crosswalk when it is
/// tagged `footway=crossing`, all over those coordinates; a way with no declared node
/// adds nothing. Either way the reader leaves the way and the signals stay as they were.
pub proof fn lemma_way_close_outputs<S>(st: ScanState<S>, s: Seq<char>, lo: int, hi: int, fb: Fallbacks<S>)
    requires
        span_is(s, lo, hi, "</way>"@),
    ensures
        ({
            let next = rule_way_close(st, s, lo, hi, fb);
            let cs = resolve(st.nodes, st.way_nodes);
            let id: u64 = if st.way_id is Some { st.way_id->0 } else { 0 };
            let range = CoordRange { start: st.coords.len() as usize, end: (st.coords.len() + cs.len()) as usize };
            let road = way_road(s, st.tags, id, range, fb);
            let building = tag_value(s, st.tags, "building"@) is Some;
            let crossing = tag_value(s, st.tags, "footway"@) matches Some(v) && text(s, v) == "crossing"@;
            &&& !next.in_way
            &&& next.signals == st.signals
            &&& next.nodes == st.nodes
            &&& cs.len() == 0 ==> next.roads == st.roads && next.buildings == st.buildings
                && next.crosswalks == st.crosswalks && next.coords == st.coords
            &&& cs.len() > 0 ==> {
                &&& next.roads == if road is Some { st.roads.push(road->0) } else { st.roads }
                &&& next.buildings == if building {
                    st.buildings.push(way_building(s, st.tags, id, range, fb))
                } else {
                    st.buildings
                }
                &&& next.crosswalks == if crossing {
                    st.crosswalks.push(OsmCrosswalk { id, nodes: range, signal_id: None })
                } else {
                    st.crosswalks
                }
                &&& (road is Some || building || crossing) ==> next.coords == st.coords + cs
            }
        }),
{
}

/// Closing a node tagged `highway=traffic_signals` whose coordinate was declared
/// adds a signal there with the four-way cycle time; closing any other node adds
/// none. Nothing else read so far changes.
pub proof fn lemma_node_close_signal<S>(st: ScanState<S>, s: Seq<char>, lo: int, hi: int, fb: Fallbacks<S>)
    requires
        span_is(s, lo, hi, "</node>"@),
    ensures
        ({
            let next = rule_node_close(st, s, lo, hi, fb);
            let signal = st.way_id is Some
                && (tag_value(s, st.tags, "highway"@) matches Some(v) && text(s, v) == "traffic_signals"@)
                && node_coord(st.nodes, st.way_id->0) is Some;
            &&& next.way_id is None
            &&& next.roads == st.roads && next.buildings == st.buildings && next.crosswalks == st.crosswalks
            &&& next.coords == st.coords && next.nodes == st.nodes
            &&& signal ==> next.signals == st.signals.push(OsmSignal {
                id: st.way_id->0,
                position: node_coord(st.nodes, st.way_id->0)->0,
                cycle_time: fb.signal_timing.four_way,
            })
            &&& !signal ==> next.signals == st.signals
        }),
{
}

} // verus!
