//! The Overpass API query that fetches a bounding box's roads, buildings, signals
//! and crossings.
use vstd::prelude::*;
use vstd::string::StringExecFns;
use crate::config::BoundingBox;

verus! {

/// The `(south,west,north,east)` filter of a query.
pub open spec fn bbox_filter(b: BoundingBox<Seq<char>>) -> Seq<char> {
    "("@ + b.south + ","@ + b.west + ","@ + b.north + ","@ + b.east + ")"@
}

/// The query text for a bounding box whose edges are written as `b`: XML output,
/// all highways, buildings, traffic-signal nodes and crossing footways in the box,
/// with the nodes they use.
pub open spec fn overpass_query_text(b: BoundingBox<Seq<char>>) -> Seq<char> {
    let f = bbox_filter(b);
    "[out:xml][timeout:300];\n(\n  way[\"highway\"]"@ + f + ";\n  way[\"building\"]"@ + f
        + ";\n  node[\"highway\"=\"traffic_signals\"]"@ + f + ";\n  way[\"footway\"=\"crossing\"]"@ + f
        + ";\n);\n(._;>;);\nout body;"@
}

fn push_filter(q: &mut String, b: &BoundingBox<String>)
    ensures
        final(q)@ == old(q)@ + bbox_filter(BoundingBox { south: b.south@, west: b.west@, north: b.north@, east: b.east@ }),
{
    q.append("(");
    q.append(b.south.as_str());
    q.append(",");
    q.append(b.west.as_str());
    q.append(",");
    q.append(b.north.as_str());
    q.append(",");
    q.append(b.east.as_str());
    q.append(")");
}

/// The Overpass query for a bounding box whose edges are already written out as text.
pub fn build_overpass_query(bbox: &BoundingBox<String>) -> (res: String)
    ensures
        res@ == overpass_query_text(BoundingBox { south: bbox.south@, west: bbox.west@, north: bbox.north@, east: bbox.east@ }),
{
    let mut q = <String as StringExecFns>::from_str("[out:xml][timeout:300];\n(\n  way[\"highway\"]");
    push_filter(&mut q, bbox);
    q.append(";\n  way[\"building\"]");
    push_filter(&mut q, bbox);
    q.append(";\n  node[\"highway\"=\"traffic_signals\"]");
    push_filter(&mut q, bbox);
    q.append(";\n  way[\"footway\"=\"crossing\"]");
    push_filter(&mut q, bbox);
    q.append(";\n);\n(._;>;);\nout body;");
    q
}


/// Whether `t` occurs in `s`.
pub open spec fn occurs_in(s: Seq<char>, t: Seq<char>) -> bool {
    exists|i: int| 0 <= i && i + t.len() <= s.len() && #[trigger] s.subrange(i, i + t.len()) == t
}

proof fn lemma_occurs_at(s: Seq<char>, pre: Seq<char>, t: Seq<char>, post: Seq<char>)
    requires
        s == pre + t + post,
    ensures
        occurs_in(s, t),
{
    assert(s.subrange(pre.len() as int, (pre.len() + t.len()) as int) =~= t);
}

/// The query asks, in XML, for the highways, the buildings, the traffic-signal nodes
/// and the crossing footways of the box, each followed by the box's edges in the
/// order south, west, north, east; and for the nodes that they use.
pub proof fn lemma_query_selects(b: BoundingBox<Seq<char>>)
    ensures
        ({
            let q = overpass_query_text(b);
            let edges = "("@ + b.south + ","@ + b.west + ","@ + b.north + ","@ + b.east + ")"@;
            &&& q.subrange(0, 9) == "[out:xml]"@
            &&& occurs_in(q, "way[\"highway\"]"@ + edges)
            &&& occurs_in(q, "way[\"building\"]"@ + edges)
            &&& occurs_in(q, "node[\"highway\"=\"traffic_signals\"]"@ + edges)
            &&& occurs_in(q, "way[\"footway\"=\"crossing\"]"@ + edges)
            &&& occurs_in(q, "(._;>;);"@)
        }),
{
    let f = bbox_filter(b);
    let edges = "("@ + b.south + ","@ + b.west + ","@ + b.north + ","@ + b.east + ")"@;
    assert(f =~= edges);
    reveal_strlit("[out:xml][timeout:300];\n(\n  way[\"highway\"]");
    reveal_strlit(";\n  way[\"building\"]");
    reveal_strlit(";\n  node[\"highway\"=\"traffic_signals\"]");
    reveal_strlit(";\n  way[\"footway\"=\"crossing\"]");
    reveal_strlit(";\n);\n(._;>;);\nout body;");
    reveal_strlit("[out:xml]");
    reveal_strlit("[out:xml][timeout:300];\n(\n  ");
    reveal_strlit(";\n  ");
    reveal_strlit(";\n);\n");
    reveal_strlit("\nout body;");
    reveal_strlit("way[\"highway\"]");
    reveal_strlit("way[\"building\"]");
    reveal_strlit("node[\"highway\"=\"traffic_signals\"]");
    reveal_strlit("way[\"footway\"=\"crossing\"]");
    reveal_strlit("(._;>;);");
    let a = "[out:xml][timeout:300];\n(\n  way[\"highway\"]"@;
    let bb = ";\n  way[\"building\"]"@;
    let c = ";\n  node[\"highway\"=\"traffic_signals\"]"@;
    let d = ";\n  way[\"footway\"=\"crossing\"]"@;
    let e = ";\n);\n(._;>;);\nout body;"@;
    let q = overpass_query_text(b);
    assert(q == a + f + bb + f + c + f + d + f + e);
    assert(a =~= "[out:xml][timeout:300];\n(\n  "@ + "way[\"highway\"]"@);
    assert(bb =~= ";\n  "@ + "way[\"building\"]"@);
    assert(c =~= ";\n  "@ + "node[\"highway\"=\"traffic_signals\"]"@);
    assert(d =~= ";\n  "@ + "way[\"footway\"=\"crossing\"]"@);
    assert(e =~= ";\n);\n"@ + "(._;>;);"@ + "\nout body;"@);
    assert(q.subrange(0, 9) =~= "[out:xml]"@);
    assert(q =~= "[out:xml][timeout:300];\n(\n  "@ + ("way[\"highway\"]"@ + edges)
        + (bb + f + c + f + d + f + e));
    lemma_occurs_at(q, "[out:xml][timeout:300];\n(\n  "@, "way[\"highway\"]"@ + edges,
        bb + f + c + f + d + f + e);
    assert(q =~= (a + f + ";\n  "@) + ("way[\"building\"]"@ + edges) + (c + f + d + f + e));
    lemma_occurs_at(q, a + f + ";\n  "@, "way[\"building\"]"@ + edges, c + f + d + f + e);
    assert(q =~= (a + f + bb + f + ";\n  "@) + ("node[\"highway\"=\"traffic_signals\"]"@ + edges) + (d + f + e));
    lemma_occurs_at(q, a + f + bb + f + ";\n  "@, "node[\"highway\"=\"traffic_signals\"]"@ + edges,
        d + f + e);
    assert(q =~= (a + f + bb + f + c + f + ";\n  "@) + ("way[\"footway\"=\"crossing\"]"@ + edges) + e);
    lemma_occurs_at(q, a + f + bb + f + c + f + ";\n  "@, "way[\"footway\"=\"crossing\"]"@ + edges, e);
    assert(q =~= (a + f + bb + f + c + f + d + f + ";\n);\n"@) + "(._;>;);"@ + "\nout body;"@);
    lemma_occurs_at(q, a + f + bb + f + c + f + d + f + ";\n);\n"@, "(._;>;);"@, "\nout body;"@);
}

} // verus!
