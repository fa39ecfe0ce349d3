//! The edge banding that placed panels need: for each banded side of a panel, the band's
//! material and the length of the side in the layout.

use vstd::prelude::*;
use crate::model::request::{Edge, Panel};
use crate::model::tile_node::{TileNode, lemma_wf_sides};

verus! {

/// A length of band: the panel it is for, its material and its length in layout units.
#[derive(Debug)]
pub struct BandPiece {
    pub panel_id: i32,
    pub material: String,
    pub length: i64,
}

/// The contents of a band piece.
pub open spec fn piece_view(p: BandPiece) -> (i32, Seq<char>, int) {
    (p.panel_id, p.material@, p.length as int)
}

/// The contents of band pieces.
pub open spec fn pieces_view(v: Seq<BandPiece>) -> Seq<(i32, Seq<char>, int)> {
    v.map_values(|p: BandPiece| piece_view(p))
}

/// The index of the first node that holds panel `id`, if any.
pub open spec fn node_index_for(nodes: Seq<TileNode>, id: i32) -> Option<int>
    decreases nodes.len(),
{
    if nodes.len() == 0 {
        None
    } else {
        match node_index_for(nodes.drop_last(), id) {
            Some(i) => Some(i),
            None => if nodes.last().external_id == id { Some(nodes.len() - 1) } else { None },
        }
    }
}

/// The piece for one side, when the side is banded.
pub open spec fn side_piece(id: i32, material: Option<String>, length: int) -> Seq<(i32, Seq<char>, int)> {
    match material {
        Some(m) => seq![(id, m@, length)],
        None => Seq::empty(),
    }
}

/// The pieces for a panel placed in node `n`: top, left, bottom and right, the top and
/// bottom as long as the panel's width in the layout and the sides as its height, the
/// two swapped when the panel is turned.
pub open spec fn panel_pieces(n: TileNode, id: i32, e: Edge) -> Seq<(i32, Seq<char>, int)> {
    let across = if n.is_rotated { n.h() } else { n.w() };
    let down = if n.is_rotated { n.w() } else { n.h() };
    side_piece(id, e.top, across) + side_piece(id, e.left, down) + side_piece(id, e.bottom, across)
        + side_piece(id, e.right, down)
}

/// The pieces for a panel are as long as the sides of the rectangle that its node covers:
/// the top and bottom pieces as the node's extent from left to right (`x2 - x1`), the
/// left and right ones as its extent from top to bottom (`y2 - y1`), the two swapped
/// when the panel is turned; so they do not depend on where the node lies on the sheet,
/// and moving the node (`m`, the same node shifted by `dx`, `dy`) gives the same pieces.
pub proof fn lemma_panel_pieces_follow_node_extent(n: TileNode, m: TileNode, id: i32, e: Edge, dx: int, dy: int)
    requires
        m.is_rotated == n.is_rotated,
        m.tile.x1 == n.tile.x1 + dx,
        m.tile.x2 == n.tile.x2 + dx,
        m.tile.y1 == n.tile.y1 + dy,
        m.tile.y2 == n.tile.y2 + dy,
    ensures
        panel_pieces(n, id, e) == ({
            let across = if n.is_rotated { n.tile.y2 - n.tile.y1 } else { n.tile.x2 - n.tile.x1 };
            let down = if n.is_rotated { n.tile.x2 - n.tile.x1 } else { n.tile.y2 - n.tile.y1 };
            side_piece(id, e.top, across) + side_piece(id, e.left, down) + side_piece(id, e.bottom, across)
                + side_piece(id, e.right, down)
        }),
        e.top matches Some(mt) ==> panel_pieces(n, id, e)[0]
            == (id, mt@, if n.is_rotated { n.tile.y2 - n.tile.y1 } else { n.tile.x2 - n.tile.x1 }),
        panel_pieces(m, id, e) == panel_pieces(n, id, e),
{
}

/// The pieces that the panels need, panel after panel; panels without banding need
/// none. A banded panel that no node holds is skipped, or, when `strict`, makes the whole
/// an error carrying the first such panel's identifier.
pub open spec fn band_pieces_spec(nodes: Seq<TileNode>, panels: Seq<Panel>, strict: bool)
    -> Result<Seq<(i32, Seq<char>, int)>, i32>
    decreases panels.len(),
{
    if panels.len() == 0 {
        Ok(Seq::empty())
    } else {
        match band_pieces_spec(nodes, panels.drop_last(), strict) {
            Err(id) => Err(id),
            Ok(before) => {
                let p = panels.last();
                match p.edge {
                    None => Ok(before),
                    Some(e) => match node_index_for(nodes, p.id) {
                        Some(i) => Ok(before + panel_pieces(nodes[i], p.id, e)),
                        None => if strict { Err(p.id) } else { Ok(before) },
                    },
                }
            },
        }
    }
}

/// A node index found for a panel is in range and holds that panel.
proof fn lemma_node_index_for(nodes: Seq<TileNode>, id: i32)
    ensures
        node_index_for(nodes, id) matches Some(i) ==> 0 <= i < nodes.len() && nodes[i].external_id == id,
        node_index_for(nodes, id) is None ==> forall|k: int| 0 <= k < nodes.len() ==> (#[trigger] nodes[k]).external_id != id,
    decreases nodes.len(),
{
    if nodes.len() > 0 {
        lemma_node_index_for(nodes.drop_last(), id);
        assert forall|k: int| 0 <= k < nodes.len() - 1 implies nodes.drop_last()[k] == #[trigger] nodes[k] by {}
    }
}

/// The first node that holds panel `id`.
fn find_node_for(nodes: &[TileNode], id: i32) -> (r: Option<usize>)
    ensures
        match r {
            Some(i) => node_index_for(nodes@, id) == Some(i as int),
            None => node_index_for(nodes@, id) is None,
        },
{
    let mut i: usize = 0;
    proof { assert(nodes@.take(0) =~= Seq::<TileNode>::empty()); }
    while i < nodes.len()
        invariant
            0 <= i <= nodes@.len(),
            node_index_for(nodes@.take(i as int), id) is None,
        decreases nodes@.len() - i,
    {
        proof {
            assert(nodes@.take(i + 1).drop_last() =~= nodes@.take(i as int));
        }
        if nodes[i].external_id == id {
            proof { lemma_node_index_prefix(nodes@, id, i as int + 1); }
            return Some(i);
        }
        i = i + 1;
    }
    proof { assert(nodes@.take(nodes@.len() as int) =~= nodes@); }
    None
}

/// Searching a prefix in which the panel is found finds it where the whole list does.
proof fn lemma_node_index_prefix(nodes: Seq<TileNode>, id: i32, k: int)
    requires
        0 <= k <= nodes.len(),
        node_index_for(nodes.take(k), id) is Some,
    ensures
        node_index_for(nodes, id) == node_index_for(nodes.take(k), id),
    decreases nodes.len() - k,
{
    if k < nodes.len() {
        assert(nodes.take(k + 1).drop_last() =~= nodes.take(k));
        lemma_node_index_prefix(nodes, id, k + 1);
    } else {
        assert(nodes.take(k) =~= nodes);
    }
}

/// An error for some panels stays the error when more panels follow.
proof fn lemma_band_error_stays(nodes: Seq<TileNode>, panels: Seq<Panel>, strict: bool, k: int)
    requires
        0 <= k <= panels.len(),
        band_pieces_spec(nodes, panels.take(k), strict) is Err,
    ensures
        band_pieces_spec(nodes, panels, strict) == band_pieces_spec(nodes, panels.take(k), strict),
    decreases panels.len() - k,
{
    if k < panels.len() {
        assert(panels.take(k + 1).drop_last() =~= panels.take(k));
        lemma_band_error_stays(nodes, panels, strict, k + 1);
    } else {
        assert(panels.take(k) =~= panels);
    }
}

/// Appends the piece for one side, when the side is banded.
fn push_side(out: &mut Vec<BandPiece>, id: i32, material: &Option<String>, length: i64)
    ensures
        pieces_view(final(out)@) == pieces_view(old(out)@) + side_piece(id, *material, length as int),
{
    let ghost before = pieces_view(out@);
    match material {
        Some(m) => {
            out.push(BandPiece { panel_id: id, material: m.clone(), length });
            proof { assert(pieces_view(out@) =~= before + side_piece(id, *material, length as int)); }
        },
        None => {
            proof { assert(pieces_view(out@) =~= before + side_piece(id, *material, length as int)); }
        },
    }
}

/// The pieces of edge band that the panels need (see `band_pieces_spec`): for each
/// panel with banding in turn, the node that holds it is found by the panel's identifier
/// and each banded side gets a piece as long as the side. A banded panel that no node
/// holds is skipped, or, when `strict`, is an error carrying its identifier.
pub fn band_pieces(nodes: &[TileNode], panels: &[Panel], strict: bool) -> (r: Result<Vec<BandPiece>, i32>)
    requires
        forall|i: int| 0 <= i < nodes@.len() ==> (#[trigger] nodes@[i]).wf(),
    ensures
        match (r, band_pieces_spec(nodes@, panels@, strict)) {
            (Ok(v), Ok(s)) => pieces_view(v@) == s,
            (Err(a), Err(b)) => a == b,
            _ => false,
        },
{
    let mut out: Vec<BandPiece> = Vec::new();
    let mut i: usize = 0;
    proof {
        assert(panels@.take(0) =~= Seq::<Panel>::empty());
        assert(pieces_view(out@) =~= Seq::<(i32, Seq<char>, int)>::empty());
    }
    while i < panels.len()
        invariant
            0 <= i <= panels@.len(),
            forall|q: int| 0 <= q < nodes@.len() ==> (#[trigger] nodes@[q]).wf(),
            band_pieces_spec(nodes@, panels@.take(i as int), strict) == Ok::<Seq<(i32, Seq<char>, int)>, i32>(pieces_view(out@)),
        decreases panels@.len() - i,
    {
        proof { assert(panels@.take(i + 1).drop_last() =~= panels@.take(i as int)); }
        let panel = &panels[i];
        match &panel.edge {
            None => {},
            Some(e) => {
                let found = find_node_for(nodes, panel.id);
                proof { lemma_node_index_for(nodes@, panel.id); }
                match found {
                    Some(k) => {
                        let node = &nodes[k];
                        proof { lemma_wf_sides(*node); }
                        let w = node.tile.x2 as i64 - node.tile.x1 as i64;
                        let h = node.tile.y2 as i64 - node.tile.y1 as i64;
                        let (across, down) = if node.is_rotated { (h, w) } else { (w, h) };
                        let ghost before = pieces_view(out@);
                        push_side(&mut out, panel.id, &e.top, across);
                        push_side(&mut out, panel.id, &e.left, down);
                        push_side(&mut out, panel.id, &e.bottom, across);
                        push_side(&mut out, panel.id, &e.right, down);
                        proof {
                            assert(pieces_view(out@) =~= before + panel_pieces(nodes@[k as int], panel.id, *e));
                        }
                    },
                    None => {
                        if strict {
                            proof {
                                assert(band_pieces_spec(nodes@, panels@.take(i + 1), strict) == Err::<Seq<(i32, Seq<char>, int)>, i32>(panel.id));
                                lemma_band_error_stays(nodes@, panels@, strict, i + 1);
                            }
                            return Err(panel.id);
                        }
                    },
                }
            },
        }
        i = i + 1;
    }
    proof { assert(panels@.take(panels@.len() as int) =~= panels@); }
    Ok(out)
}

} // verus!
