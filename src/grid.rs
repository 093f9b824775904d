//! Texture coordinates for the scrolling grid of diagonal tiles. Each tile
//! is a quad of four (u, v) corners; a tile may be mirrored left to right,
//! which turns its diagonal the other way.
use vstd::prelude::*;

verus! {

/// Coordinates in one quad: four corners of (u, v).
pub const QUAD_COORDS: usize = 8;

/// The unmirrored quad: corners (0,0), (0,1), (1,0), (1,1), in that order.
pub open spec fn uv_base(idx: int) -> u8 {
    if idx == 3 || idx == 4 || idx == 6 || idx == 7 {
        1
    } else {
        0
    }
}

/// Coordinate `idx` of a quad, with its u coordinates (the even ones)
/// mirrored when `flip` holds.
pub open spec fn uv_value(flip: bool, idx: int) -> u8 {
    if idx % 2 == 0 && flip {
        (1 - uv_base(idx)) as u8
    } else {
        uv_base(idx)
    }
}

/// Quad `q` of `uv` is the base quad, mirrored as `flip` says.
pub open spec fn quad_is(uv: Seq<u8>, q: int, flip: bool) -> bool {
    forall|idx: int| 0 <= idx < 8 ==> #[trigger] uv[8 * q + idx] == uv_value(flip, idx)
}

fn uv_coord(flip: bool, idx: usize) -> (r: u8)
    requires
        idx < 8,
    ensures
        r == uv_value(flip, idx as int),
{
    let base: u8 = if idx == 3 || idx == 4 || idx == 6 || idx == 7 {
        1
    } else {
        0
    };
    if idx % 2 == 0 && flip {
        1 - base
    } else {
        base
    }
}

/// Relies on rand::random: a `bool` drawn from the thread-local generator.
#[verifier::external_body]
fn random_flip() -> bool {
    rand::random::<bool>()
}

/// Writes one quad per entry of `flips`, mirrored where the entry holds.
pub fn write_uv_quads(grid_uv: &mut [u8], flips: &[bool])
    requires
        old(grid_uv)@.len() == 8 * flips@.len(),
    ensures
        final(grid_uv)@.len() == old(grid_uv)@.len(),
        forall|q: int| 0 <= q < flips@.len() ==> quad_is(final(grid_uv)@, q, #[trigger] flips@[q]),
{
    let n: usize = grid_uv.len();
    let mut q: usize = 0;
    while q < flips.len()
        invariant
            n == grid_uv@.len(),
            q <= flips@.len(),
            grid_uv@.len() == 8 * flips@.len(),
            forall|p: int| 0 <= p < q ==> quad_is(grid_uv@, p, #[trigger] flips@[p]),
        decreases flips@.len() - q,
    {
        let flip = flips[q];
        let mut idx: usize = 0;
        while idx < QUAD_COORDS
            invariant
                n == grid_uv@.len(),
                q < flips@.len(),
                idx <= 8,
                flip == flips@[q as int],
                grid_uv@.len() == 8 * flips@.len(),
                forall|p: int| 0 <= p < q ==> quad_is(grid_uv@, p, #[trigger] flips@[p]),
                forall|i: int| 0 <= i < idx ==> #[trigger] grid_uv@[8 * q + i] == uv_value(flip, i),
            decreases 8 - idx,
        {
            let v = uv_coord(flip, idx);
            assert(8 * q + idx < n);
            grid_uv[8 * q + idx] = v;
            proof {
                assert forall|p: int| 0 <= p < q implies quad_is(grid_uv@, p, #[trigger] flips@[p]) by {
                    assert forall|i: int| 0 <= i < 8 implies #[trigger] grid_uv@[8 * p + i]
                        == uv_value(flips@[p], i) by {
                        assert(8 * p + i < 8 * q);
                    }
                }
            }
            idx = idx + 1;
        }
        q = q + 1;
    }
}

/// Fills `grid_uv` with quads, each mirrored or not at random.
pub fn random_uv_push(grid_uv: &mut [u8])
    requires
        old(grid_uv)@.len() % 8 == 0,
    ensures
        final(grid_uv)@.len() == old(grid_uv)@.len(),
        forall|q: int|
            0 <= q < old(grid_uv)@.len() / 8 ==> quad_is(final(grid_uv)@, q, false) || quad_is(
                final(grid_uv)@,
                q,
                true,
            ),
{
    let quads: usize = grid_uv.len() / QUAD_COORDS;
    let mut flips: Vec<bool> = Vec::new();
    let mut q: usize = 0;
    while q < quads
        invariant
            q <= quads,
            flips@.len() == q,
        decreases quads - q,
    {
        flips.push(random_flip());
        q = q + 1;
    }
    write_uv_quads(grid_uv, flips.as_slice());
    assert forall|q: int| 0 <= q < old(grid_uv)@.len() / 8 implies quad_is(grid_uv@, q, false)
        || quad_is(grid_uv@, q, true) by {
        assert(quad_is(grid_uv@, q, flips@[q]));
    }
}

} // verus!
