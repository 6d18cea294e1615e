use vstd::prelude::*;

verus! {

/// Entry `k` of a circle's triangle fan: triangle `k / 3` joins the centre,
/// rim vertex `k / 3 + 1` and rim vertex `k / 3 + 2`.
pub open spec fn fan_index(k: int) -> int {
    if k % 3 == 0 {
        0
    } else if k % 3 == 1 {
        k / 3 + 1
    } else {
        k / 3 + 2
    }
}

/// The triangle fan of a circle drawn with `segments` segments: vertex 0 is
/// the centre and vertices `1..=segments + 1` go round the rim, the last
/// repeating the first.
pub fn circle_fan_indices(segments: u32) -> (v: Vec<u32>)
    requires
        segments < 0x1000_0000,
    ensures
        v@.len() == 3 * segments,
        forall|k: int| 0 <= k < v@.len() ==> v@[k] == fan_index(k),
{
    let mut v: Vec<u32> = Vec::new();
    let mut i: u32 = 1;
    while i <= segments
        invariant
            1 <= i <= segments + 1,
            segments < 0x1000_0000,
            v@.len() == 3 * (i - 1),
            forall|k: int| 0 <= k < v@.len() ==> v@[k] == fan_index(k),
        decreases segments + 1 - i,
    {
        let ghost n = v@.len();
        v.push(0);
        v.push(i);
        v.push(i + 1);
        assert(n % 3 == 0 && n / 3 == i - 1);
        assert((n + 1) % 3 == 1 && (n + 1) / 3 == i - 1);
        assert((n + 2) % 3 == 2 && (n + 2) / 3 == i - 1);
        i += 1;
    }
    v
}

} // verus!
