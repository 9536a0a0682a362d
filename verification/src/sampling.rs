//! The pixel grid of a render and the reassembly of its results.
//!
//! A render flattens the image into a list of pixel coordinates, evaluates
//! each coordinate independently (possibly on many workers, in any order),
//! and puts every result back at the slot its coordinate names. `get_grid`
//! builds the coordinate list in row-major order; `assemble_pixels` rebuilds
//! the image buffer from tagged results and succeeds exactly when they cover
//! the grid once each; the final buffer is proved independent of the order in
//! which the results arrive.

use vstd::prelude::*;

verus! {

use vstd::arithmetic::div_mod::{
    lemma_fundamental_div_mod,
    lemma_fundamental_div_mod_converse_div,
    lemma_fundamental_div_mod_converse_mod,
    lemma_multiply_divide_lt,
    lemma_mod_division_less_than_divisor,
    lemma_div_pos_is_pos,
};
use vstd::arithmetic::mul::{lemma_mul_inequality, lemma_mul_is_distributive_add_other_way};

/// The row-major buffer slot of pixel `(x, y)` in an image `width` wide.
pub open spec fn pixel_slot(width: u32, x: u32, y: u32) -> int {
    y * width + x
}

/// A coordinate-tagged pixel result: `(x, y, packed color)`.
pub open spec fn part_in_range(width: u32, height: u32, p: (u32, u32, u32)) -> bool {
    p.0 < width && p.1 < height
}

/// Every tagged result names a pixel of the image.
pub open spec fn parts_in_range(width: u32, height: u32, s: Seq<(u32, u32, u32)>) -> bool {
    forall|k: int| 0 <= k < s.len() ==> part_in_range(width, height, #[trigger] s[k])
}

/// No two tagged results name the same pixel.
pub open spec fn distinct_coords(s: Seq<(u32, u32, u32)>) -> bool {
    forall|k: int, l: int|
        0 <= k < l < s.len() ==> (#[trigger] s[k].0, s[k].1) != (#[trigger] s[l].0, s[l].1)
}

/// Some tagged result of `s` names the pixel `(x, y)`.
pub open spec fn names_pixel(s: Seq<(u32, u32, u32)>, x: u32, y: u32) -> bool {
    exists|k: int| 0 <= k < s.len() && (#[trigger] s[k]).0 == x && s[k].1 == y
}

/// Every pixel of the image is named by some tagged result.
pub open spec fn covers_grid(width: u32, height: u32, s: Seq<(u32, u32, u32)>) -> bool {
    forall|x: u32, y: u32| x < width && y < height ==> #[trigger] names_pixel(s, x, y)
}

/// The tagged results name each pixel of the image exactly once.
pub open spec fn exact_cover(width: u32, height: u32, s: Seq<(u32, u32, u32)>) -> bool {
    &&& parts_in_range(width, height, s)
    &&& distinct_coords(s)
    &&& covers_grid(width, height, s)
}

/// `buf` is a row-major image buffer holding every tagged result of `s` at
/// the slot its coordinate names.
pub open spec fn assembled(width: u32, height: u32, s: Seq<(u32, u32, u32)>, buf: Seq<u32>) -> bool {
    &&& buf.len() == width * height
    &&& forall|k: int|
        0 <= k < s.len() ==> buf[pixel_slot(width, (#[trigger] s[k]).0, s[k].1)] == s[k].2
}

/// Within one image row, a slot names its pixel uniquely.
proof fn lemma_slot_injective(width: u32, x1: u32, y1: u32, x2: u32, y2: u32)
    requires
        x1 < width,
        x2 < width,
        pixel_slot(width, x1, y1) == pixel_slot(width, x2, y2),
    ensures
        x1 == x2,
        y1 == y2,
{
    let s = pixel_slot(width, x1, y1);
    lemma_fundamental_div_mod_converse_mod(s, width as int, y1 as int, x1 as int);
    lemma_fundamental_div_mod_converse_mod(s, width as int, y2 as int, x2 as int);
    lemma_fundamental_div_mod_converse_div(s, width as int, y1 as int, x1 as int);
    lemma_fundamental_div_mod_converse_div(s, width as int, y2 as int, x2 as int);
}

/// The slot of an in-range pixel lies inside the buffer.
proof fn lemma_slot_in_bounds(width: u32, height: u32, x: u32, y: u32)
    requires
        x < width,
        y < height,
    ensures
        0 <= pixel_slot(width, x, y) < width * height,
{
    lemma_mul_inequality(y as int + 1, height as int, width as int);
    lemma_mul_is_distributive_add_other_way(width as int, y as int, 1);
}

/// The coordinate list of a `width` by `height` pixel region whose corner is
/// `(x0, y0)`: all coordinates, row-major, rows listed upward from `y0`.
pub fn get_grid(x0: u32, y0: u32, width: u32, height: u32) -> (grid: Vec<(u32, u32)>)
    requires
        x0 + width <= u32::MAX,
        y0 + height <= u32::MAX,
        width * height <= usize::MAX,
    ensures
        grid.len() == width * height,
        forall|r: int, c: int|
            0 <= r < height && 0 <= c < width ==> #[trigger] grid@[r * width + c] == (((x0 + c)
                as u32, (y0 + r) as u32)),
{
    let mut grid: Vec<(u32, u32)> = Vec::new();
    let mut r: u32 = 0;
    while r < height
        invariant
            r <= height,
            x0 + width <= u32::MAX,
            y0 + height <= u32::MAX,
            grid@.len() == r * width,
            forall|rr: int, cc: int|
                0 <= rr < r && 0 <= cc < width ==> #[trigger] grid@[rr * width + cc] == (((x0 + cc)
                    as u32, (y0 + rr) as u32)),
        decreases height - r,
    {
        let mut c: u32 = 0;
        while c < width
            invariant
                c <= width,
                r < height,
                x0 + width <= u32::MAX,
                y0 + height <= u32::MAX,
                grid@.len() == r * width + c,
                forall|rr: int, cc: int|
                    0 <= rr < r && 0 <= cc < width ==> #[trigger] grid@[rr * width + cc] == (((x0
                        + cc) as u32, (y0 + rr) as u32)),
                forall|cc: int|
                    0 <= cc < c ==> #[trigger] grid@[r * width + cc] == (((x0 + cc) as u32, (y0 + r)
                        as u32)),
            decreases width - c,
        {
            grid.push((x0 + c, y0 + r));
            c = c + 1;
            proof {
                assert forall|rr: int, cc: int| 0 <= rr < r && 0 <= cc < width implies #[trigger]
                    grid@[rr * width + cc] == (((x0 + cc) as u32, (y0 + rr) as u32)) by {
                    lemma_mul_inequality(rr + 1, r as int, width as int);
                    lemma_mul_is_distributive_add_other_way(width as int, rr, 1);
                }
            }
        }
        r = r + 1;
        proof {
            lemma_mul_is_distributive_add_other_way(width as int, r as int - 1, 1);
        }
    }
    proof {
        vstd::arithmetic::mul::lemma_mul_is_commutative(width as int, height as int);
        assert forall|rr: int, cc: int| 0 <= rr < height && 0 <= cc < width implies #[trigger]
            grid@[rr * width + cc] == (((x0 + cc) as u32, (y0 + rr) as u32)) by {
            lemma_mul_inequality(rr + 1, height as int, width as int);
            lemma_mul_is_distributive_add_other_way(width as int, rr, 1);
        }
    }
    grid
}

/// Rebuilds the row-major image buffer from coordinate-tagged pixel results,
/// in whatever order they arrive. Succeeds if and only if the results name
/// every pixel of the image exactly once; a result out of range, a pixel
/// named twice or a pixel never named yields `None`.
pub fn assemble_pixels(width: u32, height: u32, parts: &Vec<(u32, u32, u32)>) -> (r: Option<
    Vec<u32>,
>)
    requires
        width * height <= usize::MAX,
    ensures
        match r {
            Some(buf) => exact_cover(width, height, parts@) && assembled(
                width,
                height,
                parts@,
                buf@,
            ),
            None => !exact_cover(width, height, parts@),
        },
{
    let n = (width as usize) * (height as usize);
    let mut slots: Vec<Option<u32>> = Vec::new();
    let mut i: usize = 0;
    while i < n
        invariant
            i <= n,
            slots@.len() == i,
            forall|j: int| 0 <= j < i ==> (#[trigger] slots@[j]) is None,
        decreases n - i,
    {
        slots.push(None);
        i = i + 1;
    }

    let ghost s = parts@;
    let mut k: usize = 0;
    while k < parts.len()
        invariant
            k <= s.len(),
            s == parts@,
            n == width * height,
            n <= usize::MAX,
            slots@.len() == n,
            parts_in_range(width, height, s.take(k as int)),
            distinct_coords(s.take(k as int)),
            forall|j: int|
                0 <= j < k ==> slots@[pixel_slot(width, (#[trigger] s[j]).0, s[j].1)] == Some(
                    s[j].2,
                ),
            forall|idx: int|
                0 <= idx < n && (#[trigger] slots@[idx]) is Some ==> exists|j: int|
                    0 <= j < k && part_in_range(width, height, #[trigger] s[j]) && pixel_slot(
                        width,
                        s[j].0,
                        s[j].1,
                    ) == idx,
        decreases parts.len() - k,
    {
        let (x, y, color) = parts[k];
        if x >= width || y >= height {
            proof {
                assert(!part_in_range(width, height, s[k as int]));
            }
            return None;
        }
        proof {
            lemma_slot_in_bounds(width, height, x, y);
        }
        let idx = (y as usize) * (width as usize) + (x as usize);
        if slots[idx].is_some() {
            proof {
                let j = choose|j: int|
                    0 <= j < k && part_in_range(width, height, #[trigger] s[j]) && pixel_slot(
                        width,
                        s[j].0,
                        s[j].1,
                    ) == idx as int;
                lemma_slot_injective(width, s[j].0, s[j].1, x, y);
                assert((s[j].0, s[j].1) == (s[k as int].0, s[k as int].1));
                assert(!distinct_coords(s));
            }
            return None;
        }
        let ghost prev_slots = slots@;
        slots.set(idx, Some(color));
        k = k + 1;
        proof {
            assert forall|j: int| 0 <= j < k implies slots@[pixel_slot(
                width,
                (#[trigger] s[j]).0,
                s[j].1,
            )] == Some(s[j].2) by {
                if j < k - 1 {
                    assert(part_in_range(width, height, s.take(k as int - 1)[j]));
                    lemma_slot_in_bounds(width, height, s[j].0, s[j].1);
                    assert(prev_slots[pixel_slot(width, s[j].0, s[j].1)] == Some(s[j].2));
                    assert(prev_slots[idx as int] is None);
                } else {
                    assert(s[j] == (x, y, color));
                    assert(idx as int == pixel_slot(width, x, y));
                }
            }
            assert forall|jdx: int| 0 <= jdx < n && (#[trigger] slots@[jdx]) is Some implies exists|
                j: int,
            |
                0 <= j < k && part_in_range(width, height, #[trigger] s[j]) && pixel_slot(
                    width,
                    s[j].0,
                    s[j].1,
                ) == jdx by {
                if jdx == idx as int {
                    assert(part_in_range(width, height, s[k - 1]) && pixel_slot(
                        width,
                        s[k - 1].0,
                        s[k - 1].1,
                    ) == jdx);
                } else {
                    let j = choose|j: int|
                        0 <= j < k - 1 && part_in_range(width, height, #[trigger] s[j])
                            && pixel_slot(width, s[j].0, s[j].1) == jdx;
                    assert(0 <= j < k && part_in_range(width, height, s[j]) && pixel_slot(
                        width,
                        s[j].0,
                        s[j].1,
                    ) == jdx);
                }
            }
            let now = s.take(k as int);
            assert forall|a: int, b: int| 0 <= a < b < now.len() implies (
            #[trigger] now[a].0,
            now[a].1,
            ) != (#[trigger] now[b].0, now[b].1) by {
                if b < k - 1 {
                    assert(distinct_coords(s.take(k as int - 1)));
                    assert(s.take(k as int - 1)[a] == now[a]);
                    assert(s.take(k as int - 1)[b] == now[b]);
                } else {
                    // the slot of `b` was empty, so no earlier part names its pixel
                    if (now[a].0, now[a].1) == (now[b].0, now[b].1) {
                        assert(slots@[pixel_slot(width, s[a].0, s[a].1)] == Some(s[a].2));
                    }
                }
            }
            assert(parts_in_range(width, height, now)) by {
                assert forall|j: int| 0 <= j < now.len() implies part_in_range(
                    width,
                    height,
                    #[trigger] now[j],
                ) by {
                    if j < k - 1 {
                        assert(part_in_range(width, height, s.take(k as int - 1)[j]));
                    }
                }
            }
        }
    }

    proof {
        assert(s.take(s.len() as int) =~= s);
    }
    let mut buf: Vec<u32> = Vec::new();
    let mut i: usize = 0;
    while i < n
        invariant
            i <= n,
            s == parts@,
            n == width * height,
            slots@.len() == n,
            buf@.len() == i,
            forall|j: int| 0 <= j < i ==> Some(#[trigger] buf@[j]) == slots@[j],
            parts_in_range(width, height, s),
            distinct_coords(s),
            forall|j: int|
                0 <= j < s.len() ==> slots@[pixel_slot(width, (#[trigger] s[j]).0, s[j].1)] == Some(
                    s[j].2,
                ),
            forall|idx: int|
                0 <= idx < n && (#[trigger] slots@[idx]) is Some ==> exists|j: int|
                    0 <= j < s.len() && part_in_range(width, height, #[trigger] s[j]) && pixel_slot(
                        width,
                        s[j].0,
                        s[j].1,
                    ) == idx,
        decreases n - i,
    {
        match slots[i] {
            Some(color) => {
                buf.push(color);
            },
            None => {
                proof {
                    // the pixel of slot `i` is never named, so the cover is not exact
                    let w = width as int;
                    if width == 0 {
                        vstd::arithmetic::mul::lemma_mul_by_zero_is_zero(height as int);
                    }
                    let x = (i as int) % w;
                    let y = (i as int) / w;
                    lemma_mod_division_less_than_divisor(i as int, w);
                    lemma_div_pos_is_pos(i as int, w);
                    lemma_multiply_divide_lt(i as int, w, height as int);
                    lemma_fundamental_div_mod(i as int, w);
                    vstd::arithmetic::mul::lemma_mul_is_commutative(w, y);
                    assert(pixel_slot(width, x as u32, y as u32) == i as int);
                    if names_pixel(s, x as u32, y as u32) {
                        let j = choose|j: int|
                            0 <= j < s.len() && (#[trigger] s[j]).0 == x as u32 && s[j].1
                                == y as u32;
                        assert(pixel_slot(width, s[j].0, s[j].1) == i as int);
                        assert(slots@[i as int] == Some(s[j].2));
                    }
                    assert(!covers_grid(width, height, s));
                }
                return None;
            },
        }
        i = i + 1;
    }

    proof {
        // every slot holds a result, so every pixel is named by some part
        assert forall|x: u32, y: u32| x < width && y < height implies #[trigger] names_pixel(
            s,
            x,
            y,
        ) by {
            lemma_slot_in_bounds(width, height, x, y);
            let idx = pixel_slot(width, x, y);
            assert(Some(buf@[idx]) == slots@[idx]);
            let j = choose|j: int|
                0 <= j < s.len() && part_in_range(width, height, #[trigger] s[j]) && pixel_slot(
                    width,
                    s[j].0,
                    s[j].1,
                ) == idx;
            lemma_slot_injective(width, s[j].0, s[j].1, x, y);
            assert(0 <= j < s.len() && s[j].0 == x && s[j].1 == y);
        }
        assert(covers_grid(width, height, s));
        assert forall|j: int| 0 <= j < s.len() implies buf@[pixel_slot(
            width,
            (#[trigger] s[j]).0,
            s[j].1,
        )] == s[j].2 by {
            lemma_slot_in_bounds(width, height, s[j].0, s[j].1);
        }
    }
    Some(buf)
}

/// Law: attaching one result to every coordinate of the row-major grid names
/// every pixel of the image exactly once. A render that walks the grid in
/// order therefore always assembles; together with the order-independence law
/// below, any reordering of those same results yields the same buffer.
pub proof fn lemma_grid_parts_exact_cover(width: u32, height: u32, parts: Seq<(u32, u32, u32)>)
    requires
        parts.len() == width * height,
        forall|r: int, c: int|
            0 <= r < height && 0 <= c < width ==> (#[trigger] parts[r * width + c]).0 == c
                && parts[r * width + c].1 == r,
    ensures
        exact_cover(width, height, parts),
{
    let w = width as int;
    if width == 0 {
        vstd::arithmetic::mul::lemma_mul_by_zero_is_zero(height as int);
    }
    assert forall|k: int| 0 <= k < parts.len() implies part_in_range(
        width,
        height,
        #[trigger] parts[k],
    ) && parts[k].0 == k % w && parts[k].1 == k / w by {
        let c = k % w;
        let r = k / w;
        lemma_mod_division_less_than_divisor(k, w);
        lemma_div_pos_is_pos(k, w);
        lemma_multiply_divide_lt(k, w, height as int);
        lemma_fundamental_div_mod(k, w);
        vstd::arithmetic::mul::lemma_mul_is_commutative(w, r);
        assert(k == r * width + c);
        assert(parts[r * width + c].0 == c && parts[r * width + c].1 == r);
    }
    assert forall|k: int, l: int| 0 <= k < l < parts.len() implies (
    #[trigger] parts[k].0,
    parts[k].1,
    ) != (#[trigger] parts[l].0, parts[l].1) by {
        if (parts[k].0, parts[k].1) == (parts[l].0, parts[l].1) {
            assert(k % w == l % w && k / w == l / w);
            lemma_fundamental_div_mod(k, w);
            lemma_fundamental_div_mod(l, w);
        }
    }
    assert forall|x: u32, y: u32| x < width && y < height implies #[trigger] names_pixel(
        parts,
        x,
        y,
    ) by {
        lemma_slot_in_bounds(width, height, x, y);
        let k = pixel_slot(width, x, y);
        lemma_fundamental_div_mod_converse_mod(k, w, y as int, x as int);
        lemma_fundamental_div_mod_converse_div(k, w, y as int, x as int);
        assert(0 <= k < parts.len() && parts[k].0 == x && parts[k].1 == y);
    }
}

/// Law: the assembled image does not depend on the order in which per-pixel
/// results arrive. Two result lists holding the same results — one list a
/// reordering of the other — assemble to the same buffer, so a seeded render
/// is reproduced byte for byte whatever the worker count or schedule.
pub proof fn lemma_assemble_order_independent(
    width: u32,
    height: u32,
    s1: Seq<(u32, u32, u32)>,
    s2: Seq<(u32, u32, u32)>,
    b1: Seq<u32>,
    b2: Seq<u32>,
)
    requires
        s1.to_multiset() == s2.to_multiset(),
        exact_cover(width, height, s1),
        assembled(width, height, s1, b1),
        assembled(width, height, s2, b2),
    ensures
        b1 == b2,
{
    broadcast use vstd::seq_lib::group_to_multiset_ensures;

    assert forall|j: int| 0 <= j < b1.len() implies b1[j] == b2[j] by {
        let w = width as int;
        if width == 0 {
            vstd::arithmetic::mul::lemma_mul_by_zero_is_zero(height as int);
        }
        let x = j % w;
        let y = j / w;
        lemma_mod_division_less_than_divisor(j, w);
        lemma_div_pos_is_pos(j, w);
        lemma_multiply_divide_lt(j, w, height as int);
        lemma_fundamental_div_mod(j, w);
        vstd::arithmetic::mul::lemma_mul_is_commutative(w, y);
        assert(pixel_slot(width, x as u32, y as u32) == j);
        assert(names_pixel(s1, x as u32, y as u32));
        let k1 = choose|k: int|
            0 <= k < s1.len() && (#[trigger] s1[k]).0 == x as u32 && s1[k].1 == y as u32;
        assert(pixel_slot(width, s1[k1].0, s1[k1].1) == j);
        assert(b1[j] == s1[k1].2);
        assert(s1.contains(s1[k1]));
        assert(s1.to_multiset().count(s1[k1]) > 0);
        assert(s2.to_multiset().count(s1[k1]) > 0);
        assert(s2.contains(s1[k1]));
        let k2 = choose|k: int| 0 <= k < s2.len() && s2[k] == s1[k1];
        assert(b2[pixel_slot(width, s2[k2].0, s2[k2].1)] == s2[k2].2);
    }
    assert(b1 =~= b2);
}

} // verus!
