use vstd::prelude::*;

use crate::style::rgb::lemma_distance2_zero;
use crate::style::rgb::spec_distance2;
use crate::style::rgb::RGB;

verus! {

/// A fixed catalog of reference colors used for nearest-neighbor
/// downsampling.
pub struct Palette {
    pub colors: Vec<RGB>,
}

/// The index of the catalog entry closest to `c`; the first such entry on a
/// tie.
pub open spec fn nearest_spec(colors: Seq<RGB>, c: RGB) -> int
    decreases colors.len(),
{
    if colors.len() <= 1 {
        0
    } else {
        let prev = nearest_spec(colors.drop_last(), c);
        if spec_distance2(colors.last(), c) < spec_distance2(colors[prev], c) {
            colors.len() - 1
        } else {
            prev
        }
    }
}

proof fn lemma_nearest_spec_props(colors: Seq<RGB>, c: RGB)
    requires
        colors.len() >= 1,
    ensures
        0 <= nearest_spec(colors, c) < colors.len(),
        forall|j: int|
            0 <= j < colors.len() ==> spec_distance2(colors[nearest_spec(colors, c)], c)
                <= spec_distance2(#[trigger] colors[j], c),
        forall|j: int|
            0 <= j < nearest_spec(colors, c) ==> spec_distance2(#[trigger] colors[j], c)
                > spec_distance2(colors[nearest_spec(colors, c)], c),
    decreases colors.len(),
{
    if colors.len() > 1 {
        lemma_nearest_spec_props(colors.drop_last(), c);
        assert(forall|j: int|
            0 <= j < colors.len() - 1 ==> colors.drop_last()[j] == #[trigger] colors[j]);
    }
}

impl Palette {
    /// The index of the catalog entry minimizing the distance metric to the
    /// given color; ties resolve to the first minimum in catalog order.
    pub fn nearest(&self, color: RGB) -> (r: usize)
        requires
            self.colors@.len() >= 1,
        ensures
            r < self.colors@.len(),
            r == nearest_spec(self.colors@, color),
            forall|j: int|
                0 <= j < self.colors@.len() ==> spec_distance2(self.colors@[r as int], color)
                    <= spec_distance2(#[trigger] self.colors@[j], color),
            forall|j: int|
                0 <= j < r ==> spec_distance2(#[trigger] self.colors@[j], color)
                    > spec_distance2(self.colors@[r as int], color),
    {
        let ghost cs = self.colors@;
        let mut best: usize = 0;
        let mut best_d: u64 = self.colors[0].distance2(color);
        let mut i: usize = 1;
        proof {
            assert(cs.take(1).drop_last() =~= cs.take(0));
        }
        while i < self.colors.len()
            invariant
                self.colors@ == cs,
                cs.len() >= 1,
                1 <= i <= cs.len(),
                best < i,
                best == nearest_spec(cs.take(i as int), color),
                best_d == spec_distance2(cs[best as int], color),
                forall|j: int|
                    0 <= j < i ==> spec_distance2(cs[best as int], color) <= spec_distance2(
                        #[trigger] cs[j],
                        color,
                    ),
                forall|j: int|
                    0 <= j < best ==> spec_distance2(#[trigger] cs[j], color) > spec_distance2(
                        cs[best as int],
                        color,
                    ),
            decreases cs.len() - i,
        {
            proof {
                assert(cs.take(i + 1).drop_last() =~= cs.take(i as int));
                assert(forall|j: int|
                    0 <= j <= i ==> cs.take(i + 1)[j] == #[trigger] cs[j]);
            }
            let d = self.colors[i].distance2(color);
            if d < best_d {
                best = i;
                best_d = d;
            }
            i += 1;
        }
        proof {
            assert(cs.take(cs.len() as int) =~= cs);
        }
        best
    }
}

/// The entries of the classic 16-color palette as rendered by the legacy
/// Windows console.
pub open spec fn legacy_windows_colors() -> Seq<RGB> {
    seq![
        RGB { r: 12, g: 12, b: 12 },
        RGB { r: 197, g: 15, b: 31 },
        RGB { r: 19, g: 161, b: 14 },
        RGB { r: 193, g: 156, b: 0 },
        RGB { r: 0, g: 55, b: 218 },
        RGB { r: 136, g: 23, b: 152 },
        RGB { r: 58, g: 150, b: 221 },
        RGB { r: 204, g: 204, b: 204 },
        RGB { r: 118, g: 118, b: 118 },
        RGB { r: 231, g: 72, b: 86 },
        RGB { r: 22, g: 198, b: 12 },
        RGB { r: 249, g: 241, b: 165 },
        RGB { r: 59, g: 120, b: 255 },
        RGB { r: 180, g: 0, b: 158 },
        RGB { r: 97, g: 214, b: 214 },
        RGB { r: 242, g: 242, b: 242 },
    ]
}

/// The entries of the classic 16-color palette in its VGA rendition.
pub open spec fn standard_colors() -> Seq<RGB> {
    seq![
        RGB { r: 0, g: 0, b: 0 },
        RGB { r: 170, g: 0, b: 0 },
        RGB { r: 0, g: 170, b: 0 },
        RGB { r: 170, g: 85, b: 0 },
        RGB { r: 0, g: 0, b: 170 },
        RGB { r: 170, g: 0, b: 170 },
        RGB { r: 0, g: 170, b: 170 },
        RGB { r: 170, g: 170, b: 170 },
        RGB { r: 85, g: 85, b: 85 },
        RGB { r: 255, g: 85, b: 85 },
        RGB { r: 85, g: 255, b: 85 },
        RGB { r: 255, g: 255, b: 85 },
        RGB { r: 85, g: 85, b: 255 },
        RGB { r: 255, g: 85, b: 255 },
        RGB { r: 85, g: 255, b: 255 },
        RGB { r: 255, g: 255, b: 255 },
    ]
}

/// The 16 system entries that open the extended 256-color palette.
pub open spec fn eight_bit_system() -> Seq<RGB> {
    seq![
        RGB { r: 0, g: 0, b: 0 },
        RGB { r: 128, g: 0, b: 0 },
        RGB { r: 0, g: 128, b: 0 },
        RGB { r: 128, g: 128, b: 0 },
        RGB { r: 0, g: 0, b: 128 },
        RGB { r: 128, g: 0, b: 128 },
        RGB { r: 0, g: 128, b: 128 },
        RGB { r: 192, g: 192, b: 192 },
        RGB { r: 128, g: 128, b: 128 },
        RGB { r: 255, g: 0, b: 0 },
        RGB { r: 0, g: 255, b: 0 },
        RGB { r: 255, g: 255, b: 0 },
        RGB { r: 0, g: 0, b: 255 },
        RGB { r: 255, g: 0, b: 255 },
        RGB { r: 0, g: 255, b: 255 },
        RGB { r: 255, g: 255, b: 255 },
    ]
}

/// One axis level of the 6x6x6 color cube: 0, then 95 to 255 in steps of
/// 40.
pub open spec fn spec_cube_level(v: int) -> u8 {
    if v == 0 {
        0
    } else {
        (55 + 40 * v) as u8
    }
}

/// Entry `i` of the extended 256-color palette: 16 system colors, the
/// 6x6x6 color cube, then a 24-step grayscale ramp.
pub open spec fn eight_bit_color(i: int) -> RGB {
    if i < 16 {
        eight_bit_system()[i]
    } else if i < 232 {
        let k = i - 16;
        RGB {
            r: spec_cube_level(k / 36),
            g: spec_cube_level((k / 6) % 6),
            b: spec_cube_level(k % 6),
        }
    } else {
        RGB { r: (8 + 10 * (i - 232)) as u8, g: (8 + 10 * (i - 232)) as u8, b: (8 + 10 * (i
            - 232)) as u8 }
    }
}

pub open spec fn eight_bit_colors() -> Seq<RGB> {
    Seq::new(256, |i: int| eight_bit_color(i))
}

/// The 16-entry palette of the legacy Windows console.
pub fn legacy_windows_palette() -> (p: Palette)
    ensures
        p.colors@ == legacy_windows_colors(),
{
    let mut colors: Vec<RGB> = Vec::with_capacity(16);
    colors.push(RGB { r: 12, g: 12, b: 12 });
    colors.push(RGB { r: 197, g: 15, b: 31 });
    colors.push(RGB { r: 19, g: 161, b: 14 });
    colors.push(RGB { r: 193, g: 156, b: 0 });
    colors.push(RGB { r: 0, g: 55, b: 218 });
    colors.push(RGB { r: 136, g: 23, b: 152 });
    colors.push(RGB { r: 58, g: 150, b: 221 });
    colors.push(RGB { r: 204, g: 204, b: 204 });
    colors.push(RGB { r: 118, g: 118, b: 118 });
    colors.push(RGB { r: 231, g: 72, b: 86 });
    colors.push(RGB { r: 22, g: 198, b: 12 });
    colors.push(RGB { r: 249, g: 241, b: 165 });
    colors.push(RGB { r: 59, g: 120, b: 255 });
    colors.push(RGB { r: 180, g: 0, b: 158 });
    colors.push(RGB { r: 97, g: 214, b: 214 });
    colors.push(RGB { r: 242, g: 242, b: 242 });
    proof {
        assert(colors@ =~= legacy_windows_colors());
    }
    Palette { colors }
}

/// The 16-entry palette of classic VGA terminals.
pub fn standard_palette() -> (p: Palette)
    ensures
        p.colors@ == standard_colors(),
{
    let mut colors: Vec<RGB> = Vec::with_capacity(16);
    colors.push(RGB { r: 0, g: 0, b: 0 });
    colors.push(RGB { r: 170, g: 0, b: 0 });
    colors.push(RGB { r: 0, g: 170, b: 0 });
    colors.push(RGB { r: 170, g: 85, b: 0 });
    colors.push(RGB { r: 0, g: 0, b: 170 });
    colors.push(RGB { r: 170, g: 0, b: 170 });
    colors.push(RGB { r: 0, g: 170, b: 170 });
    colors.push(RGB { r: 170, g: 170, b: 170 });
    colors.push(RGB { r: 85, g: 85, b: 85 });
    colors.push(RGB { r: 255, g: 85, b: 85 });
    colors.push(RGB { r: 85, g: 255, b: 85 });
    colors.push(RGB { r: 255, g: 255, b: 85 });
    colors.push(RGB { r: 85, g: 85, b: 255 });
    colors.push(RGB { r: 255, g: 85, b: 255 });
    colors.push(RGB { r: 85, g: 255, b: 255 });
    colors.push(RGB { r: 255, g: 255, b: 255 });
    proof {
        assert(colors@ =~= standard_colors());
    }
    Palette { colors }
}

fn cube_level(v: usize) -> (r: u8)
    requires
        v < 6,
    ensures
        r == spec_cube_level(v as int),
{
    if v == 0 {
        0
    } else {
        (55 + 40 * v) as u8
    }
}

/// The extended 256-entry palette: 16 system colors, a 6x6x6 color cube,
/// and a 24-step grayscale ramp.
pub fn eight_bit_palette() -> (p: Palette)
    ensures
        p.colors@ == eight_bit_colors(),
{
    let mut colors: Vec<RGB> = Vec::with_capacity(256);
    colors.push(RGB { r: 0, g: 0, b: 0 });
    colors.push(RGB { r: 128, g: 0, b: 0 });
    colors.push(RGB { r: 0, g: 128, b: 0 });
    colors.push(RGB { r: 128, g: 128, b: 0 });
    colors.push(RGB { r: 0, g: 0, b: 128 });
    colors.push(RGB { r: 128, g: 0, b: 128 });
    colors.push(RGB { r: 0, g: 128, b: 128 });
    colors.push(RGB { r: 192, g: 192, b: 192 });
    colors.push(RGB { r: 128, g: 128, b: 128 });
    colors.push(RGB { r: 255, g: 0, b: 0 });
    colors.push(RGB { r: 0, g: 255, b: 0 });
    colors.push(RGB { r: 255, g: 255, b: 0 });
    colors.push(RGB { r: 0, g: 0, b: 255 });
    colors.push(RGB { r: 255, g: 0, b: 255 });
    colors.push(RGB { r: 0, g: 255, b: 255 });
    colors.push(RGB { r: 255, g: 255, b: 255 });
    proof {
        assert(forall|i: int| 0 <= i < 16 ==> colors@[i] == eight_bit_color(i)) by {
            assert(colors@ =~= eight_bit_system());
        }
    }
    let mut k: usize = 0;
    while k < 216
        invariant
            k <= 216,
            colors@.len() == 16 + k,
            forall|i: int| 0 <= i < 16 + k ==> colors@[i] == eight_bit_color(i),
        decreases 216 - k,
    {
        let r = cube_level(k / 36);
        let g = cube_level((k / 6) % 6);
        let b = cube_level(k % 6);
        colors.push(RGB { r, g, b });
        k += 1;
    }
    let mut j: usize = 0;
    while j < 24
        invariant
            j <= 24,
            colors@.len() == 232 + j,
            forall|i: int| 0 <= i < 232 + j ==> colors@[i] == eight_bit_color(i),
        decreases 24 - j,
    {
        let v = (8 + 10 * j) as u8;
        colors.push(RGB { r: v, g: v, b: v });
        j += 1;
    }
    proof {
        assert(colors@ =~= eight_bit_colors());
    }
    Palette { colors }
}

/// For a color that is itself a catalog entry, and whose earlier entries
/// all differ from it, the nearest match is that entry, at distance zero.
pub proof fn lemma_nearest_exact_member(colors: Seq<RGB>, i: int)
    requires
        0 <= i < colors.len(),
        forall|j: int| 0 <= j < i ==> #[trigger] colors[j] != colors[i],
    ensures
        nearest_spec(colors, colors[i]) == i,
        spec_distance2(colors[nearest_spec(colors, colors[i])], colors[i]) == 0,
    decreases colors.len(),
{
    lemma_distance2_zero(colors[i], colors[i]);
    if i == colors.len() - 1 {
        if colors.len() > 1 {
            lemma_nearest_spec_props(colors.drop_last(), colors[i]);
            let prev = nearest_spec(colors.drop_last(), colors[i]);
            lemma_distance2_zero(colors[prev], colors[i]);
            assert(colors.drop_last()[prev] == colors[prev]);
        }
    } else {
        lemma_nearest_exact_member(colors.drop_last(), i);
        assert(colors.drop_last()[i] == colors[i]);
        lemma_distance2_zero(colors.last(), colors[i]);
    }
}

} // verus!
