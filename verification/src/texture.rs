use vstd::prelude::*;

verus! {

/// RGBA colour of a placeholder layer: brown (dirt), green (grass), grey (stone).
pub open spec fn placeholder_color(layer: int) -> [u8; 4] {
    if layer == 0 {
        [100, 70, 50, 255]
    } else if layer == 1 {
        [80, 140, 60, 255]
    } else if layer == 2 {
        [120, 120, 120, 255]
    } else {
        [80, 80, 80, 255]
    }
}

/// The one-pixel colour of each layer of a placeholder texture array of `num_layers`
/// layers: the first three layers get the dirt, grass and stone colours, every further
/// layer dark grey.
pub fn placeholder_colors(num_layers: u32) -> (colors: Vec<[u8; 4]>)
    ensures
        colors@ == Seq::new(num_layers as nat, |i: int| placeholder_color(i)),
{
    let palette: [[u8; 4]; 3] = [[100, 70, 50, 255], [80, 140, 60, 255], [120, 120, 120, 255]];
    let mut colors: Vec<[u8; 4]> = Vec::new();
    let mut i: u32 = 0;
    while i < num_layers
        invariant
            i <= num_layers,
            palette@ == seq![placeholder_color(0), placeholder_color(1), placeholder_color(2)],
            colors@ == Seq::new(i as nat, |k: int| placeholder_color(k)),
        decreases num_layers - i,
    {
        if i < 3 {
            colors.push(palette[i as usize]);
        } else {
            colors.push([80, 80, 80, 255]);
        }
        assert(colors@ =~= Seq::new((i + 1) as nat, |k: int| placeholder_color(k)));
        i += 1;
    }
    colors
}

/// The size shared by the first `n` layers (`(0, 0)` when there are none), or `None`
/// when two of them differ.
pub open spec fn common_extent(dims: Seq<(u32, u32)>, n: int) -> Option<(u32, u32)> {
    if n <= 0 {
        Some((0, 0))
    } else if forall|k: int| 0 <= k < n ==> #[trigger] dims[k] == dims[0] {
        Some(dims[0])
    } else {
        None
    }
}

/// With at least one layer, the shared size is the first layer's exactly when every
/// layer has the first layer's width and its height; otherwise there is none.
pub proof fn lemma_common_extent_is_shared_size(dims: Seq<(u32, u32)>)
    requires
        dims.len() > 0,
    ensures
        common_extent(dims, dims.len() as int) == Some(dims[0]) <==> forall|k: int|
            0 <= k < dims.len() ==> (#[trigger] dims[k]).0 == dims[0].0 && dims[k].1 == dims[0].1,
        common_extent(dims, dims.len() as int) == Some(dims[0]) || common_extent(
            dims,
            dims.len() as int,
        ) == None::<(u32, u32)>,
{
}

/// The width and height that every layer of a texture array has, taken from the first
/// layer (`(0, 0)` for an empty array), or `None` when some layer's size differs from
/// the first one's.
pub fn layer_extent(dims: &Vec<(u32, u32)>) -> (e: Option<(u32, u32)>)
    ensures
        e == common_extent(dims@, dims@.len() as int),
        dims@.len() == 0 ==> e == Some((0u32, 0u32)),
        dims@.len() > 0 ==> (e == Some(dims@[0]) || e == None::<(u32, u32)>),
        dims@.len() > 0 ==> (e == Some(dims@[0]) <==> forall|k: int|
            0 <= k < dims@.len() ==> (#[trigger] dims@[k]).0 == dims@[0].0 && dims@[k].1
                == dims@[0].1),
{
    if dims.len() == 0 {
        return Some((0, 0));
    }
    let (width, height) = dims[0];
    let mut k: usize = 1;
    while k < dims.len()
        invariant
            1 <= k <= dims@.len(),
            (width, height) == dims@[0],
            forall|j: int| 0 <= j < k ==> #[trigger] dims@[j] == dims@[0],
        decreases dims@.len() - k,
    {
        let (w, h) = dims[k];
        if w != width || h != height {
            assert(dims@[k as int] != dims@[0]);
            return None;
        }
        k += 1;
    }
    Some((width, height))
}

} // verus!
