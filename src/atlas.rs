use vstd::prelude::*;

verus! {

/// Largest texture height placed in the atlas.
pub const MAX_ATLAS_TEXTURE_HEIGHT: u32 = 512;

/// Which cell of the placeholder pattern the pixel coordinate `v` falls in:
/// cells are half a texture wide, and the first cell is numbered 1.
pub open spec fn pattern_cell(v: u32, texture_size: u32) -> int
    recommends
        texture_size > 0,
{
    (2 * (v + 1) + texture_size - 1) / (texture_size as int)
}

/// Whether the placeholder pattern is purple at pixel (x, y). An empty
/// texture size gives no pattern.
pub open spec fn is_purple(x: u32, y: u32, texture_size: u32) -> bool {
    texture_size > 0 && (pattern_cell(x, texture_size) + pattern_cell(y, texture_size)) % 2 == 0
}

/// The RGBA colour of pixel (x, y) of the placeholder drawn for a missing
/// texture: alternating purple and black squares, two to a texture side.
pub fn invalid_texture(x: u32, y: u32, texture_size: u32) -> (r: [u8; 4])
    ensures
        r@ == (if is_purple(x, y, texture_size) {
            seq![255u8, 0, 255, 255]
        } else {
            seq![0u8, 0, 0, 255]
        }),
{
    let purple = if texture_size == 0 {
        false
    } else {
        let size = texture_size as u64;
        let cx = (2 * (x as u64 + 1) + size - 1) / size;
        let cy = (2 * (y as u64 + 1) + size - 1) / size;
        (cx + cy) % 2 == 0
    };
    let r: [u8; 4] = if purple {
        [255, 0, 255, 255]
    } else {
        [0, 0, 0, 255]
    };
    proof {
        assert(r@ =~= (if is_purple(x, y, texture_size) {
            seq![255u8, 0, 255, 255]
        } else {
            seq![0u8, 0, 0, 255]
        }));
    }
    r
}

/// A texture waiting for a place in the atlas; `image` is carried along
/// untouched.
pub struct Texture<T> {
    pub name: String,
    pub height: u32,
    pub image: T,
}

pub open spec fn of_height<T>(h: u32) -> spec_fn(Texture<T>) -> bool {
    |t: Texture<T>| t.height == h
}

pub open spec fn fits_atlas<T>() -> spec_fn(Texture<T>) -> bool {
    |t: Texture<T>| t.height <= MAX_ATLAS_TEXTURE_HEIGHT
}

pub open spec fn too_tall<T>() -> spec_fn(Texture<T>) -> bool {
    |t: Texture<T>| t.height > MAX_ATLAS_TEXTURE_HEIGHT
}

/// Tallest first.
pub open spec fn by_height_descending<T>(s: Seq<Texture<T>>) -> bool {
    forall|i: int, j: int| 0 <= i < j < s.len() ==> s[i].height >= s[j].height
}

proof fn lemma_shorter_filtered_out<T>(b: Seq<Texture<T>>, h: u32)
    requires
        forall|k: int| 0 <= k < b.len() ==> b[k].height < h,
    ensures
        b.filter(of_height(h)) == Seq::<Texture<T>>::empty(),
    decreases b.len(),
{
    reveal(Seq::filter);
    if b.len() > 0 {
        lemma_shorter_filtered_out(b.drop_last(), h);
    }
}

proof fn lemma_filter_step<T>(s: Seq<Texture<T>>, k: int, pred: spec_fn(Texture<T>) -> bool)
    requires
        0 <= k < s.len(),
    ensures
        s.take(k + 1).filter(pred) == (if pred(s[k]) {
            s.take(k).filter(pred).push(s[k])
        } else {
            s.take(k).filter(pred)
        }),
{
    reveal(Seq::filter);
    assert(s.take(k + 1).drop_last() =~= s.take(k));
}

/// Orders the textures for packing into the atlas: tallest first, those of
/// equal height in the order given. Textures taller than
/// `MAX_ATLAS_TEXTURE_HEIGHT` do not go in the atlas; they stay in
/// `textures`, and all the others are moved out into the result.
pub fn sort_textures<T>(textures: &mut Vec<Texture<T>>) -> (r: Vec<Texture<T>>)
    ensures
        by_height_descending(r@),
        forall|h: u32|
            #![trigger r@.filter(of_height(h))]
            r@.filter(of_height(h)) == if h <= MAX_ATLAS_TEXTURE_HEIGHT {
                old(textures)@.filter(of_height(h))
            } else {
                Seq::<Texture<T>>::empty()
            },
        final(textures)@ == old(textures)@.filter(too_tall()),
{
    let ghost orig = textures@;
    // Move out the textures that fit, keeping their order.
    let mut fitting: Vec<Texture<T>> = Vec::new();
    let mut i: usize = 0;
    let ghost mut j: int = 0;
    proof {
        reveal(Seq::filter);
        assert(orig.take(0) =~= Seq::<Texture<T>>::empty());
        assert(orig.skip(0) =~= orig);
    }
    while i < textures.len()
        invariant
            0 <= j <= orig.len(),
            i == orig.take(j).filter(too_tall()).len(),
            textures@ == orig.take(j).filter(too_tall()) + orig.skip(j),
            fitting@ == orig.take(j).filter(fits_atlas()),
        decreases textures@.len() - i,
    {
        proof {
            assert(textures@.len() == i + orig.skip(j).len());
            assert(orig.skip(j)[0] == orig[j]);
            lemma_filter_step(orig, j, too_tall());
            lemma_filter_step(orig, j, fits_atlas());
        }
        if textures[i].height > MAX_ATLAS_TEXTURE_HEIGHT {
            i = i + 1;
        } else {
            let t = textures.remove(i);
            fitting.push(t);
        }
        proof {
            assert(textures@ =~= orig.take(j + 1).filter(too_tall()) + orig.skip(j + 1));
            j = j + 1;
        }
    }
    proof {
        assert(orig.take(j) =~= orig);
        assert(textures@ =~= orig.filter(too_tall()));
    }
    // Insert each one after every texture at least as tall.
    let ghost f = fitting@;
    let mut out: Vec<Texture<T>> = Vec::new();
    let ghost mut k: int = 0;
    proof {
        assert(f.take(0) =~= Seq::<Texture<T>>::empty());
        assert(f.skip(0) =~= f);
        reveal(Seq::filter);
    }
    while fitting.len() > 0
        invariant
            0 <= k <= f.len(),
            fitting@ == f.skip(k),
            by_height_descending(out@),
            forall|h: u32| #[trigger]
                out@.filter(of_height(h)) == f.take(k).filter(of_height(h)),
        decreases fitting@.len(),
    {
        let t = fitting.remove(0);
        proof {
            assert(f.skip(k)[0] == f[k]);
            assert(fitting@ =~= f.skip(k + 1));
        }
        let mut p: usize = 0;
        while p < out.len() && out[p].height >= t.height
            invariant
                p <= out@.len(),
                forall|q: int| 0 <= q < p ==> out@[q].height >= t.height,
            decreases out@.len() - p,
        {
            p = p + 1;
        }
        let ghost before = out@;
        let ghost th = t.height;
        let ghost tv = t;
        out.insert(p, t);
        proof {
            let a = before.take(p as int);
            let b = before.skip(p as int);
            assert(before =~= a + b);
            assert(out@ =~= a.push(tv) + b);
            assert forall|q: int| 0 <= q < b.len() implies b[q].height < th by {
                assert(b[0] == before[p as int]);
                assert(before[p as int].height < th);
                assert(b[q] == before[p + q]);
                if q > 0 {
                    assert(before[p as int].height >= before[p + q].height);
                }
            }
            assert forall|h: u32| #[trigger]
                out@.filter(of_height(h)) == f.take(k + 1).filter(of_height(h)) by {
                reveal(Seq::filter);
                assert(tv == f[k]);
                assert(before.filter(of_height(h)) == f.take(k).filter(of_height(h)));
                Seq::filter_distributes_over_add(a.push(tv), b, of_height(h));
                Seq::filter_distributes_over_add(a, b, of_height(h));
                lemma_filter_step(f, k, of_height(h));
                assert(a.push(tv).drop_last() =~= a);
                if h == th {
                    lemma_shorter_filtered_out(b, h);
                    assert(a.filter(of_height(h)).push(tv) + b.filter(of_height(h))
                        =~= (a.filter(of_height(h)) + b.filter(of_height(h))).push(tv));
                }
            }
            assert forall|x: int, y: int| 0 <= x < y < out@.len() implies out@[x].height
                >= out@[y].height by {
                if y < p {
                } else if y == p {
                    assert(out@[x] == before[x]);
                } else if x < p {
                    assert(out@[x] == before[x]);
                    assert(out@[y] == before[y - 1]);
                } else if x == p {
                    assert(out@[y] == b[y - 1 - p]);
                } else {
                    assert(out@[x] == before[x - 1]);
                    assert(out@[y] == before[y - 1]);
                }
            }
            k = k + 1;
        }
    }
    proof {
        assert(f.skip(k).len() == 0);
        assert(f.take(k) =~= f);
        assert forall|h: u32| #![trigger out@.filter(of_height(h))]
            out@.filter(of_height(h)) == if h <= MAX_ATLAS_TEXTURE_HEIGHT {
                orig.filter(of_height(h))
            } else {
                Seq::<Texture<T>>::empty()
            } by {
            lemma_filter_of_filter(orig, h);
        }
    }
    out
}

/// Taking the textures of one height from those that fit the atlas.
proof fn lemma_filter_of_filter<T>(s: Seq<Texture<T>>, h: u32)
    ensures
        s.filter(fits_atlas()).filter(of_height(h)) == if h <= MAX_ATLAS_TEXTURE_HEIGHT {
            s.filter(of_height(h))
        } else {
            Seq::<Texture<T>>::empty()
        },
    decreases s.len(),
{
    reveal(Seq::filter);
    if s.len() > 0 {
        lemma_filter_of_filter(s.drop_last(), h);
        let l = s.last();
        if l.height <= MAX_ATLAS_TEXTURE_HEIGHT {
            assert(s.filter(fits_atlas()).drop_last() =~= s.drop_last().filter(fits_atlas()));
        }
    }
}

} // verus!
