//! The dataset the training loop consumes: scenes of posed views,
//! each a camera with its target image, split into a training scene
//! and an optional held-out evaluation scene.

use vstd::prelude::*;
use crate::camera::Camera;
use crate::splats::SplatStore;

verus! {

/// Which split a viewer asks for.
#[derive(Debug, Clone, Copy, PartialEq, Eq, Structural)]
pub enum ViewType {
    Train,
    Eval,
    Test,
}

/// One posed view: a camera and its target image, RGBA fixed point,
/// row major.
#[derive(Clone, Debug)]
pub struct SceneView {
    pub camera: Camera,
    pub img_w: u32,
    pub img_h: u32,
    pub image: Vec<i64>,
}

impl SceneView {
    /// The image buffer matches the declared size.
    pub open spec fn wf(&self) -> bool {
        &&& self.image@.len() == self.img_h as int * self.img_w as int * 4
        &&& 0 < self.img_w <= 4096
        &&& 0 < self.img_h <= 4096
        &&& self.camera.wf()
    }
}

/// A set of posed views.
#[derive(Clone, Debug)]
pub struct Scene {
    pub views: Vec<SceneView>,
}

/// The loaded dataset: the training scene and, when a split was
/// requested, a held-out evaluation scene.
#[derive(Clone, Debug)]
pub struct Dataset {
    pub train: Scene,
    pub eval: Option<Scene>,
}

/// The scene a view type selects: the training split for training
/// views, the evaluation split where one exists, and the training
/// split as the fallback.
pub fn selected_scene<'a>(t: ViewType, dataset: &'a Dataset) -> (r: &'a Scene)
    ensures
        t == ViewType::Train ==> r == &dataset.train,
        t != ViewType::Train && dataset.eval is Some ==> r == &dataset.eval->Some_0,
        t != ViewType::Train && dataset.eval is None ==> r == &dataset.train,
{
    match t {
        ViewType::Train => &dataset.train,
        _ => {
            if let Some(eval_scene) = &dataset.eval {
                eval_scene
            } else {
                &dataset.train
            }
        },
    }
}

/// Some row attains the given coordinate value.
pub open spec fn coord_attained(store: SplatStore, v: i64, c: int, bound: int) -> bool {
    exists|m: int| 0 <= m < bound && #[trigger] store.means@[m * 3 + c] == v
}

/// The axis-aligned bounds of the splat positions, as the row-wise
/// minimum and maximum per coordinate, each attained by some row;
/// `None` with no rows.
pub fn store_bounds(store: &SplatStore) -> (r: Option<([i64; 3], [i64; 3])>)
    requires
        store.wf(),
    ensures
        r is Some <==> store.num() > 0,
        r matches Some(b) ==> forall|i: int, c: int|
            0 <= i < store.num() && 0 <= c < 3 ==> b.0@[c] <= #[trigger] store.means@[i * 3 + c]
                && store.means@[i * 3 + c] <= b.1@[c],
        r matches Some(b) ==> forall|c: int|
            0 <= c < 3 ==> #[trigger] coord_attained(*store, b.0@[c], c, store.num())
                && coord_attained(*store, b.1@[c], c, store.num()),
{
    let n = store.raw_opacities.len();
    if n == 0 {
        return None;
    }
    let mut lo: [i64; 3] = [store.means[0], store.means[1], store.means[2]];
    let mut hi: [i64; 3] = [store.means[0], store.means[1], store.means[2]];
    let mut i: usize = 1;
    proof {
        assert(forall|c: int| 0 <= c < 3 ==> lo@[c] == store.means@[0 * 3 + c]);
        assert forall|c: int|
            0 <= c < 3 implies #[trigger] coord_attained(*store, lo@[c], c, 1)
            && coord_attained(*store, hi@[c], c, 1) by {
            assert(store.means@[0 * 3 + c] == lo@[c]);
            assert(store.means@[0 * 3 + c] == hi@[c]);
        }
    }
    while i < n
        invariant
            1 <= i <= n,
            n == store.num(),
            store.wf(),
            forall|m: int, c: int|
                0 <= m < i && 0 <= c < 3 ==> lo@[c] <= #[trigger] store.means@[m * 3 + c]
                    && store.means@[m * 3 + c] <= hi@[c],
            forall|c: int|
                0 <= c < 3 ==> #[trigger] coord_attained(*store, lo@[c], c, i as int)
                    && coord_attained(*store, hi@[c], c, i as int),
        decreases n - i,
    {
        proof {
            assert(i * 3 + 2 < n * 3 && 0 <= i * 3 && i * 3 <= 0x100_0000int * 3)
                by (nonlinear_arith)
                requires
                    0 <= i < n <= 0x100_0000int,
            ;
        }
        proof {
            assert forall|cc: int|
                0 <= cc < 3 implies #[trigger] coord_attained(*store, lo@[cc], cc, i as int + 1)
                && coord_attained(*store, hi@[cc], cc, i as int + 1) by {
                assert(coord_attained(*store, lo@[cc], cc, i as int));
                assert(coord_attained(*store, hi@[cc], cc, i as int));
                let m1 = choose|m: int|
                    0 <= m < i && #[trigger] store.means@[m * 3 + cc] == lo@[cc];
                assert(store.means@[m1 * 3 + cc] == lo@[cc]);
                let m2 = choose|m: int|
                    0 <= m < i && #[trigger] store.means@[m * 3 + cc] == hi@[cc];
                assert(store.means@[m2 * 3 + cc] == hi@[cc]);
            }
        }
        let mut c: usize = 0;
        while c < 3
            invariant
                0 <= c <= 3,
                1 <= i < n,
                n == store.num(),
                store.wf(),
                i * 3 + 2 < store.means@.len(),
                0 <= i * 3,
                i * 3 <= 0x300_0000,
                forall|m: int, cc: int|
                    0 <= m < i && 0 <= cc < 3 ==> lo@[cc] <= #[trigger] store.means@[m * 3 + cc]
                        && store.means@[m * 3 + cc] <= hi@[cc],
                forall|cc: int|
                    0 <= cc < c ==> lo@[cc] <= #[trigger] store.means@[i as int * 3 + cc]
                        && store.means@[i as int * 3 + cc] <= hi@[cc],
                forall|cc: int|
                    0 <= cc < 3 ==> #[trigger] coord_attained(*store, lo@[cc], cc, i as int + 1)
                        && coord_attained(*store, hi@[cc], cc, i as int + 1),
            decreases 3 - c,
        {
            let ghost lo0 = lo@;
            let ghost hi0 = hi@;
            let v = store.means[i * 3 + c];
            if v < lo[c] {
                lo.set(c, v);
            }
            if v > hi[c] {
                hi.set(c, v);
            }
            proof {
                assert forall|cc: int|
                    0 <= cc < 3 implies #[trigger] coord_attained(*store, lo@[cc], cc,
                    i as int + 1) && coord_attained(*store, hi@[cc], cc, i as int + 1) by {
                    if cc == c as int && lo@[cc] != lo0[cc] {
                        assert(store.means@[i as int * 3 + cc] == lo@[cc]);
                    } else {
                        assert(lo@[cc] == lo0[cc]);
                        assert(coord_attained(*store, lo0[cc], cc, i as int + 1));
                        let m1 = choose|m: int|
                            0 <= m < i + 1 && #[trigger] store.means@[m * 3 + cc] == lo0[cc];
                        assert(store.means@[m1 * 3 + cc] == lo@[cc]);
                    }
                    if cc == c as int && hi@[cc] != hi0[cc] {
                        assert(store.means@[i as int * 3 + cc] == hi@[cc]);
                    } else {
                        assert(hi@[cc] == hi0[cc]);
                        assert(coord_attained(*store, hi0[cc], cc, i as int + 1));
                        let m2 = choose|m: int|
                            0 <= m < i + 1 && #[trigger] store.means@[m * 3 + cc] == hi0[cc];
                        assert(store.means@[m2 * 3 + cc] == hi@[cc]);
                    }
                }
            }
            c = c + 1;
        }
        i = i + 1;
    }
    Some((lo, hi))
}

} // verus!

verus! {

/// The data loader's single-slot prefetch queue: the loader fills
/// the slot while the step consumes it; a consumer that finds the
/// slot empty must suspend and retry, never block the device queue.
pub struct PrefetchSlot {
    pub slot: Option<SceneView>,
}

impl PrefetchSlot {
    /// An empty queue.
    pub fn new() -> (r: PrefetchSlot)
        ensures
            r.slot is None,
    {
        PrefetchSlot { slot: None }
    }

    /// The producer's side: deposit a batch; a full slot rejects the
    /// deposit, bounding the queue at depth one.
    pub fn offer(&mut self, v: SceneView) -> (accepted: bool)
        ensures
            accepted == (old(self).slot is None),
            accepted ==> final(self).slot == Some(v),
            !accepted ==> *final(self) == *old(self),
    {
        if self.slot.is_none() {
            self.slot = Some(v);
            true
        } else {
            false
        }
    }

    /// The consumer's side: take the prefetched batch if one is
    /// ready; `None` tells the caller to suspend and retry.
    pub fn take(&mut self) -> (r: Option<SceneView>)
        ensures
            r == old(self).slot,
            final(self).slot is None,
    {
        let mut out: Option<SceneView> = None;
        std::mem::swap(&mut out, &mut self.slot);
        out
    }
}

} // verus!
