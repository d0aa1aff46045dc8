//! The top-level storyboard aggregate.

use vstd::prelude::*;

use crate::element::StoryboardElementKind;
use crate::layer::{slice_to_vec, StoryboardLayer};
use crate::num::Num;
use vstd::string::StringSliceAdditionalSpecFns;

verus! {

/// The format version written when a document declares none.
pub const LATEST_FORMAT_VERSION: i32 = 14;

/// A pause in play between two times.
#[derive(Clone, Copy, Debug, PartialEq, Eq, Structural)]
pub struct BreakPeriod {
    pub start_time: Num,
    pub end_time: Num,
}

/// A complete storyboard: format version, background, breaks, and the
/// layers in creation order.
#[derive(Clone, Debug)]
pub struct Storyboard {
    pub format_version: i32,
    pub use_skin_sprites: bool,
    pub background_file: Vec<u8>,
    pub breaks: Vec<BreakPeriod>,
    pub layers: Vec<StoryboardLayer>,
    pub min_layer_depth: i32,
}

/// The six well-known layers exist from the start, fully visible except
/// that the fail layer hides while passing and the pass layer hides while
/// failing.
pub open spec fn default_layers_spec(layers: Seq<StoryboardLayer>) -> bool {
    &&& layers.len() == 6
    &&& layers[0].name@ == "Video".spec_bytes() && layers[0].depth == 4 && !layers[0].masking
        && layers[0].visible_when_passing && layers[0].visible_when_failing && layers[
        0
    ].elements@.len() == 0
    &&& layers[1].name@ == "Background".spec_bytes() && layers[1].depth == 3 && layers[1].masking
        && layers[1].visible_when_passing && layers[1].visible_when_failing && layers[
        1
    ].elements@.len() == 0
    &&& layers[2].name@ == "Fail".spec_bytes() && layers[2].depth == 2 && layers[2].masking
        && !layers[2].visible_when_passing && layers[2].visible_when_failing && layers[
        2
    ].elements@.len() == 0
    &&& layers[3].name@ == "Pass".spec_bytes() && layers[3].depth == 1 && layers[3].masking
        && layers[3].visible_when_passing && !layers[3].visible_when_failing && layers[
        3
    ].elements@.len() == 0
    &&& layers[4].name@ == "Foreground".spec_bytes() && layers[4].depth == 0 && layers[4].masking
        && layers[4].visible_when_passing && layers[4].visible_when_failing && layers[
        4
    ].elements@.len() == 0
    &&& layers[5].name@ == "Overlay".spec_bytes() && layers[5].depth == i32::MIN && layers[
        5
    ].masking && layers[5].visible_when_passing && layers[5].visible_when_failing && layers[
        5
    ].elements@.len() == 0
}

impl Storyboard {
    pub open spec fn inv(self) -> bool {
        &&& forall|i: int| 0 <= i < self.layers@.len() ==> (#[trigger] self.layers@[i]).inv()
        &&& forall|i: int|
            0 <= i < self.breaks@.len() ==> (#[trigger] self.breaks@[i]).start_time.bounded()
                && self.breaks@[i].end_time.bounded()
    }

    /// A fresh storyboard with the six well-known layers.
    pub fn with_version(format_version: i32) -> (r: Self)
        ensures
            r.inv(),
            r.format_version == format_version,
            !r.use_skin_sprites,
            r.background_file@.len() == 0,
            r.breaks@.len() == 0,
            r.min_layer_depth == 0,
            default_layers_spec(r.layers@),
    {
        let mut layers: Vec<StoryboardLayer> = Vec::new();
        layers.push(StoryboardLayer::new(slice_to_vec("Video".as_bytes()), 4, false));
        layers.push(StoryboardLayer::new(slice_to_vec("Background".as_bytes()), 3, true));
        let mut fail = StoryboardLayer::new(slice_to_vec("Fail".as_bytes()), 2, true);
        fail.visible_when_passing = false;
        layers.push(fail);
        let mut pass = StoryboardLayer::new(slice_to_vec("Pass".as_bytes()), 1, true);
        pass.visible_when_failing = false;
        layers.push(pass);
        layers.push(StoryboardLayer::new(slice_to_vec("Foreground".as_bytes()), 0, true));
        layers.push(StoryboardLayer::new(slice_to_vec("Overlay".as_bytes()), i32::MIN, true));
        Storyboard {
            format_version,
            use_skin_sprites: false,
            background_file: Vec::new(),
            breaks: Vec::new(),
            layers,
            min_layer_depth: 0,
        }
    }

    /// The index of the layer with the given name, creating a fresh one
    /// behind every existing layer when no layer has it.
    pub fn get_layer(&mut self, name: &[u8]) -> (r: usize)
        requires
            old(self).inv(),
        ensures
            final(self).inv(),
            r < final(self).layers@.len(),
            final(self).layers@[r as int].name@ == name@,
            forall|j: int| 0 <= j < r ==> (#[trigger] final(self).layers@[j]).name@ != name@,
            final(self).format_version == old(self).format_version,
            final(self).use_skin_sprites == old(self).use_skin_sprites,
            final(self).background_file == old(self).background_file,
            final(self).breaks == old(self).breaks,
            (exists|j: int|
                0 <= j < old(self).layers@.len() && (#[trigger] old(self).layers@[j]).name@
                    == name@) ==> *final(self) == *old(self),
            !(exists|j: int|
                0 <= j < old(self).layers@.len() && (#[trigger] old(self).layers@[j]).name@
                    == name@) ==> {
                &&& r as int == old(self).layers@.len()
                &&& final(self).layers@ == old(self).layers@.push(
                    final(self).layers@.last(),
                )
                &&& final(self).layers@.last().name@ == name@
                &&& final(self).layers@.last().depth == final(self).min_layer_depth
                &&& final(self).layers@.last().masking
                &&& final(self).layers@.last().visible_when_passing
                &&& final(self).layers@.last().visible_when_failing
                &&& final(self).layers@.last().elements@.len() == 0
                &&& final(self).min_layer_depth == if old(self).min_layer_depth > i32::MIN {
                    old(self).min_layer_depth - 1
                } else {
                    i32::MIN as int
                }
            },
    {
        let n = self.layers.len();
        let mut i: usize = 0;
        while i < n
            invariant
                0 <= i <= n,
                n == self.layers@.len(),
                *self == *old(self),
                old(self).inv(),
                forall|j: int| 0 <= j < i ==> (#[trigger] self.layers@[j]).name@ != name@,
            decreases n - i,
        {
            if crate::text::bytes_eq(self.layers[i].name.as_slice(), name) {
                return i;
            }
            i = i + 1;
        }
        if self.min_layer_depth > i32::MIN {
            self.min_layer_depth = self.min_layer_depth - 1;
        }
        let layer = StoryboardLayer::new(slice_to_vec(name), self.min_layer_depth, true);
        self.layers.push(layer);
        proof {
            assert(forall|j: int|
                0 <= j < old(self).layers@.len() ==> self.layers@[j] == old(self).layers@[j]);
        }
        n
    }

    /// The layer with the given name, if one exists.
    pub fn try_get_layer(&self, name: &[u8]) -> (r: Option<&StoryboardLayer>)
        ensures
            match r {
                Some(l) => exists|j: int|
                    0 <= j < self.layers@.len() && *l == (#[trigger] self.layers@[j]) && l.name@
                        == name@,
                None => forall|j: int|
                    0 <= j < self.layers@.len() ==> (#[trigger] self.layers@[j]).name@ != name@,
            },
    {
        let n = self.layers.len();
        let mut i: usize = 0;
        while i < n
            invariant
                0 <= i <= n,
                n == self.layers@.len(),
                forall|j: int| 0 <= j < i ==> (#[trigger] self.layers@[j]).name@ != name@,
            decreases n - i,
        {
            if crate::text::bytes_eq(self.layers[i].name.as_slice(), name) {
                return Some(&self.layers[i]);
            }
            i = i + 1;
        }
        None
    }

    /// Whether an element at `(i, j)` counts toward the timing bounds:
    /// videos do not.
    pub open spec fn timed_at(self, i: int, j: int) -> bool {
        &&& 0 <= i < self.layers@.len()
        &&& 0 <= j < self.layers@[i].elements@.len()
        &&& !(self.layers@[i].elements@[j].kind is Video)
    }

    /// The earliest start over all timed elements, if any.
    pub fn earliest_event_time(&self) -> (r: Option<Num>)
        requires
            self.inv(),
        ensures
            match r {
                Some(t) => (exists|i: int, j: int|
                    #[trigger] self.timed_at(i, j) && self.layers@[i].elements@[j].kind.start_units()
                        == t.units) && (forall|i: int, j: int|
                    #[trigger] self.timed_at(i, j) ==> t.units
                        <= self.layers@[i].elements@[j].kind.start_units()),
                None => forall|i: int, j: int| !(#[trigger] self.timed_at(i, j)),
            },
    {
        let mut best: Option<Num> = None;
        let n = self.layers.len();
        let mut i: usize = 0;
        while i < n
            invariant
                0 <= i <= n,
                n == self.layers@.len(),
                self.inv(),
                match best {
                    Some(t) => (exists|a: int, b: int|
                        #[trigger] self.timed_at(a, b) && self.layers@[a].elements@[
                            b
                        ].kind.start_units() == t.units) && (forall|a: int, b: int|
                        a < i ==> #[trigger] self.timed_at(a, b) ==> t.units <= self.layers@[
                            a
                        ].elements@[b].kind.start_units()),
                    None => forall|a: int, b: int| a < i ==> !(#[trigger] self.timed_at(a, b)),
                },
            decreases n - i,
        {
            let layer = &self.layers[i];
            let m = layer.elements.len();
            let mut j: usize = 0;
            while j < m
                invariant
                    0 <= j <= m,
                    0 <= i < n,
                    n == self.layers@.len(),
                    m == self.layers@[i as int].elements@.len(),
                    layer == &self.layers@[i as int],
                    self.inv(),
                    match best {
                        Some(t) => (exists|a: int, b: int|
                            #[trigger] self.timed_at(a, b) && self.layers@[a].elements@[
                                b
                            ].kind.start_units() == t.units) && (forall|a: int, b: int|
                            (a < i || (a == i && b < j)) ==> #[trigger] self.timed_at(a, b)
                                ==> t.units <= self.layers@[a].elements@[b].kind.start_units()),
                        None => forall|a: int, b: int|
                            (a < i || (a == i && b < j)) ==> !(#[trigger] self.timed_at(a, b)),
                    },
                decreases m - j,
            {
                let elem = &layer.elements[j];
                let timed = match &elem.kind {
                    StoryboardElementKind::Video(_) => false,
                    _ => true,
                };
                if timed {
                    let t = elem.kind.start_time();
                    proof {
                        assert(self.timed_at(i as int, j as int));
                    }
                    match best {
                        None => {
                            best = Some(t);
                        },
                        Some(b) => {
                            if t.lt(b) {
                                best = Some(t);
                            }
                        },
                    }
                }
                j = j + 1;
            }
            i = i + 1;
        }
        best
    }

    /// The latest end over all timed elements, if any.
    pub fn latest_event_time(&self) -> (r: Option<Num>)
        requires
            self.inv(),
        ensures
            match r {
                Some(t) => (exists|i: int, j: int|
                    #[trigger] self.timed_at(i, j) && self.layers@[i].elements@[j].kind.end_units()
                        == t.units) && (forall|i: int, j: int|
                    #[trigger] self.timed_at(i, j) ==> t.units
                        >= self.layers@[i].elements@[j].kind.end_units()),
                None => forall|i: int, j: int| !(#[trigger] self.timed_at(i, j)),
            },
    {
        let mut best: Option<Num> = None;
        let n = self.layers.len();
        let mut i: usize = 0;
        while i < n
            invariant
                0 <= i <= n,
                n == self.layers@.len(),
                self.inv(),
                match best {
                    Some(t) => (exists|a: int, b: int|
                        #[trigger] self.timed_at(a, b) && self.layers@[a].elements@[
                            b
                        ].kind.end_units() == t.units) && (forall|a: int, b: int|
                        a < i ==> #[trigger] self.timed_at(a, b) ==> t.units >= self.layers@[
                            a
                        ].elements@[b].kind.end_units()),
                    None => forall|a: int, b: int| a < i ==> !(#[trigger] self.timed_at(a, b)),
                },
            decreases n - i,
        {
            let layer = &self.layers[i];
            let m = layer.elements.len();
            let mut j: usize = 0;
            while j < m
                invariant
                    0 <= j <= m,
                    0 <= i < n,
                    n == self.layers@.len(),
                    m == self.layers@[i as int].elements@.len(),
                    layer == &self.layers@[i as int],
                    self.inv(),
                    match best {
                        Some(t) => (exists|a: int, b: int|
                            #[trigger] self.timed_at(a, b) && self.layers@[a].elements@[
                                b
                            ].kind.end_units() == t.units) && (forall|a: int, b: int|
                            (a < i || (a == i && b < j)) ==> #[trigger] self.timed_at(a, b)
                                ==> t.units >= self.layers@[a].elements@[b].kind.end_units()),
                        None => forall|a: int, b: int|
                            (a < i || (a == i && b < j)) ==> !(#[trigger] self.timed_at(a, b)),
                    },
                decreases m - j,
            {
                let elem = &layer.elements[j];
                let timed = match &elem.kind {
                    StoryboardElementKind::Video(_) => false,
                    _ => true,
                };
                if timed {
                    let t = elem.kind.end_time();
                    proof {
                        assert(self.timed_at(i as int, j as int));
                    }
                    match best {
                        None => {
                            best = Some(t);
                        },
                        Some(b) => {
                            if b.lt(t) {
                                best = Some(t);
                            }
                        },
                    }
                }
                j = j + 1;
            }
            i = i + 1;
        }
        best
    }

    /// Whether any element in any layer is drawn.
    pub fn has_drawable(&self) -> (r: bool)
        ensures
            r <==> exists|i: int, j: int|
                0 <= i < self.layers@.len() && 0 <= j < (#[trigger] self.layers@[
                    i
                ]).elements@.len() && (#[trigger] self.layers@[i].elements@[j]).kind.drawable(),
    {
        let n = self.layers.len();
        let mut i: usize = 0;
        while i < n
            invariant
                0 <= i <= n,
                n == self.layers@.len(),
                forall|a: int, b: int|
                    0 <= a < i && 0 <= b < (#[trigger] self.layers@[a]).elements@.len() ==> !(
                    #[trigger] self.layers@[a].elements@[b]).kind.drawable(),
            decreases n - i,
        {
            let layer = &self.layers[i];
            let m = layer.elements.len();
            let mut j: usize = 0;
            while j < m
                invariant
                    0 <= j <= m,
                    0 <= i < n,
                    n == self.layers@.len(),
                    m == self.layers@[i as int].elements@.len(),
                    layer == &self.layers@[i as int],
                    forall|a: int, b: int|
                        0 <= a < i && 0 <= b < (#[trigger] self.layers@[a]).elements@.len() ==> !(
                        #[trigger] self.layers@[a].elements@[b]).kind.drawable(),
                    forall|b: int|
                        0 <= b < j ==> !(#[trigger] self.layers@[i as int].elements@[
                            b
                        ]).kind.drawable(),
                decreases m - j,
            {
                if layer.elements[j].is_drawable() {
                    return true;
                }
                j = j + 1;
            }
            i = i + 1;
        }
        false
    }
}

} // verus!
