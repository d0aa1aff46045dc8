//! Named, depth-ordered layers of storyboard elements.

use vstd::prelude::*;

use crate::element::StoryboardElement;
use crate::num::{u8_plain_ok, u8_plain_val};
use vstd::string::StringSliceAdditionalSpecFns;

verus! {

/// A named bucket of elements with visibility flags. A greater depth lies
/// further back.
#[derive(Clone, Debug)]
pub struct StoryboardLayer {
    pub name: Vec<u8>,
    pub depth: i32,
    pub masking: bool,
    pub visible_when_passing: bool,
    pub visible_when_failing: bool,
    pub elements: Vec<StoryboardElement>,
}

impl StoryboardLayer {
    pub open spec fn inv(self) -> bool {
        forall|i: int| 0 <= i < self.elements@.len() ==> (#[trigger] self.elements@[i]).inv()
    }

    /// A fresh, fully visible, empty layer.
    pub fn new(name: Vec<u8>, depth: i32, masking: bool) -> (r: Self)
        ensures
            r.inv(),
            r.name == name,
            r.depth == depth,
            r.masking == masking,
            r.visible_when_passing,
            r.visible_when_failing,
            r.elements@.len() == 0,
    {
        StoryboardLayer {
            name,
            depth,
            masking,
            visible_when_passing: true,
            visible_when_failing: true,
            elements: Vec::new(),
        }
    }

    /// Append an element to the layer.
    pub fn add(&mut self, element: StoryboardElement)
        requires
            old(self).inv(),
            element.inv(),
        ensures
            final(self).inv(),
            final(self).elements@ == old(self).elements@.push(element),
            final(self).name == old(self).name,
            final(self).depth == old(self).depth,
            final(self).masking == old(self).masking,
            final(self).visible_when_passing == old(self).visible_when_passing,
            final(self).visible_when_failing == old(self).visible_when_failing,
    {
        self.elements.push(element);
    }
}

/// The layer a layer field names: the integer-addressable codes stand for
/// the six well-known layers, anything else names itself.
pub open spec fn layer_name_of_field(s: Seq<u8>) -> Seq<u8> {
    if u8_plain_ok(s) && u8_plain_val(s) == 0 {
        "Background".spec_bytes()
    } else if u8_plain_ok(s) && u8_plain_val(s) == 1 {
        "Fail".spec_bytes()
    } else if u8_plain_ok(s) && u8_plain_val(s) == 2 {
        "Pass".spec_bytes()
    } else if u8_plain_ok(s) && u8_plain_val(s) == 3 {
        "Foreground".spec_bytes()
    } else if u8_plain_ok(s) && u8_plain_val(s) == 4 {
        "Overlay".spec_bytes()
    } else if u8_plain_ok(s) && u8_plain_val(s) == 5 {
        "Video".spec_bytes()
    } else {
        s
    }
}

/// A resolved layer name.
pub struct StoryLayer {
    pub name: Vec<u8>,
}

impl StoryLayer {
    /// Resolve a layer field to the layer name it addresses.
    pub fn parse(s: &[u8]) -> (r: Self)
        ensures
            r.name@ == layer_name_of_field(s@),
    {
        let name: Vec<u8> = match crate::num::parse_u8_plain(s) {
            Some(0) => slice_to_vec("Background".as_bytes()),
            Some(1) => slice_to_vec("Fail".as_bytes()),
            Some(2) => slice_to_vec("Pass".as_bytes()),
            Some(3) => slice_to_vec("Foreground".as_bytes()),
            Some(4) => slice_to_vec("Overlay".as_bytes()),
            Some(5) => slice_to_vec("Video".as_bytes()),
            _ => slice_to_vec(s),
        };
        StoryLayer { name }
    }

    /// The resolved name.
    pub fn as_str(&self) -> (r: &Vec<u8>)
        ensures
            r == &self.name,
    {
        &self.name
    }
}

/// Copy a byte slice into an owned vector.
pub fn slice_to_vec(s: &[u8]) -> (r: Vec<u8>)
    ensures
        r@ == s@,
{
    let r = crate::text::subrange_vec(s, 0, s.len());
    proof {
        assert(s@.subrange(0, s@.len() as int) =~= s@);
    }
    r
}

} // verus!
