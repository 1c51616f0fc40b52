//! The palette: a set of unique HSV colors assembled per scene/room update.

use vstd::prelude::*;
use crate::color::{hsv_spec, HSVColor, RGBColor};

verus! {

/// The HSV images of the first `n` colors of a sequence.
pub open spec fn hsv_set(colors: Seq<RGBColor>, n: int) -> Set<HSVColor>
    decreases n,
{
    if n <= 0 {
        Set::empty()
    } else {
        hsv_set(colors, n - 1).insert(hsv_spec(colors[n - 1]))
    }
}

/// A set of unique HSV colors.  Uniqueness is by full (hue, saturation,
/// value) equality; iteration order carries no meaning.  The abstract view
/// is the set of colors held.
#[derive(Debug)]
pub struct Palette {
    colors: Vec<HSVColor>,
}

impl View for Palette {
    type V = Set<HSVColor>;

    closed spec fn view(&self) -> Set<HSVColor> {
        self.colors@.to_set()
    }
}

impl Palette {
    /// Every color is held exactly once.  Established by `new` and preserved
    /// by `insert`, the only ways to build a palette.
    pub closed spec fn wf(self) -> bool {
        self.colors@.no_duplicates()
    }

    /// An empty palette.
    pub fn new() -> (p: Palette)
        ensures
            p@ == Set::<HSVColor>::empty(),
            p@.len() == 0,
            p.wf(),
    {
        let p = Palette { colors: Vec::new() };
        proof {
            assert(p.colors@.to_set() =~= Set::<HSVColor>::empty());
        }
        p
    }

    /// Whether the palette already holds `color`.
    pub fn contains(&self, color: HSVColor) -> (r: bool)
        ensures
            r == self@.contains(color),
    {
        let mut i: usize = 0;
        while i < self.colors.len()
            invariant
                0 <= i <= self.colors@.len(),
                forall|j: int| 0 <= j < i ==> self.colors@[j] != color,
            decreases self.colors@.len() - i,
        {
            if self.colors[i] == color {
                proof {
                    assert(self.colors@.contains(color));
                }
                return true;
            }
            i += 1;
        }
        proof {
            assert(!self.colors@.contains(color));
        }
        false
    }

    /// How many distinct colors the palette holds.
    pub fn len(&self) -> (n: usize)
        requires
            self.wf(),
        ensures
            n == self@.len(),
    {
        proof {
            self.colors@.unique_seq_to_set();
        }
        self.colors.len()
    }

    /// Add `color` if it is not already present (set semantics: a duplicate
    /// triple collapses onto the existing entry).
    pub fn insert(&mut self, color: HSVColor)
        requires
            old(self).wf(),
        ensures
            final(self).wf(),
            final(self)@ == old(self)@.insert(color),
            final(self)@.len() == old(self)@.len() + (if old(self)@.contains(color) {
                0int
            } else {
                1int
            }),
    {
        proof {
            self.colors@.unique_seq_to_set();
        }
        let ghost prev = self.colors@;
        let already = self.contains(color);
        if !already {
            self.colors.push(color);
            proof {
                assert(self.colors@ == prev.push(color));
                assert(forall|j: int| 0 <= j < prev.len() ==> prev[j] != color);
                assert(self.colors@.no_duplicates()) by {
                    assert(forall|j: int| 0 <= j < prev.len() ==> self.colors@[j] == prev[j]);
                }
                assert(self.colors@.to_set() =~= prev.to_set().insert(color)) by {
                    assert(forall|x: HSVColor| self.colors@.contains(x) <==> (prev.contains(x)
                        || x == color)) by {
                        assert(forall|j: int|
                            0 <= j < prev.len() ==> self.colors@[j] == prev[j]);
                        assert(self.colors@[prev.len() as int] == color);
                        assert(forall|x: HSVColor| prev.contains(x)
                            ==> self.colors@.contains(x)) by {
                            assert(forall|j: int| #![trigger prev[j]]
                                0 <= j < prev.len() ==> self.colors@[j] == prev[j]);
                        }
                    }
                }
                self.colors@.unique_seq_to_set();
            }
        } else {
            proof {
                assert(self@ =~= old(self)@.insert(color));
            }
        }
    }

    /// Build a palette from RGB colors: convert each to HSV and collect the
    /// distinct results.
    pub fn build(colors: &Vec<RGBColor>) -> (p: Palette)
        ensures
            p.wf(),
            p@ == hsv_set(colors@, colors@.len() as int),
    {
        let mut p = Palette::new();
        let mut i: usize = 0;
        while i < colors.len()
            invariant
                0 <= i <= colors@.len(),
                p.wf(),
                p@ == hsv_set(colors@, i as int),
            decreases colors@.len() - i,
        {
            let hsv = colors[i].to_hsv();
            p.insert(hsv);
            i += 1;
        }
        p
    }

    /// The colors as a plain vector (each exactly once, in no meaningful
    /// order).
    pub fn to_vec(&self) -> (v: Vec<HSVColor>)
        requires
            self.wf(),
        ensures
            v@.to_set() == self@,
            v@.no_duplicates(),
            v@.len() == self@.len(),
    {
        proof {
            self.colors@.unique_seq_to_set();
        }
        let mut v: Vec<HSVColor> = Vec::new();
        let mut i: usize = 0;
        while i < self.colors.len()
            invariant
                0 <= i <= self.colors@.len(),
                v@ == self.colors@.subrange(0, i as int),
            decreases self.colors@.len() - i,
        {
            v.push(self.colors[i]);
            i += 1;
        }
        proof {
            assert(v@ =~= self.colors@);
        }
        v
    }
}

/// Palette dedup: two RGB colors that map to the same HSV triple collapse to
/// a single entry — inserting both into an empty palette leaves size 1.
pub proof fn lemma_palette_dedup(h1: HSVColor, h2: HSVColor)
    requires
        h1 == h2,
    ensures
        Set::<HSVColor>::empty().insert(h1).insert(h2).len() == 1,
{
    broadcast use vstd::set::group_set_axioms;

    assert(Set::<HSVColor>::empty().insert(h1).insert(h2) =~= Set::<HSVColor>::empty().insert(h1));
}

} // verus!
