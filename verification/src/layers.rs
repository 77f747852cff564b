//! The renderer's layer bookkeeping, kept apart from the graphics calls.
//!
//! A layer is a list of polarity sublayers with a combined bounding box.
//! The table is a sparse slot vector: freed slots read `None` and are
//! reused by the next insertion, and the slot index is the externally
//! visible layer id. A host performs the GL work (framebuffers, draws)
//! keyed by the same ids; the decisions — slot choice, validity of a
//! removal, the combined boundary, the per-sublayer blend mode — live
//! here, verified.

use vstd::prelude::*;
use crate::buffers::{Boundary, GerberData};

verus! {

/// How a sublayer blends into its layer's framebuffer.
#[derive(Clone, Copy, Debug, PartialEq, Eq, Structural)]
pub enum BlendMode {
    /// Even (positive) sublayers accumulate coverage additively.
    Additive,
    /// Odd (negative) sublayers erase coverage.
    Subtractive,
}

/// The blend mode of the sublayer at `index`: parity encodes polarity.
pub fn blend_mode_for(index: usize) -> (r: BlendMode)
    ensures
        r == (if index % 2 == 0 {
            BlendMode::Additive
        } else {
            BlendMode::Subtractive
        }),
{
    if index % 2 == 0 {
        BlendMode::Additive
    } else {
        BlendMode::Subtractive
    }
}

/// One stored layer: its sublayers and their combined bounding box.
pub struct LayerEntry {
    pub sublayers: Vec<GerberData>,
    pub boundary: Boundary,
}

/// The sparse layer table.
pub struct LayerTable {
    pub slots: Vec<Option<LayerEntry>>,
}

/// Whether `id` names a live layer.
pub open spec fn slot_live(slots: Seq<Option<LayerEntry>>, id: int) -> bool {
    0 <= id < slots.len() && slots[id] is Some
}

/// The first free slot, or the table length.
pub open spec fn first_free(slots: Seq<Option<LayerEntry>>, i: int) -> int
    decreases slots.len() - i,
{
    if i < 0 || i >= slots.len() {
        slots.len() as int
    } else if slots[i] is None {
        i
    } else {
        first_free(slots, i + 1)
    }
}

/// The combined bounding box of a sublayer list (the zero box when empty).
pub open spec fn combined_boundary(subs: Seq<GerberData>) -> Boundary
    decreases subs.len(),
{
    if subs.len() == 0 {
        Boundary { min_x: 0, max_x: 0, min_y: 0, max_y: 0 }
    } else {
        let rest = combined_boundary(subs.drop_last());
        let b = subs.last().boundary;
        if subs.len() == 1 {
            b
        } else {
            Boundary {
                min_x: if b.min_x < rest.min_x {
                    b.min_x
                } else {
                    rest.min_x
                },
                max_x: if b.max_x > rest.max_x {
                    b.max_x
                } else {
                    rest.max_x
                },
                min_y: if b.min_y < rest.min_y {
                    b.min_y
                } else {
                    rest.min_y
                },
                max_y: if b.max_y > rest.max_y {
                    b.max_y
                } else {
                    rest.max_y
                },
            }
        }
    }
}

/// The combined bounding box over every live layer's boundary.
pub open spec fn table_boundary(slots: Seq<Option<LayerEntry>>, i: int, acc: Boundary,
    any: bool) -> Boundary
    decreases slots.len() - i,
{
    if i < 0 || i >= slots.len() {
        acc
    } else {
        match slots[i] {
            Some(e) => {
                let b = e.boundary;
                let next = if !any {
                    b
                } else {
                    Boundary {
                        min_x: if b.min_x < acc.min_x {
                            b.min_x
                        } else {
                            acc.min_x
                        },
                        max_x: if b.max_x > acc.max_x {
                            b.max_x
                        } else {
                            acc.max_x
                        },
                        min_y: if b.min_y < acc.min_y {
                            b.min_y
                        } else {
                            acc.min_y
                        },
                        max_y: if b.max_y > acc.max_y {
                            b.max_y
                        } else {
                            acc.max_y
                        },
                    }
                };
                table_boundary(slots, i + 1, next, true)
            },
            None => table_boundary(slots, i + 1, acc, any),
        }
    }
}

/// Why a layer operation is refused.
#[derive(Clone, Copy, Debug, PartialEq, Eq, Structural)]
pub enum LayerError {
    /// The id names no live layer.
    InvalidLayer,
}

impl LayerTable {
    /// An empty table.
    pub fn new() -> (r: LayerTable)
        ensures
            r.slots@.len() == 0,
    {
        LayerTable { slots: Vec::new() }
    }

    /// Fold a sublayer list's combined boundary.
    fn combine(sublayers: &Vec<GerberData>) -> (r: Boundary)
        ensures
            r == combined_boundary(sublayers@),
    {
        let mut acc: Boundary = Boundary { min_x: 0, max_x: 0, min_y: 0, max_y: 0 };
        let mut i: usize = 0;
        proof {
            assert(sublayers@.take(0) =~= Seq::<GerberData>::empty());
        }
        while i < sublayers.len()
            invariant
                0 <= i <= sublayers@.len(),
                acc == combined_boundary(sublayers@.take(i as int)),
            decreases sublayers@.len() - i,
        {
            proof {
                assert(sublayers@.take(i as int + 1).drop_last() =~= sublayers@.take(
                    i as int));
                assert(sublayers@.take(i as int + 1).last() == sublayers@[i as int]);
            }
            let b: Boundary = sublayers[i].boundary;
            if i == 0 {
                acc = b;
            } else {
                acc = Boundary {
                    min_x: if b.min_x < acc.min_x {
                        b.min_x
                    } else {
                        acc.min_x
                    },
                    max_x: if b.max_x > acc.max_x {
                        b.max_x
                    } else {
                        acc.max_x
                    },
                    min_y: if b.min_y < acc.min_y {
                        b.min_y
                    } else {
                        acc.min_y
                    },
                    max_y: if b.max_y > acc.max_y {
                        b.max_y
                    } else {
                        acc.max_y
                    },
                };
            }
            i = i + 1;
        }
        proof {
            assert(sublayers@.take(sublayers@.len() as int) =~= sublayers@);
        }
        acc
    }

    /// Store a parsed layer: its combined boundary is computed, and it
    /// takes the first free slot (or a new one at the end); the slot index
    /// is the returned layer id.
    pub fn add_layer(&mut self, sublayers: Vec<GerberData>) -> (id: usize)
        ensures
            id as int == first_free(old(self).slots@, 0),
            final(self).slots@.len() == (if (id as int) < old(self).slots@.len() {
                old(self).slots@.len()
            } else {
                old(self).slots@.len() + 1
            }),
            slot_live(final(self).slots@, id as int),
            final(self).slots@[id as int]->0.boundary == combined_boundary(
                final(self).slots@[id as int]->0.sublayers@),
            forall|a: int| 0 <= a < final(self).slots@.len() && a != id as int
                ==> final(self).slots@[a] == old(self).slots@[a],
    {
        let boundary: Boundary = Self::combine(&sublayers);
        let entry: LayerEntry = LayerEntry { sublayers, boundary };
        let mut free: usize = 0;
        while free < self.slots.len() && self.slots[free].is_some()
            invariant
                0 <= free <= self.slots@.len(),
                self.slots@ == old(self).slots@,
                forall|a: int| 0 <= a < free ==> self.slots@[a] is Some,
                first_free(self.slots@, 0) == first_free(self.slots@, free as int),
            decreases self.slots@.len() - free,
        {
            free = free + 1;
        }
        if free < self.slots.len() {
            self.slots[free] = Some(entry);
            proof {
                assert(self.slots@[free as int]->0.boundary == combined_boundary(
                    self.slots@[free as int]->0.sublayers@));
            }
        } else {
            self.slots.push(Some(entry));
            proof {
                assert(self.slots@[free as int]->0.boundary == combined_boundary(
                    self.slots@[free as int]->0.sublayers@));
            }
        }
        free
    }

    /// Free a layer's slot; an id that names no live layer is refused.
    pub fn remove_layer(&mut self, id: usize) -> (r: Result<(), LayerError>)
        ensures
            r is Ok <==> slot_live(old(self).slots@, id as int),
            r is Ok ==> final(self).slots@ == old(self).slots@.update(id as int, None),
            r is Err ==> final(self).slots@ == old(self).slots@,
    {
        if id >= self.slots.len() {
            return Err(LayerError::InvalidLayer);
        }
        if self.slots[id].is_none() {
            return Err(LayerError::InvalidLayer);
        }
        self.slots[id] = None;
        Ok(())
    }

    /// Free every layer.
    pub fn clear_all(&mut self)
        ensures
            final(self).slots@.len() == 0,
    {
        self.slots = Vec::new();
    }

    /// The combined bounding box over every live layer (the zero box when
    /// none is live).
    pub fn get_boundary(&self) -> (r: Boundary)
        ensures
            r == table_boundary(self.slots@, 0, Boundary {
                min_x: 0,
                max_x: 0,
                min_y: 0,
                max_y: 0,
            }, false),
    {
        let mut acc: Boundary = Boundary { min_x: 0, max_x: 0, min_y: 0, max_y: 0 };
        let mut any: bool = false;
        let mut i: usize = 0;
        let ghost zero = Boundary { min_x: 0, max_x: 0, min_y: 0, max_y: 0 };
        while i < self.slots.len()
            invariant
                0 <= i <= self.slots@.len(),
                table_boundary(self.slots@, 0, zero, false) == table_boundary(
                    self.slots@, i as int, acc, any),
            decreases self.slots@.len() - i,
        {
            match &self.slots[i] {
                Some(e) => {
                    let b: Boundary = e.boundary;
                    if !any {
                        acc = b;
                        any = true;
                    } else {
                        acc = Boundary {
                            min_x: if b.min_x < acc.min_x {
                                b.min_x
                            } else {
                                acc.min_x
                            },
                            max_x: if b.max_x > acc.max_x {
                                b.max_x
                            } else {
                                acc.max_x
                            },
                            min_y: if b.min_y < acc.min_y {
                                b.min_y
                            } else {
                                acc.min_y
                            },
                            max_y: if b.max_y > acc.max_y {
                                b.max_y
                            } else {
                                acc.max_y
                            },
                        };
                    }
                },
                None => {
                },
            }
            i = i + 1;
        }
        acc
    }
}

} // verus!
