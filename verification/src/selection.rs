//! The hover/drag/selection rules of the editor, modelled over integer
//! entity handles: which control point the cursor rests on, what a click
//! grabs and selects, and how selection changes a point's stroke.

use vstd::prelude::*;

use crate::position::Position;

verus! {

/// An entity with this component gains [`Hovered`] while the mouse is
/// within `radius` of its [`Position`].
#[derive(Clone, Copy, PartialEq, Eq, Structural, Debug)]
pub struct Hoverable {
    pub radius: i64,
}

/// Present on an entity while the mouse hovers it; `connected` marks a
/// hover mirrored from a connected entity rather than earned by distance.
#[derive(Clone, Copy, PartialEq, Eq, Structural, Debug)]
pub struct Hovered {
    pub connected: bool,
}

/// Marks an entity that can be dragged while hovered.
#[derive(Clone, Copy, PartialEq, Eq, Structural, Debug)]
pub struct Draggable;

/// Marks an entity that a click can select.
#[derive(Clone, Copy, PartialEq, Eq, Structural, Debug)]
pub struct Selectable;

/// Present on the currently selected entity.
#[derive(Clone, Copy, PartialEq, Eq, Structural, Debug)]
pub struct Selected;

/// Marks an entity whose stroke turns solid while it is selected.
#[derive(Clone, Copy, PartialEq, Eq, Structural, Debug)]
pub struct SolidWhenSelected;

/// Hover and drag events on this entity are mirrored onto the listed
/// entity handles.
#[derive(Clone, PartialEq, Eq, Debug)]
pub struct Connection(pub Vec<usize>);

/// How a point is drawn.
#[derive(Clone, Copy, PartialEq, Eq, Structural, Debug)]
pub enum Stroke {
    Solid,
    Outline,
}

/// The mouse rests within the hover radius of the position.
pub open spec fn within_radius(position: Position, mouse: Position, radius: int) -> bool {
    (mouse.x - position.x) * (mouse.x - position.x) + (mouse.y - position.y) * (mouse.y
        - position.y) < radius * radius
}

/// The hover state of one entity after the mouse moved: close enough means
/// hovered afresh; otherwise a distance-earned hover is dropped while a
/// mirrored one is left for its host to clear.
pub fn hover_after_move(
    position: Position,
    hoverable: Hoverable,
    hovered: Option<Hovered>,
    mouse: Position,
) -> (r: Option<Hovered>)
    requires
        -0x2000_0000_0000_0000 <= position.x <= 0x2000_0000_0000_0000,
        -0x2000_0000_0000_0000 <= position.y <= 0x2000_0000_0000_0000,
        -0x2000_0000_0000_0000 <= mouse.x <= 0x2000_0000_0000_0000,
        -0x2000_0000_0000_0000 <= mouse.y <= 0x2000_0000_0000_0000,
        0 <= hoverable.radius <= 0x2000_0000_0000_0000,
    ensures
        r == if within_radius(position, mouse, hoverable.radius as int) {
            Some(Hovered { connected: false })
        } else if hovered == Some(Hovered { connected: true }) {
            hovered
        } else {
            None::<Hovered>
        },
{
    let d2: i128 = position.distance_squared(&mouse);
    let rad: i128 = hoverable.radius as i128;
    proof {
        crate::arith::lemma_mul_bound(
            rad as int,
            rad as int,
            0x2000_0000_0000_0000int,
            0x2000_0000_0000_0000int,
        );
    }
    let r2: i128 = rad * rad;
    if d2 < r2 {
        Some(Hovered { connected: false })
    } else {
        match hovered {
            Some(h) => if h.connected {
                Some(h)
            } else {
                None
            },
            None => None,
        }
    }
}

/// The stroke a [`SolidWhenSelected`] entity wears for a given selection
/// state: solid while selected, outline otherwise.
pub fn stroke_for_selection(selected: bool) -> (r: Stroke)
    ensures
        r == if selected {
            Stroke::Solid
        } else {
            Stroke::Outline
        },
{
    if selected {
        Stroke::Solid
    } else {
        Stroke::Outline
    }
}

/// What the interaction layer holds between frames: the entities being
/// dragged and the selected entity, as integer handles.
#[derive(Clone, PartialEq, Eq, Debug)]
pub struct SelectionData {
    pub held_items: Vec<usize>,
    pub selected_item: Option<usize>,
}

impl SelectionData {
    pub fn new() -> (r: SelectionData)
        ensures
            r.held_items@ == Seq::<usize>::empty(),
            r.selected_item is None,
    {
        SelectionData { held_items: Vec::new(), selected_item: None }
    }

    /// A left-button press lands: the hovered draggables are grabbed, and
    /// the first hovered selectable becomes the selection. The previous
    /// selection is dropped when a different entity takes over or when the
    /// click grabbed nothing. Returns the entity losing [`Selected`] and
    /// the entity gaining it.
    pub fn grab(&mut self, hovered_draggable: &Vec<usize>, hovered_selectable: Option<usize>) -> (r:
        (Option<usize>, Option<usize>))
        ensures
            final(self).held_items@ == old(self).held_items@ + hovered_draggable@,
            final(self).selected_item == if hovered_selectable is Some {
                hovered_selectable
            } else {
                old(self).selected_item
            },
            r.1 == hovered_selectable,
            r.0 == if old(self).selected_item is Some && ((old(self).selected_item
                != hovered_selectable && hovered_selectable is Some) || old(self).held_items@.len()
                + hovered_draggable@.len() == 0) {
                old(self).selected_item
            } else {
                None::<usize>
            },
    {
        let mut i: usize = 0;
        while i < hovered_draggable.len()
            invariant
                i <= hovered_draggable.len(),
                self.held_items@ == old(self).held_items@ + hovered_draggable@.subrange(0, i as int),
                self.selected_item == old(self).selected_item,
            decreases hovered_draggable.len() - i,
        {
            self.held_items.push(hovered_draggable[i]);
            proof {
                assert(self.held_items@ == old(self).held_items@ + hovered_draggable@.subrange(
                    0,
                    i + 1,
                ));
            }
            i = i + 1;
        }
        proof {
            assert(hovered_draggable@.subrange(0, hovered_draggable@.len() as int)
                == hovered_draggable@);
        }

        let old_entity = self.selected_item;
        let new_entity = hovered_selectable;

        let different_entity = match (old_entity, new_entity) {
            (Some(a), Some(b)) => a != b,
            _ => false,
        };
        let not_dragging = self.held_items.len() == 0;

        let deselected: Option<usize> = match old_entity {
            Some(entity) => if different_entity || not_dragging {
                Some(entity)
            } else {
                None
            },
            None => None,
        };

        if new_entity.is_some() {
            self.selected_item = new_entity;
        }

        (deselected, new_entity)
    }

    /// A left-button release: everything being dragged is let go.
    pub fn release(&mut self)
        ensures
            final(self).held_items@ == Seq::<usize>::empty(),
            final(self).selected_item == old(self).selected_item,
    {
        self.held_items.clear();
    }
}

} // verus!
