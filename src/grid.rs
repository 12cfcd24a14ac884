use bevy::ecs::entity::Entity;
use vstd::prelude::*;

use crate::cell::{in_extent, lemma_index_in_range_and_decodes, lemma_index_unique, linear_index, CellPosition};

verus! {

/// Extent of the grid in cells, with the pixel size of the window that
/// displays it.
#[derive(Clone, Copy, Debug, Hash)]
pub struct GridConfig {
    pub grid_width: u32,
    pub grid_height: u32,
    pub window_width: u32,
    pub window_height: u32,
}

impl GridConfig {
    /// Number of cells in the extent, `width * height`.
    pub open spec fn cell_count(&self) -> int {
        self.grid_width * self.grid_height
    }

    pub fn count(&self) -> (r: usize)
        requires
            self.cell_count() <= usize::MAX,
        ensures
            r as int == self.cell_count(),
    {
        (self.grid_width as usize) * (self.grid_height as usize)
    }
}


/// Opaque handle of an object that lives in the outside entity store. The
/// grid stores handles; it never owns or inspects what they refer to.
#[verifier::external_type_specification]
#[verifier::external_body]
pub struct ExEntity(Entity);

/// Dense, row-major index from every cell of an extent to an optional
/// entity handle.
#[derive(Debug, Clone)]
pub struct Grid {
    cells: Vec<Option<Entity>>,
    config: GridConfig,
}

impl Grid {
    /// The slots, one per cell, in row-major order.
    pub closed spec fn slots(&self) -> Seq<Option<Entity>> {
        self.cells@
    }

    /// The extent and window size the grid was made for.
    pub closed spec fn extent(&self) -> GridConfig {
        self.config
    }

    /// One slot per cell of the extent.
    pub open spec fn wf(&self) -> bool {
        &&& self.slots().len() == self.extent().cell_count()
        &&& self.extent().cell_count() <= usize::MAX
    }

    /// The slot of position `p`.
    pub open spec fn slot_of(&self, p: CellPosition) -> int {
        linear_index(p.x as int, p.y as int, self.extent().grid_width as int)
    }

    /// What the grid holds at `p`, for a position inside its extent.
    pub open spec fn at(&self, p: CellPosition) -> Option<Entity> {
        self.slots()[self.slot_of(p)]
    }

    /// The slots with the one of `p` replaced by `v`.
    pub open spec fn with_slot(&self, p: CellPosition, v: Option<Entity>) -> Seq<Option<Entity>> {
        self.slots().update(self.slot_of(p), v)
    }

    pub open spec fn holds(&self, p: CellPosition) -> bool {
        in_extent(p.x as int, p.y as int, self.extent().grid_width as int, self.extent().grid_height as int)
    }

    proof fn lemma_slot_in_range(&self, p: CellPosition)
        requires
            self.wf(),
            self.holds(p),
        ensures
            0 <= linear_index(p.x as int, p.y as int, self.extent().grid_width as int) < self.slots().len(),
    {
        lemma_index_in_range_and_decodes(
            p.x as int,
            p.y as int,
            self.extent().grid_width as int,
            self.extent().grid_height as int,
        );
    }

    /// A grid over the extent of `config` with every slot empty.
    pub fn empty(config: GridConfig) -> (r: Self)
        requires
            config.cell_count() <= usize::MAX,
        ensures
            r.wf(),
            r.extent() == config,
            forall|i: int| 0 <= i < r.slots().len() ==> r.slots()[i].is_none(),
    {
        let n = config.count();
        let mut cells: Vec<Option<Entity>> = Vec::with_capacity(n);
        let mut i: usize = 0;
        while i < n
            invariant
                i <= n,
                cells@.len() == i,
                forall|k: int| 0 <= k < i ==> cells@[k].is_none(),
            decreases n - i,
        {
            cells.push(None);
            i = i + 1;
        }
        Self { cells, config }
    }

    /// The extent and window size the grid was made for; they never change.
    pub fn config(&self) -> (r: GridConfig)
        ensures
            r == self.extent(),
    {
        self.config
    }

    /// The handle at `cell_position`, which must lie within the extent.
    pub fn get(&self, cell_position: &CellPosition) -> (r: Option<Entity>)
        requires
            self.wf(),
            self.holds(*cell_position),
        ensures
            r == self.at(*cell_position),
    {
        proof {
            self.lemma_slot_in_range(*cell_position);
        }
        self.cells[cell_position.to_index(&self.config)]
    }

    /// The handle at `cell_position`, or `None` outside the extent.
    pub fn checked_get(&self, cell_position: &CellPosition) -> (r: Option<Entity>)
        requires
            self.wf(),
        ensures
            self.holds(*cell_position) ==> r == self.at(*cell_position),
            !self.holds(*cell_position) ==> r.is_none(),
    {
        if cell_position.within_map_bounds(&self.config) {
            self.get(cell_position)
        } else {
            None
        }
    }

    /// Stores `cell_entity` at `cell_position`, which must lie within the
    /// extent; every other slot is kept.
    pub fn set(&mut self, cell_position: &CellPosition, cell_entity: Entity)
        requires
            old(self).wf(),
            old(self).holds(*cell_position),
        ensures
            final(self).extent() == old(self).extent(),
            final(self).slots() == old(self).with_slot(*cell_position, Some(cell_entity)),
    {
        proof {
            self.lemma_slot_in_range(*cell_position);
        }
        let i = cell_position.to_index(&self.config);
        self.cells.set(i, Some(cell_entity));
    }

    /// As `set` inside the extent; outside it the grid is left unchanged.
    pub fn checked_set(&mut self, cell_position: &CellPosition, cell_entity: Entity)
        requires
            old(self).wf(),
        ensures
            final(self).extent() == old(self).extent(),
            old(self).holds(*cell_position) ==> final(self).slots() == old(self).with_slot(*cell_position, Some(cell_entity)),
            !old(self).holds(*cell_position) ==> final(self).slots() == old(self).slots(),
    {
        if cell_position.within_map_bounds(&self.config) {
            self.set(cell_position, cell_entity);
        }
    }

    /// Clears the slot at `cell_position`, which must lie within the extent;
    /// every other slot is kept.
    pub fn remove(&mut self, cell_position: &CellPosition)
        requires
            old(self).wf(),
            old(self).holds(*cell_position),
        ensures
            final(self).extent() == old(self).extent(),
            final(self).slots() == old(self).with_slot(*cell_position, None),
    {
        proof {
            self.lemma_slot_in_range(*cell_position);
        }
        let i = cell_position.to_index(&self.config);
        self.cells.set(i, None);
    }

    /// As `remove` inside the extent; outside it the grid is left unchanged.
    pub fn checked_remove(&mut self, cell_position: &CellPosition)
        requires
            old(self).wf(),
        ensures
            final(self).extent() == old(self).extent(),
            old(self).holds(*cell_position) ==> final(self).slots() == old(self).with_slot(*cell_position, None),
            !old(self).holds(*cell_position) ==> final(self).slots() == old(self).slots(),
    {
        if cell_position.within_map_bounds(&self.config) {
            self.remove(cell_position);
        }
    }

    /// The slots in row-major storage order.
    pub fn iter(&self) -> (r: std::slice::Iter<'_, Option<Entity>>)
        ensures
            vstd::std_specs::slice::into_iter_elts(r) == self.slots(),
    {
        let s = self.cells.as_slice();
        let r = s.iter();
        proof {
            vstd::std_specs::slice::axiom_spec_slice_iter(s);
        }
        r
    }
}

/// Storing a handle at an in-extent position and reading it back gives the
/// handle; clearing it and reading back gives nothing; either leaves every
/// other position of the extent as it was.
pub proof fn lemma_store_then_read(g: Grid, p: CellPosition, h: Entity, v: Option<Entity>)
    requires
        g.wf(),
        g.holds(p),
    ensures
        g.with_slot(p, Some(h))[g.slot_of(p)] == Some(h),
        g.with_slot(p, None)[g.slot_of(p)] == None::<Entity>,
        forall|q: CellPosition|
            g.holds(q) && q != p ==> #[trigger] g.with_slot(p, v)[g.slot_of(q)] == g.at(q),
{
    g.lemma_slot_in_range(p);
    assert forall|q: CellPosition| g.holds(q) && q != p implies #[trigger] g.with_slot(p, v)[g.slot_of(q)] == g.at(q) by {
        g.lemma_slot_in_range(q);
        if g.slot_of(q) == g.slot_of(p) {
            lemma_index_unique(
                q.x as int,
                q.y as int,
                p.x as int,
                p.y as int,
                g.extent().grid_width as int,
                g.extent().grid_height as int,
            );
        }
    }
}

} // verus!
