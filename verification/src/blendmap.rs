//! Colour blending through lookup tables: for each source colour of a range,
//! a table that maps the colour already on the bitmap to the blended colour.

use vstd::prelude::*;

verus! {

/// Why a blend mapping could not be set.
#[derive(Debug, Copy, Clone, PartialEq, Eq, Structural)]
pub enum BlendMapError {
    /// The blend map holds no table for this source colour.
    InvalidSourceColor(u8),
}

/// What a blend map holds, as plain mathematical values: the range of source
/// colours and one table of 256 entries for each of them.
pub struct BlendTables {
    pub start_color: u8,
    pub end_color: u8,
    pub tables: Seq<Seq<u8>>,
}

impl BlendTables {
    /// There is one table of 256 entries for each colour of the range.
    pub open spec fn wf(self) -> bool {
        &&& self.start_color <= self.end_color
        &&& self.tables.len() == self.end_color - self.start_color + 1
        &&& forall|i: int| 0 <= i < self.tables.len() ==> (#[trigger] self.tables[i]).len() == 256
    }

    /// The blend map holds a table for the source colour `color`.
    pub open spec fn is_mapped(self, color: u8) -> bool {
        self.start_color <= color <= self.end_color
    }

    /// The table for the source colour `color`, if there is one.
    pub open spec fn mapping(self, color: u8) -> Option<Seq<u8>> {
        if self.is_mapped(color) {
            Some(self.tables[color - self.start_color])
        } else {
            None
        }
    }

    /// The colour that `source_color` blends to over `dest_color`, if the
    /// source colour has a table.
    pub open spec fn blend(self, source_color: u8, dest_color: u8) -> Option<u8> {
        match self.mapping(source_color) {
            Some(table) => Some(table[dest_color as int]),
            None => None,
        }
    }
}

/// Blend tables for a range of source colours.
#[derive(Debug, PartialEq, Eq)]
pub struct BlendMap {
    start_color: u8,
    end_color: u8,
    mapping: Vec<[u8; 256]>,
}

impl View for BlendMap {
    type V = BlendTables;

    closed spec fn view(&self) -> BlendTables {
        BlendTables {
            start_color: self.start_color,
            end_color: self.end_color,
            tables: Seq::new(self.mapping@.len(), |i: int| self.mapping@[i]@),
        }
    }
}

impl Clone for BlendMap {
    /// A second blend map with the same range and the same tables.
    fn clone(&self) -> (copy: BlendMap)
        ensures
            copy@ == self@,
    {
        let mut mapping: Vec<[u8; 256]> = Vec::new();
        let mut copied: usize = 0;
        while copied < self.mapping.len()
            invariant
                copied <= self.mapping@.len(),
                mapping@.len() == copied,
                forall|i: int| 0 <= i < copied ==> mapping@[i] == self.mapping@[i],
            decreases self.mapping@.len() - copied,
        {
            mapping.push(self.mapping[copied]);
            copied = copied + 1;
        }
        assert(mapping@ =~= self.mapping@);
        BlendMap { start_color: self.start_color, end_color: self.end_color, mapping }
    }
}

impl BlendMap {
    /// The blend map's invariant: its tables are well formed.
    pub open spec fn wf(&self) -> bool {
        self@.wf()
    }

    /// Makes a blend map for the source colours from `start_color` to
    /// `end_color`, both included and in either order, with every entry of
    /// every table zero.
    pub fn new(start_color: u8, end_color: u8) -> (map: BlendMap)
        ensures
            map.wf(),
            map@.start_color == (if start_color <= end_color { start_color } else { end_color }),
            map@.end_color == (if start_color <= end_color { end_color } else { start_color }),
            forall|i: int, j: int|
                0 <= i < map@.tables.len() && 0 <= j < 256 ==> (#[trigger] map@.tables[i][j]) == 0,
    {
        let (start_color, end_color): (u8, u8) = if start_color > end_color {
            (end_color, start_color)
        } else {
            (start_color, end_color)
        };
        let count: usize = (end_color - start_color) as usize + 1;
        let mut mapping: Vec<[u8; 256]> = Vec::new();
        let mut filled: usize = 0;
        while filled < count
            invariant
                filled <= count,
                mapping@.len() == filled,
                forall|i: int, j: int|
                    0 <= i < filled && 0 <= j < 256 ==> (#[trigger] mapping@[i]@[j]) == 0,
            decreases count - filled,
        {
            mapping.push([0u8;256]);
            filled = filled + 1;
        }
        BlendMap { start_color, end_color, mapping }
    }

    /// The first source colour that has a table.
    pub fn start_color(&self) -> (color: u8)
        ensures
            color == self@.start_color,
    {
        self.start_color
    }

    /// The last source colour that has a table.
    pub fn end_color(&self) -> (color: u8)
        ensures
            color == self@.end_color,
    {
        self.end_color
    }

    /// Whether the source colour `color` has a table.
    pub fn is_mapped(&self, color: u8) -> (mapped: bool)
        ensures
            mapped == self@.is_mapped(color),
    {
        color >= self.start_color && color <= self.end_color
    }

    /// The table for the source colour `color`, if there is one.
    pub fn get_mapping(&self, color: u8) -> (table: Option<&[u8; 256]>)
        requires
            self.wf(),
        ensures
            table is Some == self@.is_mapped(color),
            table matches Some(t) ==> self@.mapping(color) == Some(t@),
    {
        if self.is_mapped(color) {
            let index: usize = (color - self.start_color) as usize;
            Some(&self.mapping[index])
        } else {
            None
        }
    }

    /// Sets the colour that `source_color` blends to over `dest_color`.
    /// Fails where the source colour has no table.
    pub fn set_mapping(&mut self, source_color: u8, dest_color: u8, mapped_color: u8) -> (r:
        Result<(), BlendMapError>)
        requires
            old(self).wf(),
        ensures
            final(self).wf(),
            r is Ok == old(self)@.is_mapped(source_color),
            r is Ok ==> final(self)@ == (BlendTables {
                tables: old(self)@.tables.update(
                    source_color - old(self)@.start_color,
                    old(self)@.tables[source_color - old(self)@.start_color].update(
                        dest_color as int,
                        mapped_color,
                    ),
                ),
                ..old(self)@
            }),
            r matches Err(e) ==> e == BlendMapError::InvalidSourceColor(source_color),
            r is Err ==> final(self)@ == old(self)@,
    {
        if self.is_mapped(source_color) {
            let index: usize = (source_color - self.start_color) as usize;
            let mut table: [u8; 256] = self.mapping[index];
            table[dest_color as usize] = mapped_color;
            self.mapping[index] = table;
            assert(self@.tables =~= old(self)@.tables.update(
                source_color - old(self)@.start_color,
                old(self)@.tables[source_color - old(self)@.start_color].update(
                    dest_color as int,
                    mapped_color,
                ),
            ));
            Ok(())
        } else {
            Err(BlendMapError::InvalidSourceColor(source_color))
        }
    }

    /// The colour that `source_color` blends to over `dest_color`, if the
    /// source colour has a table.
    pub fn blend(&self, source_color: u8, dest_color: u8) -> (color: Option<u8>)
        requires
            self.wf(),
        ensures
            color == self@.blend(source_color, dest_color),
    {
        match self.get_mapping(source_color) {
            Some(table) => Some(table[dest_color as usize]),
            None => None,
        }
    }
}

} // verus!
