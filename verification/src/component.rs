use vstd::prelude::*;

verus! {

/// One component value: a value tagged with the key of its component type.
///
/// Component storage is keyed by type; `type_key` stands for the component's
/// type and `value` carries the component's data as plain bits.
#[derive(Clone, Copy, PartialEq, Eq, Debug, Structural)]
pub struct Component {
    pub type_key: u64,
    pub value: u64,
}

/// A fixed heterogeneous set of component values, inserted together by a
/// single command ("insert all of these atomically with respect to this one
/// command").
#[derive(Debug)]
pub struct Bundle {
    pub components: Vec<Component>,
}

impl View for Bundle {
    type V = Seq<Component>;

    open spec fn view(&self) -> Seq<Component> {
        self.components@
    }
}

impl Bundle {
    /// An empty bundle.
    pub fn new() -> (b: Bundle)
        ensures
            b@ =~= Seq::<Component>::empty(),
    {
        Bundle { components: Vec::new() }
    }

    /// Extends the bundle with one more component value.
    pub fn add(&mut self, c: Component)
        ensures
            final(self)@ == old(self)@.push(c),
    {
        self.components.push(c);
    }
}

/// The row that results from writing the components of a bundle, in order,
/// over an existing row.  A later component of the same type overwrites an
/// earlier one, so within one bundle the last write wins.
pub open spec fn row_after(row: Map<u64, u64>, comps: Seq<Component>) -> Map<u64, u64>
    decreases comps.len(),
{
    if comps.len() == 0 {
        row
    } else {
        row_after(row, comps.drop_last()).insert(comps.last().type_key, comps.last().value)
    }
}

/// The row a bundle produces when written over an empty row.
pub open spec fn bundle_row(comps: Seq<Component>) -> Map<u64, u64> {
    row_after(Map::empty(), comps)
}

} // verus!
