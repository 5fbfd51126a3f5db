use vstd::prelude::*;

verus! {

/// A simple data record carried by the sequence containers.
///
/// The numeric reading is stored as the bit pattern of an IEEE-754 double
/// (`f64::to_bits`), so that the record consists of plain values throughout;
/// a front end that works with floating-point readings converts at the
/// boundary.
#[derive(Debug, Clone, PartialEq)]
pub struct DataPoint {
    pub id: u64,
    pub value_bits: u64,
    pub timestamp: String,
}

impl Default for DataPoint {
    /// The cleared record: zero id, zero reading, empty timestamp.
    fn default() -> (r: Self)
        ensures
            r.id == 0,
            r.value_bits == 0,
            r.timestamp@ == Seq::<char>::empty(),
    {
        DataPoint { id: 0, value_bits: 0, timestamp: String::new() }
    }
}

} // verus!
