use vstd::prelude::*;

verus! {

/// One relative pointer motion, stamped with a monotonic tick count.
#[derive(Debug, Copy, Clone, PartialEq, Eq, Structural)]
pub struct MouseRawEvent {
    pub dx: i32,
    pub dy: i32,
    pub t: i64,
}

/// The device class that produced a buffered raw-input record.
#[derive(Debug, Copy, Clone, PartialEq, Eq, Structural)]
pub enum RecordKind {
    Mouse,
    Keyboard,
    Hid,
}

/// One record as retrieved by a buffered read: its device class and, for
/// mouse records, the reported relative deltas.
#[derive(Debug, Copy, Clone, PartialEq, Eq, Structural)]
pub struct RawRecord {
    pub kind: RecordKind,
    pub dx: i32,
    pub dy: i32,
}

impl RawRecord {
    pub open spec fn is_motion(self) -> bool {
        self.kind is Mouse
    }

}

} // verus!
