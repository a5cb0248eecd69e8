//! Verified core of a raw pointer-motion capture pipeline: reconstruction of
//! per-record timestamps across drained batches, a bounded first-in
//! first-out event queue over a lock-free ring that drops what finds it full,
//! the choice of the capture core, and the capture session's lifecycle.

pub mod capture;
pub mod event;
pub mod interpolate;
pub mod lifecycle;
pub mod queue;

pub use capture::{capture_core, capture_run};
pub use event::{MouseRawEvent, RawRecord, RecordKind};
pub use interpolate::BatchClock;
pub use lifecycle::{CaptureState, LifecycleEvent};
pub use queue::{EventQueue, DEFAULT_CAPACITY};
