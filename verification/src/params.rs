//! Shared atomic parameter cells.
//!
//! A cell is a cloneable handle onto one atomic word, the only state the
//! engine allows controller threads to mutate while audio is running. All
//! accesses are relaxed: the cells are independent and no ordering between
//! distinct cells is promised, so nothing is stated about the value a
//! racing load observes. Fixed-point scalars are stored by bit pattern in
//! [`ParamFx`].

use vstd::prelude::*;
use std::sync::Arc;
use core::sync::atomic::{AtomicBool, AtomicU32, AtomicU64, Ordering};

verus! {

/// A shared boolean parameter.
#[derive(Clone)]
pub struct ParamBool {
    cell: Arc<AtomicBool>,
}

impl ParamBool {
    /// A fresh cell holding `val`.
    pub fn new(val: bool) -> ParamBool {
        ParamBool { cell: Arc::new(AtomicBool::new(val)) }
    }

    /// Publishes `val` with relaxed ordering.
    pub fn store(&self, val: bool) {
        self.cell.store(val, Ordering::Relaxed);
    }

    /// Reads the current value with relaxed ordering.
    pub fn get(&self) -> bool {
        self.cell.load(Ordering::Relaxed)
    }
}

/// A shared unsigned parameter.
#[derive(Clone)]
pub struct ParamU32 {
    cell: Arc<AtomicU32>,
}

impl ParamU32 {
    /// A fresh cell holding `val`.
    pub fn new(val: u32) -> ParamU32 {
        ParamU32 { cell: Arc::new(AtomicU32::new(val)) }
    }

    /// Publishes `val` with relaxed ordering.
    pub fn store(&self, val: u32) {
        self.cell.store(val, Ordering::Relaxed);
    }

    /// Reads the current value with relaxed ordering.
    pub fn get(&self) -> u32 {
        self.cell.load(Ordering::Relaxed)
    }
}

/// A shared fixed-point parameter, stored by bit pattern.
#[derive(Clone)]
pub struct ParamFx {
    cell: Arc<AtomicU64>,
}

impl ParamFx {
    /// A fresh cell holding the fixed-point value `val`.
    pub fn new(val: i64) -> ParamFx {
        ParamFx { cell: Arc::new(AtomicU64::new(val as u64)) }
    }

    /// Publishes `val` with relaxed ordering.
    pub fn store(&self, val: i64) {
        self.cell.store(val as u64, Ordering::Relaxed);
    }

    /// Reads the current value with relaxed ordering.
    pub fn get(&self) -> i64 {
        self.cell.load(Ordering::Relaxed) as i64
    }

    /// Atomically adds `val` to the stored fixed-point value with wrapping
    /// two's-complement semantics, returning the updated value. Concurrent
    /// stores may interleave, as with any relaxed atomic.
    pub fn fetch_add(&self, val: i64) -> i64 {
        let prev: u64 = self.cell.fetch_add(val as u64, Ordering::Relaxed);
        prev.wrapping_add(val as u64) as i64
    }
}

} // verus!
