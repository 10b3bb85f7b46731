//! Příznak zastavení řešiče (nastavuje ho uživatel z jiného vlákna).

use std::sync::atomic::{AtomicBool, Ordering};
use vstd::prelude::*;

verus! {

/// Bylo požádáno o zastavení?
pub fn zastaveno(stop: &AtomicBool) -> bool {
    stop.load(Ordering::Relaxed)
}

} // verus!
