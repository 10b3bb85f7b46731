//! Měření času řešiče a hlášení průběhu.

use crate::solver::Prubeh;
use std::sync::Mutex;
use std::time::Instant;
use vstd::prelude::*;

verus! {

#[verifier::external_type_specification]
#[verifier::external_body]
pub struct ExInstant(Instant);

#[verifier::external_type_specification]
#[verifier::external_body]
#[verifier::reject_recursive_types(T)]
pub struct ExMutex<T: ?Sized>(Mutex<T>);

/// `Instant::now`: okamžik volání.
#[verifier::external_body]
pub(crate) fn ted() -> Instant {
    Instant::now()
}

/// `Instant::elapsed`: kolik milisekund uplynulo od okamžiku `t0`.
#[verifier::external_body]
pub(crate) fn ms_od_presne(t0: &Instant) -> u128 {
    t0.elapsed().as_millis()
}

/// Milisekundy od okamžiku `t0` (nasycené na `u64`).
pub(crate) fn ms_od(t0: &Instant) -> u64 {
    let ms = ms_od_presne(t0);
    if ms > u64::MAX as u128 {
        u64::MAX
    } else {
        ms as u64
    }
}

/// `Mutex::lock`: zapíše průběh řešení (otrávený zámek se přeskočí).
#[verifier::external_body]
pub(crate) fn zapis_prubeh(prubeh: &Mutex<Prubeh>, faze: &str, iterace: u64, tvrde: i64, mekke: i64, cas_ms: u64) {
    if let Ok(mut p) = prubeh.lock() {
        p.faze = faze.to_owned();
        p.iterace = iterace;
        p.tvrde = tvrde;
        p.mekke = mekke;
        p.cas_ms = cas_ms;
    }
}

} // verus!
