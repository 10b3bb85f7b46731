//! Generátor rozvrhů gymnázia – ověřená knihovní část: datový model a výchozí data,
//! přechod mezi školními roky, stavba lekcí, řešič, validace a exporty.

pub mod data;
pub mod hledani;
pub mod mapa;
pub mod text;
pub mod solver;
pub mod model;
pub mod stav;
pub mod nahoda;
pub mod hodiny;
pub mod zastaveni;
pub mod faze;
pub mod validation;
pub mod vychozi;
pub mod rok;
pub mod zmeny;
pub mod podle_id;
pub mod doplneni;
pub mod skupiny;
pub mod uvazky;
pub mod profily;
pub mod export;
pub mod upravy;
pub mod editace;
pub mod sprava;
