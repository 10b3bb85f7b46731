//! Odhad pohlaví ze slov jména a značka pohlaví za středníkem.

use rozvrhovnik::data::Pohlavi;
use rozvrhovnik::rok;

fn slova(v: &[&str]) -> Vec<Vec<char>> {
    v.iter().map(|s| s.chars().collect()).collect()
}

#[test]
fn odhad_z_malych_slov() {
    assert!(matches!(rok::odhad_z_mala_slov(&slova(&["jana", "nováková"])), Pohlavi::D));
    assert!(matches!(rok::odhad_z_mala_slov(&slova(&["petr", "novák"])), Pohlavi::CH));
    assert!(matches!(rok::odhad_z_mala_slov(&slova(&["honza", "dvořák"])), Pohlavi::CH));
    assert!(matches!(rok::odhad_z_mala_slov(&slova(&["marie"])), Pohlavi::D));
    assert!(matches!(rok::odhad_z_mala_slov(&slova(&["eva", "malá"])), Pohlavi::D));
    assert!(matches!(rok::odhad_z_mala_slov(&slova(&[])), Pohlavi::CH));
}

#[test]
fn znacka_z_velkych_pismen() {
    assert!(matches!(rok::znacka_z_velkych("Ž"), Some(Pohlavi::D)));
    assert!(matches!(rok::znacka_z_velkych("CH"), Some(Pohlavi::CH)));
    assert!(matches!(rok::znacka_z_velkych("M"), Some(Pohlavi::CH)));
    assert!(rok::znacka_z_velkych("ch").is_none());
    assert!(rok::znacka_z_velkych("X").is_none());
}
