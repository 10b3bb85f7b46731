//! Validátor na malých ručně sestavených rozvrzích: pravidlo 7 h, nejvýš 8 h denně
//! a kolize mezi lichým a sudým týdnem.

use rozvrhovnik::data::{Nastaveni, Skola, Trida, TypStudia, Ucitel};
use rozvrhovnik::mapa::Mapa;
use rozvrhovnik::solver::{LekceInfo, Tyden, Vysledek};
use rozvrhovnik::validation;
use std::collections::BTreeMap;

fn skola_s_tridou() -> Skola {
    Skola {
        tridy: vec![Trida {
            id: "T".to_string(),
            nazev: "T".to_string(),
            rocnik: 8,
            typ: TypStudia::Osmilete,
            kmenova: "T".to_string(),
            naslednik: None,
            omezeni_prepsat: None,
        }],
        mistnosti: Vec::new(),
        ucitele: Vec::new(),
        predmety: Vec::new(),
        plan: Vec::new(),
        nastaveni: Nastaveni::default(),
    }
}

fn lekce(len: u8, tyden: Tyden, klic_predmetu: &str) -> LekceInfo {
    LekceInfo {
        predmet: String::new(),
        ucitel: "U".to_string(),
        tridy: vec!["T".to_string()],
        skupina: String::new(),
        zaci: vec![1],
        len,
        kandidati: Vec::new(),
        kmenova_ok: true,
        klic: String::new(),
        klic_predmetu: klic_predmetu.to_string(),
        par: None,
        tyden,
        dopoledne: false,
        jednotka: 0,
        menu: None,
    }
}

fn vysledek(lekce: Vec<LekceInfo>, slot: Vec<Option<u8>>) -> Vysledek {
    let n = lekce.len();
    let mut zaci_tridy = BTreeMap::new();
    zaci_tridy.insert(1u32, "T".to_string());
    Vysledek {
        rok: String::new(),
        lekce,
        slot,
        mistnost: vec![None; n],
        varovani: Vec::new(),
        problemy: Vec::new(),
        problemove_lekce: Vec::new(),
        skore_tvrde: 0,
        skore_mekke: 0,
        iteraci: 0,
        cas_ms: 0,
        limity: Mapa::new(),
        zaci_tridy,
        virtualni_zaci: Vec::new(),
    }
}

#[test]
fn sedm_hodin_v_kuse_je_dovoleno() {
    let skola = skola_s_tridou();
    let v = vysledek(vec![lekce(7, Tyden::Oba, "a")], vec![Some(1)]);
    let k = validation::zkontroluj(&skola, &v);
    assert!(!k.problemy.iter().any(|p| p.contains("pravidlo 7 h")), "{:?}", k.problemy);
}

#[test]
fn osm_hodin_v_kuse_porusuje_pravidlo_7_h_v_obou_tydnech() {
    let skola = skola_s_tridou();
    let v = vysledek(vec![lekce(8, Tyden::Oba, "a")], vec![Some(1)]);
    let k = validation::zkontroluj(&skola, &v);
    assert!(k.problemy.contains(&"T: pravidlo 7 h (8 h v kuse, L) – Po, 1 žáků".to_string()), "{:?}", k.problemy);
    assert!(k.problemy.contains(&"T: pravidlo 7 h (8 h v kuse, S) – Po, 1 žáků".to_string()), "{:?}", k.problemy);
    assert!(!k.problemy.iter().any(|p| p.starts_with("T: více než")), "{:?}", k.problemy);
    assert!(k.problemove_lekce.contains(&0));
}

#[test]
fn devet_hodin_za_den_je_vic_nez_osm() {
    let skola = skola_s_tridou();
    let v = vysledek(vec![lekce(9, Tyden::Oba, "a")], vec![Some(0)]);
    let k = validation::zkontroluj(&skola, &v);
    assert!(k.problemy.contains(&"T: více než 8 h za den (9 h, L) – Po, 1 žáků".to_string()), "{:?}", k.problemy);
}

#[test]
fn lichy_a_sudy_tyden_spolu_nekoliduji() {
    let skola = skola_s_tridou();
    let v = vysledek(vec![lekce(1, Tyden::L, "a"), lekce(1, Tyden::S, "b")], vec![Some(1), Some(1)]);
    let k = validation::zkontroluj(&skola, &v);
    assert!(k.problemy.iter().all(|p| !p.starts_with("Kolize")), "{:?}", k.problemy);
}

#[test]
fn stejny_tyden_koliduje_u_ucitele_i_zaka() {
    let skola = skola_s_tridou();
    let v = vysledek(vec![lekce(1, Tyden::L, "a"), lekce(1, Tyden::Oba, "b")], vec![Some(1), Some(1)]);
    let k = validation::zkontroluj(&skola, &v);
    assert!(k.problemy.iter().any(|p| p.starts_with("Kolize učitele U: ")), "{:?}", k.problemy);
    assert!(k.problemy.iter().any(|p| p.starts_with("Kolize žáků: ") && p.ends_with("(1 žáků)")), "{:?}", k.problemy);
}

#[test]
fn vygenerovane_mistnosti_se_neprekryvaji() {
    let p = rozvrhovnik::data::vychozi();
    let mut skola = p.skola.clone();
    skola.nastaveni.casovy_limit_s = 1;
    let v = rozvrhovnik::solver::generuj(&skola, &p.rok, &p.piny, &std::sync::atomic::AtomicBool::new(false), None);
    let hodiny = |i: usize| -> Vec<usize> {
        match v.slot[i] {
            Some(s) => {
                let tydny: Vec<usize> = match v.lekce[i].tyden {
                    Tyden::Oba => vec![0, 1],
                    Tyden::L => vec![0],
                    Tyden::S => vec![1],
                };
                let mut h = Vec::new();
                for w in tydny {
                    for x in 0..v.lekce[i].len as usize {
                        h.push(w * 60 + s as usize + x);
                    }
                }
                h
            }
            None => Vec::new(),
        }
    };
    for a in 0..v.lekce.len() {
        for b in a + 1..v.lekce.len() {
            if let (Some(ra), Some(rb)) = (&v.mistnost[a], &v.mistnost[b]) {
                if ra == rb {
                    let hb = hodiny(b);
                    assert!(hodiny(a).iter().all(|t| !hb.contains(t)), "{} {} {}", a, b, ra);
                }
            }
        }
    }
}

#[test]
fn pin_bez_lekce_se_nahlasi() {
    let mut p = rozvrhovnik::data::vychozi();
    p.piny.insert("neexistujici-lekce".to_string(), 3);
    let mut skola = p.skola.clone();
    skola.nastaveni.casovy_limit_s = 1;
    let v = rozvrhovnik::solver::generuj(&skola, &p.rok, &p.piny, &std::sync::atomic::AtomicBool::new(false), None);
    assert!(
        v.varovani.contains(&"Pin neexistujici-lekce neodpovídá žádné lekci (data se změnila) – neaplikován.".to_string()),
        "{:?}",
        v.varovani
    );
}

#[test]
fn statistika_tridy_nese_nejdelsi_blok() {
    let skola = skola_s_tridou();
    let v = vysledek(vec![lekce(3, Tyden::Oba, "a"), lekce(5, Tyden::L, "b")], vec![Some(0), Some(13)]);
    let k = validation::zkontroluj(&skola, &v);
    assert_eq!(k.statistiky.len(), 1);
    assert_eq!(k.statistiky[0].trida, "T");
    assert_eq!(k.statistiky[0].nejdelsi_blok, 5);
    assert_eq!(k.statistiky[0].rane_dny, 1);
}

fn ucitel_u(volno: Vec<u8>, max_den: u8) -> Ucitel {
    Ucitel {
        id: "U".to_string(),
        jmeno: "U".to_string(),
        volno,
        max_den,
        preferovana_mistnost: None,
        preferovane_tridy: Vec::new(),
    }
}

#[test]
fn kolize_mistnosti_se_nahlasi() {
    let skola = skola_s_tridou();
    let mut a = lekce(1, Tyden::Oba, "a");
    a.zaci = vec![1];
    let mut b = lekce(1, Tyden::Oba, "b");
    b.ucitel = "W".to_string();
    b.zaci = vec![2];
    let mut v = vysledek(vec![a, b], vec![Some(3), Some(3)]);
    v.mistnost = vec![Some("R1".to_string()), Some("R1".to_string())];
    let k = validation::zkontroluj(&skola, &v);
    assert!(k.problemy.iter().any(|p| p.starts_with("Kolize místnosti R1: ")), "{:?}", k.problemy);
    assert!(k.problemy.iter().all(|p| !p.starts_with("Kolize učitele") && !p.starts_with("Kolize žáků")), "{:?}", k.problemy);
    assert!(k.problemove_lekce.contains(&0) && k.problemove_lekce.contains(&1));
}

#[test]
fn lekce_ve_volnu_ucitele_se_nahlasi() {
    let mut skola = skola_s_tridou();
    skola.ucitele = vec![ucitel_u(vec![4], 8)];
    let v = vysledek(vec![lekce(2, Tyden::Oba, "a")], vec![Some(3)]);
    let k = validation::zkontroluj(&skola, &v);
    assert_eq!(k.problemy.iter().filter(|p| p.starts_with("Učitel U má volno: ")).count(), 1, "{:?}", k.problemy);
    assert!(k.problemove_lekce.contains(&0));
}

#[test]
fn denni_maximum_ucitele_hlasi_skutecne_pocty() {
    let mut skola = skola_s_tridou();
    skola.ucitele = vec![ucitel_u(Vec::new(), 2)];
    let mut a = lekce(2, Tyden::Oba, "a");
    a.zaci = vec![1];
    let mut b = lekce(1, Tyden::Oba, "b");
    b.zaci = vec![2];
    let v = vysledek(vec![a, b], vec![Some(0), Some(4)]);
    let k = validation::zkontroluj(&skola, &v);
    assert!(k.problemy.contains(&"Učitel U má 3 h v Po (max 2).".to_string()), "{:?}", k.problemy);
    assert!(k.problemy.iter().all(|p| !p.starts_with("Učitel U má") || p == "Učitel U má 3 h v Po (max 2)."), "{:?}", k.problemy);
}

#[test]
fn vic_nez_dve_hodiny_predmetu_hlasi_pocet() {
    let skola = skola_s_tridou();
    let v = vysledek(vec![lekce(2, Tyden::Oba, "a"), lekce(1, Tyden::Oba, "a")], vec![Some(0), Some(3)]);
    let k = validation::zkontroluj(&skola, &v);
    let predmet: Vec<&String> = k.problemy.iter().filter(|p| p.starts_with("Více než 2 h stejného předmětu za den: ")).collect();
    assert_eq!(predmet.len(), 1, "{:?}", k.problemy);
    assert!(predmet[0].ends_with(" – Po (3 h)."), "{:?}", predmet);
}

#[test]
fn lekce_bez_mistnosti_a_v_nevhodne_se_nahlasi() {
    let skola = skola_s_tridou();
    let mut v = vysledek(vec![lekce(1, Tyden::Oba, "a"), lekce(1, Tyden::Oba, "b")], vec![Some(0), Some(5)]);
    v.mistnost = vec![None, Some("X".to_string())];
    let k = validation::zkontroluj(&skola, &v);
    assert!(k.problemy.iter().any(|p| p.starts_with("Bez vhodné místnosti: ")), "{:?}", k.problemy);
    assert!(k.problemy.iter().any(|p| p.starts_with("Nevhodná místnost X pro ")), "{:?}", k.problemy);
}
