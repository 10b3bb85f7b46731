//! Ruční úpravy rozvrhu a dat školy: přesun a krok zpět, piny, žáci, číselníky, plán a menu.

use rozvrhovnik::data::{vychozi, Pohlavi, Projekt, SkupinaAj, StavStudenta, SLOTU};
use rozvrhovnik::editace::{self, Zaznam};
use rozvrhovnik::export::{self, Pohled};
use rozvrhovnik::mapa::Mapa;
use rozvrhovnik::rok::{NovyZak, Zmena};
use rozvrhovnik::solver::{self, Vysledek};
use rozvrhovnik::sprava::{self, Ciselnik, Pridani};
use rozvrhovnik::zmeny;
use std::sync::atomic::AtomicBool;

fn generuj(p: &Projekt, sekund: u32) -> Vysledek {
    let mut skola = p.skola.clone();
    skola.nastaveni.casovy_limit_s = sekund;
    solver::generuj(&skola, &p.rok, &p.piny, &AtomicBool::new(false), None)
}

/// Začátek, na který lze celou jednotku lekce `i` přesunout (jiný než současný).
fn cilovy_start(v: &Vysledek, i: usize) -> u8 {
    let j = v.lekce[i].jednotka;
    let delka = v.lekce.iter().filter(|l| l.jednotka == j).map(|l| l.len).max().unwrap();
    (0..60u8)
        .find(|&s| (s as usize % SLOTU) + delka as usize <= SLOTU && v.slot[i] != Some(s))
        .unwrap()
}

#[test]
fn presun_a_krok_zpet_vrati_rozvrh() {
    let p = vychozi();
    let mut v = generuj(&p, 2);
    let mut piny = Mapa::new();
    let mut historie: Vec<Zaznam> = Vec::new();
    let i = v.lekce.iter().position(|l| l.predmet == "MAT").unwrap();
    let start = cilovy_start(&v, i);
    let sloty = v.slot.clone();
    let mistnosti = v.mistnost.clone();
    editace::presun_jednotky(&p.skola, &mut v, &mut piny, &mut historie, i, start);
    let j = v.lekce[i].jednotka;
    for (k, l) in v.lekce.iter().enumerate() {
        if l.jednotka == j {
            assert_eq!(v.slot[k], Some(start));
        } else {
            assert_eq!(v.slot[k], sloty[k]);
        }
    }
    assert_eq!(historie.len(), 1);
    assert!(editace::zpet(&p.skola, &mut v, &mut historie));
    assert_eq!(v.slot, sloty);
    assert_eq!(v.mistnost, mistnosti);
    assert!(historie.is_empty());
    assert!(!editace::zpet(&p.skola, &mut v, &mut historie));
    assert_eq!(v.slot, sloty);
}

#[test]
fn presun_posune_piny_jednotky() {
    let p = vychozi();
    let mut v = generuj(&p, 2);
    let mut piny = Mapa::new();
    let mut historie: Vec<Zaznam> = Vec::new();
    let i = v.lekce.iter().position(|l| l.predmet == "ČJL").unwrap();
    assert!(editace::pripni(&v, &mut piny, i));
    assert_eq!(piny.get(&v.lekce[i].klic).copied(), v.slot[i]);
    piny.insert("jiny-klic".to_string(), 7);
    let start = cilovy_start(&v, i);
    editace::presun_jednotky(&p.skola, &mut v, &mut piny, &mut historie, i, start);
    assert_eq!(piny.get(&v.lekce[i].klic).copied(), Some(start));
    assert_eq!(piny.get("jiny-klic").copied(), Some(7));
    assert!(editace::pinovane_jednotky(&v, &piny).contains(&v.lekce[i].jednotka));
    editace::odepni(&v, &mut piny, i);
    assert!(!piny.contains_key(&v.lekce[i].klic));
    assert!(!editace::pinovane_jednotky(&v, &piny).contains(&v.lekce[i].jednotka));
    assert_eq!(piny.get("jiny-klic").copied(), Some(7));
}

#[test]
fn neumistenou_lekci_nelze_pripnout() {
    let p = vychozi();
    let mut v = generuj(&p, 1);
    v.slot[0] = None;
    let mut piny = Mapa::new();
    assert!(!editace::pripni(&v, &mut piny, 0));
    assert_eq!(piny.len(), 0);
}

#[test]
fn presun_jen_v_ramci_dne() {
    let p = vychozi();
    let v = generuj(&p, 1);
    let i = v.lekce.iter().position(|l| l.len == 2).unwrap();
    assert!(!editace::lze_presunout(&v, i, 11));
    assert!(editace::lze_presunout(&v, i, 10) || v.slot[i] == Some(10));
    let s = v.slot[i].unwrap();
    assert!(!editace::lze_presunout(&v, i, s));
}

#[test]
fn pocet_obsazenych_hodin_pohledu() {
    let p = vychozi();
    let v = generuj(&p, 1);
    let pohled = Pohled::Trida("prima".to_string());
    let n = editace::obsazenych_hodin(&v, &pohled);
    let ocekavano =
        (0..60usize).filter(|t| !export::lekce_v_bunce(&v, &pohled, t / SLOTU, t % SLOTU).is_empty()).count();
    assert_eq!(n, ocekavano);
    assert!(n > 20 && n <= 60);
    assert_eq!(editace::obsazenych_hodin(&v, &Pohled::Ucitel("nikdo".to_string())), 0);
}

#[test]
fn novy_zak_jde_do_mensi_skupiny() {
    let mut p = vychozi();
    let a = p.rok.studenti.iter().filter(|s| s.trida == "prima" && s.skupina_aj == SkupinaAj::A).count();
    let b = p.rok.studenti.iter().filter(|s| s.trida == "prima" && s.skupina_aj == SkupinaAj::B).count();
    let id = p.rok.dalsi_id;
    assert!(sprava::pridej_zaka(&mut p.rok, "  Jana Nová ", "prima"));
    let s = p.rok.studenti.last().unwrap();
    assert_eq!(s.id, id);
    assert_eq!(s.jmeno, "Jana Nová");
    assert_eq!(s.pohlavi, Pohlavi::D);
    assert_eq!(s.status, StavStudenta::Aktivni);
    assert_eq!(s.skupina_aj, if a <= b { SkupinaAj::A } else { SkupinaAj::B });
    assert_eq!(p.rok.dalsi_id, id + 1);
    let a2 = p.rok.studenti.iter().filter(|s| s.trida == "prima" && s.skupina_aj == SkupinaAj::A).count();
    let b2 = p.rok.studenti.iter().filter(|s| s.trida == "prima" && s.skupina_aj == SkupinaAj::B).count();
    assert!(a2.abs_diff(b2) <= 1);
    let pred = p.rok.studenti.len();
    assert!(!sprava::pridej_zaka(&mut p.rok, "   ", "prima"));
    assert_eq!(p.rok.studenti.len(), pred);
}

#[test]
fn smazani_a_prehled_zaku() {
    let mut p = vychozi();
    let (n, d, a) = sprava::souhrn_zaku(&p.rok.studenti, "prima", true);
    let zaci: Vec<_> = p.rok.studenti.iter().filter(|s| s.trida == "prima" && s.v_rozvrhu()).collect();
    assert_eq!(n, zaci.len());
    assert_eq!(d, zaci.iter().filter(|s| s.pohlavi == Pohlavi::D).count());
    assert_eq!(a, zaci.iter().filter(|s| s.skupina_aj == SkupinaAj::A).count());
    let (vse, _, _) = sprava::souhrn_zaku(&p.rok.studenti, "", false);
    assert_eq!(vse, p.rok.studenti.len());
    let id = zaci[0].id;
    let pred = p.rok.studenti.len();
    sprava::smaz_zaka(&mut p.rok, id);
    assert_eq!(p.rok.studenti.len(), pred - 1);
    assert!(p.rok.studenti.iter().all(|s| s.id != id));
    sprava::smaz_zaka(&mut p.rok, u32::MAX);
    assert_eq!(p.rok.studenti.len(), pred - 1);
}

#[test]
fn souhrny_pruvodce() {
    let p = vychozi();
    let (aktivni, maturanti) = sprava::souhrn_roku(&p.skola, &p.rok);
    assert_eq!(aktivni, p.rok.studenti.iter().filter(|s| s.v_rozvrhu()).count());
    let ocekavano = p
        .rok
        .studenti
        .iter()
        .filter(|s| s.v_rozvrhu() && p.skola.trida(&s.trida).is_some_and(|t| t.naslednik.is_none()))
        .count();
    assert_eq!(maturanti, ocekavano);
    assert!(maturanti > 0);
    let mi = p.rok.menu.iter().position(|m| m.id == "sem-7").unwrap();
    let (clenu, chybi) = sprava::kompletnost_voleb(&p.rok, mi);
    let m = &p.rok.menu[mi];
    assert_eq!(clenu, p.rok.studenti.iter().filter(|s| m.tridy.contains(&s.trida)).count());
    assert!(chybi <= clenu);
    let z = zmeny::zmeny_pruvodce(&p.rok.studenti);
    assert_eq!(z.len(), p.rok.studenti.len());
    assert!(z.values().all(|x| *x == Zmena::Postupuje));
}

#[test]
fn hodiny_a_radek_planu() {
    let mut p = vychozi();
    let (plan, volitelne) = sprava::hodiny_tridy(&p.skola, &p.rok, "kvintaA");
    let ocekavano: u32 = p.skola.plan.iter().filter(|x| x.trida == "kvintaA").map(|x| x.hodin as u32).sum();
    assert_eq!(plan, ocekavano);
    let vol: u32 = p
        .rok
        .menu
        .iter()
        .filter(|m| m.tridy.iter().any(|t| t == "kvintaA"))
        .map(|m| m.hodin_tydne as u32 * m.pocet_voleb as u32)
        .sum();
    assert_eq!(volitelne, vol);
    assert_eq!(sprava::hodiny_tridy(&p.skola, &p.rok, "neni"), (0, 0));
    let pred = p.skola.plan.len();
    sprava::pridej_radek_planu(&mut p.skola, "prima");
    assert_eq!(p.skola.plan.len(), pred + 1);
    let r = p.skola.plan.last().unwrap();
    assert_eq!(r.trida, "prima");
    assert_eq!(r.hodin, 1);
    assert!(!r.dvoj);
    assert_eq!(r.predmet, p.skola.predmety[0].id);
}

#[test]
fn pridani_do_ciselniku() {
    let mut p = vychozi();
    assert_eq!(sprava::pridej_do_ciselniku(&mut p.skola, Ciselnik::Tridy, " nova "), Pridani::Pridano);
    let t = p.skola.tridy.last().unwrap();
    assert_eq!((t.id.as_str(), t.nazev.as_str(), t.kmenova.as_str(), t.rocnik), ("nova", "nova", "nova", 1));
    assert_eq!(sprava::pridej_do_ciselniku(&mut p.skola, Ciselnik::Tridy, "nova"), Pridani::Existuje);
    assert_eq!(sprava::pridej_do_ciselniku(&mut p.skola, Ciselnik::Tridy, "  "), Pridani::PrazdneId);
    assert_eq!(sprava::pridej_do_ciselniku(&mut p.skola, Ciselnik::Mistnosti, "M1"), Pridani::Pridano);
    assert_eq!(p.skola.mistnosti.last().unwrap().kapacita, 30);
    assert_eq!(sprava::pridej_do_ciselniku(&mut p.skola, Ciselnik::Ucitele, "NOV"), Pridani::Pridano);
    let u = p.skola.ucitele.last().unwrap();
    assert_eq!((u.jmeno.as_str(), u.max_den), ("(doplnit)", 7));
    assert_eq!(sprava::pridej_do_ciselniku(&mut p.skola, Ciselnik::Predmety, "ROB"), Pridani::Pridano);
    assert!(p.skola.predmety.last().unwrap().kmenova_ok);
    let u0 = p.skola.ucitele[0].id.clone();
    assert_eq!(sprava::pridej_do_ciselniku(&mut p.skola, Ciselnik::Ucitele, &u0), Pridani::Existuje);
}

#[test]
fn volno_ucitele_a_vyber_textu() {
    let mut p = vychozi();
    let u = &mut p.skola.ucitele[0];
    u.volno = vec![30, 5];
    sprava::prepni_volno(u, 12, true);
    assert_eq!(u.volno, vec![5, 12, 30]);
    sprava::prepni_volno(u, 5, false);
    assert_eq!(u.volno, vec![12, 30]);
    let mut v = vec!["a".to_string(), "b".to_string(), "a".to_string()];
    sprava::prepni_text(&mut v, "a", false);
    assert_eq!(v, vec!["b".to_string()]);
    sprava::prepni_text(&mut v, "c", true);
    assert_eq!(v, vec!["b".to_string(), "c".to_string()]);
}

#[test]
fn nastaveni_a_limity() {
    assert_eq!(sprava::jina_varianta(1), 56_412);
    assert_eq!(
        sprava::jina_varianta(u64::MAX),
        u64::MAX.wrapping_mul(6364136223846793005).wrapping_add(1442695040888963407) % 100_000
    );
    let mut p = vychozi();
    let t = &mut p.skola.tridy[0];
    sprava::prepis_limitu(t, true);
    assert!(t.omezeni_prepsat.is_some());
    sprava::prepis_limitu(t, false);
    assert!(t.omezeni_prepsat.is_none());
}

#[test]
fn menu_a_volby_v_editoru() {
    let mut p = vychozi();
    let n = p.rok.menu.len();
    let i = sprava::nove_menu(&mut p.rok);
    assert_eq!(i, n);
    assert_eq!(p.rok.menu[i].id, format!("menu-{}", n + 1));
    assert_eq!(p.rok.menu[i].nazev, format!("Nové menu {}", n + 1));
    sprava::pridej_volbu(&p.skola, &mut p.rok.menu[i]);
    assert_eq!(p.rok.menu[i].volby[0].id, "V1");
    p.rok.menu[i].volby[0].id = "V2".to_string();
    sprava::pridej_volbu(&p.skola, &mut p.rok.menu[i]);
    assert_eq!(p.rok.menu[i].volby[1].id, "V3");
    assert_eq!(p.rok.menu[i].volby[1].nazev, "Volba 3");
    assert_eq!(p.rok.menu[i].volby[1].ucitel, p.skola.ucitele[0].id);
}

#[test]
fn vyber_voleb_zaka() {
    let mut p = vychozi();
    let s = &mut p.rok.studenti[0];
    let vyber = vec!["X".to_string(), String::new(), "Y".to_string(), "X".to_string()];
    assert_eq!(sprava::nastav_volby(s, "m", &vyber), 2);
    assert_eq!(s.volby.get("m").unwrap(), &vec!["X".to_string(), "Y".to_string()]);
    assert_eq!(sprava::nastav_volby(s, "m", &vec![String::new()]), 0);
    assert!(!s.volby.contains_key("m"));
}

#[test]
fn dokonceni_roku_a_prerozdeleni() {
    let mut p = vychozi();
    p.piny.insert("k".to_string(), 3);
    let mut novy = p.rok.clone();
    novy.label = "2027/28".to_string();
    let stary = p.rok.label.clone();
    sprava::dokonci_rok(&mut p, novy);
    assert_eq!(p.rok.label, "2027/28");
    assert_eq!(p.historie.last().unwrap().label, stary);
    assert_eq!(p.piny.len(), 0);
    assert!(p.rozvrh.is_none());
    let mut zaci: Vec<NovyZak> = ["Jana Nová", "Petr Malý", "Eva Černá", "Adam Bílý"]
        .iter()
        .map(|j| NovyZak { jmeno: j.to_string(), pohlavi: rozvrhovnik::rok::odhad_pohlavi(j), skupina: SkupinaAj::A })
        .collect();
    sprava::prerozdel_1515(&mut zaci);
    let (n, d, a) = sprava::souhrn_novych(&zaci);
    assert_eq!((n, d, a), (4, 2, 2));
    assert_eq!(zaci.iter().filter(|z| z.pohlavi == Pohlavi::D && z.skupina == SkupinaAj::A).count(), 1);
}
