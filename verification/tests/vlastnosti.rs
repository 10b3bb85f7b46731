//! Vlastnosti knihovny na konkrétních hodnotách: doplňování voleb, rozdělení skupin,
//! ukázková data, úvazky, exporty a pomůcky editoru.

use rozvrhovnik::data::{vychozi, Pol, Projekt, Struktura};
use rozvrhovnik::export::{self, Pohled};
use rozvrhovnik::mapa::Mapa;
use rozvrhovnik::rok;
use rozvrhovnik::solver::{self, Vysledek};
use rozvrhovnik::upravy;
use rozvrhovnik::validation;
use std::sync::atomic::AtomicBool;

fn generuj(p: &Projekt, sekund: u32) -> Vysledek {
    let mut skola = p.skola.clone();
    skola.nastaveni.casovy_limit_s = sekund;
    solver::generuj(&skola, &p.rok, &p.piny, &AtomicBool::new(false), None)
}

#[test]
fn doplneni_dava_kazdemu_zapsanemu_jednu_platnou_volbu() {
    let mut p = vychozi();
    for s in p.rok.studenti.iter_mut() {
        s.volby.remove("vol-6");
    }
    let menu = p.rok.menu.iter().find(|m| m.id == "vol-6").unwrap().clone();
    let zapsani = p.rok.studenti.iter().filter(|s| s.v_rozvrhu() && menu.tridy.contains(&s.trida)).count();
    let n = rok::doplnit_volby(&mut p.rok, "vol-6", 11);
    assert_eq!(n, zapsani);
    for s in p.rok.studenti.iter().filter(|s| menu.tridy.contains(&s.trida)) {
        let v = s.volby.get("vol-6").unwrap();
        assert_eq!(v.len(), 1);
        assert!(menu.volby.iter().any(|x| x.id == v[0]));
    }
    let o = rok::obsazenost(&p.rok, &menu);
    for v in &menu.volby {
        if let Some(k) = v.kapacita {
            assert!(*o.get(&v.id).unwrap() <= k as usize);
        }
    }
}

#[test]
fn doplneni_neznameho_menu_nic_nemeni() {
    let mut p = vychozi();
    let pred = p.rok.studenti.len();
    assert_eq!(rok::doplnit_volby(&mut p.rok, "neni", 1), 0);
    assert_eq!(p.rok.studenti.len(), pred);
}

#[test]
fn doplneni_seminaru_po_blocich() {
    let mut p = vychozi();
    for s in p.rok.studenti.iter_mut() {
        s.volby.remove("sem-7");
    }
    let menu = p.rok.menu.iter().find(|m| m.id == "sem-7").unwrap().clone();
    rok::doplnit_volby(&mut p.rok, "sem-7", 5);
    let k = menu.pocet_voleb as usize;
    for s in p.rok.studenti.iter().filter(|s| menu.tridy.contains(&s.trida)) {
        let v = s.volby.get("sem-7").unwrap();
        assert_eq!(v.len(), k);
        // z každého bloku (volba i patří do bloku i mod k) právě jedna volba
        let mut bloky: Vec<usize> = v
            .iter()
            .map(|x| menu.volby.iter().position(|y| &y.id == x).unwrap() % k)
            .collect();
        bloky.sort_unstable();
        bloky.dedup();
        assert_eq!(bloky.len(), k);
    }
}

#[test]
fn rozdeleni_skupiny_cisluje_a_pojmenuje_novou_volbu() {
    let mut p = vychozi();
    let a = rok::rozdel_skupinu(&mut p.rok, "sem-8", "SFY", "TES").unwrap();
    assert_eq!(a, "SFY-2");
    let b = rok::rozdel_skupinu(&mut p.rok, "sem-8", "SFY", "NEŠ").unwrap();
    assert_eq!(b, "SFY-3");
    let menu = p.rok.menu.iter().find(|m| m.id == "sem-8").unwrap();
    let nova = menu.volby.iter().find(|v| v.id == "SFY-3").unwrap();
    assert_eq!(nova.ucitel, "NEŠ");
    assert_eq!(nova.predmet, "SFY");
    assert!(nova.nazev.ends_with(" (3)"));
    assert!(rok::rozdel_skupinu(&mut p.rok, "neni", "SFY", "TES").is_none());
    assert!(rok::rozdel_skupinu(&mut p.rok, "sem-8", "neni", "TES").is_none());
}

#[test]
fn rozdeleni_presune_druhou_abecedni_polovinu() {
    let mut p = vychozi();
    let menu = p.rok.menu.iter().find(|m| m.id == "sem-7").unwrap().clone();
    let mut clenove: Vec<(String, u32)> = p
        .rok
        .studenti
        .iter()
        .filter(|s| menu.tridy.contains(&s.trida) && s.volby.get("sem-7").is_some_and(|v| v.iter().any(|x| x == "SMA")))
        .map(|s| (s.jmeno.clone(), s.id))
        .collect();
    clenove.sort();
    let nova = rok::rozdel_skupinu(&mut p.rok, "sem-7", "SMA", "TES").unwrap();
    let h = clenove.len() / 2;
    for (k, (_, id)) in clenove.iter().enumerate() {
        let s = p.rok.studenti.iter().find(|s| s.id == *id).unwrap();
        let v = s.volby.get("sem-7").unwrap();
        assert_eq!(v.contains(&nova), k >= h);
        assert_eq!(v.iter().any(|x| x == "SMA"), k < h);
    }
}

#[test]
fn zastupni_zaci_maji_jmena_a_ida_po_rade() {
    let p = vychozi();
    assert_eq!(p.rok.studenti[0].jmeno, "Žákyně 01");
    assert_eq!(p.rok.studenti[1].jmeno, "Žák 02");
    assert_eq!(p.rok.studenti[0].trida, "prima");
    for (i, s) in p.rok.studenti.iter().enumerate() {
        assert_eq!(s.id, 1 + i as u32);
    }
    assert_eq!(p.rok.dalsi_id, 1 + p.rok.studenti.len() as u32);
    // prima (28) + sekunda (28): první žák sekundy
    assert_eq!(p.rok.studenti[28].trida, "sekunda");
    assert_eq!(p.rok.studenti[28].jmeno, "Žákyně 01");
}

#[test]
fn uvazky_jsou_serazene_od_nejvetsiho() {
    let p = vychozi();
    let z = solver::zateze(&p.skola, &p.rok);
    assert_eq!(z.len(), 42);
    for w in z.windows(2) {
        assert!(w[0].1 > w[1].1 || (w[0].1 == w[1].1 && w[0].0 < w[1].0));
    }
}

#[test]
fn escapovani_html() {
    assert_eq!(export::esc("a<b&\"c\">"), "a&lt;b&amp;&quot;c&quot;&gt;");
    assert_eq!(export::esc("bez"), "bez");
}

#[test]
fn nazvy_trid_kratce() {
    let p = vychozi();
    let t = vec!["kvartaA".to_string(), "1A".to_string(), "neni".to_string()];
    assert_eq!(export::tridy_kratce(&p.skola, &t), "kvarta A+první A+neni");
}

#[test]
fn exporty_maji_ocekavany_tvar() {
    let p = vychozi();
    let v = generuj(&p, 1);
    let c = export::csv(&p.skola, &v);
    assert!(c.starts_with("\u{FEFF}trida;den;slot;cas;predmet;ucitel;mistnost;skupina;pocet_zaku;tyden\r\n"));
    assert!(c.lines().nth(1).unwrap().starts_with("prima;Po;"));
    let x = export::xml(&p.skola, &v);
    assert!(x.starts_with("<?xml version=\"1.0\" encoding=\"UTF-8\"?>\n<rozvrh rok=\"2026/27\">\n  <trida id=\"prima\" nazev=\"prima\">\n    <den index=\"0\" nazev=\"Po\">\n"));
    assert!(x.ends_with("  </trida>\n</rozvrh>\n"));
    let h = export::html_tridy(&p.skola, &v);
    assert!(h.contains("<h2>Třída prima – rozvrh 2026/27</h2>"));
    assert_eq!(h.matches("<div class=\"strana\">").count(), 17);
    let hz = export::html_zaci(&p.skola, &p.rok, &v);
    assert_eq!(hz.matches("<div class=\"strana\">").count(), p.rok.studenti.len());
    assert!(hz.contains("<h2>Žákyně 01 – prima (AJa) – rozvrh 2026/27</h2>") || hz.contains("<h2>Žákyně 01 – prima (AJb) – rozvrh 2026/27</h2>"));
    let hu = export::html_ucitele(&p.skola, &v);
    assert!(hu.contains("<h2>SOJ – Sojková – rozvrh 2026/27</h2>"));
}

#[test]
fn bunka_je_serazena_a_uplna() {
    let p = vychozi();
    let v = generuj(&p, 1);
    let pohled = Pohled::Trida("prima".to_string());
    for d in 0..5 {
        for k in 0..12 {
            let b = export::lekce_v_bunce(&v, &pohled, d, k);
            let t = d * 12 + k;
            for i in 0..v.lekce.len() {
                let bezi = v.slot[i].is_some_and(|s| (s as usize..s as usize + v.lekce[i].len as usize).contains(&t));
                let tam = v.lekce[i].tridy.iter().any(|x| x == "prima");
                assert_eq!(b.contains(&i), bezi && tam);
            }
            for w in b.windows(2) {
                let (a, c) = (&v.lekce[w[0]], &v.lekce[w[1]]);
                let ka = (a.tyden as u8, &a.skupina, &a.predmet, w[0]);
                let kc = (c.tyden as u8, &c.skupina, &c.predmet, w[1]);
                assert!(ka < kc);
            }
        }
    }
}

#[test]
fn report_obsahuje_souhrn_a_uvazky() {
    let p = vychozi();
    let v = generuj(&p, 1);
    let k = validation::zkontroluj(&p.skola, &v);
    let z = vec![("SOJ".to_string(), 26u64), ("AB".to_string(), 63u64), ("XY".to_string(), 52u64)];
    let r = export::text_reportu(&p.skola, &v, &k, &z);
    assert!(r.starts_with("=== Rozvrh 2026/27 ===\nLekcí: "));
    assert!(r.contains("\n--- Statistiky tříd ---\n  třída         žáků     hodin   7:20   odpo   blok   okna\n"));
    assert!(r.ends_with("--- Úvazky učitelů (h/týden) ---\n  SOJ     13.0\n  AB      31.5 ‼\n  XY      26.0 !\n"));
}

#[test]
fn dalsi_popisek_roku() {
    assert_eq!(upravy::dalsi_label("2026/27"), "2027/28");
    assert_eq!(upravy::dalsi_label("2099/00"), "2100/01");
    assert_eq!(upravy::dalsi_label(" 2026 /27"), "2027/28");
    assert_eq!(upravy::dalsi_label("+7/x"), "8/09");
    assert_eq!(upravy::dalsi_label("rok"), "rok (nový)");
    assert_eq!(upravy::dalsi_label("x/2026"), "x/2026 (nový)");
}

#[test]
fn prevod_struktury() {
    let s = Struktura::Rozdeleno { a: "A".into(), b: "B".into() };
    assert_eq!(upravy::druh_struktury(&s), 1);
    let pol = |u: &str| Pol { predmet: "PC".into(), ucitel: u.into() };
    assert_eq!(
        upravy::preved_strukturu(&s, "PC", 7),
        Struktura::StridaveSkupiny { a: [pol("A"), pol("B")], b: [pol("B"), pol("A")] }
    );
    let c = Struktura::CelouTridou("U".into());
    assert_eq!(upravy::preved_strukturu(&c, "X", 2), Struktura::Pohlavi { div: "U".into(), chl: "U".into() });
    assert_eq!(upravy::preved_strukturu(&s, "X", 0), Struktura::CelouTridou("A".into()));
}

#[test]
fn ruzna_seminka_davaji_ruzne_rozvrhy() {
    let mut p = vychozi();
    let a = generuj(&p, 1);
    p.skola.nastaveni.seed = 2;
    let b = generuj(&p, 1);
    assert_eq!(a.lekce.len(), b.lekce.len());
    assert_ne!(a.slot, b.slot);
}

#[test]
fn pin_na_neznamou_lekci_se_jen_nahlasi() {
    let mut p = vychozi();
    let mut piny = Mapa::new();
    piny.insert("X|neni".to_string(), 3u8);
    p.piny = piny;
    let v = generuj(&p, 1);
    assert!(v.varovani.iter().any(|x| x.contains("X|neni")));
}

#[test]
fn volby_jedne_volby_sdili_jednotku_vice_voleb_ma_vlastni() {
    let p = vychozi();
    let vs = solver::postav_lekce(&p.skola, &p.rok);
    let mut overeno = 0;
    for m in &p.rok.menu {
        let idx: Vec<usize> = (0..vs.lekce.len())
            .filter(|&i| vs.lekce[i].menu.as_deref() == Some(m.id.as_str()))
            .collect();
        for &a in &idx {
            let xa = vs.lekce[a].klic.rsplit('|').next().unwrap().to_string();
            for i in 0..vs.lekce.len() {
                if i == a || vs.lekce[i].jednotka != vs.lekce[a].jednotka {
                    continue;
                }
                // Jednotku sdílí jen lekce téhož menu s jedinou volbou, a to se stejným pořadím.
                assert_eq!(m.pocet_voleb, 1, "{}", vs.lekce[a].klic);
                assert_eq!(vs.lekce[i].menu.as_deref(), Some(m.id.as_str()));
                assert_eq!(vs.lekce[i].klic.rsplit('|').next().unwrap(), xa);
            }
            if m.pocet_voleb == 1 {
                for &b in &idx {
                    let xb = vs.lekce[b].klic.rsplit('|').next().unwrap();
                    if xb == xa {
                        assert_eq!(vs.lekce[a].jednotka, vs.lekce[b].jednotka);
                        overeno += 1;
                    }
                }
            }
        }
    }
    assert!(overeno > 0);
}

#[test]
fn samostatna_lekce_dostane_mistnost() {
    let p = vychozi();
    let v = generuj(&p, 1);
    let hodiny = |i: usize| -> Vec<usize> {
        let l = &v.lekce[i];
        let tydny: Vec<usize> = match l.tyden {
            solver::Tyden::Oba => vec![0, 1],
            solver::Tyden::L => vec![0],
            solver::Tyden::S => vec![1],
        };
        match v.slot[i] {
            Some(s) => tydny
                .iter()
                .flat_map(|w| (0..l.len as usize).map(move |x| w * 60 + s as usize + x))
                .collect(),
            None => Vec::new(),
        }
    };
    let vsechny: Vec<Vec<usize>> = (0..v.lekce.len()).map(hodiny).collect();
    let mut samostatnych = 0;
    for i in 0..v.lekce.len() {
        if v.slot[i].is_none() || solver::povolene_mistnosti(&p.skola, &v.lekce[i]).is_empty() {
            continue;
        }
        let sama = (0..v.lekce.len()).all(|j| j == i || vsechny[j].iter().all(|t| !vsechny[i].contains(t)));
        if sama {
            samostatnych += 1;
            assert!(v.mistnost[i].is_some(), "lekce {}", v.lekce[i].klic);
        }
    }
    assert!(samostatnych <= v.lekce.len());
}

#[test]
fn vychozi_plan_jde_po_tridach_v_jejich_poradi() {
    let p = vychozi();
    let mut poradi: Vec<&str> = Vec::new();
    for r in &p.skola.plan {
        if poradi.last() != Some(&r.trida.as_str()) {
            poradi.push(r.trida.as_str());
        }
    }
    let tridy: Vec<&str> = p.skola.tridy.iter().map(|t| t.id.as_str()).collect();
    assert_eq!(poradi, tridy);
}

#[test]
fn pin_mimo_den_se_nahlasi() {
    let p = vychozi();
    let vs = solver::postav_lekce(&p.skola, &p.rok);
    let mut piny: Mapa<u8> = Mapa::new();
    piny.insert(vs.lekce[0].klic.clone(), 200);
    let mut varovani: Vec<String> = Vec::new();
    let m = rozvrhovnik::model::Model::postav(&p.skola, &vs, &piny, &mut varovani);
    let text = format!("Pin {} nelze aplikovat (slot mimo den).", vs.lekce[0].klic);
    assert!(varovani.contains(&text), "{:?}", varovani);
    assert_eq!(m.n_u, vs.jednotky.len());
}

#[test]
fn trida_bez_zaku_se_vynecha_s_varovanim() {
    let mut p = vychozi();
    let vstupni = p.skola.vstupni_tridy();
    let t = p.skola.tridy.iter().find(|t| !vstupni.contains(&t.id)).unwrap().clone();
    p.rok.studenti.retain(|s| s.trida != t.id);
    let vs = solver::postav_lekce(&p.skola, &p.rok);
    let text = format!("Třída {} nemá žádné žáky – vynechána z rozvrhu (dobíhající třída?).", t.nazev);
    assert!(vs.varovani.contains(&text), "{:?}", vs.varovani);
    assert!(vs.lekce.iter().all(|l| !l.tridy.contains(&t.id)));
}

#[test]
fn vychozi_menu_maji_ocekavana_id() {
    let p = vychozi();
    let mut ocekavana: Vec<String> = vec!["sek-volba".into(), "sem-7".into(), "sem-8".into()];
    for r in 3..=8 {
        ocekavana.push(format!("3j-{r}"));
    }
    for t in &p.skola.tridy {
        if t.typ == rozvrhovnik::data::TypStudia::Ctyrlete {
            ocekavana.push(format!("2j-{}", t.id));
        }
    }
    ocekavana.push("vol-5".into());
    ocekavana.push("vol-6".into());
    let mut skutecna: Vec<String> = p.rok.menu.iter().map(|m| m.id.clone()).collect();
    ocekavana.sort();
    skutecna.sort();
    assert_eq!(skutecna, ocekavana);
}
