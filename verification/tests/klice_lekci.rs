//! Klíče lekcí z učebního plánu: `P|třída|předmět|skupina|pořadí`, pořadí běží přes řádky
//! se stejnou třídou a předmětem.

use rozvrhovnik::data::{
    Nastaveni, Pohlavi, PlanovaHodina, Skola, SkolniRok, SkupinaAj, StavStudenta, Struktura, Student, Trida, TypStudia,
};
use rozvrhovnik::mapa::Mapa;
use rozvrhovnik::solver;

fn skola_a_rok(plan: Vec<PlanovaHodina>) -> (Skola, SkolniRok) {
    let skola = Skola {
        tridy: vec![Trida {
            id: "T".into(),
            nazev: "T".into(),
            rocnik: 8,
            typ: TypStudia::Osmilete,
            kmenova: "RT".into(),
            naslednik: None,
            omezeni_prepsat: None,
        }],
        mistnosti: vec![],
        ucitele: vec![],
        predmety: vec![],
        plan,
        nastaveni: Nastaveni::default(),
    };
    let rok = SkolniRok {
        label: "test".into(),
        studenti: vec![Student {
            id: 1,
            jmeno: "Ž".into(),
            trida: "T".into(),
            skupina_aj: SkupinaAj::A,
            pohlavi: Pohlavi::D,
            volby: Mapa::new(),
            status: StavStudenta::Aktivni,
        }],
        menu: vec![],
        dalsi_id: 2,
    };
    (skola, rok)
}

fn radek(predmet: &str, hodin: u8, dvoj: bool) -> PlanovaHodina {
    PlanovaHodina { trida: "T".into(), predmet: predmet.into(), hodin, struktura: Struktura::CelouTridou("U".into()), dvoj }
}

#[test]
fn klice_lekci_radku_planu() {
    let (skola, rok) = skola_a_rok(vec![radek("M", 3, true)]);
    let vs = solver::postav_lekce(&skola, &rok);
    let delky: Vec<u8> = vs.lekce.iter().map(|l| l.len).collect();
    assert_eq!(delky, vec![2, 1]);
    let klice: Vec<&str> = vs.lekce.iter().map(|l| l.klic.as_str()).collect();
    assert_eq!(klice, vec!["P|T|M||0", "P|T|M||1"]);
    assert!(vs.lekce.iter().all(|l| l.klic_predmetu == "P|T|M|"));
    assert!(vs.lekce.iter().all(|l| l.zaci == vec![1] && l.ucitel == "U" && l.tyden == solver::Tyden::Oba));
    assert!(vs.varovani.is_empty(), "{:?}", vs.varovani);
}

#[test]
fn poradi_klice_pokracuje_dalsim_radkem_stejneho_predmetu() {
    let (skola, rok) = skola_a_rok(vec![radek("M", 2, false), radek("F", 1, false), radek("M", 1, false)]);
    let vs = solver::postav_lekce(&skola, &rok);
    let klice: Vec<&str> = vs.lekce.iter().map(|l| l.klic.as_str()).collect();
    assert_eq!(klice, vec!["P|T|M||0", "P|T|M||1", "P|T|F||0", "P|T|M||2"]);
}
